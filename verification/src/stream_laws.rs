//! Laws of the commands on streams, entry by entry.

use vstd::prelude::*;
use crate::byte_laws::law_fixed_replies;
use crate::bytes::{bytes_of, is_word};
use crate::commands::{answer, xread_reaction, Clock, ReactionView, Wait};
use crate::database::{DatabaseView, EntryView, ValueView};
use crate::encode::{bulk_string, stream_entries, xread_response};
use crate::list_laws::time_under;
use crate::names::lemma_names;
use crate::number::{decimal, is_digit, is_digits, law_decimal_is_read_back, unsigned_upto};
use crate::reply::is_named;
use crate::stream::{
    id_bound, id_bytes, id_request, resolved_id, StreamEntryView, StreamId, StreamIdSpec, XaddError,
};
use crate::stream_id_laws::law_bound_of_one_number;
use crate::streams::{
    entries_after, entries_between, latest_id, paired, pairs, start_ids, streams_read,
    xread_reply, xread_request,
};

verus! {

/// What is under a key, read as a stream: nothing there is a stream without entries.
pub open spec fn stream_under(db: DatabaseView, key: Seq<u8>) -> Option<Seq<StreamEntryView>> {
    if !db.entries.contains_key(key) {
        Some(Seq::empty())
    } else {
        match db.entries[key].value {
            ValueView::Stream(entries) => Some(entries),
            _ => None,
        }
    }
}

/// Arguments make pairs of a field and its value, in their order.
pub proof fn law_fields_are_paired(arguments: Seq<Seq<u8>>, i: int)
    ensures
        pairs(arguments).len() == arguments.len() / 2,
        0 <= i < arguments.len() / 2 ==> pairs(arguments)[i].0 == arguments[2 * i]
            && pairs(arguments)[i].1 == arguments[2 * i + 1],
{
}

/// `XADD` puts one entry at the end of the stream under its key, which is made where nothing is
/// there, with the ID that its second argument asks for and the other arguments as fields and
/// values. It answers with the ID and wakes the clients that wait for entries. An ID that cannot
/// be had is refused, and nothing is added. Where there is no clock to make one from, the stream
/// stays as it is, and is made without entries where nothing is there.
pub proof fn law_xadd_adds_one_entry(
    db: DatabaseView,
    command: Seq<Seq<u8>>,
    clock: Clock,
    is_replica: bool,
    spec: StreamIdSpec,
)
    requires
        is_named(command, "XADD"),
        command.len() >= 5,
        command.len() % 2 == 1,
        id_request(command[2]) == Ok::<StreamIdSpec, Seq<char>>(spec),
        spec != StreamIdSpec::Explicit(StreamId { milliseconds: 0, sequence_number: 0 }),
    ensures
        ({
            let outcome = answer(db, command, clock, is_replica);
            let key = command[1];
            let live = db.expired(key, clock.now);
            match stream_under(live, key) {
                None => outcome == (
                    live,
                    ReactionView::Reply(
                        bytes_of(
                            "-WRONGTYPE Operation against a key holding the wrong kind of value\r\n",
                        ),
                    ),
                ),
                Some(entries) => {
                    let last = if entries.len() > 0 {
                        Some(entries[entries.len() - 1].id)
                    } else {
                        None
                    };
                    match resolved_id(spec, last, clock.unix_milliseconds) {
                        Ok(id) => {
                            let added = StreamEntryView { id, fields: pairs(command.skip(3)) };
                            &&& outcome.0.entries == live.entries.insert(
                                key,
                                EntryView {
                                    value: ValueView::Stream(entries.push(added)),
                                    expires_at: time_under(live, key),
                                },
                            )
                            &&& outcome.0.versions == live.versions.insert(
                                key,
                                live.version(key) + 1,
                            )
                            &&& outcome.0.propagated == db.propagated
                            &&& outcome.1 == (ReactionView::StreamExtended {
                                reply: bulk_string(id_bytes(id)),
                            })
                        },
                        Err(XaddError::ClockUnavailable) => {
                            &&& outcome.0.entries == live.entries.insert(
                                key,
                                EntryView {
                                    value: ValueView::Stream(entries),
                                    expires_at: time_under(live, key),
                                },
                            )
                            &&& outcome.0.versions == live.versions
                            &&& outcome.0.propagated == db.propagated
                            &&& outcome.1 == ReactionView::ClockUnavailable
                        },
                        Err(_) => outcome == (
                            live,
                            ReactionView::Reply(
                                bytes_of(
                                    "-ERR The ID specified in XADD is equal or smaller than the target stream top item\r\n",
                                ),
                            ),
                        ),
                    }
                },
            }
        }),
{
    lemma_names();
    law_fixed_replies();
}

/// `XADD` is refused, and changes nothing, where its arguments do not pair, where its ID is
/// malformed, and where its ID is the least of all.
pub proof fn law_malformed_xadd_is_refused(
    db: DatabaseView,
    command: Seq<Seq<u8>>,
    clock: Clock,
    is_replica: bool,
)
    requires
        is_named(command, "XADD"),
    ensures
        ({
            let outcome = answer(db, command, clock, is_replica);
            if command.len() < 5 || command.len() % 2 == 0 {
                outcome == (
                    db,
                    ReactionView::Reply(
                        bytes_of("-ERR wrong number of arguments for 'XADD' command\r\n"),
                    ),
                )
            } else if id_request(command[2]) is Err {
                outcome == (
                    db,
                    ReactionView::Reply(
                        bytes_of("-ERR Invalid stream ID specified as stream command argument\r\n"),
                    ),
                )
            } else {
                id_request(command[2]) == Ok::<StreamIdSpec, Seq<char>>(
                    StreamIdSpec::Explicit(StreamId { milliseconds: 0, sequence_number: 0 }),
                ) ==> outcome == (
                    db,
                    ReactionView::Reply(
                        bytes_of("-ERR The ID specified in XADD must be greater than 0-0\r\n"),
                    ),
                )
            }
        }),
{
    lemma_names();
}

/// A selection of entries keeps their order: one more entry of the stream stands behind those that
/// were selected before it, where its ID lies in the range, and is left out where it does not.
pub proof fn law_selection_keeps_the_order(
    entries: Seq<StreamEntryView>,
    entry: StreamEntryView,
    start: StreamId,
    end: StreamId,
)
    ensures
        entries_between(Seq::empty(), start, end) == Seq::<StreamEntryView>::empty(),
        entries_between(entries.push(entry), start, end) == (if (start == entry.id
            || start.before(entry.id)) && (entry.id == end || entry.id.before(end)) {
            entries_between(entries, start, end).push(entry)
        } else {
            entries_between(entries, start, end)
        }),
        entries_after(Seq::empty(), start) == Seq::<StreamEntryView>::empty(),
        entries_after(entries.push(entry), start) == (if start.before(entry.id) {
            entries_after(entries, start).push(entry)
        } else {
            entries_after(entries, start)
        }),
{
    reveal(Seq::filter);
    assert(entries.push(entry).drop_last() =~= entries);
}

/// `XRANGE` answers with the entries of the stream under its key from one ID to another. A dash
/// stands for the least ID and a plus sign for the greatest. A time alone stands for its first ID
/// as the one bound, and for its last ID as the other. It changes nothing but removes an expired
/// key.
pub proof fn law_xrange_answers(
    db: DatabaseView,
    command: Seq<Seq<u8>>,
    clock: Clock,
    is_replica: bool,
)
    requires
        is_named(command, "XRANGE"),
    ensures
        ({
            let outcome = answer(db, command, clock, is_replica);
            if command.len() == 4 {
                let start = if command[2] == seq![45u8] {
                    Some(StreamId { milliseconds: 0, sequence_number: 0 })
                } else {
                    id_bound(command[2], 0)
                };
                let end = if command[3] == seq![43u8] {
                    Some(
                        StreamId {
                            milliseconds: 0xffff_ffff_ffff_ffff,
                            sequence_number: 0xffff_ffff_ffff_ffff,
                        },
                    )
                } else {
                    id_bound(command[3], 0xffff_ffff_ffff_ffff)
                };
                match (start, end) {
                    (Some(start), Some(end)) => {
                        let live = db.expired(command[1], clock.now);
                        &&& outcome.0 == live
                        &&& outcome.1 == ReactionView::Reply(
                            match stream_under(live, command[1]) {
                                Some(entries) => stream_entries(
                                    entries_between(entries, start, end),
                                ),
                                None => bytes_of(
                                    "-WRONGTYPE Operation against a key holding the wrong kind of value\r\n",
                                ),
                            },
                        )
                    },
                    _ => outcome == (
                        db,
                        ReactionView::Reply(
                            bytes_of(
                                "-ERR Invalid stream ID specified as stream command argument\r\n",
                            ),
                        ),
                    ),
                }
            } else {
                outcome == (
                    db,
                    ReactionView::Reply(
                        bytes_of("-ERR wrong number of arguments for 'XRANGE' command\r\n"),
                    ),
                )
            }
        }),
{
    lemma_names();
    law_fixed_replies();
    reveal_strlit("-");
    reveal_strlit("+");
    assert(vstd::string::is_ascii("-"));
    assert(vstd::string::is_ascii("+"));
    assert(bytes_of("-") =~= seq![45u8]);
    assert(bytes_of("+") =~= seq![43u8]);
}

/// The start that a read of streams takes from a time alone is the first ID of that time, so that
/// it gives every entry after it. From an ID it takes this ID. From a dollar sign it takes the last
/// ID of the stream as it is then, and the least ID of all where there is none. Anything else is
/// rejected.
pub proof fn law_each_start_is_found(
    db: DatabaseView,
    keys: Seq<Seq<u8>>,
    arguments: Seq<Seq<u8>>,
    count: nat,
    now: u64,
)
    ensures
        start_ids(db, keys, arguments, 0, now) == (db, Some(Seq::<StreamId>::empty())),
        ({
            let earlier = start_ids(db, keys, arguments, count, now);
            let longer = start_ids(db, keys, arguments, count + 1, now);
            let key = keys[count as int];
            let argument = arguments[count as int];
            match earlier.1 {
                None => longer == earlier,
                Some(starts) => if argument == seq![36u8] {
                    let live = earlier.0.expired(key, now);
                    let last = match stream_under(live, key) {
                        Some(entries) if entries.len() > 0 => entries[entries.len() - 1].id,
                        _ => StreamId { milliseconds: 0, sequence_number: 0 },
                    };
                    longer == (live, Some(starts.push(last)))
                } else {
                    longer == (
                        earlier.0,
                        match id_bound(argument, 0) {
                            Some(id) => Some(starts.push(id)),
                            None => None,
                        },
                    )
                },
            }
        }),
        forall|milliseconds: u64|
            arguments[count as int] == #[trigger] decimal(milliseconds as nat) && (start_ids(
                db,
                keys,
                arguments,
                count,
                now,
            ).1 matches Some(starts)) ==> start_ids(db, keys, arguments, count + 1, now).1
                == Some(
                start_ids(db, keys, arguments, count, now).1->0.push(
                    StreamId { milliseconds, sequence_number: 0 },
                ),
            ),
{
    reveal_strlit("$");
    assert(vstd::string::is_ascii("$"));
    assert(bytes_of("$") =~= seq![36u8]);
    assert forall|milliseconds: u64|
        arguments[count as int] == #[trigger] decimal(milliseconds as nat) && (start_ids(
            db,
            keys,
            arguments,
            count,
            now,
        ).1 matches Some(starts)) implies start_ids(db, keys, arguments, count + 1, now).1 == Some(
        start_ids(db, keys, arguments, count, now).1->0.push(
            StreamId { milliseconds, sequence_number: 0 },
        ),
    ) by {
        lemma_bare_time(milliseconds);
        assert(is_digit(decimal(milliseconds as nat)[0]));
    }
}

proof fn lemma_bare_time(milliseconds: u64)
    ensures
        is_digits(decimal(milliseconds as nat)),
        id_bound(decimal(milliseconds as nat), 0) == Some(
            StreamId { milliseconds, sequence_number: 0 },
        ),
{
    let text = decimal(milliseconds as nat);
    law_decimal_is_read_back(milliseconds as nat);
    assert forall|i: int| 0 <= i < text.len() implies #[trigger] text[i] != 45 by {
        assert(is_digit(text[i]));
    }
    law_bound_of_one_number(text, 0);
}

/// A read of several streams reads one after the other: the next key, once it is removed if it has
/// expired, gives its entries after its start, if there are any. A key that holds something other
/// than a stream ends it.
pub proof fn law_each_stream_is_read(
    db: DatabaseView,
    keys: Seq<Seq<u8>>,
    starts: Seq<StreamId>,
    count: nat,
    now: u64,
)
    ensures
        streams_read(db, keys, starts, 0, now) == (
            db,
            Some(Seq::<(Seq<u8>, Seq<StreamEntryView>)>::empty()),
        ),
        ({
            let earlier = streams_read(db, keys, starts, count, now);
            let longer = streams_read(db, keys, starts, count + 1, now);
            let key = keys[count as int];
            match earlier.1 {
                None => longer == earlier,
                Some(streams) => {
                    let live = earlier.0.expired(key, now);
                    &&& longer.0 == live
                    &&& longer.1 == match stream_under(live, key) {
                        None => None,
                        Some(entries) => {
                            let selected = entries_after(entries, starts[count as int]);
                            if selected.len() == 0 {
                                Some(streams)
                            } else {
                                Some(streams.push((key, selected)))
                            }
                        },
                    }
                },
            }
        }),
        paired(count, count) == count,
        paired(count, count + 1) == count,
        paired(count + 1, count) == count,
        forall|a: nat, b: nat| #[trigger] paired(a, b) <= a && paired(a, b) <= b && (paired(a, b)
            == a || paired(a, b) == b),
{
}

/// The last ID of a stream is that of its last entry. Where there is none it is the least of all.
pub proof fn law_latest_id_is_the_last(db: DatabaseView, key: Seq<u8>)
    ensures
        latest_id(db, key) == match stream_under(db, key) {
            Some(entries) if entries.len() > 0 => entries[entries.len() - 1].id,
            _ => StreamId { milliseconds: 0, sequence_number: 0 },
        },
{
}

/// A read is answered with the streams that gave entries, with nothing where none did, and with an
/// error where a key holds something other than a stream.
pub proof fn law_read_is_answered(streams: Seq<(Seq<u8>, Seq<StreamEntryView>)>)
    ensures
        xread_reply(None) == bytes_of(
            "-WRONGTYPE Operation against a key holding the wrong kind of value\r\n",
        ),
        xread_reply(Some(streams)) == (if streams.len() == 0 {
            seq![42u8, 45u8, 49u8, 13u8, 10u8]
        } else {
            xread_response(streams)
        }),
{
    law_fixed_replies();
}

/// `XREAD` takes what stands behind `STREAMS` as keys and then as many starts. Before that it may
/// be told to wait, for a number of milliseconds or, where this is zero, without limit. Anything
/// else is refused.
pub proof fn law_xread_asks_for_a_read(
    db: DatabaseView,
    command: Seq<Seq<u8>>,
    clock: Clock,
    is_replica: bool,
)
    requires
        is_named(command, "XREAD"),
    ensures
        ({
            let outcome = answer(db, command, clock, is_replica);
            let blocks = command.len() >= 2 && is_word(command[1], "BLOCK");
            let milliseconds = unsigned_upto(command[2], 0xffff_ffff_ffff_ffff);
            let first: int = if blocks {
                4
            } else {
                2
            };
            let half = (command.len() - first) / 2;
            if blocks && command.len() >= 4 && milliseconds is None {
                outcome == (
                    db,
                    ReactionView::Reply(
                        bytes_of("-ERR timeout is not an integer or out of range\r\n"),
                    ),
                )
            } else if command.len() >= first + 2 && command.len() % 2 == 0 && is_word(
                command[first - 1],
                "STREAMS",
            ) {
                let keys = Seq::new(half as nat, |i: int| command[first + i]);
                let arguments = Seq::new(half as nat, |i: int| command[first + half + i]);
                let found = start_ids(db, keys, arguments, half as nat, clock.now);
                &&& outcome.0 == found.0
                &&& match found.1 {
                    None => outcome.1 == ReactionView::Reply(
                        bytes_of("-ERR Invalid stream ID specified as stream comman argument\r\n"),
                    ),
                    Some(starts) => {
                        let wait = if !blocks {
                            Wait::No
                        } else if milliseconds == Some(0nat) {
                            Wait::Forever
                        } else {
                            Wait::Milliseconds(milliseconds->0 as u64)
                        };
                        outcome.1 == (ReactionView::ReadStreams { keys, starts, wait })
                    },
                }
            } else {
                outcome == (db, ReactionView::Reply(bytes_of("-ERR syntax error\r\n")))
            }
        }),
{
    lemma_xread_is_dispatched(db, command, clock, is_replica);
    lemma_xread_request(command);
    let blocks = command.len() >= 2 && is_word(command[1], "BLOCK");
    let first: int = if blocks {
        4
    } else {
        2
    };
    let half = (command.len() - first) / 2;
    if command.len() >= first + 2 && command.len() % 2 == 0 {
        assert(command.subrange(first, first + half) =~= Seq::new(
            half as nat,
            |i: int| command[first + i],
        ));
        assert(command.skip(first + half) =~= Seq::new(
            half as nat,
            |i: int| command[first + half + i],
        ));
    }
}

proof fn lemma_xread_is_dispatched(
    db: DatabaseView,
    command: Seq<Seq<u8>>,
    clock: Clock,
    is_replica: bool,
)
    requires
        is_named(command, "XREAD"),
    ensures
        answer(db, command, clock, is_replica) == xread_reaction(db, command, clock.now),
{
    lemma_names();
}

proof fn lemma_xread_request(command: Seq<Seq<u8>>)
    ensures
        ({
            let blocks = command.len() >= 2 && is_word(command[1], "BLOCK");
            let milliseconds = unsigned_upto(command[2], 0xffff_ffff_ffff_ffff);
            let first: int = if blocks {
                4
            } else {
                2
            };
            xread_request(command) == (if blocks && command.len() >= 4 && milliseconds is None {
                Err::<(Option<u64>, int), Seq<u8>>(
                    bytes_of("-ERR timeout is not an integer or out of range\r\n"),
                )
            } else if command.len() >= first + 2 && command.len() % 2 == 0 && is_word(
                command[first - 1],
                "STREAMS",
            ) {
                Ok(
                    (
                        if blocks {
                            Some(milliseconds->0 as u64)
                        } else {
                            None
                        },
                        first,
                    ),
                )
            } else {
                Err(bytes_of("-ERR syntax error\r\n"))
            })
        }),
{
    lemma_block_is_not_streams();
}

proof fn lemma_block_is_not_streams()
    ensures
        forall|word: Seq<u8>| #[trigger] is_word(word, "BLOCK") ==> !is_word(word, "STREAMS"),
{
    reveal_strlit("BLOCK");
    reveal_strlit("STREAMS");
    assert(vstd::string::is_ascii("BLOCK"));
    assert(vstd::string::is_ascii("STREAMS"));
    assert(bytes_of("BLOCK").len() == 5);
    assert(bytes_of("STREAMS").len() == 7);
}

} // verus!
