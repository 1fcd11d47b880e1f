//! Commands on streams.

use vstd::prelude::*;
use crate::bytes::{
    bytes_of, contents, copy_bytes, is_keyword, is_text, is_word, to_bytes,
};
use crate::database::{DatabaseState, DatabaseView, Entry, EntryView, RedisValue, ValueView};
use crate::encode::{
    stream_entries, write_stream_entries, write_xread_response, xread_response,
};
use crate::error::Error;
use crate::number::{parse_milliseconds, unsigned_upto};
use crate::reply::{null_array, null_array_reply, wrong_type, wrong_type_reply};
use crate::stream::{
    entry_contents, id_bound, id_request, pair_contents, parse_stream_id_spec, parse_xrange_bound,
    read_contents, resolve_stream_id, resolved_id, StreamEntry, StreamEntryView, StreamId,
    StreamIdSpec, StreamReadResult, XaddError,
};

verus! {

/// The entries of the stream under a key, of which there are none where nothing is stored; none
/// at all where something else is.
pub open spec fn stream_at(db: DatabaseView, key: Seq<u8>) -> Option<Seq<StreamEntryView>> {
    match db.value(key) {
        None => Some(Seq::empty()),
        Some(ValueView::Stream(entries)) => Some(entries),
        Some(_) => None,
    }
}

/// The database with a stream under a key, which expires as what was there before.
pub open spec fn with_stream(
    db: DatabaseView,
    key: Seq<u8>,
    entries: Seq<StreamEntryView>,
) -> DatabaseView {
    db.stored(
        key,
        EntryView {
            value: ValueView::Stream(entries),
            expires_at: if db.entries.contains_key(key) {
                db.entries[key].expires_at
            } else {
                None
            },
        },
    )
}

/// The ID of the last entry of a stream.
pub open spec fn last_id(entries: Seq<StreamEntryView>) -> Option<StreamId> {
    if entries.len() > 0 {
        Some(entries.last().id)
    } else {
        None
    }
}

/// Arguments taken two by two.
pub open spec fn pairs(arguments: Seq<Seq<u8>>) -> Seq<(Seq<u8>, Seq<u8>)> {
    Seq::new(arguments.len() / 2, |i: int| (arguments[2 * i], arguments[2 * i + 1]))
}

/// The ID that an `XADD` command asks for, or the reply that rejects the command.
pub open spec fn xadd_request(command: Seq<Seq<u8>>) -> Result<StreamIdSpec, Seq<u8>> {
    if command.len() < 5 || (command.len() - 3) % 2 != 0 {
        Err(bytes_of("-ERR wrong number of arguments for 'XADD' command\r\n"))
    } else {
        match id_request(command[2]) {
            Err(_) => Err(
                bytes_of("-ERR Invalid stream ID specified as stream command argument\r\n"),
            ),
            Ok(StreamIdSpec::Explicit(id)) if id == StreamId::zero() => Err(
                bytes_of("-ERR The ID specified in XADD must be greater than 0-0\r\n"),
            ),
            Ok(spec) => Ok(spec),
        }
    }
}

/// What became of an `XADD` command.
pub enum Added<T> {
    /// An entry with this ID was added.
    Done(StreamId),
    /// Nothing was added, and this is the reply.
    Refused(T),
    /// The wall clock shows no usable time to make an ID from.
    ClockUnavailable,
}

/// The database after an `XADD` command, and what became of the command.
pub open spec fn xadd_outcome(
    db: DatabaseView,
    command: Seq<Seq<u8>>,
    now: u64,
    unix_milliseconds: Option<u64>,
) -> (DatabaseView, Added<Seq<u8>>) {
    match xadd_request(command) {
        Err(reply) => (db, Added::Refused(reply)),
        Ok(spec) => {
            let key = command[1];
            let live = db.expired(key, now);
            match stream_at(live, key) {
                None => (live, Added::Refused(wrong_type())),
                Some(entries) => match resolved_id(spec, last_id(entries), unix_milliseconds) {
                    Ok(id) => (
                        with_stream(
                            live,
                            key,
                            entries.push(StreamEntryView { id, fields: pairs(command.skip(3)) }),
                        ).modified(key),
                        Added::Done(id),
                    ),
                    Err(XaddError::ClockUnavailable) => (
                        with_stream(live, key, entries),
                        Added::ClockUnavailable,
                    ),
                    Err(_) => (
                        live,
                        Added::Refused(
                            bytes_of(
                                "-ERR The ID specified in XADD is equal or smaller than the target stream top item\r\n",
                            ),
                        ),
                    ),
                },
            }
        },
    }
}

/// The first and the last ID that an `XRANGE` command selects.
pub open spec fn xrange_bounds(command: Seq<Seq<u8>>) -> Option<(StreamId, StreamId)> {
    let start = if command[2] == bytes_of("-") {
        Some(StreamId::zero())
    } else {
        id_bound(command[2], 0)
    };
    let end = if command[3] == bytes_of("+") {
        Some(StreamId::max())
    } else {
        id_bound(command[3], u64::MAX)
    };
    match (start, end) {
        (Some(start), Some(end)) => Some((start, end)),
        _ => None,
    }
}

/// The entries with an ID from `start` to `end`.
pub open spec fn entries_between(
    entries: Seq<StreamEntryView>,
    start: StreamId,
    end: StreamId,
) -> Seq<StreamEntryView> {
    entries.filter(|entry: StreamEntryView| !entry.id.before(start) && !end.before(entry.id))
}

/// The entries with an ID after `start`.
pub open spec fn entries_after(entries: Seq<StreamEntryView>, start: StreamId) -> Seq<
    StreamEntryView,
> {
    entries.filter(|entry: StreamEntryView| start.before(entry.id))
}

/// The database after an `XRANGE` command, and the reply.
pub open spec fn xrange_outcome(db: DatabaseView, command: Seq<Seq<u8>>, now: u64) -> (
    DatabaseView,
    Seq<u8>,
) {
    if command.len() != 4 {
        (db, bytes_of("-ERR wrong number of arguments for 'XRANGE' command\r\n"))
    } else {
        match xrange_bounds(command) {
            None => (
                db,
                bytes_of("-ERR Invalid stream ID specified as stream command argument\r\n"),
            ),
            Some((start, end)) => {
                let live = db.expired(command[1], now);
                (
                    live,
                    match stream_at(live, command[1]) {
                        Some(entries) => stream_entries(entries_between(entries, start, end)),
                        None => wrong_type(),
                    },
                )
            },
        }
    }
}

/// How long an `XREAD` command blocks, in milliseconds, and the index of its first key; or the
/// reply that rejects the command.
pub open spec fn xread_request(command: Seq<Seq<u8>>) -> Result<(Option<u64>, int), Seq<u8>> {
    let syntax_error = Err::<(Option<u64>, int), Seq<u8>>(bytes_of("-ERR syntax error\r\n"));
    let request = if command.len() >= 2 && is_word(command[1], "BLOCK") {
        if command.len() < 4 {
            syntax_error
        } else {
            match unsigned_upto(command[2], u64::MAX as nat) {
                None => Err(bytes_of("-ERR timeout is not an integer or out of range\r\n")),
                Some(milliseconds) => if is_word(command[3], "STREAMS") {
                    Ok((Some(milliseconds as u64), 4))
                } else {
                    syntax_error
                },
            }
        }
    } else if command.len() >= 2 && is_word(command[1], "STREAMS") {
        Ok((None, 2))
    } else {
        syntax_error
    };
    match request {
        Ok((_, first)) if command.len() - first < 2 || (command.len() - first) % 2 != 0 =>
            syntax_error,
        _ => request,
    }
}

/// The ID of the last entry of the stream under a key, or the least ID where there is none.
pub open spec fn latest_id(db: DatabaseView, key: Seq<u8>) -> StreamId {
    match db.value(key) {
        Some(ValueView::Stream(entries)) if entries.len() > 0 => entries.last().id,
        _ => StreamId::zero(),
    }
}

/// The database after the first `count` start IDs of a read were found, and the IDs, if each of
/// the arguments denotes one. A dollar sign stands for the last ID of the stream.
pub open spec fn start_ids(
    db: DatabaseView,
    keys: Seq<Seq<u8>>,
    arguments: Seq<Seq<u8>>,
    count: nat,
    now: u64,
) -> (DatabaseView, Option<Seq<StreamId>>)
    decreases count,
{
    if count == 0 {
        (db, Some(Seq::empty()))
    } else {
        let earlier = start_ids(db, keys, arguments, (count - 1) as nat, now);
        match earlier.1 {
            None => earlier,
            Some(starts) => if arguments[count - 1] == bytes_of("$") {
                let live = earlier.0.expired(keys[count - 1], now);
                (live, Some(starts.push(latest_id(live, keys[count - 1]))))
            } else {
                match id_bound(arguments[count - 1], 0) {
                    Some(id) => (earlier.0, Some(starts.push(id))),
                    None => (earlier.0, None),
                }
            },
        }
    }
}

/// The database after the first `count` streams were read, and the entries of each after its
/// start ID, without the streams that have none; no entries at all where a key holds no stream.
pub open spec fn streams_read(
    db: DatabaseView,
    keys: Seq<Seq<u8>>,
    starts: Seq<StreamId>,
    count: nat,
    now: u64,
) -> (DatabaseView, Option<Seq<(Seq<u8>, Seq<StreamEntryView>)>>)
    decreases count,
{
    if count == 0 {
        (db, Some(Seq::empty()))
    } else {
        let earlier = streams_read(db, keys, starts, (count - 1) as nat, now);
        match earlier.1 {
            None => earlier,
            Some(streams) => {
                let key = keys[count - 1];
                let live = earlier.0.expired(key, now);
                match stream_at(live, key) {
                    None => (live, None),
                    Some(entries) => {
                        let selected = entries_after(entries, starts[count - 1]);
                        (
                            live,
                            Some(
                                if selected.len() > 0 {
                                    streams.push((key, selected))
                                } else {
                                    streams
                                },
                            ),
                        )
                    },
                }
            },
        }
    }
}

/// The number of pairs that two lists make.
pub open spec fn paired(a: nat, b: nat) -> nat {
    if a < b {
        a
    } else {
        b
    }
}

/// The reply to a read of streams.
pub open spec fn xread_reply(streams: Option<Seq<(Seq<u8>, Seq<StreamEntryView>)>>) -> Seq<u8> {
    match streams {
        None => wrong_type(),
        Some(streams) => if streams.len() > 0 {
            xread_response(streams)
        } else {
            null_array()
        },
    }
}

proof fn lemma_filter_step<A>(items: Seq<A>, i: int, keep: spec_fn(A) -> bool)
    requires
        0 <= i < items.len(),
    ensures
        items.take(i + 1).filter(keep) == (if keep(items[i]) {
            items.take(i).filter(keep).push(items[i])
        } else {
            items.take(i).filter(keep)
        }),
{
    reveal(Seq::filter);
    assert(items.take(i + 1).drop_last() =~= items.take(i));
}

/// A copy of a stream entry.
fn copy_entry(entry: &StreamEntry) -> (result: StreamEntry)
    ensures
        result@ == entry@,
{
    let mut fields: Vec<(Vec<u8>, Vec<u8>)> = Vec::new();
    for i in 0..entry.fields.len()
        invariant
            fields@.len() == i,
            forall|j: int|
                0 <= j < i ==> (#[trigger] fields@[j]).0@ == entry.fields@[j].0@ && fields@[j].1@
                    == entry.fields@[j].1@,
    {
        fields.push(
            (copy_bytes(entry.fields[i].0.as_slice()), copy_bytes(entry.fields[i].1.as_slice())),
        );
    }
    assert(pair_contents(fields@) =~= pair_contents(entry.fields@));
    StreamEntry { id: entry.id, fields }
}

fn select_between(entries: &[StreamEntry], start: StreamId, end: StreamId) -> (result: Vec<
    StreamEntry,
>)
    ensures
        entry_contents(result@) == entries_between(entry_contents(entries@), start, end),
{
    let mut result: Vec<StreamEntry> = Vec::new();
    let ghost all = entry_contents(entries@);
    let ghost keep = |entry: StreamEntryView| !entry.id.before(start) && !end.before(entry.id);
    proof {
        reveal(Seq::filter);
        assert(entry_contents(result@) =~= all.take(0).filter(keep));
    }
    for i in 0..entries.len()
        invariant
            all == entry_contents(entries@),
            keep == (|entry: StreamEntryView| !entry.id.before(start) && !end.before(entry.id)),
            entry_contents(result@) == all.take(i as int).filter(keep),
    {
        let entry = &entries[i];
        proof {
            lemma_filter_step(all, i as int, keep);
        }
        if !entry.id.precedes(&start) && !end.precedes(&entry.id) {
            let ghost before = entry_contents(result@);
            result.push(copy_entry(entry));
            assert(entry_contents(result@) =~= before.push(entry@));
        }
    }
    assert(all.take(all.len() as int) =~= all);
    result
}

fn select_after(entries: &[StreamEntry], start: StreamId) -> (result: Vec<StreamEntry>)
    ensures
        entry_contents(result@) == entries_after(entry_contents(entries@), start),
{
    let mut result: Vec<StreamEntry> = Vec::new();
    let ghost all = entry_contents(entries@);
    let ghost keep = |entry: StreamEntryView| start.before(entry.id);
    proof {
        reveal(Seq::filter);
        assert(entry_contents(result@) =~= all.take(0).filter(keep));
    }
    for i in 0..entries.len()
        invariant
            all == entry_contents(entries@),
            keep == (|entry: StreamEntryView| start.before(entry.id)),
            entry_contents(result@) == all.take(i as int).filter(keep),
    {
        let entry = &entries[i];
        proof {
            lemma_filter_step(all, i as int, keep);
        }
        if start.precedes(&entry.id) {
            let ghost before = entry_contents(result@);
            result.push(copy_entry(entry));
            assert(entry_contents(result@) =~= before.push(entry@));
        }
    }
    assert(all.take(all.len() as int) =~= all);
    result
}

/// Reads the ID that an `XADD` command asks for.
fn read_xadd_request(command: &[Vec<u8>]) -> (result: Result<StreamIdSpec, Vec<u8>>)
    ensures
        match (result, xadd_request(contents(command@))) {
            (Ok(spec), Ok(expected)) => spec == expected,
            (Err(reply), Err(expected)) => reply@ == expected,
            _ => false,
        },
        result is Ok ==> command@.len() >= 5 && (command@.len() - 3) % 2 == 0,
{
    if command.len() < 5 || (command.len() - 3) % 2 != 0 {
        return Err(to_bytes("-ERR wrong number of arguments for 'XADD' command\r\n"));
    }
    match parse_stream_id_spec(command[2].as_slice()) {
        Err(_) => Err(
            to_bytes("-ERR Invalid stream ID specified as stream command argument\r\n"),
        ),
        Ok(spec) => {
            if let StreamIdSpec::Explicit(id) = spec {
                if id == StreamId::zero() {
                    return Err(
                        to_bytes("-ERR The ID specified in XADD must be greater than 0-0\r\n"),
                    );
                }
            }
            Ok(spec)
        },
    }
}

/// The fields and values that an `XADD` command gives.
fn read_fields(command: &[Vec<u8>]) -> (fields: Vec<(Vec<u8>, Vec<u8>)>)
    requires
        command@.len() >= 3,
        (command@.len() - 3) % 2 == 0,
    ensures
        pair_contents(fields@) == pairs(contents(command@).skip(3)),
{
    let mut fields: Vec<(Vec<u8>, Vec<u8>)> = Vec::new();
    let total = command.len();
    let count = (total - 3) / 2;
    for i in 0..count
        invariant
            total == command@.len(),
            2 * count + 3 == total,
            fields@.len() == i,
            forall|j: int|
                0 <= j < i ==> (#[trigger] fields@[j]).0@ == command@[3 + 2 * j]@ && fields@[j].1@
                    == command@[4 + 2 * j]@,
    {
        fields.push(
            (
                copy_bytes(command[3 + 2 * i].as_slice()),
                copy_bytes(command[4 + 2 * i].as_slice()),
            ),
        );
    }
    assert(pair_contents(fields@) =~= pairs(contents(command@).skip(3)));
    fields
}

/// Adds an entry to the stream under a key, and makes the stream where there is none.
pub fn execute_xadd(
    db: &mut DatabaseState,
    command: &[Vec<u8>],
    now: u64,
    unix_milliseconds: Option<u64>,
) -> (result: Added<Vec<u8>>)
    requires
        old(db).wf(),
    ensures
        final(db).wf(),
        final(db)@ == xadd_outcome(old(db)@, contents(command@), now, unix_milliseconds).0,
        match (
            result,
            xadd_outcome(old(db)@, contents(command@), now, unix_milliseconds).1,
        ) {
            (Added::Done(id), Added::Done(expected)) => id == expected,
            (Added::Refused(reply), Added::Refused(expected)) => reply@ == expected,
            (Added::ClockUnavailable, Added::ClockUnavailable) => true,
            _ => false,
        },
{
    let spec = match read_xadd_request(command) {
        Ok(spec) => spec,
        Err(reply) => {
            return Added::Refused(reply);
        },
    };
    let fields = read_fields(command);
    let key = command[1].as_slice();
    db.remove_if_expired(key, now);
    if db.get(key).is_none() {
        db.store(
            copy_bytes(key),
            Entry { value: RedisValue::Stream(Vec::new()), expires_at: None },
        );
        assert(db@.entries[key@].value->Stream_0 =~= Seq::<StreamEntryView>::empty());
    }
    let ghost before = db@;
    let result = match db.get_mut(key) {
        Some(entry) => match &mut entry.value {
            RedisValue::Stream(entries) => {
                let ghost all = entry_contents(entries@);
                let last = match entries.last() {
                    Some(entry) => Some(entry.id),
                    None => None,
                };
                assert(last == last_id(all));
                match resolve_stream_id(spec, last.as_ref(), unix_milliseconds) {
                    Ok(id) => {
                        let new_entry = StreamEntry { id, fields };
                        let ghost added = new_entry@;
                        entries.push(new_entry);
                        assert(entry_contents(entries@) =~= all.push(added));
                        Ok(id)
                    },
                    Err(error) => Err(error),
                }
            },
            _ => Err(XaddError::WrongType),
        },
        None => Err(XaddError::WrongType),
    };
    match result {
        Ok(id) => {
            db.mark_modified(key);
            assert(db@ =~= xadd_outcome(
                old(db)@,
                contents(command@),
                now,
                unix_milliseconds,
            ).0);
            Added::Done(id)
        },
        Err(error) => {
            assert(db@ =~= before);
            match error {
                XaddError::WrongType => Added::Refused(wrong_type_reply()),
                XaddError::IdNotGreater => Added::Refused(
                    to_bytes(
                        "-ERR The ID specified in XADD is equal or smaller than the target stream top item\r\n",
                    ),
                ),
                XaddError::ClockUnavailable => {
                    assert(db@ =~= xadd_outcome(
                        old(db)@,
                        contents(command@),
                        now,
                        unix_milliseconds,
                    ).0);
                    Added::ClockUnavailable
                },
            }
        },
    }
}

fn stream_entries_reply(entries: &[StreamEntry]) -> (reply: Vec<u8>)
    ensures
        reply@ == stream_entries(entry_contents(entries@)),
{
    let mut reply: Vec<u8> = Vec::new();
    write_stream_entries(&mut reply, entries);
    assert(reply@ =~= stream_entries(entry_contents(entries@)));
    reply
}

/// Reads the first and the last ID that an `XRANGE` command selects.
fn read_xrange_bounds(command: &[Vec<u8>]) -> (result: Option<(StreamId, StreamId)>)
    requires
        command@.len() == 4,
    ensures
        result == xrange_bounds(contents(command@)),
{
    let start = if is_text(command[2].as_slice(), "-") {
        StreamId::zero()
    } else {
        match parse_xrange_bound(command[2].as_slice(), 0) {
            Ok(start) => start,
            Err(_) => {
                return None;
            },
        }
    };
    let end = if is_text(command[3].as_slice(), "+") {
        StreamId::max()
    } else {
        match parse_xrange_bound(command[3].as_slice(), u64::MAX) {
            Ok(end) => end,
            Err(_) => {
                return None;
            },
        }
    };
    Some((start, end))
}

/// Answers an `XRANGE` command.
pub fn execute_xrange(db: &mut DatabaseState, command: &[Vec<u8>], now: u64) -> (reply: Vec<u8>)
    requires
        old(db).wf(),
    ensures
        final(db).wf(),
        final(db)@ == xrange_outcome(old(db)@, contents(command@), now).0,
        reply@ == xrange_outcome(old(db)@, contents(command@), now).1,
{
    if command.len() != 4 {
        return to_bytes("-ERR wrong number of arguments for 'XRANGE' command\r\n");
    }
    let (start, end) = match read_xrange_bounds(command) {
        Some(bounds) => bounds,
        None => {
            return to_bytes("-ERR Invalid stream ID specified as stream command argument\r\n");
        },
    };
    let key = command[1].as_slice();
    db.remove_if_expired(key, now);
    match db.get(key) {
        None => {
            let nothing: Vec<StreamEntry> = Vec::new();
            proof {
                reveal(Seq::filter);
                assert(entry_contents(nothing@) =~= entries_between(Seq::empty(), start, end));
            }
            stream_entries_reply(nothing.as_slice())
        },
        Some(entry) => match &entry.value {
            RedisValue::Stream(entries) => {
                let selected = select_between(entries.as_slice(), start, end);
                stream_entries_reply(selected.as_slice())
            },
            _ => wrong_type_reply(),
        },
    }
}

/// Reads how long an `XREAD` command blocks and where its keys begin.
pub fn read_xread_request(command: &[Vec<u8>]) -> (result: Result<(Option<u64>, usize), Vec<u8>>)
    ensures
        match (result, xread_request(contents(command@))) {
            (Ok((block, first)), Ok((expected_block, expected_first))) => block == expected_block
                && first == expected_first,
            (Err(reply), Err(expected)) => reply@ == expected,
            _ => false,
        },
        result matches Ok((block, first)) ==> first + 2 <= command@.len() && (command@.len()
            - first) % 2 == 0,
{
    let (block, first): (Option<u64>, usize) = if command.len() >= 2 && is_keyword(
        command[1].as_slice(),
        "BLOCK",
    ) {
        if command.len() < 4 {
            return Err(to_bytes("-ERR syntax error\r\n"));
        }
        let milliseconds = match parse_milliseconds(command[2].as_slice()) {
            Ok(milliseconds) => milliseconds,
            Err(_) => {
                return Err(to_bytes("-ERR timeout is not an integer or out of range\r\n"));
            },
        };
        if !is_keyword(command[3].as_slice(), "STREAMS") {
            return Err(to_bytes("-ERR syntax error\r\n"));
        }
        (Some(milliseconds), 4)
    } else if command.len() >= 2 && is_keyword(command[1].as_slice(), "STREAMS") {
        (None, 2)
    } else {
        return Err(to_bytes("-ERR syntax error\r\n"));
    };
    if command.len() - first < 2 || (command.len() - first) % 2 != 0 {
        return Err(to_bytes("-ERR syntax error\r\n"));
    }
    Ok((block, first))
}

/// Finds the IDs after which streams are to be read.
pub fn resolve_xread_start_ids(
    db: &mut DatabaseState,
    keys: &[Vec<u8>],
    id_arguments: &[Vec<u8>],
    now: u64,
) -> (result: Result<Vec<StreamId>, Error>)
    requires
        old(db).wf(),
    ensures
        final(db).wf(),
        final(db)@ == start_ids(
            old(db)@,
            contents(keys@),
            contents(id_arguments@),
            paired(keys@.len(), id_arguments@.len()),
            now,
        ).0,
        match (
            result,
            start_ids(
                old(db)@,
                contents(keys@),
                contents(id_arguments@),
                paired(keys@.len(), id_arguments@.len()),
                now,
            ).1,
        ) {
            (Ok(starts), Some(expected)) => starts@ == expected,
            (Err(error), None) => error.is_invalid_data("invalid stream id"),
            _ => false,
        },
{
    let mut starts: Vec<StreamId> = Vec::new();
    let count = if keys.len() < id_arguments.len() {
        keys.len()
    } else {
        id_arguments.len()
    };
    let ghost key_list = contents(keys@);
    let ghost argument_list = contents(id_arguments@);
    let ghost start = db@;
    for i in 0..count
        invariant
            count == paired(keys@.len(), id_arguments@.len()),
            key_list == contents(keys@),
            argument_list == contents(id_arguments@),
            start == old(db)@,
            db.wf(),
            start_ids(start, key_list, argument_list, i as nat, now) == (db@, Some(starts@)),
    {
        let key = keys[i].as_slice();
        let argument = id_arguments[i].as_slice();
        assert(key_list[i as int] == key@ && argument_list[i as int] == argument@);
        if is_text(argument, "$") {
            db.remove_if_expired(key, now);
            let id = match db.get(key) {
                Some(entry) => match &entry.value {
                    RedisValue::Stream(entries) => match entries.last() {
                        Some(entry) => entry.id,
                        None => StreamId::zero(),
                    },
                    _ => StreamId::zero(),
                },
                None => StreamId::zero(),
            };
            assert(id == latest_id(db@, key@));
            starts.push(id);
        } else {
            match parse_xrange_bound(argument, 0) {
                Ok(id) => {
                    starts.push(id);
                },
                Err(error) => {
                    proof {
                        lemma_start_ids_stay_invalid(
                            start,
                            key_list,
                            argument_list,
                            (i + 1) as nat,
                            count as nat,
                            now,
                        );
                    }
                    return Err(error);
                },
            }
        }
    }
    Ok(starts)
}

proof fn lemma_start_ids_stay_invalid(
    db: DatabaseView,
    keys: Seq<Seq<u8>>,
    arguments: Seq<Seq<u8>>,
    count: nat,
    total: nat,
    now: u64,
)
    requires
        count <= total,
        start_ids(db, keys, arguments, count, now).1 is None,
    ensures
        start_ids(db, keys, arguments, total, now) == start_ids(db, keys, arguments, count, now),
    decreases total,
{
    if count < total {
        lemma_start_ids_stay_invalid(db, keys, arguments, count, (total - 1) as nat, now);
    }
}

proof fn lemma_streams_read_stay_wrong(
    db: DatabaseView,
    keys: Seq<Seq<u8>>,
    starts: Seq<StreamId>,
    count: nat,
    total: nat,
    now: u64,
)
    requires
        count <= total,
        streams_read(db, keys, starts, count, now).1 is None,
    ensures
        streams_read(db, keys, starts, total, now) == streams_read(db, keys, starts, count, now),
    decreases total,
{
    if count < total {
        lemma_streams_read_stay_wrong(db, keys, starts, count, (total - 1) as nat, now);
    }
}

/// Reads the entries of several streams after given IDs.
pub fn read_stream_entries(
    db: &mut DatabaseState,
    keys: &[Vec<u8>],
    starts: &[StreamId],
    now: u64,
) -> (result: Result<Vec<StreamReadResult>, ()>)
    requires
        old(db).wf(),
    ensures
        final(db).wf(),
        final(db)@ == streams_read(
            old(db)@,
            contents(keys@),
            starts@,
            paired(keys@.len(), starts@.len()),
            now,
        ).0,
        match (
            result,
            streams_read(
                old(db)@,
                contents(keys@),
                starts@,
                paired(keys@.len(), starts@.len()),
                now,
            ).1,
        ) {
            (Ok(streams), Some(expected)) => read_contents(streams@) == expected,
            (Err(()), None) => true,
            _ => false,
        },
{
    let mut streams: Vec<StreamReadResult> = Vec::new();
    let count = if keys.len() < starts.len() {
        keys.len()
    } else {
        starts.len()
    };
    let ghost key_list = contents(keys@);
    let ghost start = db@;
    assert(read_contents(streams@) =~= Seq::empty());
    for i in 0..count
        invariant
            count == paired(keys@.len(), starts@.len()),
            key_list == contents(keys@),
            start == old(db)@,
            db.wf(),
            streams_read(start, key_list, starts@, i as nat, now) == (
                db@,
                Some(read_contents(streams@)),
            ),
    {
        let key = keys[i].as_slice();
        assert(key_list[i as int] == key@);
        let ghost before = read_contents(streams@);
        db.remove_if_expired(key, now);
        match db.get(key) {
            None => {
                proof {
                    reveal(Seq::filter);
                }
                assert(entries_after(Seq::empty(), starts@[i as int]).len() == 0);
            },
            Some(entry) => match &entry.value {
                RedisValue::Stream(entries) => {
                    let selected = select_after(entries.as_slice(), starts[i]);
                    if selected.len() > 0 {
                        let ghost added = (key@, entry_contents(selected@));
                        streams.push(StreamReadResult { key: copy_bytes(key), entries: selected });
                        assert(read_contents(streams@) =~= before.push(added));
                    }
                },
                _ => {
                    proof {
                        lemma_streams_read_stay_wrong(
                            start,
                            key_list,
                            starts@,
                            (i + 1) as nat,
                            count as nat,
                            now,
                        );
                    }
                    return Err(());
                },
            },
        }
    }
    Ok(streams)
}

/// Answers a read of streams with what there is.
pub fn read_streams_now(
    db: &mut DatabaseState,
    keys: &[Vec<u8>],
    starts: &[StreamId],
    now: u64,
) -> (reply: Vec<u8>)
    requires
        old(db).wf(),
    ensures
        final(db).wf(),
        final(db)@ == streams_read(
            old(db)@,
            contents(keys@),
            starts@,
            paired(keys@.len(), starts@.len()),
            now,
        ).0,
        reply@ == xread_reply(
            streams_read(
                old(db)@,
                contents(keys@),
                starts@,
                paired(keys@.len(), starts@.len()),
                now,
            ).1,
        ),
{
    match read_stream_entries(db, keys, starts, now) {
        Ok(streams) => if streams.len() > 0 {
            let mut reply: Vec<u8> = Vec::new();
            write_xread_response(&mut reply, streams.as_slice());
            assert(reply@ =~= xread_response(read_contents(streams@)));
            reply
        } else {
            null_array_reply()
        },
        Err(()) => wrong_type_reply(),
    }
}

/// Answers a blocked read of streams, if there is anything to answer yet.
pub fn poll_streams(
    db: &mut DatabaseState,
    keys: &[Vec<u8>],
    starts: &[StreamId],
    now: u64,
) -> (result: Option<Vec<u8>>)
    requires
        old(db).wf(),
    ensures
        final(db).wf(),
        final(db)@ == streams_read(
            old(db)@,
            contents(keys@),
            starts@,
            paired(keys@.len(), starts@.len()),
            now,
        ).0,
        ({
            let streams = streams_read(
                old(db)@,
                contents(keys@),
                starts@,
                paired(keys@.len(), starts@.len()),
                now,
            ).1;
            match result {
                Some(reply) => streams != Some(Seq::<(Seq<u8>, Seq<StreamEntryView>)>::empty())
                    && reply@ == xread_reply(streams),
                None => streams == Some(Seq::<(Seq<u8>, Seq<StreamEntryView>)>::empty()),
            }
        }),
{
    match read_stream_entries(db, keys, starts, now) {
        Ok(streams) => if streams.len() > 0 {
            let mut reply: Vec<u8> = Vec::new();
            write_xread_response(&mut reply, streams.as_slice());
            assert(reply@ =~= xread_response(read_contents(streams@)));
            Some(reply)
        } else {
            assert(read_contents(streams@) =~= Seq::empty());
            None
        },
        Err(()) => Some(wrong_type_reply()),
    }
}

} // verus!
