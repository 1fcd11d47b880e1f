//! Laws of replies: whatever a client sends, what it is answered is one well-formed value.

use vstd::prelude::*;
use crate::bytes::bytes_of;
use crate::commands::{
    answer, push_reaction, xadd_reaction, xread_reaction, Clock, ReactionView,
};
use crate::database::{DatabaseView, ValueView};
use crate::encode::{
    array, array_header, bulk_string, bulk_strings, field_strings, integer, stream_entries,
    stream_entry, stream_entry_list, stream_list, xread_response,
};
use crate::lists::{
    awaited_reply, list_at, llen_outcome, lpop_outcome, lrange_outcome, push_outcome,
};
use crate::number::{decimal, is_digit, law_decimal_is_read_back, signed_decimal};
use crate::replication::replication_info;
use crate::reply::{is_named, null_array, null_bulk_string, wrong_type};
use crate::session::{
    exec_outcome, law_each_queued_command_is_answered, respond, SessionView,
};
use crate::stream::{id_bytes, StreamEntryView};
use crate::streams::{xrange_outcome, xread_reply};
use crate::strings::{
    counter, get_outcome, incr_outcome, incremented, set_outcome, type_outcome,
};
use crate::transaction::{joined, queue_outcome, queued_outcome};
use crate::transaction_laws::lemma_queue_reply;

verus! {

/// Whether a reply is a line: a status, an error or an integer.
pub open spec fn is_line(bytes: Seq<u8>) -> bool {
    &&& bytes.len() >= 3
    &&& bytes[0] == 43 || bytes[0] == 45 || bytes[0] == 58
    &&& bytes[bytes.len() - 2] == 13
    &&& bytes[bytes.len() - 1] == 10
    &&& forall|i: int| 0 <= i < bytes.len() - 2 ==> bytes[i] != 13 && bytes[i] != 10
}

/// Whether a reply is one value: a line, a byte string or its absence, or an array of values or
/// its absence. Arrays are nested at most `depth` deep.
pub open spec fn is_value(bytes: Seq<u8>, depth: nat) -> bool
    decreases depth,
{
    ||| is_line(bytes)
    ||| bytes == null_bulk_string()
    ||| bytes == null_array()
    ||| exists|value: Seq<u8>| bytes == #[trigger] bulk_string(value)
    ||| depth > 0 && exists|items: Seq<Seq<u8>>|
        {
            &&& bytes == array_header(items.len()) + #[trigger] joined(items)
            &&& forall|i: int|
                0 <= i < items.len() ==> is_value(#[trigger] items[i], (depth - 1) as nat)
        }
}

/// How deep the arrays of a reply are nested at most: streams, each with its key and its entries,
/// each with its ID and its fields.
pub open spec fn reply_depth() -> nat {
    5
}

proof fn lemma_text_is_line(text: &str)
    requires
        vstd::string::is_ascii(text),
        text@.len() >= 3,
        text@[0] == '+' || text@[0] == '-',
        text@[text@.len() - 2] == '\r',
        text@[text@.len() - 1] == '\n',
        forall|i: int| 0 <= i < text@.len() - 2 ==> text@[i] != '\r' && text@[i] != '\n',
    ensures
        is_line(bytes_of(text)),
{
    let bytes = bytes_of(text);
    assert(bytes.len() == text@.len());
    assert forall|i: int| 0 <= i < bytes.len() - 2 implies bytes[i] != 13 && bytes[i] != 10 by {
        assert(text@[i] != '\r' && text@[i] != '\n');
        assert(bytes[i] == text@[i] as u8);
    }
}

/// Every status and every error is a line.
proof fn lemma_replies_are_lines()
    ensures
        is_line(bytes_of("+OK\r\n")),
        is_line(bytes_of("+PONG\r\n")),
        is_line(bytes_of("+QUEUED\r\n")),
        is_line(bytes_of("+list\r\n")),
        is_line(bytes_of("+none\r\n")),
        is_line(bytes_of("+stream\r\n")),
        is_line(bytes_of("+string\r\n")),
        is_line(bytes_of("-ERR DISCARD without MULTI\r\n")),
        is_line(bytes_of("-ERR EXEC without MULTI\r\n")),
        is_line(bytes_of("-ERR Invalid stream ID specified as stream comman argument\r\n")),
        is_line(bytes_of("-ERR Invalid stream ID specified as stream command argument\r\n")),
        is_line(bytes_of("-ERR MULTI calls can not be nested\r\n")),
        is_line(bytes_of(
            "-ERR The ID specified in XADD is equal or smaller than the target stream top item\r\n",
        )),
        is_line(bytes_of("-ERR The ID specified in XADD must be greater than 0-0\r\n")),
        is_line(bytes_of("-ERR WATCH inside MULTI is not allowed\r\n")),
        is_line(bytes_of("-ERR invalid expire time in 'set' command\r\n")),
        is_line(bytes_of("-ERR syntax error\r\n")),
        is_line(bytes_of("-ERR timeout is not a float or out of range\r\n")),
        is_line(bytes_of("-ERR timeout is not an integer or out of range\r\n")),
        is_line(bytes_of("-ERR unknown command\r\n")),
        is_line(bytes_of("-ERR value is not an integer or out of range\r\n")),
        is_line(bytes_of("-ERR value is not an integer ot out of range\r\n")),
        is_line(bytes_of("-ERR wrong number of argument for 'incr' command\r\n")),
        is_line(bytes_of("-ERR wrong number of arguments for 'BLPOP' command\r\n")),
        is_line(bytes_of("-ERR wrong number of arguments for 'MULTI' command\r\n")),
        is_line(bytes_of("-ERR wrong number of arguments for 'XADD' command\r\n")),
        is_line(bytes_of("-ERR wrong number of arguments for 'XRANGE' command\r\n")),
        is_line(bytes_of("-ERR wrong number of arguments for 'discard' command\r\n")),
        is_line(bytes_of("-ERR wrong number of arguments for 'exec' command\r\n")),
        is_line(bytes_of("-ERR wrong number of arguments for 'get' command\r\n")),
        is_line(bytes_of("-ERR wrong number of arguments for 'incr' command\r\n")),
        is_line(bytes_of("-ERR wrong number of arguments for 'info' command\r\n")),
        is_line(bytes_of("-ERR wrong number of arguments for 'lpop'\r\n")),
        is_line(bytes_of("-ERR wrong number of arguments for 'lrange' command\r\n")),
        is_line(bytes_of("-ERR wrong number of arguments for 'psync' command\r\n")),
        is_line(bytes_of("-ERR wrong number of arguments for 'replconf' command\r\n")),
        is_line(bytes_of("-ERR wrong number of arguments for 'type' command\r\n")),
        is_line(bytes_of("-ERR wrong number of arguments for 'unwatch' command\r\n")),
        is_line(bytes_of("-ERR wrong number of arguments for 'watch' command\r\n")),
        is_line(bytes_of("-Err value is not an integer or not range\r\n")),
        is_line(bytes_of(
            "-WRONGTYPE Operation against a key holding the wrong kind of value\r\n",
        )),
{
    reveal_strlit("+OK\r\n");
    lemma_text_is_line("+OK\r\n");
    reveal_strlit("+PONG\r\n");
    lemma_text_is_line("+PONG\r\n");
    reveal_strlit("+QUEUED\r\n");
    lemma_text_is_line("+QUEUED\r\n");
    reveal_strlit("+list\r\n");
    lemma_text_is_line("+list\r\n");
    reveal_strlit("+none\r\n");
    lemma_text_is_line("+none\r\n");
    reveal_strlit("+stream\r\n");
    lemma_text_is_line("+stream\r\n");
    reveal_strlit("+string\r\n");
    lemma_text_is_line("+string\r\n");
    reveal_strlit("-ERR DISCARD without MULTI\r\n");
    lemma_text_is_line("-ERR DISCARD without MULTI\r\n");
    reveal_strlit("-ERR EXEC without MULTI\r\n");
    lemma_text_is_line("-ERR EXEC without MULTI\r\n");
    reveal_strlit("-ERR Invalid stream ID specified as stream comman argument\r\n");
    lemma_text_is_line("-ERR Invalid stream ID specified as stream comman argument\r\n");
    reveal_strlit("-ERR Invalid stream ID specified as stream command argument\r\n");
    lemma_text_is_line("-ERR Invalid stream ID specified as stream command argument\r\n");
    reveal_strlit("-ERR MULTI calls can not be nested\r\n");
    lemma_text_is_line("-ERR MULTI calls can not be nested\r\n");
    reveal_strlit(
        "-ERR The ID specified in XADD is equal or smaller than the target stream top item\r\n",
    );
    lemma_text_is_line(
        "-ERR The ID specified in XADD is equal or smaller than the target stream top item\r\n",
    );
    reveal_strlit("-ERR The ID specified in XADD must be greater than 0-0\r\n");
    lemma_text_is_line("-ERR The ID specified in XADD must be greater than 0-0\r\n");
    reveal_strlit("-ERR WATCH inside MULTI is not allowed\r\n");
    lemma_text_is_line("-ERR WATCH inside MULTI is not allowed\r\n");
    reveal_strlit("-ERR invalid expire time in 'set' command\r\n");
    lemma_text_is_line("-ERR invalid expire time in 'set' command\r\n");
    reveal_strlit("-ERR syntax error\r\n");
    lemma_text_is_line("-ERR syntax error\r\n");
    reveal_strlit("-ERR timeout is not a float or out of range\r\n");
    lemma_text_is_line("-ERR timeout is not a float or out of range\r\n");
    reveal_strlit("-ERR timeout is not an integer or out of range\r\n");
    lemma_text_is_line("-ERR timeout is not an integer or out of range\r\n");
    reveal_strlit("-ERR unknown command\r\n");
    lemma_text_is_line("-ERR unknown command\r\n");
    reveal_strlit("-ERR value is not an integer or out of range\r\n");
    lemma_text_is_line("-ERR value is not an integer or out of range\r\n");
    reveal_strlit("-ERR value is not an integer ot out of range\r\n");
    lemma_text_is_line("-ERR value is not an integer ot out of range\r\n");
    reveal_strlit("-ERR wrong number of argument for 'incr' command\r\n");
    lemma_text_is_line("-ERR wrong number of argument for 'incr' command\r\n");
    reveal_strlit("-ERR wrong number of arguments for 'BLPOP' command\r\n");
    lemma_text_is_line("-ERR wrong number of arguments for 'BLPOP' command\r\n");
    reveal_strlit("-ERR wrong number of arguments for 'MULTI' command\r\n");
    lemma_text_is_line("-ERR wrong number of arguments for 'MULTI' command\r\n");
    reveal_strlit("-ERR wrong number of arguments for 'XADD' command\r\n");
    lemma_text_is_line("-ERR wrong number of arguments for 'XADD' command\r\n");
    reveal_strlit("-ERR wrong number of arguments for 'XRANGE' command\r\n");
    lemma_text_is_line("-ERR wrong number of arguments for 'XRANGE' command\r\n");
    reveal_strlit("-ERR wrong number of arguments for 'discard' command\r\n");
    lemma_text_is_line("-ERR wrong number of arguments for 'discard' command\r\n");
    reveal_strlit("-ERR wrong number of arguments for 'exec' command\r\n");
    lemma_text_is_line("-ERR wrong number of arguments for 'exec' command\r\n");
    reveal_strlit("-ERR wrong number of arguments for 'get' command\r\n");
    lemma_text_is_line("-ERR wrong number of arguments for 'get' command\r\n");
    reveal_strlit("-ERR wrong number of arguments for 'incr' command\r\n");
    lemma_text_is_line("-ERR wrong number of arguments for 'incr' command\r\n");
    reveal_strlit("-ERR wrong number of arguments for 'info' command\r\n");
    lemma_text_is_line("-ERR wrong number of arguments for 'info' command\r\n");
    reveal_strlit("-ERR wrong number of arguments for 'lpop'\r\n");
    lemma_text_is_line("-ERR wrong number of arguments for 'lpop'\r\n");
    reveal_strlit("-ERR wrong number of arguments for 'lrange' command\r\n");
    lemma_text_is_line("-ERR wrong number of arguments for 'lrange' command\r\n");
    reveal_strlit("-ERR wrong number of arguments for 'psync' command\r\n");
    lemma_text_is_line("-ERR wrong number of arguments for 'psync' command\r\n");
    reveal_strlit("-ERR wrong number of arguments for 'replconf' command\r\n");
    lemma_text_is_line("-ERR wrong number of arguments for 'replconf' command\r\n");
    reveal_strlit("-ERR wrong number of arguments for 'type' command\r\n");
    lemma_text_is_line("-ERR wrong number of arguments for 'type' command\r\n");
    reveal_strlit("-ERR wrong number of arguments for 'unwatch' command\r\n");
    lemma_text_is_line("-ERR wrong number of arguments for 'unwatch' command\r\n");
    reveal_strlit("-ERR wrong number of arguments for 'watch' command\r\n");
    lemma_text_is_line("-ERR wrong number of arguments for 'watch' command\r\n");
    reveal_strlit("-Err value is not an integer or not range\r\n");
    lemma_text_is_line("-Err value is not an integer or not range\r\n");
    reveal_strlit("-WRONGTYPE Operation against a key holding the wrong kind of value\r\n");
    lemma_text_is_line(
        "-WRONGTYPE Operation against a key holding the wrong kind of value\r\n",
    );
}

proof fn lemma_integer_is_line(value: int)
    ensures
        is_line(integer(value)),
{
    let digits = signed_decimal(value);
    if value < 0 {
        law_decimal_is_read_back((-value) as nat);
        assert forall|i: int| 0 <= i < digits.len() implies digits[i] != 13 && digits[i] != 10 by {
            if i > 0 {
                assert(is_digit(decimal((-value) as nat)[i - 1]));
            }
        }
    } else {
        law_decimal_is_read_back(value as nat);
        assert forall|i: int| 0 <= i < digits.len() implies digits[i] != 13 && digits[i] != 10 by {
            assert(is_digit(decimal(value as nat)[i]));
        }
    }
    let bytes = integer(value);
    assert forall|i: int| 0 <= i < bytes.len() - 2 implies bytes[i] != 13 && bytes[i] != 10 by {
        if i > 0 {
            assert(bytes[i] == digits[i - 1]);
        }
    }
}

proof fn lemma_value_at_greater_depth(bytes: Seq<u8>, less: nat, more: nat)
    requires
        is_value(bytes, less),
        less <= more,
    ensures
        is_value(bytes, more),
    decreases less,
{
    if less > 0 && exists|items: Seq<Seq<u8>>|
        {
            &&& bytes == array_header(items.len()) + #[trigger] joined(items)
            &&& forall|i: int|
                0 <= i < items.len() ==> is_value(#[trigger] items[i], (less - 1) as nat)
        } {
        let items = choose|items: Seq<Seq<u8>>|
            {
                &&& bytes == array_header(items.len()) + #[trigger] joined(items)
                &&& forall|i: int|
                    0 <= i < items.len() ==> is_value(#[trigger] items[i], (less - 1) as nat)
            };
        assert forall|i: int| 0 <= i < items.len() implies is_value(
            #[trigger] items[i],
            (more - 1) as nat,
        ) by {
            lemma_value_at_greater_depth(items[i], (less - 1) as nat, (more - 1) as nat);
        }
    }
}

proof fn lemma_joined_push(items: Seq<Seq<u8>>, item: Seq<u8>)
    ensures
        joined(items.push(item)) == joined(items) + item,
{
    assert(items.push(item).drop_last() =~= items);
}

/// Byte strings as bulk strings.
spec fn encoded(values: Seq<Seq<u8>>) -> Seq<Seq<u8>> {
    Seq::new(values.len(), |i: int| bulk_string(values[i]))
}

proof fn lemma_bulk_strings_are_joined(values: Seq<Seq<u8>>)
    ensures
        bulk_strings(values) == joined(encoded(values)),
    decreases values.len(),
{
    if values.len() > 0 {
        lemma_bulk_strings_are_joined(values.drop_last());
        assert(encoded(values) =~= encoded(values.drop_last()).push(bulk_string(values.last())));
        lemma_joined_push(encoded(values.drop_last()), bulk_string(values.last()));
    } else {
        assert(bulk_strings(values) =~= joined(encoded(values)));
    }
}

proof fn lemma_array_is_value(values: Seq<Seq<u8>>)
    ensures
        is_value(array(values), 1),
{
    lemma_bulk_strings_are_joined(values);
    let items = encoded(values);
    assert forall|i: int| 0 <= i < items.len() implies is_value(#[trigger] items[i], 0) by {
        assert(items[i] == bulk_string(values[i]));
    }
    assert(array(values) == array_header(items.len()) + joined(items));
}

/// Fields and values as bulk strings.
spec fn encoded_fields(fields: Seq<(Seq<u8>, Seq<u8>)>) -> Seq<Seq<u8>>
    decreases fields.len(),
{
    if fields.len() == 0 {
        Seq::empty()
    } else {
        encoded_fields(fields.drop_last()).push(bulk_string(fields.last().0)).push(
            bulk_string(fields.last().1),
        )
    }
}

proof fn lemma_fields_are_joined(fields: Seq<(Seq<u8>, Seq<u8>)>)
    ensures
        field_strings(fields) == joined(encoded_fields(fields)),
        encoded_fields(fields).len() == 2 * fields.len(),
        forall|i: int|
            0 <= i < encoded_fields(fields).len() ==> is_value(
                #[trigger] encoded_fields(fields)[i],
                0,
            ),
    decreases fields.len(),
{
    if fields.len() > 0 {
        let before = encoded_fields(fields.drop_last());
        let field = bulk_string(fields.last().0);
        let value = bulk_string(fields.last().1);
        lemma_fields_are_joined(fields.drop_last());
        lemma_joined_push(before, field);
        lemma_joined_push(before.push(field), value);
        assert forall|i: int| 0 <= i < encoded_fields(fields).len() implies is_value(
            #[trigger] encoded_fields(fields)[i],
            0,
        ) by {
            if i < before.len() {
                assert(is_value(before[i], 0));
            }
        }
    } else {
        assert(field_strings(fields) =~= joined(encoded_fields(fields)));
    }
}

/// An array of two values is a value.
proof fn lemma_pair_is_value(first: Seq<u8>, second: Seq<u8>, depth: nat)
    requires
        is_value(first, depth),
        is_value(second, depth),
    ensures
        is_value(array_header(2) + first + second, depth + 1),
{
    let items = seq![first, second];
    assert(items =~= Seq::<Seq<u8>>::empty().push(first).push(second));
    lemma_joined_push(Seq::empty(), first);
    lemma_joined_push(Seq::<Seq<u8>>::empty().push(first), second);
    assert(array_header(2) + first + second =~= array_header(items.len()) + joined(items));
    assert forall|i: int| 0 <= i < items.len() implies is_value(#[trigger] items[i], depth) by {
        assert(items[i] == first || items[i] == second);
    }
}

proof fn lemma_stream_entry_is_value(entry: StreamEntryView)
    ensures
        is_value(stream_entry(entry), 2),
{
    lemma_fields_are_joined(entry.fields);
    let fields = array_header(2 * entry.fields.len()) + field_strings(entry.fields);
    let items = encoded_fields(entry.fields);
    assert(fields == array_header(items.len()) + joined(items));
    assert(is_value(fields, 1));
    let id = bulk_string(id_bytes(entry.id));
    assert(is_value(id, 1));
    lemma_pair_is_value(id, fields, 1);
    assert(stream_entry(entry) =~= array_header(2) + id + fields);
}

spec fn encoded_entries(entries: Seq<StreamEntryView>) -> Seq<Seq<u8>> {
    Seq::new(entries.len(), |i: int| stream_entry(entries[i]))
}

proof fn lemma_entries_are_joined(entries: Seq<StreamEntryView>)
    ensures
        stream_entry_list(entries) == joined(encoded_entries(entries)),
    decreases entries.len(),
{
    if entries.len() > 0 {
        lemma_entries_are_joined(entries.drop_last());
        assert(encoded_entries(entries) =~= encoded_entries(entries.drop_last()).push(
            stream_entry(entries.last()),
        ));
        lemma_joined_push(encoded_entries(entries.drop_last()), stream_entry(entries.last()));
    } else {
        assert(stream_entry_list(entries) =~= joined(encoded_entries(entries)));
    }
}

proof fn lemma_stream_entries_are_value(entries: Seq<StreamEntryView>)
    ensures
        is_value(stream_entries(entries), 3),
{
    lemma_entries_are_joined(entries);
    let items = encoded_entries(entries);
    assert forall|i: int| 0 <= i < items.len() implies is_value(#[trigger] items[i], 2) by {
        lemma_stream_entry_is_value(entries[i]);
    }
    assert(stream_entries(entries) == array_header(items.len()) + joined(items));
}

/// A key with its entries, as an array of the two.
spec fn encoded_stream(stream: (Seq<u8>, Seq<StreamEntryView>)) -> Seq<u8> {
    array_header(2) + bulk_string(stream.0) + stream_entries(stream.1)
}

spec fn encoded_streams(streams: Seq<(Seq<u8>, Seq<StreamEntryView>)>) -> Seq<Seq<u8>> {
    Seq::new(streams.len(), |i: int| encoded_stream(streams[i]))
}

proof fn lemma_streams_are_joined(streams: Seq<(Seq<u8>, Seq<StreamEntryView>)>)
    ensures
        stream_list(streams) == joined(encoded_streams(streams)),
    decreases streams.len(),
{
    if streams.len() > 0 {
        let before = streams.drop_last();
        lemma_streams_are_joined(before);
        assert(encoded_streams(streams) =~= encoded_streams(before).push(
            encoded_stream(streams.last()),
        ));
        lemma_joined_push(encoded_streams(before), encoded_stream(streams.last()));
        assert(stream_list(streams) =~= stream_list(before) + encoded_stream(streams.last()));
    } else {
        assert(stream_list(streams) =~= joined(encoded_streams(streams)));
    }
}

proof fn lemma_xread_response_is_value(streams: Seq<(Seq<u8>, Seq<StreamEntryView>)>)
    ensures
        is_value(xread_response(streams), 5),
{
    lemma_streams_are_joined(streams);
    let items = encoded_streams(streams);
    assert forall|i: int| 0 <= i < items.len() implies is_value(#[trigger] items[i], 4) by {
        lemma_stream_entries_are_value(streams[i].1);
        let key = bulk_string(streams[i].0);
        assert(is_value(key, 3));
        lemma_pair_is_value(key, stream_entries(streams[i].1), 3);
    }
    assert(xread_response(streams) == array_header(items.len()) + joined(items));
}

proof fn lemma_queued_reply_is_value(db: DatabaseView, command: Seq<Seq<u8>>, now: u64)
    ensures
        is_value(queued_outcome(db, command, now).1, 0),
{
    lemma_replies_are_lines();
    if is_named(command, "INCR") && command.len() == 2 {
        let live = db.expired(command[1], now);
        if let ValueView::String(text) = counter(live, command[1]).value {
            if let Some(number) = incremented(text) {
                lemma_integer_is_line(number);
            }
        }
    }
}

proof fn lemma_exec_reply_is_value(db: DatabaseView, session: SessionView, now: u64)
    ensures
        exec_outcome(db, session, now).reaction matches ReactionView::Reply(reply) && is_value(
            reply,
            1,
        ),
{
    let live = db.all_expired(session.watched.dom(), now);
    let count = session.queued.len();
    let replies = queue_outcome(live, session.queued, count, now).1;
    law_each_queued_command_is_answered(live, session.queued, count, now);
    assert forall|i: int| 0 <= i < replies.len() implies is_value(#[trigger] replies[i], 0) by {
        lemma_queue_reply(live, session.queued, count, i, now);
        lemma_queued_reply_is_value(
            queue_outcome(live, session.queued, i as nat, now).0,
            session.queued[i],
            now,
        );
    }
    assert(array_header(replies.len()) + joined(replies) == array_header(replies.len()) + joined(
        replies,
    ));
}

/// The reply that a reaction sends at once, if it sends one.
pub open spec fn immediate_reply(reaction: ReactionView) -> Option<Seq<u8>> {
    match reaction {
        ReactionView::Reply(reply) => Some(reply),
        ReactionView::ListExtended { reply, .. } => Some(reply),
        ReactionView::StreamExtended { reply } => Some(reply),
        _ => None,
    }
}

/// Whether the reply that a reaction sends at once is one value.
pub open spec fn replies_well(reaction: ReactionView) -> bool {
    immediate_reply(reaction) matches Some(reply) ==> is_value(reply, reply_depth())
}

proof fn lemma_string_reply_is_value(db: DatabaseView, command: Seq<Seq<u8>>, now: u64)
    ensures
        is_value(set_outcome(db, command, now).1, 0),
        is_value(incr_outcome(db, command[1], now).1, 0),
        is_value(get_outcome(db, command[1], now).1, 0),
        is_value(type_outcome(db, command[1], now).1, 0),
{
    lemma_replies_are_lines();
    let live = db.expired(command[1], now);
    if let ValueView::String(text) = counter(live, command[1]).value {
        if let Some(number) = incremented(text) {
            lemma_integer_is_line(number);
        }
    }
}

proof fn lemma_list_reply_is_value(db: DatabaseView, command: Seq<Seq<u8>>, now: u64)
    ensures
        is_value(llen_outcome(db, command[1], now).1, 1),
        is_value(lpop_outcome(db, command, now).1, 1),
        is_value(lrange_outcome(db, command, now).1, 1),
{
    lemma_replies_are_lines();
    assert(is_value(wrong_type(), 1));
    assert(is_value(null_array(), 1));
    assert(is_value(null_bulk_string(), 1));
    if let Some(list) = list_at(db.expired(command[1], now), command[1]) {
        lemma_integer_is_line(list.len() as int);
    }
    assert forall|values: Seq<Seq<u8>>| is_value(#[trigger] array(values), 1) by {
        lemma_array_is_value(values);
    }
    assert forall|value: Seq<u8>| is_value(#[trigger] bulk_string(value), 1) by {
    }
}

proof fn lemma_push_reply_is_value(db: DatabaseView, command: Seq<Seq<u8>>, front: bool, now: u64)
    ensures
        replies_well(push_reaction(db, command, front, now).1),
{
    lemma_replies_are_lines();
    if let Some(length) = push_outcome(db, command[1], command.skip(2), front, now).1 {
        lemma_integer_is_line(length as int);
    }
}

proof fn lemma_stream_reply_is_value(db: DatabaseView, command: Seq<Seq<u8>>, clock: Clock)
    ensures
        replies_well(xadd_reaction(db, command, clock).1),
        replies_well(xread_reaction(db, command, clock.now).1),
        is_value(xrange_outcome(db, command, clock.now).1, 3),
{
    lemma_replies_are_lines();
    assert forall|entries: Seq<StreamEntryView>| is_value(
        #[trigger] stream_entries(entries),
        3,
    ) by {
        lemma_stream_entries_are_value(entries);
    }
}

proof fn lemma_answer_is_value(
    db: DatabaseView,
    command: Seq<Seq<u8>>,
    clock: Clock,
    is_replica: bool,
)
    ensures
        replies_well(answer(db, command, clock, is_replica).1),
{
    lemma_replies_are_lines();
    lemma_string_reply_is_value(db, command, clock.now);
    lemma_list_reply_is_value(db, command, clock.now);
    lemma_push_reply_is_value(db, command, true, clock.now);
    lemma_push_reply_is_value(db, command, false, clock.now);
    lemma_stream_reply_is_value(db, command, clock);
    lemma_value_at_greater_depth(set_outcome(db, command, clock.now).1, 0, 5);
    lemma_value_at_greater_depth(incr_outcome(db, command[1], clock.now).1, 0, 5);
    lemma_value_at_greater_depth(get_outcome(db, command[1], clock.now).1, 0, 5);
    lemma_value_at_greater_depth(type_outcome(db, command[1], clock.now).1, 0, 5);
    lemma_value_at_greater_depth(llen_outcome(db, command[1], clock.now).1, 1, 5);
    lemma_value_at_greater_depth(lpop_outcome(db, command, clock.now).1, 1, 5);
    lemma_value_at_greater_depth(lrange_outcome(db, command, clock.now).1, 1, 5);
    lemma_value_at_greater_depth(xrange_outcome(db, command, clock.now).1, 3, 5);
    assert(is_value(bulk_string(command[1]), 5));
    assert(is_value(bulk_string(replication_info(is_replica)), 5));
    assert(is_value(bulk_string(Seq::empty()), 5));
}

/// Whatever a client sends, a reply that is sent at once is exactly one well-formed value. In
/// particular the reply to `EXEC` is one array, with one value for each command.
pub proof fn law_every_reply_is_one_value(
    db: DatabaseView,
    session: SessionView,
    command: Seq<Seq<u8>>,
    clock: Clock,
    is_replica: bool,
)
    ensures
        replies_well(respond(db, session, command, clock, is_replica).reaction),
{
    lemma_replies_are_lines();
    lemma_exec_reply_is_value(db, session, clock.now);
    if let ReactionView::Reply(reply) = exec_outcome(db, session, clock.now).reaction {
        lemma_value_at_greater_depth(reply, 1, 5);
    }
    lemma_answer_is_value(db, command, clock, is_replica);
}

/// A client that waited for a value of a list is answered with one well-formed value.
pub proof fn law_awaited_list_value_is_one_value(key: Seq<u8>, first: Result<Option<Seq<u8>>, ()>)
    ensures
        awaited_reply(key, first) matches Some(reply) ==> is_value(reply, 1),
{
    lemma_replies_are_lines();
    if let Ok(Some(value)) = first {
        lemma_array_is_value(seq![key, value]);
    }
}

/// A read of streams is answered with one well-formed value.
pub proof fn law_stream_reply_is_one_value(
    streams: Option<Seq<(Seq<u8>, Seq<StreamEntryView>)>>,
)
    ensures
        is_value(xread_reply(streams), reply_depth()),
{
    lemma_replies_are_lines();
    if let Some(streams) = streams {
        lemma_xread_response_is_value(streams);
    }
}

} // verus!
