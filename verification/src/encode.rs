//! Writing replies and commands in the wire format.

use vstd::prelude::*;
use crate::bytes::{append, contents};
use crate::number::{decimal, signed_decimal, write_decimal, write_signed_decimal};
use crate::stream::{
    entry_contents, id_bytes, pair_contents, read_contents, stream_id_to_bytes, StreamEntry,
    StreamEntryView, StreamReadResult,
};

verus! {

/// The bytes that end a line.
pub open spec fn crlf() -> Seq<u8> {
    seq![13u8, 10u8]
}

/// A number as an integer reply.
pub open spec fn integer(value: int) -> Seq<u8> {
    seq![58u8] + signed_decimal(value) + crlf()
}

/// The line that opens a bulk string of the given length.
pub open spec fn bulk_header(length: nat) -> Seq<u8> {
    seq![36u8] + decimal(length) + crlf()
}

/// A byte string as a bulk string.
pub open spec fn bulk_string(value: Seq<u8>) -> Seq<u8> {
    bulk_header(value.len()) + value + crlf()
}

/// The line that opens an array of the given length.
pub open spec fn array_header(length: nat) -> Seq<u8> {
    seq![42u8] + decimal(length) + crlf()
}

/// Byte strings as bulk strings, one after the other.
pub open spec fn bulk_strings(values: Seq<Seq<u8>>) -> Seq<u8>
    decreases values.len(),
{
    if values.len() == 0 {
        Seq::empty()
    } else {
        bulk_strings(values.drop_last()) + bulk_string(values.last())
    }
}

/// Byte strings as an array of bulk strings.
pub open spec fn array(values: Seq<Seq<u8>>) -> Seq<u8> {
    array_header(values.len()) + bulk_strings(values)
}

/// Fields and values as bulk strings, one after the other.
pub open spec fn field_strings(fields: Seq<(Seq<u8>, Seq<u8>)>) -> Seq<u8>
    decreases fields.len(),
{
    if fields.len() == 0 {
        Seq::empty()
    } else {
        field_strings(fields.drop_last()) + bulk_string(fields.last().0) + bulk_string(
            fields.last().1,
        )
    }
}

/// A stream entry as an array of its ID and the array of its fields and values.
pub open spec fn stream_entry(entry: StreamEntryView) -> Seq<u8> {
    array_header(2) + bulk_string(id_bytes(entry.id)) + array_header(2 * entry.fields.len())
        + field_strings(entry.fields)
}

/// Stream entries, one after the other.
pub open spec fn stream_entry_list(entries: Seq<StreamEntryView>) -> Seq<u8>
    decreases entries.len(),
{
    if entries.len() == 0 {
        Seq::empty()
    } else {
        stream_entry_list(entries.drop_last()) + stream_entry(entries.last())
    }
}

/// Stream entries as an array.
pub open spec fn stream_entries(entries: Seq<StreamEntryView>) -> Seq<u8> {
    array_header(entries.len()) + stream_entry_list(entries)
}

/// Keys with their entries, one after the other, each as an array of the two.
pub open spec fn stream_list(streams: Seq<(Seq<u8>, Seq<StreamEntryView>)>) -> Seq<u8>
    decreases streams.len(),
{
    if streams.len() == 0 {
        Seq::empty()
    } else {
        stream_list(streams.drop_last()) + array_header(2) + bulk_string(streams.last().0)
            + stream_entries(streams.last().1)
    }
}

/// Keys with their entries as an array.
pub open spec fn xread_response(streams: Seq<(Seq<u8>, Seq<StreamEntryView>)>) -> Seq<u8> {
    array_header(streams.len()) + stream_list(streams)
}

fn write_header(out: &mut Vec<u8>, mark: u8, length: u128)
    ensures
        final(out)@ == old(out)@ + (seq![mark] + decimal(length as nat) + crlf()),
{
    out.push(mark);
    write_decimal(out, length);
    out.push(13);
    out.push(10);
    assert(out@ =~= old(out)@ + (seq![mark] + decimal(length as nat) + crlf()));
}

/// Appends an integer reply.
pub fn write_integer(out: &mut Vec<u8>, value: i128)
    ensures
        final(out)@ == old(out)@ + integer(value as int),
{
    out.push(58);
    write_signed_decimal(out, value);
    out.push(13);
    out.push(10);
    assert(out@ =~= old(out)@ + integer(value as int));
}

/// Appends the line that opens a bulk string.
pub fn write_bulk_header(out: &mut Vec<u8>, length: u128)
    ensures
        final(out)@ == old(out)@ + bulk_header(length as nat),
{
    write_header(out, 36, length);
}

/// Appends a bulk string.
pub fn write_bulk_string(out: &mut Vec<u8>, value: &[u8])
    ensures
        final(out)@ == old(out)@ + bulk_string(value@),
{
    write_bulk_header(out, value.len() as u128);
    append(out, value);
    out.push(13);
    out.push(10);
    assert(out@ =~= old(out)@ + bulk_string(value@));
}

/// A byte string as a bulk string.
pub fn encode_bulk_string(value: &[u8]) -> (result: Vec<u8>)
    ensures
        result@ == bulk_string(value@),
{
    let mut result: Vec<u8> = Vec::new();
    write_bulk_string(&mut result, value);
    assert(result@ =~= bulk_string(value@));
    result
}

/// Appends the line that opens an array.
pub fn write_array_header(out: &mut Vec<u8>, length: u128)
    ensures
        final(out)@ == old(out)@ + array_header(length as nat),
{
    write_header(out, 42, length);
}

/// Appends an array of bulk strings.
pub fn write_array(out: &mut Vec<u8>, values: &[Vec<u8>])
    ensures
        final(out)@ == old(out)@ + array(contents(values@)),
{
    write_array_header(out, values.len() as u128);
    let ghost start = out@;
    let ghost all = contents(values@);
    assert(start + bulk_strings(all.take(0)) =~= start);
    for i in 0..values.len()
        invariant
            all == contents(values@),
            out@ == start + bulk_strings(all.take(i as int)),
    {
        write_bulk_string(out, values[i].as_slice());
        assert(all.take(i + 1).drop_last() =~= all.take(i as int));
        assert(all.take(i + 1).last() == values@[i as int]@);
        assert(out@ =~= start + bulk_strings(all.take(i + 1)));
    }
    assert(all.take(all.len() as int) =~= all);
    assert(out@ =~= old(out)@ + array(all));
}

fn write_fields(out: &mut Vec<u8>, fields: &[(Vec<u8>, Vec<u8>)])
    ensures
        final(out)@ == old(out)@ + field_strings(pair_contents(fields@)),
{
    let ghost start = out@;
    let ghost all = pair_contents(fields@);
    assert(start + field_strings(all.take(0)) =~= start);
    for i in 0..fields.len()
        invariant
            all == pair_contents(fields@),
            out@ == start + field_strings(all.take(i as int)),
    {
        write_bulk_string(out, fields[i].0.as_slice());
        write_bulk_string(out, fields[i].1.as_slice());
        assert(all.take(i + 1).drop_last() =~= all.take(i as int));
        assert(all.take(i + 1).last() == (fields@[i as int].0@, fields@[i as int].1@));
        assert(out@ =~= start + field_strings(all.take(i + 1)));
    }
    assert(all.take(all.len() as int) =~= all);
}

fn write_stream_entry(out: &mut Vec<u8>, entry: &StreamEntry)
    ensures
        final(out)@ == old(out)@ + stream_entry(entry@),
{
    write_array_header(out, 2);
    let id = stream_id_to_bytes(entry.id);
    write_bulk_string(out, id.as_slice());
    write_array_header(out, entry.fields.len() as u128 * 2);
    write_fields(out, entry.fields.as_slice());
    assert(out@ =~= old(out)@ + stream_entry(entry@));
}

/// Appends stream entries as an array.
pub fn write_stream_entries(out: &mut Vec<u8>, entries: &[StreamEntry])
    ensures
        final(out)@ == old(out)@ + stream_entries(entry_contents(entries@)),
{
    write_array_header(out, entries.len() as u128);
    let ghost start = out@;
    let ghost all = entry_contents(entries@);
    assert(start + stream_entry_list(all.take(0)) =~= start);
    for i in 0..entries.len()
        invariant
            all == entry_contents(entries@),
            out@ == start + stream_entry_list(all.take(i as int)),
    {
        write_stream_entry(out, &entries[i]);
        assert(all.take(i + 1).drop_last() =~= all.take(i as int));
        assert(all.take(i + 1).last() == entries@[i as int]@);
        assert(out@ =~= start + stream_entry_list(all.take(i + 1)));
    }
    assert(all.take(all.len() as int) =~= all);
    assert(out@ =~= old(out)@ + stream_entries(all));
}

/// Appends the entries that were read from several streams, each after its key.
pub fn write_xread_response(out: &mut Vec<u8>, streams: &[StreamReadResult])
    ensures
        final(out)@ == old(out)@ + xread_response(read_contents(streams@)),
{
    write_array_header(out, streams.len() as u128);
    let ghost start = out@;
    let ghost all = read_contents(streams@);
    assert(start + stream_list(all.take(0)) =~= start);
    for i in 0..streams.len()
        invariant
            all == read_contents(streams@),
            out@ == start + stream_list(all.take(i as int)),
    {
        write_array_header(out, 2);
        write_bulk_string(out, streams[i].key.as_slice());
        write_stream_entries(out, streams[i].entries.as_slice());
        assert(all.take(i + 1).drop_last() =~= all.take(i as int));
        assert(all.take(i + 1).last() == (
            streams@[i as int].key@,
            entry_contents(streams@[i as int].entries@),
        ));
        assert(out@ =~= start + stream_list(all.take(i + 1)));
    }
    assert(all.take(all.len() as int) =~= all);
    assert(out@ =~= old(out)@ + xread_response(all));
}

} // verus!
