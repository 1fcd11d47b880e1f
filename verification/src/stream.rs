//! Streams: their entries and the IDs that order them.

use vstd::prelude::*;
use vstd::slice::slice_subrange;
use vstd::utf8::valid_utf8;
use crate::bytes::{bytes_of, is_text, is_utf8};
use crate::error::{invalid_data, Error, ErrorKind};
use crate::number::{
    decimal, digits_value, is_all_digits, is_digit, is_digits, law_decimal_is_read_back,
    read_digits, write_decimal,
};

verus! {

/// The ID of a stream entry.
#[derive(Clone, Copy, Debug, PartialEq, Eq, Structural, PartialOrd, Ord)]
pub struct StreamId {
    pub milliseconds: u64,
    pub sequence_number: u64,
}

/// The ID that a client asks for when it adds an entry.
#[derive(Clone, Copy, Debug, PartialEq, Eq, Structural)]
pub enum StreamIdSpec {
    /// Exactly this ID.
    Explicit(StreamId),
    /// This time, and the next free sequence number.
    AutoSequence(u64),
    /// The current time, and the next free sequence number.
    Auto,
}

/// Why an entry was not added.
#[derive(Clone, Copy, Debug, PartialEq, Eq, Structural)]
pub enum XaddError {
    /// The key holds something other than a stream.
    WrongType,
    /// The ID does not come after the stream's last ID.
    IdNotGreater,
    /// The ID is to be made from the wall clock, which shows no usable time.
    ClockUnavailable,
}

impl StreamId {
    /// The least ID.
    #[verifier::allow_in_spec]
    pub fn zero() -> StreamId
        returns
            (StreamId { milliseconds: 0, sequence_number: 0 }),
    {
        StreamId { milliseconds: 0, sequence_number: 0 }
    }

    /// The greatest ID.
    #[verifier::allow_in_spec]
    pub fn max() -> StreamId
        returns
            (StreamId { milliseconds: u64::MAX, sequence_number: u64::MAX }),
    {
        StreamId { milliseconds: u64::MAX, sequence_number: u64::MAX }
    }

    /// The order of IDs: by time, then by sequence number.
    pub open spec fn before(self, other: StreamId) -> bool {
        ||| self.milliseconds < other.milliseconds
        ||| self.milliseconds == other.milliseconds && self.sequence_number < other.sequence_number
    }

    /// Whether this ID comes before `other`.
    pub fn precedes(&self, other: &StreamId) -> (result: bool)
        ensures
            result == self.before(*other),
    {
        self.milliseconds < other.milliseconds || (self.milliseconds == other.milliseconds
            && self.sequence_number < other.sequence_number)
    }
}

/// An entry of a stream: its ID and its fields with their values.
#[derive(Debug)]
pub struct StreamEntry {
    pub id: StreamId,
    pub fields: Vec<(Vec<u8>, Vec<u8>)>,
}

/// What a [`StreamEntry`] stands for.
pub struct StreamEntryView {
    pub id: StreamId,
    pub fields: Seq<(Seq<u8>, Seq<u8>)>,
}

/// The fields and values that a list of pairs holds.
pub open spec fn pair_contents(pairs: Seq<(Vec<u8>, Vec<u8>)>) -> Seq<(Seq<u8>, Seq<u8>)> {
    Seq::new(pairs.len(), |i: int| (pairs[i].0@, pairs[i].1@))
}

impl View for StreamEntry {
    type V = StreamEntryView;

    open spec fn view(&self) -> StreamEntryView {
        StreamEntryView { id: self.id, fields: pair_contents(self.fields@) }
    }
}

/// The entries that a list holds.
pub open spec fn entry_contents(entries: Seq<StreamEntry>) -> Seq<StreamEntryView> {
    Seq::new(entries.len(), |i: int| entries[i]@)
}

/// The entries of one stream that a read selected.
#[derive(Debug)]
pub struct StreamReadResult {
    pub key: Vec<u8>,
    pub entries: Vec<StreamEntry>,
}

/// The key and the entries of each result in a list.
pub open spec fn read_contents(results: Seq<StreamReadResult>) -> Seq<
    (Seq<u8>, Seq<StreamEntryView>),
> {
    Seq::new(results.len(), |i: int| (results[i].key@, entry_contents(results[i].entries@)))
}

/// The index of the first dash of a text, or its length where it has none.
pub open spec fn dash_index(text: Seq<u8>) -> int
    decreases text.len(),
{
    if text.len() == 0 {
        0
    } else if text[0] == 45 {
        0
    } else {
        1 + dash_index(text.drop_first())
    }
}

/// The number that a text of digits denotes, if it fits a `u64`.
pub open spec fn id_part(text: Seq<u8>) -> Option<u64> {
    if is_digits(text) && digits_value(text) <= u64::MAX {
        Some(digits_value(text) as u64)
    } else {
        None
    }
}

/// The ID that a text denotes: a time and a sequence number with a dash between them, or only a
/// time, to which `default_sequence` is added.
pub open spec fn id_bound(text: Seq<u8>, default_sequence: u64) -> Option<StreamId> {
    let dash = dash_index(text);
    if dash < text.len() {
        match (id_part(text.take(dash)), id_part(text.skip(dash + 1))) {
            (Some(milliseconds), Some(sequence_number)) => Some(
                StreamId { milliseconds, sequence_number },
            ),
            _ => None,
        }
    } else {
        match id_part(text) {
            Some(milliseconds) => Some(
                StreamId { milliseconds, sequence_number: default_sequence },
            ),
            None => None,
        }
    }
}

/// The message about a part of an ID that is no number of 64 bits.
pub open spec fn id_part_complaint(text: Seq<u8>) -> Seq<char> {
    if is_digits(text) {
        "invalid Stream ID"@
    } else {
        "invalid stream ID"@
    }
}

/// The ID that a text asks for, or the message that rejects it.
pub open spec fn id_request(text: Seq<u8>) -> Result<StreamIdSpec, Seq<char>> {
    let dash = dash_index(text);
    if text == bytes_of("*") {
        Ok(StreamIdSpec::Auto)
    } else if !valid_utf8(text) || dash == text.len() {
        Err("invalid stream id"@)
    } else {
        let sequence_text = text.skip(dash + 1);
        match id_part(text.take(dash)) {
            None => Err(id_part_complaint(text.take(dash))),
            Some(milliseconds) => if sequence_text == bytes_of("*") {
                Ok(StreamIdSpec::AutoSequence(milliseconds))
            } else {
                match id_part(sequence_text) {
                    None => Err(id_part_complaint(sequence_text)),
                    Some(sequence_number) => Ok(
                        StreamIdSpec::Explicit(StreamId { milliseconds, sequence_number }),
                    ),
                }
            },
        }
    }
}

/// The written form of an ID.
pub open spec fn id_bytes(id: StreamId) -> Seq<u8> {
    decimal(id.milliseconds as nat) + seq![45u8] + decimal(id.sequence_number as nat)
}

/// The ID that follows `last` at the same time, if there is one.
pub open spec fn successor(last: StreamId) -> Result<StreamId, XaddError> {
    if last.sequence_number < u64::MAX {
        Ok(
            StreamId {
                milliseconds: last.milliseconds,
                sequence_number: (last.sequence_number + 1) as u64,
            },
        )
    } else {
        Err(XaddError::IdNotGreater)
    }
}

/// The ID that a new entry gets in a stream whose last ID is `last`, where the wall clock shows
/// `unix_milliseconds`.
pub open spec fn resolved_id(
    spec: StreamIdSpec,
    last: Option<StreamId>,
    unix_milliseconds: Option<u64>,
) -> Result<StreamId, XaddError> {
    match spec {
        StreamIdSpec::Explicit(id) => match last {
            Some(last) if !last.before(id) => Err(XaddError::IdNotGreater),
            _ => Ok(id),
        },
        StreamIdSpec::AutoSequence(milliseconds) => match last {
            None => Ok(
                StreamId {
                    milliseconds,
                    sequence_number: if milliseconds == 0 {
                        1
                    } else {
                        0
                    },
                },
            ),
            Some(last) => if milliseconds < last.milliseconds {
                Err(XaddError::IdNotGreater)
            } else if milliseconds == last.milliseconds {
                successor(last)
            } else {
                Ok(StreamId { milliseconds, sequence_number: 0 })
            },
        },
        StreamIdSpec::Auto => match (unix_milliseconds, last) {
            (None, _) => Err(XaddError::ClockUnavailable),
            (Some(now), Some(last)) if now <= last.milliseconds => successor(last),
            (Some(now), _) => Ok(StreamId { milliseconds: now, sequence_number: 0 }),
        },
    }
}

fn find_dash(text: &[u8]) -> (index: usize)
    ensures
        index == dash_index(text@),
        index <= text@.len(),
        index < text@.len() ==> text@[index as int] == 45,
{
    let mut index: usize = 0;
    assert(text@.skip(0) =~= text@);
    while index < text.len() && text[index] != 45
        invariant
            index <= text@.len(),
            dash_index(text@) == index + dash_index(text@.skip(index as int)),
        decreases text@.len() - index,
    {
        assert(text@.skip(index as int).drop_first() =~= text@.skip(index + 1));
        index = index + 1;
    }
    index
}

fn read_id_part(text: &[u8]) -> (result: Option<u64>)
    ensures
        result == id_part(text@),
{
    assert(text@.skip(0) =~= text@);
    read_digits(text, 0, u64::MAX)
}

fn reject_id_part(text: &[u8]) -> (error: Error)
    ensures
        error.kind == ErrorKind::InvalidData,
        error.message@ == id_part_complaint(text@),
{
    if is_all_digits(text) {
        invalid_data("invalid Stream ID")
    } else {
        invalid_data("invalid stream ID")
    }
}

/// Reads the ID that a client asks for when it adds an entry.
pub fn parse_stream_id_spec(bytes: &[u8]) -> (result: Result<StreamIdSpec, Error>)
    ensures
        match (result, id_request(bytes@)) {
            (Ok(spec), Ok(expected)) => spec == expected,
            (Err(error), Err(message)) => {
                &&& error.kind == ErrorKind::InvalidData
                &&& error.message@ == message
            },
            _ => false,
        },
{
    if is_text(bytes, "*") {
        return Ok(StreamIdSpec::Auto);
    }
    let dash = find_dash(bytes);
    if !is_utf8(bytes) || dash == bytes.len() {
        return Err(invalid_data("invalid stream id"));
    }
    let milliseconds_text = slice_subrange(bytes, 0, dash);
    let sequence_text = slice_subrange(bytes, dash + 1, bytes.len());
    assert(milliseconds_text@ =~= bytes@.take(dash as int));
    assert(sequence_text@ =~= bytes@.skip(dash + 1));
    match read_id_part(milliseconds_text) {
        None => Err(reject_id_part(milliseconds_text)),
        Some(milliseconds) => if is_text(sequence_text, "*") {
            Ok(StreamIdSpec::AutoSequence(milliseconds))
        } else {
            match read_id_part(sequence_text) {
                None => Err(reject_id_part(sequence_text)),
                Some(sequence_number) => Ok(
                    StreamIdSpec::Explicit(StreamId { milliseconds, sequence_number }),
                ),
            }
        },
    }
}

/// Reads an ID that bounds a range of entries.
pub fn parse_xrange_bound(bytes: &[u8], default_sequence: u64) -> (result: Result<StreamId, Error>)
    ensures
        match result {
            Ok(id) => id_bound(bytes@, default_sequence) == Some(id),
            Err(error) => {
                &&& id_bound(bytes@, default_sequence) is None
                &&& error.is_invalid_data("invalid stream id")
            },
        },
{
    let dash = find_dash(bytes);
    if dash < bytes.len() {
        let milliseconds_text = slice_subrange(bytes, 0, dash);
        let sequence_text = slice_subrange(bytes, dash + 1, bytes.len());
        assert(milliseconds_text@ =~= bytes@.take(dash as int));
        assert(sequence_text@ =~= bytes@.skip(dash + 1));
        match (read_id_part(milliseconds_text), read_id_part(sequence_text)) {
            (Some(milliseconds), Some(sequence_number)) => Ok(
                StreamId { milliseconds, sequence_number },
            ),
            _ => Err(invalid_data("invalid stream id")),
        }
    } else {
        match read_id_part(bytes) {
            Some(milliseconds) => Ok(StreamId { milliseconds, sequence_number: default_sequence }),
            None => Err(invalid_data("invalid stream id")),
        }
    }
}

fn next_sequence_number(last_id: &StreamId) -> (result: Result<StreamId, XaddError>)
    ensures
        result == successor(*last_id),
{
    match last_id.sequence_number.checked_add(1) {
        Some(sequence_number) => Ok(
            StreamId { milliseconds: last_id.milliseconds, sequence_number },
        ),
        None => Err(XaddError::IdNotGreater),
    }
}

/// Checks the ID that a client gave, or makes the one that it asked for.
pub fn resolve_stream_id(
    spec: StreamIdSpec,
    last_id: Option<&StreamId>,
    unix_milliseconds: Option<u64>,
) -> (result: Result<StreamId, XaddError>)
    ensures
        result == resolved_id(
            spec,
            (match last_id {
                Some(id) => Some(*id),
                None => None,
            }),
            unix_milliseconds,
        ),
{
    match spec {
        StreamIdSpec::Explicit(id) => match last_id {
            Some(last_id) => if last_id.precedes(&id) {
                Ok(id)
            } else {
                Err(XaddError::IdNotGreater)
            },
            None => Ok(id),
        },
        StreamIdSpec::AutoSequence(milliseconds) => match last_id {
            None => {
                let sequence_number: u64 = if milliseconds == 0 {
                    1
                } else {
                    0
                };
                Ok(StreamId { milliseconds, sequence_number })
            },
            Some(last_id) => if milliseconds < last_id.milliseconds {
                Err(XaddError::IdNotGreater)
            } else if milliseconds == last_id.milliseconds {
                next_sequence_number(last_id)
            } else {
                Ok(StreamId { milliseconds, sequence_number: 0 })
            },
        },
        StreamIdSpec::Auto => match unix_milliseconds {
            None => Err(XaddError::ClockUnavailable),
            Some(now) => match last_id {
                None => Ok(StreamId { milliseconds: now, sequence_number: 0 }),
                Some(last_id) => if now > last_id.milliseconds {
                    Ok(StreamId { milliseconds: now, sequence_number: 0 })
                } else {
                    next_sequence_number(last_id)
                },
            },
        },
    }
}

/// Writes an ID.
pub fn stream_id_to_bytes(id: StreamId) -> (result: Vec<u8>)
    ensures
        result@ == id_bytes(id),
{
    let mut result: Vec<u8> = Vec::new();
    write_decimal(&mut result, id.milliseconds as u128);
    result.push(45);
    write_decimal(&mut result, id.sequence_number as u128);
    assert(result@ =~= id_bytes(id));
    result
}

/// IDs are totally ordered.
pub proof fn law_ids_are_ordered(a: StreamId, b: StreamId, c: StreamId)
    ensures
        !a.before(a),
        a.before(b) && b.before(c) ==> a.before(c),
        a == b || a.before(b) || b.before(a),
        !a.before(StreamId::zero()),
        !StreamId::max().before(a),
{
}

/// A new entry's ID comes after the stream's last ID, whichever way it is asked for.
pub proof fn law_resolved_id_follows(
    spec: StreamIdSpec,
    last: StreamId,
    unix_milliseconds: Option<u64>,
)
    ensures
        resolved_id(spec, Some(last), unix_milliseconds) matches Ok(id) ==> last.before(id),
{
}

/// Where only the time of an ID is given, the entry gets the least ID of that time that comes
/// after the stream's last ID, or after the least ID of all in an empty stream; it is refused only
/// where there is no such ID.
pub proof fn law_auto_sequence_is_least(
    milliseconds: u64,
    last: Option<StreamId>,
    unix_milliseconds: Option<u64>,
    other: StreamId,
)
    requires
        other.milliseconds == milliseconds,
        (match last {
            Some(last) => last,
            None => StreamId::zero(),
        }).before(other),
    ensures
        resolved_id(StreamIdSpec::AutoSequence(milliseconds), last, unix_milliseconds) matches Ok(
            id,
        ) && id.milliseconds == milliseconds && !other.before(id),
{
}

/// An ID that the server makes is the least one that is not before the current time and comes
/// after the stream's last ID.
pub proof fn law_auto_id_is_least(now: u64, last: Option<StreamId>, other: StreamId)
    requires
        other.milliseconds >= now,
        last matches Some(last) ==> last.before(other),
    ensures
        resolved_id(StreamIdSpec::Auto, last, Some(now)) matches Ok(id) ==> id.milliseconds >= now
            && !other.before(id),
{
}

proof fn lemma_dash_index_after_digits(digits: Seq<u8>, rest: Seq<u8>)
    requires
        forall|i: int| 0 <= i < digits.len() ==> is_digit(#[trigger] digits[i]),
    ensures
        dash_index(digits + seq![45u8] + rest) == digits.len(),
    decreases digits.len(),
{
    let text = digits + seq![45u8] + rest;
    if digits.len() > 0 {
        assert(is_digit(digits[0]));
        assert(text.drop_first() =~= digits.drop_first() + seq![45u8] + rest);
        assert forall|i: int| 0 <= i < digits.drop_first().len() implies is_digit(
            #[trigger] digits.drop_first()[i],
        ) by {
            assert(digits.drop_first()[i] == digits[i + 1]);
        }
        lemma_dash_index_after_digits(digits.drop_first(), rest);
    }
}

proof fn lemma_ascii_is_valid_utf8(bytes: Seq<u8>)
    requires
        forall|i: int| 0 <= i < bytes.len() ==> #[trigger] bytes[i] < 128,
    ensures
        valid_utf8(bytes),
{
    let chars = Seq::new(bytes.len(), |i: int| bytes[i] as char);
    assert forall|i: int| 0 <= i < chars.len() implies '\0' <= #[trigger] chars[i] <= '\u{7f}' by {
        assert(bytes[i] < 128);
    }
    vstd::utf8::is_ascii_chars_encode_utf8(chars);
    vstd::utf8::encode_utf8_valid_utf8(chars);
    assert forall|i: int| 0 <= i < bytes.len() implies bytes[i] == vstd::utf8::encode_utf8(
        chars,
    )[i] by {
        assert(bytes[i] < 128);
        assert(chars[i] as u8 == vstd::utf8::encode_utf8(chars)[i]);
    }
    assert(vstd::utf8::encode_utf8(chars) =~= bytes);
}

/// An ID that was written reads back as it was, as the bound of a range and as the ID of a new
/// entry.
pub proof fn law_id_reads_back(id: StreamId, default_sequence: u64)
    ensures
        id_bound(id_bytes(id), default_sequence) == Some(id),
        id_request(id_bytes(id)) == Ok::<StreamIdSpec, Seq<char>>(StreamIdSpec::Explicit(id)),
{
    let text = id_bytes(id);
    let milliseconds = decimal(id.milliseconds as nat);
    let sequence_number = decimal(id.sequence_number as nat);
    law_decimal_is_read_back(id.milliseconds as nat);
    law_decimal_is_read_back(id.sequence_number as nat);
    lemma_dash_index_after_digits(milliseconds, sequence_number);
    let dash = dash_index(text);
    assert(text.take(dash) =~= milliseconds);
    assert(text.skip(dash + 1) =~= sequence_number);
    assert forall|i: int| 0 <= i < text.len() implies #[trigger] text[i] < 128 by {
        if i < dash {
            assert(is_digit(milliseconds[i]));
        } else if i > dash {
            assert(is_digit(sequence_number[i - dash - 1]));
        }
    }
    lemma_ascii_is_valid_utf8(text);
    reveal_strlit("*");
    assert(vstd::string::is_ascii("*"));
    assert(bytes_of("*") =~= seq![42u8]);
    assert(is_digit(sequence_number[0]));
    assert(text.len() > 1);
}

} // verus!
