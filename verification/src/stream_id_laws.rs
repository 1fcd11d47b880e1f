//! Laws of stream IDs: how they are ordered, read and given to entries.

use vstd::prelude::*;
use vstd::utf8::valid_utf8;
use crate::bytes::bytes_of;
use crate::number::{digits_value, is_digits};
use crate::stream::{
    dash_index, id_bound, id_request, resolved_id, StreamId, StreamIdSpec, XaddError,
};

verus! {

/// IDs are ordered as numbers of which the time is the upper half and the sequence number the
/// lower. There is a least and a greatest.
pub proof fn law_ids_are_ordered_as_numbers(a: StreamId, b: StreamId)
    ensures
        a.before(b) <==> a.milliseconds * 0x1_0000_0000_0000_0000 + a.sequence_number
            < b.milliseconds * 0x1_0000_0000_0000_0000 + b.sequence_number,
        StreamId::zero().milliseconds == 0 && StreamId::zero().sequence_number == 0,
        StreamId::max().milliseconds == 0xffff_ffff_ffff_ffff,
        StreamId::max().sequence_number == 0xffff_ffff_ffff_ffff,
{
}

/// An entry gets exactly the ID that is given for it, where the stream is empty or the ID comes
/// after the last one. Otherwise it is refused.
pub proof fn law_given_id_is_taken(
    id: StreamId,
    last: Option<StreamId>,
    unix_milliseconds: Option<u64>,
)
    ensures
        ({
            let resolved = resolved_id(StreamIdSpec::Explicit(id), last, unix_milliseconds);
            match last {
                None => resolved == Ok::<StreamId, XaddError>(id),
                Some(last) => if last.before(id) {
                    resolved == Ok::<StreamId, XaddError>(id)
                } else {
                    resolved == Err::<StreamId, XaddError>(XaddError::IdNotGreater)
                },
            }
        }),
{
}

/// Where only the time of an ID is given, the entry gets an ID of that time that comes after the
/// last one, or after the least ID of all in an empty stream, and no ID that does so comes before
/// it. It is refused exactly where there is none.
pub proof fn law_given_time_is_taken(
    milliseconds: u64,
    last: Option<StreamId>,
    unix_milliseconds: Option<u64>,
    other: StreamId,
)
    ensures
        ({
            let after = match last {
                Some(last) => last,
                None => StreamId { milliseconds: 0, sequence_number: 0 },
            };
            match resolved_id(StreamIdSpec::AutoSequence(milliseconds), last, unix_milliseconds) {
                Ok(id) => {
                    &&& id.milliseconds == milliseconds
                    &&& after.before(id)
                    &&& other.milliseconds == milliseconds && after.before(other)
                        ==> id.sequence_number <= other.sequence_number
                },
                Err(error) => error == XaddError::IdNotGreater && !(other.milliseconds
                    == milliseconds && after.before(other)),
            }
        }),
{
}

/// An ID that the server makes has the current time and the number zero, where that comes after the
/// last ID. Otherwise it is the one right after the last ID at the same time, if there is one.
pub proof fn law_made_id_goes_by_the_clock(now: u64, last: Option<StreamId>)
    ensures
        resolved_id(StreamIdSpec::Auto, last, None) == Err::<StreamId, XaddError>(
            XaddError::ClockUnavailable,
        ),
        match (last, resolved_id(StreamIdSpec::Auto, last, Some(now))) {
            (None, resolved) => resolved matches Ok(id) && id.milliseconds == now
                && id.sequence_number == 0,
            (Some(last), Ok(id)) => if now > last.milliseconds {
                id.milliseconds == now && id.sequence_number == 0
            } else {
                id.milliseconds == last.milliseconds && id.sequence_number == last.sequence_number
                    + 1
            },
            (Some(last), Err(error)) => error == XaddError::IdNotGreater && now
                <= last.milliseconds && last.sequence_number == 0xffff_ffff_ffff_ffff,
        },
{
}

proof fn lemma_dash_index(text: Seq<u8>)
    ensures
        0 <= dash_index(text) <= text.len(),
        dash_index(text) < text.len() ==> text[dash_index(text)] == 45,
        forall|i: int| 0 <= i < dash_index(text) ==> #[trigger] text[i] != 45,
    decreases text.len(),
{
    if text.len() > 0 && text[0] != 45 {
        let rest = text.drop_first();
        lemma_dash_index(rest);
        assert forall|i: int| 0 <= i < dash_index(text) implies #[trigger] text[i] != 45 by {
            if i > 0 {
                assert(rest[i - 1] == text[i]);
            }
        }
        if dash_index(text) < text.len() {
            assert(rest[dash_index(rest)] == text[dash_index(text)]);
        }
    }
}

proof fn lemma_dash_is_first(text: Seq<u8>, dash: int)
    requires
        0 <= dash <= text.len(),
        dash < text.len() ==> text[dash] == 45,
        forall|i: int| 0 <= i < dash ==> #[trigger] text[i] != 45,
    ensures
        dash_index(text) == dash,
{
    lemma_dash_index(text);
    let found = dash_index(text);
    if found < dash {
        assert(text[found] != 45);
    }
}

/// Where a bound is one number, it is a time, to which the given sequence number is added. A text
/// without a dash that is not a number of 64 bits is no bound.
pub proof fn law_bound_of_one_number(text: Seq<u8>, default_sequence: u64)
    requires
        forall|i: int| 0 <= i < text.len() ==> #[trigger] text[i] != 45,
    ensures
        match id_bound(text, default_sequence) {
            Some(id) => {
                &&& is_digits(text)
                &&& id.milliseconds == digits_value(text)
                &&& id.sequence_number == default_sequence
            },
            None => !is_digits(text) || digits_value(text) > 0xffff_ffff_ffff_ffff,
        },
{
    lemma_dash_is_first(text, text.len() as int);
}

/// Where a bound has a dash, what stands before the first one is the time, and what stands behind
/// it the sequence number. Both are numbers of 64 bits, or it is no bound.
pub proof fn law_bound_of_two_numbers(before: Seq<u8>, behind: Seq<u8>, default_sequence: u64)
    requires
        forall|i: int| 0 <= i < before.len() ==> #[trigger] before[i] != 45,
    ensures
        match id_bound(before + seq![45u8] + behind, default_sequence) {
            Some(id) => {
                &&& is_digits(before)
                &&& is_digits(behind)
                &&& id.milliseconds == digits_value(before)
                &&& id.sequence_number == digits_value(behind)
            },
            None => {
                ||| !is_digits(before)
                ||| !is_digits(behind)
                ||| digits_value(before) > 0xffff_ffff_ffff_ffff
                ||| digits_value(behind) > 0xffff_ffff_ffff_ffff
            },
        },
{
    let text = before + seq![45u8] + behind;
    assert forall|i: int| 0 <= i < before.len() implies #[trigger] text[i] != 45 by {
        assert(text[i] == before[i]);
    }
    lemma_dash_is_first(text, before.len() as int);
    assert(text.take(before.len() as int) =~= before);
    assert(text.skip(before.len() as int + 1) =~= behind);
}

/// What a client asks for when it adds an entry: a star asks for a whole ID; a number, a dash and
/// a star for an ID of that time; two numbers with a dash between them for this very ID. Anything
/// else is rejected, and so is what is not UTF-8 or a number of more than 64 bits.
pub proof fn law_requested_ids(before: Seq<u8>, behind: Seq<u8>)
    requires
        forall|i: int| 0 <= i < before.len() ==> #[trigger] before[i] != 45,
    ensures
        id_request(seq![42u8]) == Ok::<StreamIdSpec, Seq<char>>(StreamIdSpec::Auto),
        before != seq![42u8] ==> id_request(before) == Err::<StreamIdSpec, Seq<char>>(
            "invalid stream id"@,
        ),
        match id_request(before + seq![45u8] + behind) {
            Ok(StreamIdSpec::Auto) => false,
            Ok(StreamIdSpec::AutoSequence(milliseconds)) => {
                &&& is_digits(before)
                &&& milliseconds == digits_value(before)
                &&& behind == seq![42u8]
            },
            Ok(StreamIdSpec::Explicit(id)) => {
                &&& is_digits(before)
                &&& is_digits(behind)
                &&& id.milliseconds == digits_value(before)
                &&& id.sequence_number == digits_value(behind)
            },
            Err(message) => if !valid_utf8(before + seq![45u8] + behind) {
                message == "invalid stream id"@
            } else if !is_digits(before) {
                message == "invalid stream ID"@
            } else if digits_value(before) > 0xffff_ffff_ffff_ffff {
                message == "invalid Stream ID"@
            } else if !is_digits(behind) {
                message == "invalid stream ID"@ && behind != seq![42u8]
            } else {
                message == "invalid Stream ID"@ && digits_value(behind) > 0xffff_ffff_ffff_ffff
            },
        },
{
    let text = before + seq![45u8] + behind;
    reveal_strlit("*");
    assert(vstd::string::is_ascii("*"));
    assert(bytes_of("*") =~= seq![42u8]);
    assert forall|i: int| 0 <= i < before.len() implies #[trigger] text[i] != 45 by {
        assert(text[i] == before[i]);
    }
    lemma_dash_is_first(text, before.len() as int);
    lemma_dash_is_first(before, before.len() as int);
    assert(text.take(before.len() as int) =~= before);
    assert(text.skip(before.len() as int + 1) =~= behind);
    assert(text[before.len() as int] == 45);
    if text =~= seq![42u8] {
        assert(text.len() == 1);
        assert(before.len() == 0);
        assert(seq![42u8][0] == 42);
    }
}

} // verus!
