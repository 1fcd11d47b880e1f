//! Laws of texts, numbers and what is written on the wire, digit by digit and byte by byte.

use vstd::prelude::*;
use crate::bytes::{bytes_of, is_word, lowercase, same_ignoring_case};
use crate::clock::milliseconds_of;
use crate::encode::{
    array, array_header, bulk_header, bulk_string, bulk_strings, crlf, field_strings, integer,
    stream_entries, stream_entry, stream_entry_list, stream_list, xread_response,
};
use crate::number::{
    decimal, digits_value, i64_value, is_digit, is_digits, signed_decimal, unsigned_upto,
};
use crate::reply::{is_named, null_array, null_bulk_string, wrong_type};
use crate::stream::{id_bytes, StreamEntryView, StreamId};
use crate::transaction::joined;

verus! {

/// A text of ASCII characters is written with one byte for each, its code.
pub proof fn law_text_is_written_by_codes(text: &str)
    requires
        vstd::string::is_ascii(text),
    ensures
        bytes_of(text).len() == text@.len(),
        forall|i: int| 0 <= i < text@.len() ==> #[trigger] bytes_of(text)[i] == text@[i] as u8,
{
}

/// Two byte strings are the same up to case exactly where each byte of the one is that of the
/// other, or the same letter of the Latin alphabet in the other case.
pub proof fn law_case_of_letters_is_ignored(a: Seq<u8>, b: Seq<u8>)
    ensures
        same_ignoring_case(a, b) <==> a.len() == b.len() && forall|i: int|
            #![trigger a[i]]
            #![trigger b[i]]
            0 <= i < a.len() ==> {
                ||| a[i] == b[i]
                ||| 65 <= a[i] <= 90 && b[i] == a[i] + 32
                ||| 97 <= a[i] <= 122 && b[i] == a[i] - 32
            },
{
    if a.len() == b.len() && forall|i: int|
        #![trigger a[i]]
        #![trigger b[i]]
        0 <= i < a.len() ==> {
            ||| a[i] == b[i]
            ||| 65 <= a[i] <= 90 && b[i] == a[i] + 32
            ||| 97 <= a[i] <= 122 && b[i] == a[i] - 32
        } {
        assert(same_ignoring_case(a, b));
    }
    if same_ignoring_case(a, b) {
        assert forall|i: int| #![trigger b[i]] 0 <= i < a.len() implies {
            ||| a[i] == b[i]
            ||| 65 <= a[i] <= 90 && b[i] == a[i] + 32
            ||| 97 <= a[i] <= 122 && b[i] == a[i] - 32
        } by {
            assert(lowercase(a[i]) == lowercase(b[i]));
        }
    }
}

/// A command has the name that its first word spells, in any case of its letters.
pub proof fn law_name_is_the_first_word(command: Seq<Seq<u8>>, name: &str)
    ensures
        is_named(command, name) <==> command.len() > 0 && same_ignoring_case(
            command[0],
            bytes_of(name),
        ),
        command.len() > 0 ==> is_word(command[0], name) == is_named(command, name),
{
}

/// Digits are those of the decimal system, and a digit at the end of a numeral adds its value to
/// ten times that of the numeral before it.
pub proof fn law_digits_are_decimal(text: Seq<u8>, byte: u8)
    ensures
        is_digit(byte) <==> 48 <= byte <= 57,
        digits_value(Seq::empty()) == 0,
        is_digit(byte) ==> digits_value(text.push(byte)) == 10 * digits_value(text) + byte - 48,
        is_digits(text) <==> text.len() > 0 && forall|i: int|
            0 <= i < text.len() ==> 48 <= #[trigger] text[i] <= 57,
{
    assert(text.push(byte).drop_last() =~= text);
    if text.len() > 0 && forall|i: int| 0 <= i < text.len() ==> 48 <= #[trigger] text[i] <= 57 {
        assert(is_digits(text));
    }
    if is_digits(text) {
        assert forall|i: int| 0 <= i < text.len() implies 48 <= #[trigger] text[i] <= 57 by {
            assert(is_digit(text[i]));
        }
    }
}

/// A text denotes an unsigned number exactly where it is one or more digits, with or without a
/// plus sign before them. Nothing else does, and no number above the bound.
pub proof fn law_unsigned_numerals(text: Seq<u8>, max: nat)
    ensures
        ({
            let digits = if text.len() > 0 && text[0] == 43 {
                text.skip(1)
            } else {
                text
            };
            unsigned_upto(text, max) == (if is_digits(digits) && digits_value(digits) <= max {
                Some(digits_value(digits))
            } else {
                None
            })
        }),
{
    if text.len() > 0 {
        assert(text.skip(1) =~= text.drop_first());
    }
}

/// A text denotes a signed number of 64 bits exactly where it is one or more digits, with or
/// without one sign before them, and the number is not too great or too small.
pub proof fn law_signed_numerals(text: Seq<u8>)
    ensures
        ({
            let has_sign = text.len() > 0 && (text[0] == 43 || text[0] == 45);
            let digits = if has_sign {
                text.skip(1)
            } else {
                text
            };
            let number = if has_sign && text[0] == 45 {
                -digits_value(digits)
            } else {
                digits_value(digits) as int
            };
            i64_value(text) == (if is_digits(digits) && -0x8000_0000_0000_0000 <= number
                <= 0x7fff_ffff_ffff_ffff {
                Some(number)
            } else {
                None
            })
        }),
{
    if text.len() > 0 {
        assert(text.skip(1) =~= text.drop_first());
    }
}

/// A number is written in decimal digits, the last of which is its remainder by ten, without
/// zeros before it, and a negative one after a minus sign.
pub proof fn law_numbers_are_written_in_decimal(value: nat, digit: nat)
    requires
        digit < 10,
    ensures
        decimal(digit) == seq![(48 + digit) as u8],
        value > 0 ==> decimal(10 * value + digit) == decimal(value).push((48 + digit) as u8),
        signed_decimal(value as int) == decimal(value),
        value > 0 ==> signed_decimal(-value) == seq![45u8] + decimal(value),
{
    assert((10 * value + digit) / 10 == value);
    assert((10 * value + digit) % 10 == digit);
    if value > 0 {
        assert(decimal(10 * value + digit) =~= decimal(value).push((48 + digit) as u8));
    }
    assert(decimal(digit) =~= seq![(48 + digit) as u8]);
}

/// An integer stands between a colon and the end of its line. A byte string stands after its
/// length and before the end of a line, an array after the number of its items.
pub proof fn law_values_are_framed(number: int, value: Seq<u8>, length: nat)
    ensures
        integer(number) == seq![58u8] + signed_decimal(number) + seq![13u8, 10u8],
        bulk_header(length) == seq![36u8] + decimal(length) + seq![13u8, 10u8],
        bulk_string(value) == seq![36u8] + decimal(value.len()) + seq![13u8, 10u8] + value
            + seq![13u8, 10u8],
        array_header(length) == seq![42u8] + decimal(length) + seq![13u8, 10u8],
        crlf() == seq![13u8, 10u8],
{
}

/// The items of an array stand one after the other, in their order: one more item stands behind
/// those before it, and none is left out.
pub proof fn law_items_stand_in_order(values: Seq<Seq<u8>>, value: Seq<u8>)
    ensures
        array(Seq::empty()) == array_header(0),
        array(values) == array_header(values.len()) + bulk_strings(values),
        bulk_strings(values.push(value)) == bulk_strings(values) + bulk_string(value),
        joined(values.push(value)) == joined(values) + value,
        joined(Seq::empty()) == Seq::<u8>::empty(),
        bulk_strings(Seq::empty()) == Seq::<u8>::empty(),
{
    assert(values.push(value).drop_last() =~= values);
    assert(array(Seq::empty()) =~= array_header(0));
}

/// A stream entry is written as an array of two: its ID, and the array of its fields and values in
/// turn. Entries stand one after the other in their order.
pub proof fn law_entries_are_written(
    entries: Seq<StreamEntryView>,
    id: StreamId,
    fields: Seq<(Seq<u8>, Seq<u8>)>,
    field: (Seq<u8>, Seq<u8>),
)
    ensures
        id_bytes(id) == decimal(id.milliseconds as nat) + seq![45u8] + decimal(
            id.sequence_number as nat,
        ),
        field_strings(Seq::empty()) == Seq::<u8>::empty(),
        field_strings(fields.push(field)) == field_strings(fields) + bulk_string(field.0)
            + bulk_string(field.1),
        ({
            let entry = StreamEntryView { id, fields };
            &&& stream_entry(entry) == array_header(2) + bulk_string(id_bytes(id)) + array_header(
                2 * fields.len(),
            ) + field_strings(fields)
            &&& stream_entry_list(entries.push(entry)) == stream_entry_list(entries)
                + stream_entry(entry)
        }),
        stream_entry_list(Seq::empty()) == Seq::<u8>::empty(),
        stream_entries(entries) == array_header(entries.len()) + stream_entry_list(entries),
{
    assert(fields.push(field).drop_last() =~= fields);
    let entry = StreamEntryView { id, fields };
    assert(entries.push(entry).drop_last() =~= entries);
}

/// Streams that were read are written as an array, each as an array of two: its key and its
/// entries. They stand one after the other in their order.
pub proof fn law_streams_are_written(
    streams: Seq<(Seq<u8>, Seq<StreamEntryView>)>,
    key: Seq<u8>,
    entries: Seq<StreamEntryView>,
)
    ensures
        stream_list(Seq::empty()) == Seq::<u8>::empty(),
        stream_list(streams.push((key, entries))) == stream_list(streams) + array_header(2)
            + bulk_string(key) + stream_entries(entries),
        xread_response(streams) == array_header(streams.len()) + stream_list(streams),
{
    assert(streams.push((key, entries)).drop_last() =~= streams);
}

/// The replies that stand for nothing and for a value of the wrong type are these.
pub proof fn law_fixed_replies()
    ensures
        null_bulk_string() == seq![36u8, 45u8, 49u8, 13u8, 10u8],
        null_array() == seq![42u8, 45u8, 49u8, 13u8, 10u8],
        wrong_type() == bytes_of(
            "-WRONGTYPE Operation against a key holding the wrong kind of value\r\n",
        ),
{
    reveal_strlit("$-1\r\n");
    reveal_strlit("*-1\r\n");
    law_text_is_written_by_codes("$-1\r\n");
    law_text_is_written_by_codes("*-1\r\n");
    assert(null_bulk_string() =~= seq![36u8, 45u8, 49u8, 13u8, 10u8]);
    assert(null_array() =~= seq![42u8, 45u8, 49u8, 13u8, 10u8]);
}

/// The milliseconds of a reading are those that have passed in full, and there are none where the
/// clock stands before the epoch or where they do not fit 64 bits.
pub proof fn law_milliseconds_have_passed(seconds: u64, nanoseconds: u32)
    ensures
        milliseconds_of(None) is None,
        match milliseconds_of(Some((seconds, nanoseconds))) {
            Some(milliseconds) => milliseconds * 1_000_000 <= seconds * 1_000_000_000 + nanoseconds
                < (milliseconds + 1) * 1_000_000,
            None => seconds * 1_000_000_000 + nanoseconds >= 0x1_0000_0000_0000_0000 * 1_000_000,
        },
{
}

} // verus!
