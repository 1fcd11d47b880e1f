//! Decimal numerals: reading and writing them.

use vstd::prelude::*;
use vstd::utf8::valid_utf8;
use crate::bytes::is_utf8;
use crate::error::{invalid_data, Error};

verus! {

/// An ASCII decimal digit.
pub open spec fn is_digit(byte: u8) -> bool {
    48 <= byte <= 57
}

/// A non-empty run of digits.
pub open spec fn is_digits(text: Seq<u8>) -> bool {
    &&& text.len() > 0
    &&& forall|i: int| 0 <= i < text.len() ==> is_digit(#[trigger] text[i])
}

/// The number that a run of digits denotes.
pub open spec fn digits_value(text: Seq<u8>) -> nat
    decreases text.len(),
{
    if text.len() == 0 {
        0
    } else {
        (digits_value(text.drop_last()) * 10 + (text.last() - 48)) as nat
    }
}

/// The number that an unsigned numeral denotes: digits after an optional plus sign.
pub open spec fn unsigned_value(text: Seq<u8>) -> Option<nat> {
    let digits = if text.len() > 0 && text[0] == 43 {
        text.drop_first()
    } else {
        text
    };
    if is_digits(digits) {
        Some(digits_value(digits))
    } else {
        None
    }
}

/// The number that a signed numeral denotes: digits after an optional plus or minus sign.
pub open spec fn signed_value(text: Seq<u8>) -> Option<int> {
    if text.len() > 0 && text[0] == 45 {
        let digits = text.drop_first();
        if is_digits(digits) {
            Some(-digits_value(digits))
        } else {
            None
        }
    } else {
        match unsigned_value(text) {
            Some(value) => Some(value as int),
            None => None,
        }
    }
}

/// The unsigned numeral's value, if it is at most `max`.
pub open spec fn unsigned_upto(text: Seq<u8>, max: nat) -> Option<nat> {
    match unsigned_value(text) {
        Some(value) if value <= max => Some(value),
        _ => None,
    }
}

/// The signed numeral's value, if it fits an `i64`.
pub open spec fn i64_value(text: Seq<u8>) -> Option<int> {
    match signed_value(text) {
        Some(value) if i64::MIN <= value <= i64::MAX => Some(value),
        _ => None,
    }
}

/// The digits of a number, without leading zeros.
pub open spec fn decimal(value: nat) -> Seq<u8>
    decreases value,
{
    if value < 10 {
        seq![(48 + value) as u8]
    } else {
        decimal(value / 10).push((48 + value % 10) as u8)
    }
}

/// The digits of an integer, after a minus sign where it is negative.
pub open spec fn signed_decimal(value: int) -> Seq<u8> {
    if value < 0 {
        seq![45u8] + decimal((-value) as nat)
    } else {
        decimal(value as nat)
    }
}

proof fn lemma_digits_value_grows(text: Seq<u8>, count: int)
    requires
        0 <= count <= text.len(),
        forall|i: int| 0 <= i < text.len() ==> is_digit(#[trigger] text[i]),
    ensures
        digits_value(text.take(count)) <= digits_value(text),
    decreases text.len(),
{
    if count == text.len() {
        assert(text.take(count) =~= text);
    } else {
        assert(text.take(count) =~= text.drop_last().take(count));
        assert forall|i: int| 0 <= i < text.drop_last().len() implies is_digit(
            #[trigger] text.drop_last()[i],
        ) by {
            assert(text.drop_last()[i] == text[i]);
        }
        lemma_digits_value_grows(text.drop_last(), count);
        assert(is_digit(text[text.len() - 1]));
    }
}

/// Writing a number and reading it back gives the number.
pub proof fn law_decimal_is_read_back(value: nat)
    ensures
        is_digits(decimal(value)),
        digits_value(decimal(value)) == value,
        unsigned_value(decimal(value)) == Some(value),
    decreases value,
{
    if value < 10 {
        reveal_with_fuel(digits_value, 2);
    } else {
        law_decimal_is_read_back(value / 10);
        assert(decimal(value).drop_last() =~= decimal(value / 10));
    }
    assert(is_digit(decimal(value)[0]));
}

/// Writing an integer and reading it back gives the integer.
pub proof fn law_signed_decimal_is_read_back(value: int)
    ensures
        signed_value(signed_decimal(value)) == Some(value),
{
    if value < 0 {
        law_decimal_is_read_back((-value) as nat);
        assert(signed_decimal(value).drop_first() =~= decimal((-value) as nat));
    } else {
        law_decimal_is_read_back(value as nat);
        assert(is_digit(decimal(value as nat)[0]));
    }
}

/// The value of the digits from index `from` on, if they are digits and denote at most `max`.
pub(crate) fn read_digits(text: &[u8], from: usize, max: u64) -> (result: Option<u64>)
    requires
        from <= text@.len(),
    ensures
        result matches Some(value) ==> {
            &&& is_digits(text@.skip(from as int))
            &&& digits_value(text@.skip(from as int)) == value
            &&& value <= max
        },
        result is None ==> !is_digits(text@.skip(from as int)) || digits_value(
            text@.skip(from as int),
        ) > max,
{
    let ghost digits = text@.skip(from as int);
    if from == text.len() {
        return None;
    }
    let mut value: u64 = 0;
    assert(digits.take(0).len() == 0);
    for i in from..text.len()
        invariant
            from <= text@.len(),
            digits == text@.skip(from as int),
            value == digits_value(digits.take(i - from)),
            value <= max,
            forall|j: int| 0 <= j < i - from ==> is_digit(#[trigger] digits[j]),
    {
        let byte = text[i];
        assert(digits[i - from] == byte);
        if byte < 48 || byte > 57 {
            return None;
        }
        let next: u128 = value as u128 * 10 + (byte - 48) as u128;
        assert(digits.take(i + 1 - from).drop_last() =~= digits.take(i - from));
        assert(next == digits_value(digits.take(i + 1 - from)));
        if next > max as u128 {
            proof {
                if is_digits(digits) {
                    lemma_digits_value_grows(digits, i + 1 - from);
                }
            }
            return None;
        }
        value = next as u64;
    }
    assert(digits.take(digits.len() as int) =~= digits);
    Some(value)
}

/// Whether a text is a non-empty run of digits.
pub(crate) fn is_all_digits(text: &[u8]) -> (result: bool)
    ensures
        result == is_digits(text@),
{
    for i in 0..text.len()
        invariant
            forall|j: int| 0 <= j < i ==> is_digit(#[trigger] text@[j]),
    {
        if text[i] < 48 || text[i] > 57 {
            assert(!is_digit(text@[i as int]));
            return false;
        }
    }
    text.len() > 0
}

/// Reads an unsigned numeral of at most `max`.
fn read_unsigned(text: &[u8], max: u64) -> (result: Option<u64>)
    ensures
        result matches Some(value) ==> unsigned_upto(text@, max as nat) == Some(value as nat),
        result is None ==> unsigned_upto(text@, max as nat) is None,
{
    if text.len() > 0 && text[0] == 43 {
        assert(text@.skip(1) =~= text@.drop_first());
        read_digits(text, 1, max)
    } else {
        assert(text@.skip(0) =~= text@);
        read_digits(text, 0, max)
    }
}

/// Reads a signed numeral that fits an `i64`.
pub fn read_i64(text: &[u8]) -> (result: Option<i64>)
    ensures
        result matches Some(value) ==> i64_value(text@) == Some(value as int),
        result is None ==> i64_value(text@) is None,
{
    if text.len() > 0 && text[0] == 45 {
        assert(text@.skip(1) =~= text@.drop_first());
        match read_digits(text, 1, 0x8000_0000_0000_0000) {
            Some(size) => Some((-(size as i128)) as i64),
            None => None,
        }
    } else {
        match read_unsigned(text, 0x7fff_ffff_ffff_ffff) {
            Some(value) => Some(value as i64),
            None => None,
        }
    }
}

/// Reads a count or a length.
pub fn parse_number(bytes: &[u8]) -> (result: Result<usize, Error>)
    ensures
        match result {
            Ok(value) => unsigned_upto(bytes@, usize::MAX as nat) == Some(value as nat),
            Err(error) => {
                &&& unsigned_upto(bytes@, usize::MAX as nat) is None
                &&& error.is_invalid_data("invalid number")
            },
        },
{
    match read_unsigned(bytes, usize::MAX as u64) {
        Some(value) => Ok(value as usize),
        None => Err(invalid_data("invalid number")),
    }
}

/// Reads a number of milliseconds.
pub fn parse_milliseconds(bytes: &[u8]) -> (result: Result<u64, Error>)
    ensures
        match result {
            Ok(value) => unsigned_upto(bytes@, u64::MAX as nat) == Some(value as nat),
            Err(error) => {
                &&& unsigned_upto(bytes@, u64::MAX as nat) is None
                &&& valid_utf8(bytes@) ==> error.is_invalid_data("invalid expiry")
                &&& !valid_utf8(bytes@) ==> error.is_invalid_data("invalid milliseconds")
            },
        },
{
    match read_unsigned(bytes, u64::MAX) {
        Some(value) => Ok(value),
        None => if is_utf8(bytes) {
            Err(invalid_data("invalid expiry"))
        } else {
            Err(invalid_data("invalid milliseconds"))
        },
    }
}

/// Reads an index into a list, which counts from the end where it is negative.
pub fn parse_list_index(bytes: &[u8]) -> (result: Result<i64, Error>)
    ensures
        match result {
            Ok(value) => i64_value(bytes@) == Some(value as int),
            Err(error) => {
                &&& i64_value(bytes@) is None
                &&& error.is_invalid_data("invalid list index")
            },
        },
{
    match read_i64(bytes) {
        Some(value) => Ok(value),
        None => Err(invalid_data("invalid list index")),
    }
}

/// Appends the digits of a number to a buffer.
pub fn write_decimal(out: &mut Vec<u8>, value: u128)
    ensures
        final(out)@ == old(out)@ + decimal(value as nat),
    decreases value,
{
    if value >= 10 {
        write_decimal(out, value / 10);
    }
    let digit: u8 = (value % 10) as u8;
    out.push(48 + digit);
    assert(out@ =~= old(out)@ + decimal(value as nat));
}

/// Appends an integer to a buffer.
pub fn write_signed_decimal(out: &mut Vec<u8>, value: i128)
    ensures
        final(out)@ == old(out)@ + signed_decimal(value as int),
{
    if value < 0 {
        out.push(45);
        let size: u128 = (-(value + 1)) as u128 + 1;
        write_decimal(out, size);
        assert(out@ =~= old(out)@ + signed_decimal(value as int));
    } else {
        write_decimal(out, value as u128);
    }
}

} // verus!
