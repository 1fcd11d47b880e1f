//! Reading commands from the wire.
//!
//! The functions here look at the bytes that have arrived so far. Where these
//! do not settle the outcome, they ask for more; a caller that knows that no
//! more will come says so with `at_end`.

use vstd::prelude::*;
use vstd::slice::slice_subrange;
use crate::bytes::{contents, copy_bytes};
use crate::encode::{array, array_header, bulk_header, bulk_string, bulk_strings, crlf};
use crate::error::{invalid_data, unexpected_eof, Error, ErrorKind};
use crate::number::{
    decimal, is_digit, is_digits, law_decimal_is_read_back, parse_number, unsigned_upto,
};

verus! {

/// The outcome of an attempt to read a value.
#[derive(Debug)]
pub enum Fetch<T> {
    /// More input is needed.
    Pending,
    /// The input ended before the value began.
    Closed,
    /// The value, and the index of the first byte after it.
    Ready(T, usize),
}

/// The outcome that the bytes of an input call for.
pub enum Parse<T> {
    Pending,
    Closed,
    Failed(ErrorKind, Seq<char>),
    Ready(T, int),
}

/// The index of the first line feed at or after `from`, or the input's length where there is none.
pub open spec fn line_feed_index(input: Seq<u8>, from: int) -> int
    decreases input.len() - from,
{
    if from >= input.len() {
        input.len() as int
    } else if input[from] == 10 {
        from
    } else {
        line_feed_index(input, from + 1)
    }
}

/// The line that begins at `from`, without its ending.
pub open spec fn line_at(input: Seq<u8>, from: int, at_end: bool) -> Parse<Seq<u8>> {
    let feed = line_feed_index(input, from);
    if feed >= input.len() {
        if !at_end {
            Parse::Pending
        } else if from >= input.len() {
            Parse::Closed
        } else {
            Parse::Failed(ErrorKind::InvalidData, "invalid RESP line"@)
        }
    } else if feed > from && input[feed - 1] == 13 {
        Parse::Ready(input.subrange(from, feed - 1), feed + 1)
    } else {
        Parse::Failed(ErrorKind::InvalidData, "invalid RESP line"@)
    }
}

/// The number that follows `mark` on a line.
pub open spec fn header_value(line: Seq<u8>, mark: u8) -> Option<nat> {
    if line.len() > 0 && line[0] == mark {
        unsigned_upto(line.drop_first(), usize::MAX as nat)
    } else {
        None
    }
}

/// The bulk string whose header begins at `from`.
pub open spec fn bulk_string_at(input: Seq<u8>, from: int, at_end: bool) -> Parse<Seq<u8>> {
    match line_at(input, from, at_end) {
        Parse::Pending => Parse::Pending,
        Parse::Closed => Parse::Closed,
        Parse::Failed(kind, message) => Parse::Failed(kind, message),
        Parse::Ready(header, start) => if header.len() == 0 || header[0] != 36 {
            Parse::Failed(ErrorKind::InvalidData, "expected RESP bulk string"@)
        } else {
            match header_value(header, 36) {
                None => Parse::Failed(ErrorKind::InvalidData, "invalid number"@),
                Some(length) => if start + length + 2 > input.len() {
                    if at_end {
                        Parse::Failed(ErrorKind::UnexpectedEof, "early eof"@)
                    } else {
                        Parse::Pending
                    }
                } else if input.subrange(start + length, start + length + 2) != crlf() {
                    Parse::Failed(ErrorKind::InvalidData, "bulk string missing CRLF"@)
                } else {
                    Parse::Ready(input.subrange(start, start + length), start + length + 2)
                },
            }
        },
    }
}

/// The given number of bulk strings, the first of which begins at `from`.
pub open spec fn arguments_at(input: Seq<u8>, from: int, count: nat, at_end: bool) -> Parse<
    Seq<Seq<u8>>,
>
    decreases count,
{
    if count == 0 {
        Parse::Ready(Seq::empty(), from)
    } else {
        match bulk_string_at(input, from, at_end) {
            Parse::Pending => Parse::Pending,
            Parse::Closed => Parse::Failed(ErrorKind::InvalidData, "unexpected end of input"@),
            Parse::Failed(kind, message) => Parse::Failed(kind, message),
            Parse::Ready(argument, next) => match arguments_at(
                input,
                next,
                (count - 1) as nat,
                at_end,
            ) {
                Parse::Ready(rest, end) => Parse::Ready(seq![argument] + rest, end),
                other => other,
            },
        }
    }
}

/// The command whose header begins at `from`.
pub open spec fn command_at(input: Seq<u8>, from: int, at_end: bool) -> Parse<Seq<Seq<u8>>> {
    match line_at(input, from, at_end) {
        Parse::Pending => Parse::Pending,
        Parse::Closed => Parse::Closed,
        Parse::Failed(kind, message) => Parse::Failed(kind, message),
        Parse::Ready(header, start) => if header.len() == 0 || header[0] != 42 {
            Parse::Failed(ErrorKind::InvalidData, "expected RESP array"@)
        } else {
            match header_value(header, 42) {
                None => Parse::Failed(ErrorKind::InvalidData, "invalid number"@),
                Some(count) => arguments_at(input, start, count, at_end),
            }
        },
    }
}

/// Whether an attempt to read a byte string came out as the input calls for.
pub open spec fn bytes_fetched(
    result: Result<Fetch<Vec<u8>>, Error>,
    expected: Parse<Seq<u8>>,
) -> bool {
    match (result, expected) {
        (Ok(Fetch::Pending), Parse::Pending) => true,
        (Ok(Fetch::Closed), Parse::Closed) => true,
        (Ok(Fetch::Ready(value, next)), Parse::Ready(bytes, end)) => value@ == bytes && next == end,
        (Err(error), Parse::Failed(kind, message)) => error.kind == kind && error.message@
            == message,
        _ => false,
    }
}

/// Whether an attempt to read a command came out as the input calls for.
pub open spec fn command_fetched(
    result: Result<Fetch<Vec<Vec<u8>>>, Error>,
    expected: Parse<Seq<Seq<u8>>>,
) -> bool {
    match (result, expected) {
        (Ok(Fetch::Pending), Parse::Pending) => true,
        (Ok(Fetch::Closed), Parse::Closed) => true,
        (Ok(Fetch::Ready(value, next)), Parse::Ready(arguments, end)) => contents(value@)
            == arguments && next == end,
        (Err(error), Parse::Failed(kind, message)) => error.kind == kind && error.message@
            == message,
        _ => false,
    }
}

pub(crate) proof fn lemma_line_feed_index(input: Seq<u8>, from: int)
    requires
        0 <= from <= input.len(),
    ensures
        from <= line_feed_index(input, from) <= input.len(),
        line_feed_index(input, from) < input.len() ==> input[line_feed_index(input, from)] == 10,
    decreases input.len() - from,
{
    if from < input.len() && input[from] != 10 {
        lemma_line_feed_index(input, from + 1);
    }
}

/// Reads a line that ends in a carriage return and a line feed.
pub fn read_resp_line(input: &[u8], from: usize, at_end: bool) -> (result: Result<
    Fetch<Vec<u8>>,
    Error,
>)
    requires
        from <= input@.len(),
    ensures
        bytes_fetched(result, line_at(input@, from as int, at_end)),
        result matches Ok(Fetch::Ready(_, next)) ==> next <= input@.len(),
{
    let mut feed = from;
    while feed < input.len() && input[feed] != 10
        invariant
            from <= feed <= input@.len(),
            line_feed_index(input@, from as int) == line_feed_index(input@, feed as int),
        decreases input@.len() - feed,
    {
        feed = feed + 1;
    }
    if feed == input.len() {
        if !at_end {
            Ok(Fetch::Pending)
        } else if from == input.len() {
            Ok(Fetch::Closed)
        } else {
            Err(invalid_data("invalid RESP line"))
        }
    } else if feed > from && input[feed - 1] == 13 {
        Ok(Fetch::Ready(copy_bytes(slice_subrange(input, from, feed - 1)), feed + 1))
    } else {
        Err(invalid_data("invalid RESP line"))
    }
}

/// Reads the number that follows the mark on a header line.
pub(crate) fn read_header_value(header: &Vec<u8>) -> (result: Result<usize, Error>)
    requires
        header@.len() > 0,
    ensures
        match result {
            Ok(value) => header_value(header@, header@[0]) == Some(value as nat),
            Err(error) => {
                &&& header_value(header@, header@[0]) is None
                &&& error.is_invalid_data("invalid number")
            },
        },
{
    let digits = slice_subrange(header.as_slice(), 1, header.len());
    assert(digits@ =~= header@.drop_first());
    parse_number(digits)
}

/// Reads a bulk string.
pub fn read_bulk_string(input: &[u8], from: usize, at_end: bool) -> (result: Result<
    Fetch<Vec<u8>>,
    Error,
>)
    requires
        from <= input@.len(),
    ensures
        bytes_fetched(result, bulk_string_at(input@, from as int, at_end)),
        result matches Ok(Fetch::Ready(_, next)) ==> next <= input@.len(),
{
    let (header, start) = match read_resp_line(input, from, at_end) {
        Ok(Fetch::Ready(header, start)) => (header, start),
        Ok(Fetch::Pending) => {
            return Ok(Fetch::Pending);
        },
        Ok(Fetch::Closed) => {
            return Ok(Fetch::Closed);
        },
        Err(error) => {
            return Err(error);
        },
    };
    if header.len() == 0 || header[0] != 36 {
        return Err(invalid_data("expected RESP bulk string"));
    }
    let length = match read_header_value(&header) {
        Ok(length) => length,
        Err(error) => {
            return Err(error);
        },
    };
    let available = input.len() - start;
    if available < 2 || length > available - 2 {
        if at_end {
            return Err(unexpected_eof("early eof"));
        }
        return Ok(Fetch::Pending);
    }
    let end = start + length;
    let ghost ending = input@.subrange(end as int, end + 2);
    assert(ending[0] == input@[end as int] && ending[1] == input@[end + 1]);
    if input[end] != 13 || input[end + 1] != 10 {
        return Err(invalid_data("bulk string missing CRLF"));
    }
    assert(ending =~= crlf());
    Ok(Fetch::Ready(copy_bytes(slice_subrange(input, start, end)), end + 2))
}

/// Reads a command: an array of bulk strings.
pub fn read_command(input: &[u8], from: usize, at_end: bool) -> (result: Result<
    Fetch<Vec<Vec<u8>>>,
    Error,
>)
    requires
        from <= input@.len(),
    ensures
        command_fetched(result, command_at(input@, from as int, at_end)),
        result matches Ok(Fetch::Ready(_, next)) ==> next <= input@.len(),
{
    let (header, start) = match read_resp_line(input, from, at_end) {
        Ok(Fetch::Ready(header, start)) => (header, start),
        Ok(Fetch::Pending) => {
            return Ok(Fetch::Pending);
        },
        Ok(Fetch::Closed) => {
            return Ok(Fetch::Closed);
        },
        Err(error) => {
            return Err(error);
        },
    };
    if header.len() == 0 || header[0] != 42 {
        return Err(invalid_data("expected RESP array"));
    }
    let count = match read_header_value(&header) {
        Ok(count) => count,
        Err(error) => {
            return Err(error);
        },
    };
    let mut command: Vec<Vec<u8>> = Vec::new();
    let mut position = start;
    let ghost expected = arguments_at(input@, start as int, count as nat, at_end);
    assert(forall|rest: Seq<Seq<u8>>| #[trigger] (contents(command@) + rest) =~= rest);
    for i in 0..count
        invariant
            position <= input@.len(),
            expected == (match arguments_at(
                input@,
                position as int,
                (count - i) as nat,
                at_end,
            ) {
                Parse::Ready(rest, end) => Parse::Ready(contents(command@) + rest, end),
                other => other,
            }),
            expected == command_at(input@, from as int, at_end),
    {
        let (argument, next) = match read_bulk_string(input, position, at_end) {
            Ok(Fetch::Ready(argument, next)) => (argument, next),
            Ok(Fetch::Pending) => {
                return Ok(Fetch::Pending);
            },
            Ok(Fetch::Closed) => {
                return Err(invalid_data("unexpected end of input"));
            },
            Err(error) => {
                return Err(error);
            },
        };
        let ghost before = contents(command@);
        let ghost value = argument@;
        command.push(argument);
        proof {
            assert(contents(command@) =~= before + seq![value]);
            assert forall|rest: Seq<Seq<u8>>| #[trigger] (contents(command@) + rest) == before + (
            seq![value] + rest) by {
                assert(contents(command@) + rest =~= before + (seq![value] + rest));
            }
        }
        position = next;
    }
    assert(contents(command@) + Seq::<Seq<u8>>::empty() =~= contents(command@));
    Ok(Fetch::Ready(command, position))
}

pub(crate) proof fn lemma_line_bounds(input: Seq<u8>, from: int, at_end: bool)
    requires
        0 <= from <= input.len(),
    ensures
        line_at(input, from, at_end) matches Parse::Ready(line, next) ==> from < next
            <= input.len(),
{
    lemma_line_feed_index(input, from);
}

pub(crate) proof fn lemma_line_feed_index_is_settled(input: Seq<u8>, more: Seq<u8>, from: int)
    requires
        0 <= from <= input.len(),
        line_feed_index(input, from) < input.len(),
    ensures
        line_feed_index(input + more, from) == line_feed_index(input, from),
    decreases input.len() - from,
{
    if from < input.len() && input[from] != 10 {
        lemma_line_feed_index_is_settled(input, more, from + 1);
    }
}

/// Once the bytes that arrived settle how a line reads, later bytes change nothing.
pub proof fn law_line_is_settled(input: Seq<u8>, more: Seq<u8>, from: int, at_end: bool)
    requires
        0 <= from <= input.len(),
        !(line_at(input, from, false) is Pending),
    ensures
        line_at(input + more, from, at_end) == line_at(input, from, false),
{
    lemma_line_feed_index(input, from);
    lemma_line_feed_index_is_settled(input, more, from);
    let feed = line_feed_index(input, from);
    if feed > from {
        assert((input + more).subrange(from, feed - 1) =~= input.subrange(from, feed - 1));
    }
}

/// Once the bytes that arrived settle how a bulk string reads, later bytes change nothing.
pub proof fn law_bulk_string_is_settled(input: Seq<u8>, more: Seq<u8>, from: int, at_end: bool)
    requires
        0 <= from <= input.len(),
        !(bulk_string_at(input, from, false) is Pending),
    ensures
        bulk_string_at(input + more, from, at_end) == bulk_string_at(input, from, false),
{
    law_line_is_settled(input, more, from, at_end);
    lemma_line_bounds(input, from, false);
    if let Parse::Ready(header, start) = line_at(input, from, false) {
        if let Some(length) = header_value(header, 36) {
            if start + length + 2 <= input.len() {
                assert((input + more).subrange(start + length, start + length + 2)
                    =~= input.subrange(start + length, start + length + 2));
                assert((input + more).subrange(start, start + length) =~= input.subrange(
                    start,
                    start + length,
                ));
            }
        }
    }
}

proof fn lemma_bulk_string_bounds(input: Seq<u8>, from: int, at_end: bool)
    requires
        0 <= from <= input.len(),
    ensures
        bulk_string_at(input, from, at_end) matches Parse::Ready(value, next) ==> from < next
            <= input.len(),
{
    lemma_line_bounds(input, from, at_end);
}

proof fn lemma_arguments_are_settled(
    input: Seq<u8>,
    more: Seq<u8>,
    from: int,
    count: nat,
    at_end: bool,
)
    requires
        0 <= from <= input.len(),
        !(arguments_at(input, from, count, false) is Pending),
    ensures
        arguments_at(input + more, from, count, at_end) == arguments_at(input, from, count, false),
    decreases count,
{
    if count > 0 {
        law_bulk_string_is_settled(input, more, from, at_end);
        lemma_bulk_string_bounds(input, from, false);
        if let Parse::Ready(argument, next) = bulk_string_at(input, from, false) {
            lemma_arguments_are_settled(input, more, next, (count - 1) as nat, at_end);
        }
    }
}

/// Once the bytes that arrived settle how a command reads, later bytes change nothing: how the
/// stream was cut into pieces on its way does not matter.
pub proof fn law_command_is_settled(input: Seq<u8>, more: Seq<u8>, from: int, at_end: bool)
    requires
        0 <= from <= input.len(),
        !(command_at(input, from, false) is Pending),
    ensures
        command_at(input + more, from, at_end) == command_at(input, from, false),
{
    law_line_is_settled(input, more, from, at_end);
    lemma_line_bounds(input, from, false);
    if let Parse::Ready(header, start) = line_at(input, from, false) {
        if header.len() > 0 && header[0] == 42 {
            if let Some(count) = header_value(header, 42) {
                lemma_arguments_are_settled(input, more, start, count, at_end);
            }
        }
    }
}

proof fn lemma_arguments_end(input: Seq<u8>, from: int, count: nat)
    ensures
        !(arguments_at(input, from, count, true) is Pending),
        !(arguments_at(input, from, count, true) is Closed),
    decreases count,
{
    if count > 0 {
        if let Parse::Ready(argument, next) = bulk_string_at(input, from, true) {
            lemma_arguments_end(input, next, (count - 1) as nat);
        }
    }
}

/// At the end of the input every attempt to read a command is settled, and it finds the input
/// closed only where not a single byte is left.
pub proof fn law_end_settles_command(input: Seq<u8>, from: int)
    requires
        0 <= from <= input.len(),
    ensures
        !(command_at(input, from, true) is Pending),
        command_at(input, from, true) is Closed <==> from == input.len(),
{
    lemma_line_feed_index(input, from);
    if let Parse::Ready(header, start) = line_at(input, from, true) {
        if let Some(count) = header_value(header, 42) {
            lemma_arguments_end(input, start, count);
        }
    }
}

pub(crate) proof fn lemma_line_feed_index_skips(input: Seq<u8>, from: int, to: int)
    requires
        0 <= from <= to < input.len(),
        input[to] == 10,
        forall|i: int| from <= i < to ==> input[i] != 10,
    ensures
        line_feed_index(input, from) == to,
    decreases to - from,
{
    if from < to {
        lemma_line_feed_index_skips(input, from + 1, to);
    }
}

/// A header line reads as its mark and number.
proof fn lemma_header_line(input: Seq<u8>, from: int, mark: u8, digits: Seq<u8>, at_end: bool)
    requires
        mark != 10,
        is_digits(digits),
        0 <= from,
        from + digits.len() + 3 <= input.len(),
        input[from] == mark,
        forall|i: int| 0 <= i < digits.len() ==> input[from + 1 + i] == #[trigger] digits[i],
        input[from + 1 + digits.len()] == 13,
        input[from + 2 + digits.len()] == 10,
    ensures
        line_at(input, from, at_end) == Parse::Ready(
            seq![mark] + digits,
            from + digits.len() + 3,
        ),
{
    let to = from + 2 + digits.len();
    assert forall|i: int| from <= i < to implies input[i] != 10 by {
        if from < i < to - 1 {
            assert(is_digit(digits[i - from - 1]));
            assert(input[from + 1 + (i - from - 1)] == digits[i - from - 1]);
        }
    }
    lemma_line_feed_index_skips(input, from, to);
    assert(input.subrange(from, to - 1) =~= seq![mark] + digits) by {
        assert forall|i: int| 0 <= i < digits.len() + 1 implies input[from + i] == (seq![mark]
            + digits)[i] by {
            if i > 0 {
                assert(input[from + 1 + (i - 1)] == digits[i - 1]);
            }
        }
    }
}

/// A header line that was written reads as its mark and number.
pub(crate) proof fn lemma_header_reads_back(
    before: Seq<u8>,
    mark: u8,
    value: nat,
    rest: Seq<u8>,
    at_end: bool,
)
    requires
        mark != 10,
        value <= usize::MAX,
    ensures
        line_at(
            before + (seq![mark] + decimal(value) + crlf()) + rest,
            before.len() as int,
            at_end,
        ) == Parse::Ready(
            seq![mark] + decimal(value),
            (before.len() + (seq![mark] + decimal(value) + crlf()).len()) as int,
        ),
        (seq![mark] + decimal(value)).len() > 0,
        (seq![mark] + decimal(value))[0] == mark,
        header_value(seq![mark] + decimal(value), mark) == Some(value),
{
    let digits = decimal(value);
    let input = before + (seq![mark] + digits + crlf()) + rest;
    law_decimal_is_read_back(value);
    assert((seq![mark] + digits).drop_first() =~= digits);
    lemma_header_line(input, before.len() as int, mark, digits, at_end);
}

/// A bulk string that was written reads back as it was.
pub proof fn law_bulk_string_reads_back(
    before: Seq<u8>,
    value: Seq<u8>,
    rest: Seq<u8>,
    at_end: bool,
)
    requires
        value.len() <= usize::MAX,
    ensures
        bulk_string_at(before + bulk_string(value) + rest, before.len() as int, at_end)
            == Parse::Ready(value, (before.len() + bulk_string(value).len()) as int),
{
    let header = bulk_header(value.len());
    let input = before + bulk_string(value) + rest;
    assert(input =~= before + header + (value + crlf() + rest));
    lemma_header_reads_back(before, 36, value.len(), value + crlf() + rest, at_end);
    let start = (before.len() + header.len()) as int;
    let end = start + value.len();
    assert(input.subrange(start, end) =~= value);
    assert(input.subrange(end, end + 2) =~= crlf());
}

proof fn lemma_bulk_strings_first(values: Seq<Seq<u8>>)
    requires
        values.len() > 0,
    ensures
        bulk_strings(values) == bulk_string(values[0]) + bulk_strings(values.drop_first()),
    decreases values.len(),
{
    if values.len() == 1 {
        assert(bulk_strings(values.drop_last()) =~= Seq::<u8>::empty());
        assert(bulk_strings(values.drop_first()) =~= Seq::<u8>::empty());
        assert(bulk_strings(values) =~= bulk_string(values[0]));
        assert(bulk_string(values[0]) + bulk_strings(values.drop_first()) =~= bulk_string(
            values[0],
        ));
    } else {
        lemma_bulk_strings_first(values.drop_last());
        assert(values.drop_last().drop_first() =~= values.drop_first().drop_last());
        assert(values.drop_first().last() == values.last());
        assert(bulk_strings(values) =~= bulk_string(values[0]) + bulk_strings(values.drop_first()));
    }
}

proof fn lemma_arguments_read_back(
    before: Seq<u8>,
    values: Seq<Seq<u8>>,
    rest: Seq<u8>,
    at_end: bool,
)
    requires
        forall|i: int| 0 <= i < values.len() ==> (#[trigger] values[i]).len() <= usize::MAX,
    ensures
        arguments_at(
            before + bulk_strings(values) + rest,
            before.len() as int,
            values.len(),
            at_end,
        ) == Parse::Ready(values, (before.len() + bulk_strings(values).len()) as int),
    decreases values.len(),
{
    let input = before + bulk_strings(values) + rest;
    if values.len() > 0 {
        lemma_bulk_strings_first(values);
        let tail = values.drop_first();
        let middle = before + bulk_string(values[0]);
        assert(input =~= before + bulk_string(values[0]) + (bulk_strings(tail) + rest));
        law_bulk_string_reads_back(before, values[0], bulk_strings(tail) + rest, at_end);
        assert(input =~= middle + bulk_strings(tail) + rest);
        lemma_arguments_read_back(middle, tail, rest, at_end);
        assert(seq![values[0]] + tail =~= values);
    } else {
        assert(values =~= Seq::<Seq<u8>>::empty());
    }
}

/// A command that was written as an array of bulk strings reads back as it was, whatever comes
/// before and after it, and exactly its own bytes are read.
pub proof fn law_command_reads_back(
    before: Seq<u8>,
    command: Seq<Seq<u8>>,
    rest: Seq<u8>,
    at_end: bool,
)
    requires
        command.len() <= usize::MAX,
        forall|i: int| 0 <= i < command.len() ==> (#[trigger] command[i]).len() <= usize::MAX,
    ensures
        command_at(before + array(command) + rest, before.len() as int, at_end) == Parse::Ready(
            command,
            (before.len() + array(command).len()) as int,
        ),
{
    let input = before + array(command) + rest;
    let header = array_header(command.len());
    assert(input =~= before + header + (bulk_strings(command) + rest));
    lemma_header_reads_back(before, 42, command.len(), bulk_strings(command) + rest, at_end);
    assert(input =~= (before + header) + bulk_strings(command) + rest);
    lemma_arguments_read_back(before + header, command, rest, at_end);
}

/// An outcome, with every index moved.
pub open spec fn moved<T>(outcome: Parse<T>, by: int) -> Parse<T> {
    match outcome {
        Parse::Ready(value, next) => Parse::Ready(value, next + by),
        other => other,
    }
}

proof fn lemma_line_feed_index_moves(before: Seq<u8>, input: Seq<u8>, from: int)
    requires
        0 <= from <= input.len(),
    ensures
        line_feed_index(before + input, before.len() + from) == before.len() + line_feed_index(
            input,
            from,
        ),
    decreases input.len() - from,
{
    if from < input.len() {
        assert((before + input)[before.len() + from] == input[from]);
        if input[from] != 10 {
            lemma_line_feed_index_moves(before, input, from + 1);
        }
    }
}

proof fn lemma_line_moves(before: Seq<u8>, input: Seq<u8>, from: int, at_end: bool)
    requires
        0 <= from <= input.len(),
    ensures
        line_at(before + input, before.len() + from, at_end) == moved(
            line_at(input, from, at_end),
            before.len() as int,
        ),
{
    lemma_line_feed_index_moves(before, input, from);
    lemma_line_feed_index(input, from);
    let feed = line_feed_index(input, from);
    if from < feed < input.len() {
        assert((before + input)[before.len() + feed - 1] == input[feed - 1]);
        assert((before + input).subrange(before.len() + from, before.len() + feed - 1)
            =~= input.subrange(from, feed - 1));
    }
}

proof fn lemma_bulk_string_moves(before: Seq<u8>, input: Seq<u8>, from: int, at_end: bool)
    requires
        0 <= from <= input.len(),
    ensures
        bulk_string_at(before + input, before.len() + from, at_end) == moved(
            bulk_string_at(input, from, at_end),
            before.len() as int,
        ),
{
    lemma_line_moves(before, input, from, at_end);
    lemma_line_bounds(input, from, at_end);
    if let Parse::Ready(header, start) = line_at(input, from, at_end) {
        if let Some(length) = header_value(header, 36) {
            if start + length + 2 <= input.len() {
                let place = before.len() + start;
                assert((before + input).subrange(place + length, place + length + 2)
                    =~= input.subrange(start + length, start + length + 2));
                assert((before + input).subrange(place, place + length) =~= input.subrange(
                    start,
                    start + length,
                ));
            }
        }
    }
}

proof fn lemma_arguments_move(
    before: Seq<u8>,
    input: Seq<u8>,
    from: int,
    count: nat,
    at_end: bool,
)
    requires
        0 <= from <= input.len(),
    ensures
        arguments_at(before + input, before.len() + from, count, at_end) == moved(
            arguments_at(input, from, count, at_end),
            before.len() as int,
        ),
    decreases count,
{
    if count > 0 {
        lemma_bulk_string_moves(before, input, from, at_end);
        lemma_bulk_string_bounds(input, from, at_end);
        if let Parse::Ready(argument, next) = bulk_string_at(input, from, at_end) {
            lemma_arguments_move(before, input, next, (count - 1) as nat, at_end);
        }
    }
}

/// How a command reads does not depend on what came before it, so bytes that were read can be
/// forgotten.
pub proof fn law_command_does_not_depend_on_earlier_bytes(
    before: Seq<u8>,
    input: Seq<u8>,
    from: int,
    at_end: bool,
)
    requires
        0 <= from <= input.len(),
    ensures
        command_at(before + input, before.len() + from, at_end) == moved(
            command_at(input, from, at_end),
            before.len() as int,
        ),
{
    lemma_line_moves(before, input, from, at_end);
    lemma_line_bounds(input, from, at_end);
    if let Parse::Ready(header, start) = line_at(input, from, at_end) {
        if let Some(count) = header_value(header, 42) {
            lemma_arguments_move(before, input, start, count, at_end);
        }
    }
}

/// Commands as arrays of bulk strings, one after the other.
pub open spec fn written(commands: Seq<Seq<Seq<u8>>>) -> Seq<u8>
    decreases commands.len(),
{
    if commands.len() == 0 {
        Seq::empty()
    } else {
        written(commands.drop_last()) + array(commands.last())
    }
}

proof fn lemma_written_in_parts(first: Seq<Seq<Seq<u8>>>, second: Seq<Seq<Seq<u8>>>)
    ensures
        written(first + second) == written(first) + written(second),
    decreases second.len(),
{
    if second.len() > 0 {
        lemma_written_in_parts(first, second.drop_last());
        assert((first + second).drop_last() =~= first + second.drop_last());
        assert(written(first + second) =~= written(first) + written(second));
    } else {
        assert(first + second =~= first);
        assert(written(first) + written(second) =~= written(first));
    }
}

/// Commands that were written one after the other read back one after the other, and then the
/// input is closed.
pub proof fn law_written_commands_read_back_in_order(commands: Seq<Seq<Seq<u8>>>, i: int)
    requires
        0 <= i <= commands.len(),
        forall|j: int| 0 <= j < commands.len() ==> (#[trigger] commands[j]).len() <= usize::MAX,
        forall|j: int, k: int|
            0 <= j < commands.len() && 0 <= k < commands[j].len() ==> (
            #[trigger] commands[j][k]).len() <= usize::MAX,
    ensures
        ({
            let outcome = command_at(
                written(commands),
                written(commands.take(i)).len() as int,
                true,
            );
            if i < commands.len() {
                outcome == Parse::Ready(commands[i], written(commands.take(i + 1)).len() as int)
            } else {
                outcome is Closed
            }
        }),
{
    let before = written(commands.take(i));
    if i < commands.len() {
        let rest = written(commands.skip(i + 1));
        assert(commands =~= commands.take(i + 1) + commands.skip(i + 1));
        lemma_written_in_parts(commands.take(i + 1), commands.skip(i + 1));
        assert(commands.take(i + 1).drop_last() =~= commands.take(i));
        law_command_reads_back(before, commands[i], rest, true);
    } else {
        assert(commands.take(i) =~= commands);
        law_end_settles_command(written(commands), before.len() as int);
    }
}

} // verus!
