//! Laws of reading from the wire: what is accepted, what is rejected, and with which message.

use vstd::prelude::*;
use crate::decode::{
    arguments_at, bulk_string_at, bytes_fetched, command_at, command_fetched, header_value,
    lemma_line_bounds, lemma_line_feed_index, lemma_line_feed_index_skips, line_at,
    line_feed_index, Fetch, Parse,
};
use crate::bytes::contents;
use crate::error::{Error, ErrorKind};
use crate::number::unsigned_upto;

verus! {

/// A line reaches to the first line feed, before which a carriage return has to stand. What stands
/// before both is the line, and the next one begins behind them.
pub proof fn law_line_ends_at_its_line_feed(
    input: Seq<u8>,
    from: int,
    feed: int,
    at_end: bool,
)
    requires
        0 <= from <= feed < input.len(),
        input[feed] == 10,
        forall|i: int| from <= i < feed ==> input[i] != 10,
    ensures
        line_feed_index(input, from) == feed,
        line_at(input, from, at_end) == (if feed > from && input[feed - 1] == 13 {
            Parse::Ready(input.subrange(from, feed - 1), feed + 1)
        } else {
            Parse::Failed(ErrorKind::InvalidData, "invalid RESP line"@)
        }),
{
    lemma_line_feed_index_skips(input, from, feed);
}

/// Without a line feed a line is awaited. At the end of the input there is no line where not a byte
/// is left, and otherwise a malformed one.
pub proof fn law_line_without_line_feed(input: Seq<u8>, from: int, at_end: bool)
    requires
        0 <= from <= input.len(),
        forall|i: int| from <= i < input.len() ==> input[i] != 10,
    ensures
        line_feed_index(input, from) == input.len(),
        line_at(input, from, at_end) == (if !at_end {
            Parse::<Seq<u8>>::Pending
        } else if from == input.len() {
            Parse::Closed
        } else {
            Parse::Failed(ErrorKind::InvalidData, "invalid RESP line"@)
        }),
{
    lemma_line_feed_index(input, from);
}

/// A header is a mark and an unsigned number.
pub proof fn law_header_is_mark_and_number(line: Seq<u8>, mark: u8)
    ensures
        header_value(line, mark) == (if line.len() > 0 && line[0] == mark {
            unsigned_upto(line.skip(1), usize::MAX as nat)
        } else {
            None
        }),
{
    if line.len() > 0 {
        assert(line.skip(1) =~= line.drop_first());
    }
}

/// A byte string has the length that its header gives, and ends in a carriage return and a line
/// feed. It is awaited until all of it has come.
pub proof fn law_byte_string_has_its_length(input: Seq<u8>, from: int, at_end: bool)
    requires
        0 <= from <= input.len(),
    ensures
        match line_at(input, from, at_end) {
            Parse::Pending => bulk_string_at(input, from, at_end) is Pending,
            Parse::Closed => bulk_string_at(input, from, at_end) is Closed,
            Parse::Failed(kind, message) => bulk_string_at(input, from, at_end) == Parse::<
                Seq<u8>,
            >::Failed(kind, message),
            Parse::Ready(header, start) => if header.len() == 0 || header[0] != 36 {
                bulk_string_at(input, from, at_end) == Parse::<Seq<u8>>::Failed(
                    ErrorKind::InvalidData,
                    "expected RESP bulk string"@,
                )
            } else {
                match unsigned_upto(header.skip(1), usize::MAX as nat) {
                    None => bulk_string_at(input, from, at_end) == Parse::<Seq<u8>>::Failed(
                        ErrorKind::InvalidData,
                        "invalid number"@,
                    ),
                    Some(length) => if input.len() < start + length + 2 {
                        if at_end {
                            bulk_string_at(input, from, at_end) == Parse::<Seq<u8>>::Failed(
                                ErrorKind::UnexpectedEof,
                                "early eof"@,
                            )
                        } else {
                            bulk_string_at(input, from, at_end) is Pending
                        }
                    } else if input[start + length] == 13 && input[start + length + 1] == 10 {
                        bulk_string_at(input, from, at_end) == Parse::Ready(
                            Seq::new(length, |i: int| input[start + i]),
                            start + length + 2,
                        )
                    } else {
                        bulk_string_at(input, from, at_end) == Parse::<Seq<u8>>::Failed(
                            ErrorKind::InvalidData,
                            "bulk string missing CRLF"@,
                        )
                    },
                }
            },
        },
{
    lemma_line_bounds(input, from, at_end);
    if let Parse::Ready(header, start) = line_at(input, from, at_end) {
        if header.len() > 0 && header[0] == 36 {
            assert(header.skip(1) =~= header.drop_first());
            if let Some(length) = header_value(header, 36) {
                if start + length + 2 <= input.len() {
                    let ending = input.subrange(start + length, start + length + 2);
                    assert(ending[0] == input[start + length]);
                    assert(ending[1] == input[start + length + 1]);
                    if input[start + length] == 13 && input[start + length + 1] == 10 {
                        assert(ending =~= seq![13u8, 10u8]);
                    }
                    assert(input.subrange(start, start + length) =~= Seq::new(
                        length,
                        |i: int| input[start + i],
                    ));
                }
            }
        }
    }
}

/// Arguments stand one after the other: the first, and then the others from where it ends. Where
/// the input ends between two of them, the command is malformed.
pub proof fn law_arguments_follow_each_other(
    input: Seq<u8>,
    from: int,
    count: nat,
    at_end: bool,
)
    ensures
        arguments_at(input, from, 0, at_end) == Parse::Ready(Seq::<Seq<u8>>::empty(), from),
        match bulk_string_at(input, from, at_end) {
            Parse::Pending => arguments_at(input, from, count + 1, at_end) is Pending,
            Parse::Closed => arguments_at(input, from, count + 1, at_end) == Parse::<
                Seq<Seq<u8>>,
            >::Failed(ErrorKind::InvalidData, "unexpected end of input"@),
            Parse::Failed(kind, message) => arguments_at(input, from, count + 1, at_end)
                == Parse::<Seq<Seq<u8>>>::Failed(kind, message),
            Parse::Ready(argument, next) => match arguments_at(input, next, count, at_end) {
                Parse::Ready(others, end) => arguments_at(input, from, count + 1, at_end)
                    == Parse::Ready(seq![argument] + others, end),
                outcome => arguments_at(input, from, count + 1, at_end) == outcome,
            },
        },
{
}

/// A command is an array: a header with the number of its words, and so many byte strings.
pub proof fn law_command_has_its_number_of_words(input: Seq<u8>, from: int, at_end: bool)
    ensures
        match line_at(input, from, at_end) {
            Parse::Pending => command_at(input, from, at_end) is Pending,
            Parse::Closed => command_at(input, from, at_end) is Closed,
            Parse::Failed(kind, message) => command_at(input, from, at_end) == Parse::<
                Seq<Seq<u8>>,
            >::Failed(kind, message),
            Parse::Ready(header, start) => if header.len() == 0 || header[0] != 42 {
                command_at(input, from, at_end) == Parse::<Seq<Seq<u8>>>::Failed(
                    ErrorKind::InvalidData,
                    "expected RESP array"@,
                )
            } else {
                match unsigned_upto(header.skip(1), usize::MAX as nat) {
                    None => command_at(input, from, at_end) == Parse::<Seq<Seq<u8>>>::Failed(
                        ErrorKind::InvalidData,
                        "invalid number"@,
                    ),
                    Some(count) => command_at(input, from, at_end) == arguments_at(
                        input,
                        start,
                        count,
                        at_end,
                    ),
                }
            },
        },
{
    if let Parse::Ready(header, start) = line_at(input, from, at_end) {
        if header.len() > 0 {
            assert(header.skip(1) =~= header.drop_first());
        }
    }
}

/// What is expected of an attempt to read settles its result: a byte string or a command, and the
/// index behind it, or the kind and the message of an error.
pub proof fn law_attempt_has_one_result(
    result: Result<Fetch<Vec<u8>>, Error>,
    expected: Parse<Seq<u8>>,
    command_result: Result<Fetch<Vec<Vec<u8>>>, Error>,
    expected_command: Parse<Seq<Seq<u8>>>,
)
    ensures
        bytes_fetched(result, expected) == match expected {
            Parse::Pending => result matches Ok(Fetch::Pending),
            Parse::Closed => result matches Ok(Fetch::Closed),
            Parse::Failed(kind, message) => result matches Err(error) && error.kind == kind
                && error.message@ == message,
            Parse::Ready(value, end) => result matches Ok(Fetch::Ready(read, next)) && read@ == value
                && next == end,
        },
        command_fetched(command_result, expected_command) == match expected_command {
            Parse::Pending => command_result matches Ok(Fetch::Pending),
            Parse::Closed => command_result matches Ok(Fetch::Closed),
            Parse::Failed(kind, message) => command_result matches Err(error) && error.kind == kind
                && error.message@ == message,
            Parse::Ready(value, end) => command_result matches Ok(Fetch::Ready(read, next))
                && contents(read@) == value && next == end,
        },
{
}

} // verus!
