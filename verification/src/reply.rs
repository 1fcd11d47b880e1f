//! Replies that do not depend on stored data.

use vstd::prelude::*;
use crate::bytes::{bytes_of, is_keyword, is_word, to_bytes};
use crate::encode::{integer, write_integer};

verus! {

/// Whether a command has the given name, in any case.
pub open spec fn is_named(command: Seq<Seq<u8>>, name: &str) -> bool {
    command.len() > 0 && is_word(command[0], name)
}

/// The reply to a command on a value of a type that it is not for.
pub open spec fn wrong_type() -> Seq<u8> {
    bytes_of("-WRONGTYPE Operation against a key holding the wrong kind of value\r\n")
}

/// The reply in place of a string that is not there.
pub open spec fn null_bulk_string() -> Seq<u8> {
    bytes_of("$-1\r\n")
}

/// The reply in place of an array that is not there.
pub open spec fn null_array() -> Seq<u8> {
    bytes_of("*-1\r\n")
}

/// Whether a command has the given name, in any case.
pub fn is_command(command: &[Vec<u8>], name: &str) -> (result: bool)
    ensures
        result == is_named(crate::bytes::contents(command@), name),
{
    command.len() > 0 && is_keyword(command[0].as_slice(), name)
}

/// The reply to a command on a value of a type that it is not for.
pub fn wrong_type_reply() -> (result: Vec<u8>)
    ensures
        result@ == wrong_type(),
{
    to_bytes("-WRONGTYPE Operation against a key holding the wrong kind of value\r\n")
}

/// The reply in place of a string that is not there.
pub fn null_bulk_string_reply() -> (result: Vec<u8>)
    ensures
        result@ == null_bulk_string(),
{
    to_bytes("$-1\r\n")
}

/// The reply in place of an array that is not there.
pub fn null_array_reply() -> (result: Vec<u8>)
    ensures
        result@ == null_array(),
{
    to_bytes("*-1\r\n")
}

/// An integer reply.
pub fn integer_reply(value: i128) -> (result: Vec<u8>)
    ensures
        result@ == integer(value as int),
{
    let mut result: Vec<u8> = Vec::new();
    write_integer(&mut result, value);
    assert(result@ =~= integer(value as int));
    result
}

} // verus!
