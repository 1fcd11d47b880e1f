//! Commands on strings, and the type of a value.

use vstd::prelude::*;
use crate::bytes::{bytes_of, contents, copy_bytes, is_keyword, is_word, to_bytes};
use crate::database::{DatabaseState, DatabaseView, Entry, EntryView, RedisValue, ValueView};
use crate::encode::{bulk_string, encode_bulk_string, integer};
use crate::number::{
    i64_value, parse_milliseconds, read_i64, signed_decimal, unsigned_upto, write_signed_decimal,
};
use crate::reply::{
    integer_reply, null_bulk_string, null_bulk_string_reply, wrong_type, wrong_type_reply,
};

verus! {

/// The time that lies the given number of milliseconds after `now`.
pub open spec fn deadline(now: u64, milliseconds: nat) -> u128 {
    (now + milliseconds * 1_000_000) as u128
}

/// When the value that a `SET` command stores expires, or the reply that rejects the command.
pub open spec fn set_expiry(command: Seq<Seq<u8>>, now: u64) -> Result<Option<u128>, Seq<u8>> {
    if command.len() == 3 {
        Ok(None)
    } else if command.len() == 5 && is_word(command[3], "PX") {
        match unsigned_upto(command[4], u64::MAX as nat) {
            Some(milliseconds) if milliseconds > 0 => Ok(Some(deadline(now, milliseconds))),
            _ => Err(bytes_of("-ERR invalid expire time in 'set' command\r\n")),
        }
    } else {
        Err(bytes_of("-ERR syntax error\r\n"))
    }
}

/// The database after a `SET` command, and the reply.
pub open spec fn set_outcome(db: DatabaseView, command: Seq<Seq<u8>>, now: u64) -> (
    DatabaseView,
    Seq<u8>,
) {
    match set_expiry(command, now) {
        Ok(expires_at) => (
            db.stored(
                command[1],
                EntryView { value: ValueView::String(command[2]), expires_at },
            ).modified(command[1]).announced(command),
            bytes_of("+OK\r\n"),
        ),
        Err(reply) => (db, reply),
    }
}

/// The number that follows the one that a string denotes, if both fit an `i64`.
pub open spec fn incremented(value: Seq<u8>) -> Option<int> {
    match i64_value(value) {
        Some(number) if number < i64::MAX => Some(number + 1),
        _ => None,
    }
}

/// The entry that `INCR` finds or makes under a key.
pub open spec fn counter(db: DatabaseView, key: Seq<u8>) -> EntryView {
    if db.entries.contains_key(key) {
        db.entries[key]
    } else {
        EntryView { value: ValueView::String(bytes_of("0")), expires_at: None }
    }
}

/// The database after the number under a key was increased, and the reply.
pub open spec fn incr_outcome(db: DatabaseView, key: Seq<u8>, now: u64) -> (
    DatabaseView,
    Seq<u8>,
) {
    let live = db.expired(key, now);
    let entry = counter(live, key);
    match entry.value {
        ValueView::String(text) => match incremented(text) {
            Some(number) => (
                live.stored(
                    key,
                    EntryView { value: ValueView::String(signed_decimal(number)), ..entry },
                ).modified(key),
                integer(number),
            ),
            None => (live, bytes_of("-ERR value is not an integer or out of range\r\n")),
        },
        _ => (live, bytes_of("-ERR value is not an integer or out of range\r\n")),
    }
}

/// The database after the string under a key was read, and the reply.
pub open spec fn get_outcome(db: DatabaseView, key: Seq<u8>, now: u64) -> (DatabaseView, Seq<u8>) {
    let live = db.expired(key, now);
    (
        live,
        match live.value(key) {
            Some(ValueView::String(value)) => bulk_string(value),
            Some(_) => wrong_type(),
            None => null_bulk_string(),
        },
    )
}

/// The database after the type of the value under a key was asked for, and the reply.
pub open spec fn type_outcome(db: DatabaseView, key: Seq<u8>, now: u64) -> (
    DatabaseView,
    Seq<u8>,
) {
    let live = db.expired(key, now);
    (
        live,
        match live.value(key) {
            Some(ValueView::String(_)) => bytes_of("+string\r\n"),
            Some(ValueView::List(_)) => bytes_of("+list\r\n"),
            Some(ValueView::Stream(_)) => bytes_of("+stream\r\n"),
            None => bytes_of("+none\r\n"),
        },
    )
}

/// Reads when the value that a `SET` command stores expires.
fn read_set_expiry(command: &[Vec<u8>], now: u64) -> (result: Result<Option<u128>, Vec<u8>>)
    ensures
        match (result, set_expiry(contents(command@), now)) {
            (Ok(expires_at), Ok(expected)) => expires_at == expected,
            (Err(reply), Err(expected)) => reply@ == expected,
            _ => false,
        },
{
    if command.len() == 3 {
        Ok(None)
    } else if command.len() == 5 && is_keyword(command[3].as_slice(), "PX") {
        match parse_milliseconds(command[4].as_slice()) {
            Ok(milliseconds) => if milliseconds > 0 {
                Ok(Some(now as u128 + milliseconds as u128 * 1_000_000))
            } else {
                Err(to_bytes("-ERR invalid expire time in 'set' command\r\n"))
            },
            Err(_) => Err(to_bytes("-ERR invalid expire time in 'set' command\r\n")),
        }
    } else {
        Err(to_bytes("-ERR syntax error\r\n"))
    }
}

/// Stores a string, and announces the command to the replicas.
pub fn execute_queued_set(db: &mut DatabaseState, command: &[Vec<u8>], now: u64) -> (reply: Vec<u8>)
    requires
        old(db).wf(),
    ensures
        final(db).wf(),
        final(db)@ == set_outcome(old(db)@, contents(command@), now).0,
        reply@ == set_outcome(old(db)@, contents(command@), now).1,
{
    let expires_at = match read_set_expiry(command, now) {
        Ok(expires_at) => expires_at,
        Err(reply) => {
            return reply;
        },
    };
    let ghost key = command@[1]@;
    let ghost value = command@[2]@;
    assert(key == contents(command@)[1] && value == contents(command@)[2]);
    db.store(
        copy_bytes(command[1].as_slice()),
        Entry { value: RedisValue::String(copy_bytes(command[2].as_slice())), expires_at },
    );
    db.mark_modified(command[1].as_slice());
    db.propagate(command);
    to_bytes("+OK\r\n")
}

/// Replaces a string that denotes a number by the string of the next number.
pub fn increment_numeric_string(value: &mut Vec<u8>) -> (result: Result<i64, ()>)
    ensures
        match result {
            Ok(number) => {
                &&& incremented(old(value)@) == Some(number as int)
                &&& final(value)@ == signed_decimal(number as int)
            },
            Err(()) => incremented(old(value)@) is None && final(value)@ == old(value)@,
        },
{
    let current = match read_i64(value.as_slice()) {
        Some(current) => current,
        None => {
            return Err(());
        },
    };
    match current.checked_add(1) {
        Some(number) => {
            value.clear();
            write_signed_decimal(value, number as i128);
            assert(value@ =~= signed_decimal(number as int));
            Ok(number)
        },
        None => Err(()),
    }
}

/// Increases the number under a key by one; a key that is not there counts from zero.
pub fn increment(db: &mut DatabaseState, key: &[u8], now: u64) -> (reply: Vec<u8>)
    requires
        old(db).wf(),
    ensures
        final(db).wf(),
        final(db)@ == incr_outcome(old(db)@, key@, now).0,
        reply@ == incr_outcome(old(db)@, key@, now).1,
{
    db.remove_if_expired(key, now);
    if db.get(key).is_none() {
        db.store(
            copy_bytes(key),
            Entry { value: RedisValue::String(to_bytes("0")), expires_at: None },
        );
    }
    let ghost before = db@;
    let result = match db.get_mut(key) {
        Some(entry) => match &mut entry.value {
            RedisValue::String(value) => increment_numeric_string(value),
            _ => Err(()),
        },
        None => Err(()),
    };
    match result {
        Ok(number) => {
            db.mark_modified(key);
            assert(db@ =~= incr_outcome(old(db)@, key@, now).0);
            integer_reply(number as i128)
        },
        Err(()) => {
            proof {
                lemma_zero_is_incremented();
                assert(db@ =~= before);
            }
            to_bytes("-ERR value is not an integer or out of range\r\n")
        },
    }
}

/// A counter that starts from zero can be increased.
pub proof fn lemma_zero_is_incremented()
    ensures
        incremented(bytes_of("0")) == Some(1int),
{
    reveal_strlit("0");
    assert(vstd::string::is_ascii("0"));
    assert(bytes_of("0") =~= seq![48u8]);
    reveal_with_fuel(crate::number::digits_value, 2);
    assert(crate::number::is_digit(bytes_of("0")[0]));
    assert(bytes_of("0").drop_last().len() == 0);
}

/// Reads the string under a key.
pub fn get_string(db: &mut DatabaseState, key: &[u8], now: u64) -> (reply: Vec<u8>)
    requires
        old(db).wf(),
    ensures
        final(db).wf(),
        final(db)@ == get_outcome(old(db)@, key@, now).0,
        reply@ == get_outcome(old(db)@, key@, now).1,
{
    db.remove_if_expired(key, now);
    match db.get(key) {
        Some(entry) => match &entry.value {
            RedisValue::String(value) => encode_bulk_string(value.as_slice()),
            _ => wrong_type_reply(),
        },
        None => null_bulk_string_reply(),
    }
}

/// Tells the type of the value under a key.
pub fn value_type(db: &mut DatabaseState, key: &[u8], now: u64) -> (reply: Vec<u8>)
    requires
        old(db).wf(),
    ensures
        final(db).wf(),
        final(db)@ == type_outcome(old(db)@, key@, now).0,
        reply@ == type_outcome(old(db)@, key@, now).1,
{
    db.remove_if_expired(key, now);
    match db.get(key) {
        Some(entry) => match &entry.value {
            RedisValue::String(_) => to_bytes("+string\r\n"),
            RedisValue::List(_) => to_bytes("+list\r\n"),
            RedisValue::Stream(_) => to_bytes("+stream\r\n"),
        },
        None => to_bytes("+none\r\n"),
    }
}

} // verus!
