//! Laws of the commands on strings, as a client sees them.

use vstd::prelude::*;
use crate::byte_laws::law_fixed_replies;
use crate::bytes::{bytes_of, is_word};
use crate::commands::{answer, Clock, ReactionView};
use crate::database::{DatabaseView, EntryView, ValueView};
use crate::encode::{bulk_string, integer};
use crate::names::lemma_names;
use crate::number::{digits_value, i64_value, is_digit, signed_decimal, unsigned_upto};
use crate::reply::is_named;
use crate::strings::lemma_zero_is_incremented;

verus! {

/// A client is told what it sent, or that the server is there.
pub proof fn law_ping_and_echo(
    db: DatabaseView,
    command: Seq<Seq<u8>>,
    clock: Clock,
    is_replica: bool,
)
    ensures
        is_named(command, "PING") ==> answer(db, command, clock, is_replica) == (
            db,
            ReactionView::Reply(
                bytes_of(
                    if command.len() == 1 {
                        "+PONG\r\n"
                    } else {
                        "-ERR unknown command\r\n"
                    },
                ),
            ),
        ),
        is_named(command, "ECHO") ==> answer(db, command, clock, is_replica) == (
            db,
            ReactionView::Reply(
                if command.len() == 2 {
                    bulk_string(command[1])
                } else {
                    bytes_of("-ERR unknown command\r\n")
                },
            ),
        ),
{
    lemma_names();
}

/// `SET` without an option puts its value under its key for good, whatever was there, counts one
/// modification of the key, and is sent to the replicas as it came. No other key is touched.
pub proof fn law_set_stores_for_good(
    db: DatabaseView,
    command: Seq<Seq<u8>>,
    clock: Clock,
    is_replica: bool,
)
    requires
        is_named(command, "SET"),
        command.len() == 3,
    ensures
        ({
            let outcome = answer(db, command, clock, is_replica);
            &&& outcome.0.entries == db.entries.insert(
                command[1],
                EntryView { value: ValueView::String(command[2]), expires_at: None },
            )
            &&& outcome.0.versions == db.versions.insert(command[1], db.version(command[1]) + 1)
            &&& outcome.0.propagated == db.propagated.push(command)
            &&& outcome.1 == ReactionView::Reply(bytes_of("+OK\r\n"))
        }),
{
    lemma_names();
}

/// `SET` with `PX` and a positive number of milliseconds puts its value under its key until just
/// that many milliseconds have passed. A number that is not positive or not a number of 64 bits is
/// refused, and so is any other option; then nothing changes.
pub proof fn law_set_stores_for_a_time(
    db: DatabaseView,
    command: Seq<Seq<u8>>,
    clock: Clock,
    is_replica: bool,
)
    requires
        is_named(command, "SET"),
        command.len() != 3,
    ensures
        ({
            let outcome = answer(db, command, clock, is_replica);
            if command.len() == 5 && is_word(command[3], "PX") {
                match unsigned_upto(command[4], 0xffff_ffff_ffff_ffff) {
                    Some(milliseconds) if milliseconds > 0 => {
                        let entry = outcome.0.entries[command[1]];
                        &&& entry.value == ValueView::String(command[2])
                        &&& entry.expires_at matches Some(time) && time as int == clock.now
                            + 1_000_000 * milliseconds
                        &&& outcome.0.entries == db.entries.insert(command[1], entry)
                        &&& outcome.0.versions == db.versions.insert(
                            command[1],
                            db.version(command[1]) + 1,
                        )
                        &&& outcome.0.propagated == db.propagated.push(command)
                        &&& outcome.1 == ReactionView::Reply(bytes_of("+OK\r\n"))
                    },
                    _ => outcome == (
                        db,
                        ReactionView::Reply(
                            bytes_of("-ERR invalid expire time in 'set' command\r\n"),
                        ),
                    ),
                }
            } else {
                outcome == (db, ReactionView::Reply(bytes_of("-ERR syntax error\r\n")))
            }
        }),
{
    lemma_names();
}

/// What `SET` with `PX` and `n` milliseconds stores at one time, `GET` finds at every time before
/// `n` million nanoseconds later, and does not find from then on. What `SET` stores without an
/// option it finds at every time.
pub proof fn law_value_lives_for_its_time(
    db: DatabaseView,
    set: Seq<Seq<u8>>,
    get: Seq<Seq<u8>>,
    stored: Clock,
    read: Clock,
    is_replica: bool,
)
    requires
        is_named(set, "SET"),
        set.len() == 3 || set.len() == 5 && is_word(set[3], "PX") && (unsigned_upto(
            set[4],
            0xffff_ffff_ffff_ffff,
        ) matches Some(n) && n > 0),
        is_named(get, "GET"),
        get.len() == 2,
        get[1] == set[1],
    ensures
        ({
            let found = answer(answer(db, set, stored, is_replica).0, get, read, is_replica).1;
            if set.len() == 3 || (unsigned_upto(set[4], 0xffff_ffff_ffff_ffff) matches Some(n)
                && read.now < stored.now + n * 1_000_000) {
                found == ReactionView::Reply(bulk_string(set[2]))
            } else {
                found == ReactionView::Reply(seq![36u8, 45u8, 49u8, 13u8, 10u8])
            }
        }),
{
    lemma_names();
    law_fixed_replies();
}

/// `GET` answers with the string under its key and with nothing where nothing is there or where it
/// has expired; it refuses lists and streams. It changes nothing but removes an expired key.
pub proof fn law_get_answers_with_the_value(
    db: DatabaseView,
    command: Seq<Seq<u8>>,
    clock: Clock,
    is_replica: bool,
)
    requires
        is_named(command, "GET"),
    ensures
        ({
            let outcome = answer(db, command, clock, is_replica);
            if command.len() == 2 {
                let live = db.expired(command[1], clock.now);
                &&& outcome.0 == live
                &&& outcome.1 == ReactionView::Reply(
                    if !live.entries.contains_key(command[1]) {
                        seq![36u8, 45u8, 49u8, 13u8, 10u8]
                    } else {
                        match live.entries[command[1]].value {
                            ValueView::String(value) => bulk_string(value),
                            _ => bytes_of(
                                "-WRONGTYPE Operation against a key holding the wrong kind of value\r\n",
                            ),
                        }
                    },
                )
            } else {
                outcome == (db, ReactionView::Reply(bytes_of("-ERR unknown command\r\n")))
            }
        }),
{
    lemma_names();
    law_fixed_replies();
}

/// `INCR` puts the number that follows the one that is there in its place, and answers with it.
/// The time at which the entry expires stays. A missing key counts as zero. What is not a number,
/// or has no following one of 64 bits, stays as it is, and so does what is not a string.
pub proof fn law_incr_counts_up(
    db: DatabaseView,
    command: Seq<Seq<u8>>,
    clock: Clock,
    is_replica: bool,
)
    requires
        is_named(command, "INCR"),
    ensures
        ({
            let outcome = answer(db, command, clock, is_replica);
            if command.len() == 2 {
                let key = command[1];
                let live = db.expired(key, clock.now);
                let number = if !live.entries.contains_key(key) {
                    Some(0int)
                } else {
                    match live.entries[key].value {
                        ValueView::String(text) => i64_value(text),
                        _ => None,
                    }
                };
                let expires_at = if live.entries.contains_key(key) {
                    live.entries[key].expires_at
                } else {
                    None
                };
                match number {
                    Some(number) if number < 0x7fff_ffff_ffff_ffff => {
                        &&& outcome.0.entries == live.entries.insert(
                            key,
                            EntryView {
                                value: ValueView::String(signed_decimal(number + 1)),
                                expires_at,
                            },
                        )
                        &&& outcome.0.versions == live.versions.insert(key, live.version(key) + 1)
                        &&& outcome.0.propagated == db.propagated
                        &&& outcome.1 == ReactionView::Reply(integer(number + 1))
                    },
                    _ => outcome == (
                        live,
                        ReactionView::Reply(
                            bytes_of("-ERR value is not an integer or out of range\r\n"),
                        ),
                    ),
                }
            } else {
                outcome == (
                    db,
                    ReactionView::Reply(
                        bytes_of("-ERR wrong number of argument for 'incr' command\r\n"),
                    ),
                )
            }
        }),
{
    lemma_names();
    lemma_zero_is_incremented();
    lemma_zero_is_zero();
}

proof fn lemma_zero_is_zero()
    ensures
        i64_value(bytes_of("0")) == Some(0int),
{
    reveal_strlit("0");
    assert(vstd::string::is_ascii("0"));
    assert(bytes_of("0") =~= seq![48u8]);
    reveal_with_fuel(digits_value, 2);
    assert(is_digit(bytes_of("0")[0]));
    assert(bytes_of("0").drop_last().len() == 0);
}

/// `TYPE` tells what kind of value is under its key, if any. It changes nothing but removes an
/// expired key.
pub proof fn law_type_tells_the_kind(
    db: DatabaseView,
    command: Seq<Seq<u8>>,
    clock: Clock,
    is_replica: bool,
)
    requires
        is_named(command, "TYPE"),
    ensures
        ({
            let outcome = answer(db, command, clock, is_replica);
            if command.len() == 2 {
                let live = db.expired(command[1], clock.now);
                outcome == (
                    live,
                    ReactionView::Reply(
                        bytes_of(
                            if !live.entries.contains_key(command[1]) {
                                "+none\r\n"
                            } else {
                                match live.entries[command[1]].value {
                                    ValueView::String(_) => "+string\r\n",
                                    ValueView::List(_) => "+list\r\n",
                                    ValueView::Stream(_) => "+stream\r\n",
                                }
                            },
                        ),
                    ),
                )
            } else {
                outcome == (
                    db,
                    ReactionView::Reply(
                        bytes_of("-ERR wrong number of arguments for 'type' command\r\n"),
                    ),
                )
            }
        }),
{
    lemma_names();
}

} // verus!
