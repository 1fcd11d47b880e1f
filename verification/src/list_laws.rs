//! Laws of the commands on lists, value by value.

use vstd::prelude::*;
use crate::byte_laws::law_fixed_replies;
use crate::bytes::bytes_of;
use crate::commands::{answer, Clock, ReactionView};
use crate::database::{DatabaseView, EntryView, ValueView};
use crate::encode::{array, bulk_string, integer};
use crate::lists::{
    awaited_reply, extended, first_popped, pop_outcome, push_outcome, range_bounds, Popped,
};
use crate::names::lemma_names;
use crate::number::{i64_value, unsigned_upto};
use crate::reply::is_named;

verus! {

/// What a push puts in front stands there in the opposite order, the last value first; what it
/// puts at the end stands there in its order. The values that were there stay in their order.
pub proof fn law_pushed_values_have_their_places(
    list: Seq<Seq<u8>>,
    values: Seq<Seq<u8>>,
    i: int,
)
    ensures
        extended(list, values, true).len() == values.len() + list.len(),
        extended(list, values, false).len() == list.len() + values.len(),
        0 <= i < values.len() ==> extended(list, values, true)[i] == values[values.len() - 1 - i],
        0 <= i < list.len() ==> extended(list, values, true)[values.len() + i] == list[i],
        0 <= i < list.len() ==> extended(list, values, false)[i] == list[i],
        0 <= i < values.len() ==> extended(list, values, false)[list.len() + i] == values[i],
{
}

/// To push several values is to push them one at a time: one more value is pushed on what those
/// before it left.
pub proof fn law_values_are_pushed_one_at_a_time(
    list: Seq<Seq<u8>>,
    values: Seq<Seq<u8>>,
    value: Seq<u8>,
)
    ensures
        extended(list, Seq::empty(), true) == list,
        extended(list, Seq::empty(), false) == list,
        extended(list, values.push(value), true) == seq![value] + extended(list, values, true),
        extended(list, values.push(value), false) == extended(list, values, false).push(value),
{
    assert(extended(list, Seq::empty(), true) =~= list);
    assert(extended(list, Seq::empty(), false) =~= list);
    assert(extended(list, values.push(value), true) =~= seq![value] + extended(
        list,
        values,
        true,
    ));
    assert(extended(list, values.push(value), false) =~= extended(list, values, false).push(value));
}

/// What is under a key, read as a list: nothing there is an empty list.
pub open spec fn list_under(db: DatabaseView, key: Seq<u8>) -> Option<Seq<Seq<u8>>> {
    if !db.entries.contains_key(key) {
        Some(Seq::empty())
    } else {
        match db.entries[key].value {
            ValueView::List(list) => Some(list),
            _ => None,
        }
    }
}

/// The time at which what is under a key expires, if any.
pub open spec fn time_under(db: DatabaseView, key: Seq<u8>) -> Option<u128> {
    if db.entries.contains_key(key) {
        db.entries[key].expires_at
    } else {
        None
    }
}

/// `RPUSH` and `LPUSH` put their values on the list under their key, which is made where nothing is
/// there, and answer with its length. They wake one waiting client for each value. What is not a
/// list is refused and stays.
pub proof fn law_push_commands(
    db: DatabaseView,
    command: Seq<Seq<u8>>,
    clock: Clock,
    is_replica: bool,
)
    requires
        is_named(command, "RPUSH") || is_named(command, "LPUSH"),
    ensures
        ({
            let outcome = answer(db, command, clock, is_replica);
            let front = is_named(command, "LPUSH");
            if command.len() >= 3 {
                let key = command[1];
                let live = db.expired(key, clock.now);
                match list_under(live, key) {
                    Some(list) => {
                        &&& outcome.0.entries == live.entries.insert(
                            key,
                            EntryView {
                                value: ValueView::List(extended(list, command.skip(2), front)),
                                expires_at: time_under(live, key),
                            },
                        )
                        &&& outcome.0.versions == live.versions.insert(key, live.version(key) + 1)
                        &&& outcome.0.propagated == db.propagated
                        &&& outcome.1 == (ReactionView::ListExtended {
                            reply: integer(list.len() + command.len() - 2),
                            key,
                            count: (command.len() - 2) as nat,
                        })
                    },
                    None => outcome == (
                        live,
                        ReactionView::Reply(
                            bytes_of(
                                "-WRONGTYPE Operation against a key holding the wrong kind of value\r\n",
                            ),
                        ),
                    ),
                }
            } else {
                outcome == (db, ReactionView::Reply(bytes_of("-ERR unknown command\r\n")))
            }
        }),
{
    lemma_names();
    law_fixed_replies();
}

/// After `LPUSH`, `LPOP` with the number of its values as count gives them back in the opposite
/// order, and the list is what it was before. Both keep the other keys.
pub proof fn law_pushed_values_come_back(
    db: DatabaseView,
    key: Seq<u8>,
    values: Seq<Seq<u8>>,
    list: Seq<Seq<u8>>,
    pushed_at: u64,
    popped_at: u64,
)
    requires
        values.len() > 0,
        db.entries.contains_key(key) ==> db.entries[key].expires_at is None,
        list_under(db, key) == Some(list),
    ensures
        ({
            let popped = pop_outcome(
                push_outcome(db, key, values, true, pushed_at).0,
                key,
                values.len(),
                popped_at,
            );
            &&& popped.1 matches Popped::Values(taken) && taken.len() == values.len()
                && forall|i: int|
                0 <= i < values.len() ==> #[trigger] taken[i] == values[values.len() - 1 - i]
            &&& list_under(popped.0, key) == Some(list)
            &&& forall|other: Seq<u8>|
                other != key ==> #[trigger] list_under(popped.0, other) == list_under(db, other)
        }),
{
    let longer = extended(list, values, true);
    assert(longer.take(values.len() as int) =~= values.reverse());
    assert(longer.skip(values.len() as int) =~= list);
    if list.len() == 0 {
        assert(longer =~= values.reverse());
        assert(list =~= Seq::empty());
    }
}

/// Taking values off a list takes the first ones, at most the given number, and leaves the others
/// in their order. A list without values is removed. It counts as one modification where a value
/// was taken or the list removed. Nothing and what is not a list is told apart, and stays.
pub proof fn law_values_are_taken_from_the_front(
    db: DatabaseView,
    key: Seq<u8>,
    count: nat,
    now: u64,
)
    ensures
        ({
            let live = db.expired(key, now);
            let outcome = pop_outcome(db, key, count, now);
            if !live.entries.contains_key(key) {
                outcome == (live, Popped::<Seq<Seq<u8>>>::Missing)
            } else {
                match live.entries[key].value {
                    ValueView::List(list) => {
                        let amount = if count < list.len() {
                            count
                        } else {
                            list.len()
                        };
                        &&& outcome.1 matches Popped::Values(taken) && taken.len() == amount
                            && forall|i: int| 0 <= i < amount ==> #[trigger] taken[i] == list[i]
                        &&& if amount == list.len() {
                            outcome.0.entries == live.entries.remove(key)
                        } else if amount == 0 {
                            outcome.0.entries == live.entries
                        } else {
                            outcome.0.entries == live.entries.insert(
                                key,
                                EntryView {
                                    value: ValueView::List(
                                        list.subrange(amount as int, list.len() as int),
                                    ),
                                    expires_at: live.entries[key].expires_at,
                                },
                            )
                        }
                        &&& outcome.0.versions == if amount > 0 || list.len() == 0 {
                            live.versions.insert(key, live.version(key) + 1)
                        } else {
                            live.versions
                        }
                        &&& outcome.0.propagated == db.propagated
                    },
                    _ => outcome == (live, Popped::<Seq<Seq<u8>>>::WrongType),
                }
            }
        }),
{
    let live = db.expired(key, now);
    if let Some(ValueView::List(list)) = live.value(key) {
        if 0 < count < list.len() {
            assert(list.skip(count as int) =~= list.subrange(count as int, list.len() as int));
        }
    }
}

/// `LPOP` takes one value and answers with it alone, or takes as many as it is told and answers
/// with an array, also of none or one. Where there is no list it answers with nothing of the same
/// form. A count that is not a number, and a wrong number of arguments, is refused.
pub proof fn law_lpop_answers(
    db: DatabaseView,
    command: Seq<Seq<u8>>,
    clock: Clock,
    is_replica: bool,
)
    requires
        is_named(command, "LPOP"),
    ensures
        ({
            let outcome = answer(db, command, clock, is_replica);
            let wrong = bytes_of(
                "-WRONGTYPE Operation against a key holding the wrong kind of value\r\n",
            );
            if command.len() == 2 {
                let popped = pop_outcome(db, command[1], 1, clock.now);
                &&& outcome.0 == popped.0
                &&& outcome.1 == ReactionView::Reply(
                    match popped.1 {
                        Popped::Values(taken) => if taken.len() > 0 {
                            bulk_string(taken[0])
                        } else {
                            seq![36u8, 45u8, 49u8, 13u8, 10u8]
                        },
                        Popped::Missing => seq![36u8, 45u8, 49u8, 13u8, 10u8],
                        Popped::WrongType => wrong,
                    },
                )
            } else if command.len() == 3 {
                match unsigned_upto(command[2], usize::MAX as nat) {
                    Some(count) => {
                        let popped = pop_outcome(db, command[1], count, clock.now);
                        &&& outcome.0 == popped.0
                        &&& outcome.1 == ReactionView::Reply(
                            match popped.1 {
                                Popped::Values(taken) => array(taken),
                                Popped::Missing => seq![42u8, 45u8, 49u8, 13u8, 10u8],
                                Popped::WrongType => wrong,
                            },
                        )
                    },
                    None => outcome == (
                        db,
                        ReactionView::Reply(
                            bytes_of("-Err value is not an integer or not range\r\n"),
                        ),
                    ),
                }
            } else {
                outcome == (
                    db,
                    ReactionView::Reply(bytes_of("-ERR wrong number of arguments for 'lpop'\r\n")),
                )
            }
        }),
{
    lemma_names();
    law_fixed_replies();
}

/// A client that waits for a value of a list gets the list's key and its first value, which leaves
/// the list. It goes on waiting where there is none, and is told where there is no list.
pub proof fn law_waiting_client_gets_the_first_value(
    key: Seq<u8>,
    taken: Seq<Seq<u8>>,
)
    ensures
        awaited_reply(key, first_popped(Popped::Missing)) is None,
        awaited_reply(key, first_popped(Popped::WrongType)) == Some(
            bytes_of("-WRONGTYPE Operation against a key holding the wrong kind of value\r\n"),
        ),
        awaited_reply(key, first_popped(Popped::Values(taken))) == (if taken.len() > 0 {
            Some(array(seq![key, taken[0]]))
        } else {
            None
        }),
        first_popped(Popped::Missing) == Ok::<Option<Seq<u8>>, ()>(None),
        first_popped(Popped::WrongType) is Err,
        first_popped(Popped::Values(taken)) == Ok::<Option<Seq<u8>>, ()>(
            if taken.len() > 0 {
                Some(taken[0])
            } else {
                None
            },
        ),
{
    law_fixed_replies();
}

/// `BLPOP` asks to wait for a value of its key, as long as its last argument says.
pub proof fn law_blpop_waits(
    db: DatabaseView,
    command: Seq<Seq<u8>>,
    clock: Clock,
    is_replica: bool,
)
    requires
        is_named(command, "BLPOP"),
    ensures
        answer(db, command, clock, is_replica) == (
            db,
            if command.len() == 3 {
                ReactionView::AwaitListValue { key: command[1], timeout: command[2] }
            } else {
                ReactionView::Reply(
                    bytes_of("-ERR wrong number of arguments for 'BLPOP' command\r\n"),
                )
            },
        ),
{
    lemma_names();
}

/// `LLEN` answers with the number of values under its key, which is zero where nothing is there.
pub proof fn law_llen_counts_values(
    db: DatabaseView,
    command: Seq<Seq<u8>>,
    clock: Clock,
    is_replica: bool,
)
    requires
        is_named(command, "LLEN"),
    ensures
        ({
            let outcome = answer(db, command, clock, is_replica);
            if command.len() == 2 {
                let live = db.expired(command[1], clock.now);
                outcome == (
                    live,
                    ReactionView::Reply(
                        match list_under(live, command[1]) {
                            Some(list) => integer(list.len() as int),
                            None => bytes_of(
                                "-WRONGTYPE Operation against a key holding the wrong kind of value\r\n",
                            ),
                        },
                    ),
                )
            } else {
                outcome == (db, ReactionView::Reply(bytes_of("-ERR unknown command\r\n")))
            }
        }),
{
    lemma_names();
    law_fixed_replies();
}

/// A range holds the places of a list that lie from its first index to its last one, where a
/// negative index counts from the end, and no others.
pub proof fn law_range_holds_the_places_between(length: nat, start: int, stop: int, place: int)
    ensures
        ({
            let first = if start < 0 {
                start + length
            } else {
                start
            };
            let last = if stop < 0 {
                stop + length
            } else {
                stop
            };
            let is_between = 0 <= place < length && first <= place <= last;
            match range_bounds(length, start, stop) {
                Some((low, high)) => {
                    &&& is_between <==> low <= place <= high
                    &&& 0 <= low <= high < length
                },
                None => !is_between,
            }
        }),
{
}

/// `LRANGE` answers with the values of the list under its key from one index to another, in their
/// order. Indices that are not numbers of 64 bits are refused. It changes nothing but removes an
/// expired key.
pub proof fn law_lrange_answers(
    db: DatabaseView,
    command: Seq<Seq<u8>>,
    clock: Clock,
    is_replica: bool,
)
    requires
        is_named(command, "LRANGE"),
    ensures
        ({
            let outcome = answer(db, command, clock, is_replica);
            if command.len() == 4 {
                match (i64_value(command[2]), i64_value(command[3])) {
                    (Some(start), Some(stop)) => {
                        let live = db.expired(command[1], clock.now);
                        &&& outcome.0 == live
                        &&& outcome.1 == ReactionView::Reply(
                            match list_under(live, command[1]) {
                                Some(list) => array(
                                    match range_bounds(list.len(), start, stop) {
                                        Some((low, high)) => Seq::new(
                                            (high - low + 1) as nat,
                                            |i: int| list[low + i],
                                        ),
                                        None => Seq::empty(),
                                    },
                                ),
                                None => bytes_of(
                                    "-WRONGTYPE Operation against a key holding the wrong kind of value\r\n",
                                ),
                            },
                        )
                    },
                    _ => outcome == (
                        db,
                        ReactionView::Reply(
                            bytes_of("-ERR value is not an integer ot out of range\r\n"),
                        ),
                    ),
                }
            } else {
                outcome == (
                    db,
                    ReactionView::Reply(
                        bytes_of("-ERR wrong number of arguments for 'lrange' command\r\n"),
                    ),
                )
            }
        }),
{
    lemma_names();
    law_fixed_replies();
    if command.len() == 4 {
        if let (Some(start), Some(stop)) = (i64_value(command[2]), i64_value(command[3])) {
            let live = db.expired(command[1], clock.now);
            if let Some(list) = list_under(live, command[1]) {
                if let Some((low, high)) = range_bounds(list.len(), start, stop) {
                    assert(list.subrange(low, high + 1) =~= Seq::new(
                        (high - low + 1) as nat,
                        |i: int| list[low + i],
                    ));
                }
            }
        }
    }
}

} // verus!
