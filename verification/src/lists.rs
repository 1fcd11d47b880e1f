//! Commands on lists.

use vstd::prelude::*;
use crate::bytes::{bytes_of, contents, copy_bytes, copy_range, to_bytes};
use crate::database::{DatabaseState, DatabaseView, Entry, EntryView, RedisValue, ValueView};
use crate::encode::{array, bulk_string, encode_bulk_string, integer, write_array};
use crate::number::{i64_value, parse_list_index, parse_number, unsigned_upto};
use crate::reply::{
    integer_reply, null_array, null_array_reply, null_bulk_string, null_bulk_string_reply,
    wrong_type, wrong_type_reply,
};

verus! {

/// The list under a key, which is empty where there is nothing; none where there is something
/// else.
pub open spec fn list_at(db: DatabaseView, key: Seq<u8>) -> Option<Seq<Seq<u8>>> {
    match db.value(key) {
        None => Some(Seq::empty()),
        Some(ValueView::List(list)) => Some(list),
        Some(_) => None,
    }
}

/// The database with a list under a key, which expires as what was there before.
pub open spec fn with_list(db: DatabaseView, key: Seq<u8>, list: Seq<Seq<u8>>) -> DatabaseView {
    db.stored(
        key,
        EntryView {
            value: ValueView::List(list),
            expires_at: if db.entries.contains_key(key) {
                db.entries[key].expires_at
            } else {
                None
            },
        },
    )
}

/// A list with values put at its end, in their order, or at its front, one before the other.
pub open spec fn extended(list: Seq<Seq<u8>>, values: Seq<Seq<u8>>, front: bool) -> Seq<Seq<u8>> {
    if front {
        values.reverse() + list
    } else {
        list + values
    }
}

/// The database after values were put on the list under a key, and the list's new length; none
/// where the key holds no list.
pub open spec fn push_outcome(
    db: DatabaseView,
    key: Seq<u8>,
    values: Seq<Seq<u8>>,
    front: bool,
    now: u64,
) -> (DatabaseView, Option<nat>) {
    let live = db.expired(key, now);
    match list_at(live, key) {
        None => (live, None),
        Some(list) => (
            with_list(live, key, extended(list, values, front)).modified(key),
            Some(list.len() + values.len()),
        ),
    }
}

/// What taking values off a list found.
pub enum Popped<T> {
    /// Nothing is stored under the key.
    Missing,
    /// The key holds no list.
    WrongType,
    /// The values that were taken.
    Values(T),
}

/// The database after at most `count` values were taken off the front of the list under a key,
/// and what was found. A list that is left empty is removed.
pub open spec fn pop_outcome(db: DatabaseView, key: Seq<u8>, count: nat, now: u64) -> (
    DatabaseView,
    Popped<Seq<Seq<u8>>>,
) {
    let live = db.expired(key, now);
    match live.value(key) {
        None => (live, Popped::Missing),
        Some(ValueView::List(list)) => if list.len() <= count {
            (live.deleted(key).modified(key), Popped::Values(list))
        } else if count == 0 {
            (live, Popped::Values(Seq::empty()))
        } else {
            (
                with_list(live, key, list.skip(count as int)).modified(key),
                Popped::Values(list.take(count as int)),
            )
        },
        Some(_) => (live, Popped::WrongType),
    }
}

/// The first value of the list under a key, as [`pop_outcome`] finds it.
pub open spec fn first_popped(popped: Popped<Seq<Seq<u8>>>) -> Result<Option<Seq<u8>>, ()> {
    match popped {
        Popped::Missing => Ok(None),
        Popped::WrongType => Err(()),
        Popped::Values(values) => if values.len() > 0 {
            Ok(Some(values[0]))
        } else {
            Ok(None)
        },
    }
}

/// The reply to `LPOP`, with or without a count.
pub open spec fn lpop_reply(popped: Popped<Seq<Seq<u8>>>, has_count: bool) -> Seq<u8> {
    match popped {
        Popped::WrongType => wrong_type(),
        Popped::Missing => if has_count {
            null_array()
        } else {
            null_bulk_string()
        },
        Popped::Values(values) => if has_count {
            array(values)
        } else if values.len() > 0 {
            bulk_string(values[0])
        } else {
            null_bulk_string()
        },
    }
}

/// The place that an index names in a list: from the end where the index is negative.
pub open spec fn place(length: nat, index: int) -> int {
    if index < 0 {
        length + index
    } else {
        index
    }
}

/// The first and the last place of a range of a list, both within the list, if the range is not
/// empty.
pub open spec fn range_bounds(length: nat, start: int, stop: int) -> Option<(int, int)> {
    let first = if place(length, start) < 0 {
        0
    } else {
        place(length, start)
    };
    let last = if place(length, stop) >= length {
        length - 1
    } else {
        place(length, stop)
    };
    if first <= last {
        Some((first, last))
    } else {
        None
    }
}

/// The values of a list from place `start` to place `stop`.
pub open spec fn range_of(list: Seq<Seq<u8>>, start: int, stop: int) -> Seq<Seq<u8>> {
    match range_bounds(list.len(), start, stop) {
        Some((first, last)) => list.subrange(first, last + 1),
        None => Seq::empty(),
    }
}

/// The database after the length of the list under a key was asked for, and the reply.
pub open spec fn llen_outcome(db: DatabaseView, key: Seq<u8>, now: u64) -> (
    DatabaseView,
    Seq<u8>,
) {
    let live = db.expired(key, now);
    (
        live,
        match list_at(live, key) {
            Some(list) => integer(list.len() as int),
            None => wrong_type(),
        },
    )
}

/// The database after an `LPOP` command, and the reply.
pub open spec fn lpop_outcome(db: DatabaseView, command: Seq<Seq<u8>>, now: u64) -> (
    DatabaseView,
    Seq<u8>,
) {
    if command.len() == 2 {
        let outcome = pop_outcome(db, command[1], 1, now);
        (outcome.0, lpop_reply(outcome.1, false))
    } else if command.len() == 3 {
        match unsigned_upto(command[2], usize::MAX as nat) {
            Some(count) => {
                let outcome = pop_outcome(db, command[1], count, now);
                (outcome.0, lpop_reply(outcome.1, true))
            },
            None => (db, bytes_of("-Err value is not an integer or not range\r\n")),
        }
    } else {
        (db, bytes_of("-ERR wrong number of arguments for 'lpop'\r\n"))
    }
}

/// The database after an `LRANGE` command, and the reply.
pub open spec fn lrange_outcome(db: DatabaseView, command: Seq<Seq<u8>>, now: u64) -> (
    DatabaseView,
    Seq<u8>,
) {
    if command.len() != 4 {
        (db, bytes_of("-ERR wrong number of arguments for 'lrange' command\r\n"))
    } else {
        match (i64_value(command[2]), i64_value(command[3])) {
            (Some(start), Some(stop)) => {
                let live = db.expired(command[1], now);
                (
                    live,
                    match list_at(live, command[1]) {
                        Some(list) => array(range_of(list, start, stop)),
                        None => wrong_type(),
                    },
                )
            },
            _ => (db, bytes_of("-ERR value is not an integer ot out of range\r\n")),
        }
    }
}

/// Turns the indices of a range of a list into places within the list.
pub fn normalize_range(length: usize, start: i64, stop: i64) -> (result: Option<(usize, usize)>)
    ensures
        match result {
            Some((first, last)) => range_bounds(length as nat, start as int, stop as int) == Some(
                (first as int, last as int),
            ),
            None => range_bounds(length as nat, start as int, stop as int) is None,
        },
{
    let length: i128 = length as i128;
    let mut first: i128 = if start < 0 {
        length + start as i128
    } else {
        start as i128
    };
    let mut last: i128 = if stop < 0 {
        length + stop as i128
    } else {
        stop as i128
    };
    if first < 0 {
        first = 0;
    }
    if last >= length {
        last = length - 1;
    }
    if first > last {
        None
    } else {
        Some((first as usize, last as usize))
    }
}

/// Appends copies of the items of a list from index `from` on.
fn push_copies(list: &mut Vec<Vec<u8>>, values: &[Vec<u8>], from: usize)
    requires
        from <= values@.len(),
    ensures
        contents(final(list)@) == contents(old(list)@) + contents(values@).skip(from as int),
{
    for i in from..values.len()
        invariant
            from <= values@.len(),
            list@.len() == old(list)@.len() + (i - from),
            forall|j: int| 0 <= j < old(list)@.len() ==> list@[j] == old(list)@[j],
            forall|j: int|
                old(list)@.len() <= j < list@.len() ==> (#[trigger] list@[j])@ == values@[from + j
                    - old(list)@.len()]@,
    {
        list.push(copy_bytes(values[i].as_slice()));
    }
    assert(contents(list@) =~= contents(old(list)@) + contents(values@).skip(from as int));
}

/// Puts copies of the items of a list from index `from` on before each other at the front.
fn push_copies_front(list: &mut Vec<Vec<u8>>, values: &[Vec<u8>], from: usize)
    requires
        from <= values@.len(),
    ensures
        contents(final(list)@) == contents(values@).skip(from as int).reverse() + contents(
            old(list)@,
        ),
{
    let ghost all = contents(values@).skip(from as int);
    assert(contents(list@) =~= all.take(0).reverse() + contents(old(list)@));
    for i in from..values.len()
        invariant
            from <= values@.len(),
            all == contents(values@).skip(from as int),
            contents(list@) == all.take(i - from).reverse() + contents(old(list)@),
    {
        let ghost before = contents(list@);
        let copy = copy_bytes(values[i].as_slice());
        let ghost value = copy@;
        list.insert(0, copy);
        assert(contents(list@) =~= seq![value] + before);
        assert(value == all[i - from]);
        assert(all.take(i + 1 - from) =~= all.take(i - from).push(value));
        assert(all.take(i + 1 - from).reverse() =~= seq![value] + all.take(i - from).reverse());
        assert(contents(list@) =~= all.take(i + 1 - from).reverse() + contents(old(list)@));
    }
    assert(all.take(all.len() as int) =~= all);
}

/// Puts the values of a push command on the list under its key, at the front or at the end.
pub fn push(db: &mut DatabaseState, command: &[Vec<u8>], front: bool, now: u64) -> (result: Result<
    usize,
    (),
>)
    requires
        old(db).wf(),
        command@.len() >= 2,
    ensures
        final(db).wf(),
        final(db)@ == push_outcome(
            old(db)@,
            contents(command@)[1],
            contents(command@).skip(2),
            front,
            now,
        ).0,
        match (
            result,
            push_outcome(
                old(db)@,
                contents(command@)[1],
                contents(command@).skip(2),
                front,
                now,
            ).1,
        ) {
            (Ok(length), Some(expected)) => length == expected,
            (Err(()), None) => true,
            _ => false,
        },
{
    let key = command[1].as_slice();
    let ghost values = contents(command@).skip(2);
    assert(contents(command@)[1] == key@);
    db.remove_if_expired(key, now);
    if db.get(key).is_none() {
        db.store(copy_bytes(key), Entry { value: RedisValue::List(Vec::new()), expires_at: None });
        assert(db@.entries[key@].value->List_0 =~= Seq::<Seq<u8>>::empty());
    }
    let ghost before = db@;
    let result = match db.get_mut(key) {
        Some(entry) => match &mut entry.value {
            RedisValue::List(list) => {
                let ghost all = contents(list@);
                if front {
                    push_copies_front(list, command, 2);
                } else {
                    push_copies(list, command, 2);
                }
                assert(list@.len() == contents(list@).len());
                assert(contents(list@) == extended(all, values, front));
                assert(extended(all, values, front).len() == all.len() + values.len());
                Ok(list.len())
            },
            _ => Err(()),
        },
        None => Err(()),
    };
    match result {
        Ok(length) => {
            db.mark_modified(key);
            assert(db@ =~= push_outcome(old(db)@, key@, values, front, now).0);
            Ok(length)
        },
        Err(()) => {
            assert(db@ =~= before);
            Err(())
        },
    }
}

/// Tells the length of the list under a key.
pub fn list_length(db: &mut DatabaseState, key: &[u8], now: u64) -> (reply: Vec<u8>)
    requires
        old(db).wf(),
    ensures
        final(db).wf(),
        final(db)@ == llen_outcome(old(db)@, key@, now).0,
        reply@ == llen_outcome(old(db)@, key@, now).1,
{
    db.remove_if_expired(key, now);
    match db.get(key) {
        Some(entry) => match &entry.value {
            RedisValue::List(list) => integer_reply(list.len() as i128),
            _ => wrong_type_reply(),
        },
        None => integer_reply(0),
    }
}

/// Takes at most `count` values off the front of the list under a key.
pub fn pop_values(db: &mut DatabaseState, key: &[u8], count: usize, now: u64) -> (result: Popped<
    Vec<Vec<u8>>,
>)
    requires
        old(db).wf(),
    ensures
        final(db).wf(),
        final(db)@ == pop_outcome(old(db)@, key@, count as nat, now).0,
        match (result, pop_outcome(old(db)@, key@, count as nat, now).1) {
            (Popped::Missing, Popped::Missing) => true,
            (Popped::WrongType, Popped::WrongType) => true,
            (Popped::Values(values), Popped::Values(expected)) => contents(values@) == expected,
            _ => false,
        },
{
    db.remove_if_expired(key, now);
    let ghost live = db@;
    let mut emptied = false;
    let result = match db.get_mut(key) {
        Some(entry) => match &mut entry.value {
            RedisValue::List(list) => {
                let amount = if count < list.len() {
                    count
                } else {
                    list.len()
                };
                let ghost all = contents(list@);
                let mut rest = list.split_off(amount);
                std::mem::swap(list, &mut rest);
                emptied = list.len() == 0;
                assert(contents(rest@) =~= all.take(amount as int));
                assert(contents(list@) =~= all.skip(amount as int));
                assert(amount == 0 ==> contents(list@) =~= all);
                assert(amount == all.len() ==> contents(rest@) =~= all);
                Popped::Values(rest)
            },
            _ => Popped::WrongType,
        },
        None => Popped::Missing,
    };
    if emptied {
        db.delete(key);
    }
    match result {
        Popped::Values(values) => {
            if emptied || values.len() > 0 {
                db.mark_modified(key);
            }
            assert(db@ =~= pop_outcome(old(db)@, key@, count as nat, now).0);
            Popped::Values(values)
        },
        Popped::WrongType => {
            assert(db@ =~= live);
            Popped::WrongType
        },
        Popped::Missing => Popped::Missing,
    }
}

/// Takes the first value off the list under a key.
pub fn pop_first(db: &mut DatabaseState, key: &[u8], now: u64) -> (result: Result<
    Option<Vec<u8>>,
    (),
>)
    requires
        old(db).wf(),
    ensures
        final(db).wf(),
        final(db)@ == pop_outcome(old(db)@, key@, 1, now).0,
        match (result, first_popped(pop_outcome(old(db)@, key@, 1, now).1)) {
            (Ok(Some(value)), Ok(Some(expected))) => value@ == expected,
            (Ok(None), Ok(None)) => true,
            (Err(()), Err(())) => true,
            _ => false,
        },
{
    match pop_values(db, key, 1, now) {
        Popped::Missing => Ok(None),
        Popped::WrongType => Err(()),
        Popped::Values(values) => {
            let mut values = values;
            if values.len() > 0 {
                let ghost first = contents(values@)[0];
                let value = values.swap_remove(0);
                assert(value@ == first);
                Ok(Some(value))
            } else {
                Ok(None)
            }
        },
    }
}

fn array_reply(values: &[Vec<u8>]) -> (reply: Vec<u8>)
    ensures
        reply@ == array(contents(values@)),
{
    let mut reply: Vec<u8> = Vec::new();
    write_array(&mut reply, values);
    assert(reply@ =~= array(contents(values@)));
    reply
}

/// Answers an `LPOP` command.
pub fn execute_lpop(db: &mut DatabaseState, command: &[Vec<u8>], now: u64) -> (reply: Vec<u8>)
    requires
        old(db).wf(),
    ensures
        final(db).wf(),
        final(db)@ == lpop_outcome(old(db)@, contents(command@), now).0,
        reply@ == lpop_outcome(old(db)@, contents(command@), now).1,
{
    if command.len() != 2 && command.len() != 3 {
        return to_bytes("-ERR wrong number of arguments for 'lpop'\r\n");
    }
    let has_count = command.len() == 3;
    let count = if has_count {
        match parse_number(command[2].as_slice()) {
            Ok(count) => count,
            Err(_) => {
                return to_bytes("-Err value is not an integer or not range\r\n");
            },
        }
    } else {
        1
    };
    match pop_values(db, command[1].as_slice(), count, now) {
        Popped::Values(values) => if has_count {
            array_reply(values.as_slice())
        } else if values.len() > 0 {
            encode_bulk_string(values[0].as_slice())
        } else {
            null_bulk_string_reply()
        },
        Popped::Missing => if has_count {
            null_array_reply()
        } else {
            null_bulk_string_reply()
        },
        Popped::WrongType => wrong_type_reply(),
    }
}

/// Answers an `LRANGE` command.
pub fn execute_lrange(db: &mut DatabaseState, command: &[Vec<u8>], now: u64) -> (reply: Vec<u8>)
    requires
        old(db).wf(),
    ensures
        final(db).wf(),
        final(db)@ == lrange_outcome(old(db)@, contents(command@), now).0,
        reply@ == lrange_outcome(old(db)@, contents(command@), now).1,
{
    if command.len() != 4 {
        return to_bytes("-ERR wrong number of arguments for 'lrange' command\r\n");
    }
    let (start, stop) = match (
        parse_list_index(command[2].as_slice()),
        parse_list_index(command[3].as_slice()),
    ) {
        (Ok(start), Ok(stop)) => (start, stop),
        _ => {
            return to_bytes("-ERR value is not an integer ot out of range\r\n");
        },
    };
    let key = command[1].as_slice();
    db.remove_if_expired(key, now);
    let nothing: Vec<Vec<u8>> = Vec::new();
    assert(contents(nothing@) =~= Seq::<Seq<u8>>::empty());
    match db.get(key) {
        None => array_reply(nothing.as_slice()),
        Some(entry) => match &entry.value {
            RedisValue::List(list) => match normalize_range(list.len(), start, stop) {
                Some((first, last)) => {
                    let values = copy_range(list.as_slice(), first, last + 1);
                    array_reply(values.as_slice())
                },
                None => array_reply(nothing.as_slice()),
            },
            _ => wrong_type_reply(),
        },
    }
}

/// The reply to a client that waits for a value of the list under a key, if there is one yet.
pub open spec fn awaited_reply(key: Seq<u8>, first: Result<Option<Seq<u8>>, ()>) -> Option<
    Seq<u8>,
> {
    match first {
        Ok(Some(value)) => Some(array(seq![key, value])),
        Ok(None) => None,
        Err(()) => Some(wrong_type()),
    }
}

/// Answers a client that waits for a value of the list under a key, if there is anything to
/// answer yet.
pub fn poll_list(db: &mut DatabaseState, key: &[u8], now: u64) -> (result: Option<Vec<u8>>)
    requires
        old(db).wf(),
    ensures
        final(db).wf(),
        final(db)@ == pop_outcome(old(db)@, key@, 1, now).0,
        match (
            result,
            awaited_reply(key@, first_popped(pop_outcome(old(db)@, key@, 1, now).1)),
        ) {
            (Some(reply), Some(expected)) => reply@ == expected,
            (None, None) => true,
            _ => false,
        },
{
    match pop_first(db, key, now) {
        Ok(Some(value)) => {
            let ghost popped = value@;
            let mut pair: Vec<Vec<u8>> = Vec::new();
            pair.push(copy_bytes(key));
            pair.push(value);
            assert(contents(pair@) =~= seq![key@, popped]);
            Some(array_reply(pair.as_slice()))
        },
        Ok(None) => None,
        Err(()) => Some(wrong_type_reply()),
    }
}

/// The reply to a `BLPOP` command whose timeout is not a time.
pub fn invalid_timeout_reply() -> (reply: Vec<u8>)
    ensures
        reply@ == bytes_of("-ERR timeout is not a float or out of range\r\n"),
{
    to_bytes("-ERR timeout is not a float or out of range\r\n")
}

} // verus!
