//! Laws of the stored data: what one command stores, another finds.

use vstd::prelude::*;
use crate::bytes::bytes_of;
use crate::commands::{xadd_reaction, Clock, ReactionView};
use crate::database::{DatabaseView, ValueView};
use crate::encode::{bulk_string, integer};
use crate::invariants::{ascending, lemma_added_is_ascending, valid};
use crate::lists::{
    extended, list_at, pop_outcome, push_outcome, range_bounds, range_of, Popped,
};
use crate::number::{i64_value, law_signed_decimal_is_read_back, signed_decimal};
use crate::reply::null_bulk_string;
use crate::stream::{id_bytes, law_ids_are_ordered, StreamEntryView, StreamId};
use crate::streams::{
    entries_after, entries_between, last_id, latest_id, pairs, start_ids, stream_at, streams_read,
    xadd_outcome, xadd_request, Added,
};
use crate::strings::{
    get_outcome, incr_outcome, lemma_zero_is_incremented, set_expiry, set_outcome,
};

verus! {

/// `GET` finds what `SET` stored, until its time has come, and nothing from then on.
pub proof fn law_get_finds_what_set_stored(
    db: DatabaseView,
    command: Seq<Seq<u8>>,
    stored_at: u64,
    read_at: u64,
)
    requires
        set_expiry(command, stored_at) is Ok,
    ensures
        get_outcome(set_outcome(db, command, stored_at).0, command[1], read_at).1 == (
        match set_expiry(command, stored_at) {
            Ok(Some(time)) if read_at >= time => null_bulk_string(),
            _ => bulk_string(command[2]),
        }),
{
}

/// `SET` leaves the values under other keys alone.
pub proof fn law_set_leaves_other_keys(
    db: DatabaseView,
    command: Seq<Seq<u8>>,
    now: u64,
    key: Seq<u8>,
)
    requires
        command.len() > 1 && key != command[1],
    ensures
        set_outcome(db, command, now).0.value(key) == db.value(key),
{
}

/// `SET` counts as a modification of its key also where it stores what is there already.
pub proof fn law_set_is_always_counted(db: DatabaseView, command: Seq<Seq<u8>>, now: u64)
    requires
        set_expiry(command, now) is Ok,
    ensures
        set_outcome(db, command, now).0.version(command[1]) == db.version(command[1]) + 1,
{
}

/// `INCR` answers with the number that follows the one that is stored, and stores it, so that it
/// is found by the next `INCR`. Where nothing is stored it starts from zero.
pub proof fn law_incr_adds_one(db: DatabaseView, key: Seq<u8>, now: u64, number: int)
    requires
        number < i64::MAX,
        match db.expired(key, now).value(key) {
            None => number == 0,
            Some(ValueView::String(text)) => i64_value(text) == Some(number),
            _ => false,
        },
    ensures
        incr_outcome(db, key, now).1 == integer(number + 1),
        incr_outcome(db, key, now).0.value(key) == Some(
            ValueView::String(signed_decimal(number + 1)),
        ),
        i64_value(signed_decimal(number + 1)) == Some(number + 1),
{
    lemma_zero_is_incremented();
    law_signed_decimal_is_read_back(number + 1);
}

/// A push makes the list longer by the number of its values. `RPUSH` puts them at the end in
/// their order, `LPUSH` at the front in the opposite order.
pub proof fn law_push_extends_list(
    db: DatabaseView,
    key: Seq<u8>,
    values: Seq<Seq<u8>>,
    front: bool,
    now: u64,
    list: Seq<Seq<u8>>,
)
    requires
        list_at(db.expired(key, now), key) == Some(list),
    ensures
        ({
            let outcome = push_outcome(db, key, values, front, now);
            let longer = list_at(outcome.0, key);
            &&& outcome.1 == Some(list.len() + values.len())
            &&& longer == Some(extended(list, values, front))
            &&& longer matches Some(longer) && longer.len() == list.len() + values.len()
        }),
{
}

/// What `RPUSH` puts on a list comes out by `LPOP` after what was there, in its order.
pub proof fn law_list_is_a_queue(
    db: DatabaseView,
    key: Seq<u8>,
    values: Seq<Seq<u8>>,
    list: Seq<Seq<u8>>,
    pushed_at: u64,
    popped_at: u64,
)
    requires
        valid(db),
        values.len() > 0,
        list_at(db.expired(key, pushed_at), key) == Some(list),
    ensures
        pop_outcome(
            push_outcome(db, key, values, false, pushed_at).0,
            key,
            list.len() + values.len(),
            popped_at,
        ).1 == Popped::Values(list + values),
{
}

/// What `LPUSH` puts on a list last comes out by `LPOP` first.
pub proof fn law_list_is_a_stack(
    db: DatabaseView,
    key: Seq<u8>,
    values: Seq<Seq<u8>>,
    list: Seq<Seq<u8>>,
    pushed_at: u64,
    popped_at: u64,
)
    requires
        valid(db),
        values.len() > 0,
        list_at(db.expired(key, pushed_at), key) == Some(list),
    ensures
        pop_outcome(
            push_outcome(db, key, values, true, pushed_at).0,
            key,
            1,
            popped_at,
        ).1 == Popped::Values(seq![values.last()]),
{
    let longer = extended(list, values, true);
    assert(values.reverse()[0] == values.last());
    if longer.len() == 1 {
        assert(longer =~= seq![values.last()]);
    } else {
        assert(longer.take(1) =~= seq![values.last()]);
    }
}

/// Each value of a list comes out once: what `LPOP` took and what it left make up the list. A list
/// that is left empty is gone.
pub proof fn law_pop_divides_list(
    db: DatabaseView,
    key: Seq<u8>,
    count: nat,
    now: u64,
    list: Seq<Seq<u8>>,
)
    requires
        db.expired(key, now).value(key) == Some(ValueView::List(list)),
        list.len() > 0,
    ensures
        ({
            let outcome = pop_outcome(db, key, count, now);
            &&& outcome.1 matches Popped::Values(values) && list_at(outcome.0, key) matches Some(
                rest,
            ) && values + rest == list && values.len() == (if count < list.len() {
                count
            } else {
                list.len()
            }) && (outcome.0.value(key) is None <==> rest.len() == 0)
        }),
{
    let outcome = pop_outcome(db, key, count, now);
    if let (Popped::Values(values), Some(rest)) = (outcome.1, list_at(outcome.0, key)) {
        assert(values + rest =~= list);
    }
}

/// The places of a range lie within the list.
pub proof fn law_range_lies_within(length: nat, start: int, stop: int)
    ensures
        range_bounds(length, start, stop) matches Some((first, last)) ==> 0 <= first <= last
            < length,
{
}

/// The range from the first place to the last is the whole list, and counting from the end names
/// the same places.
pub proof fn law_range_counts_from_both_ends(list: Seq<Seq<u8>>, start: int, stop: int)
    requires
        0 <= start <= stop < list.len(),
    ensures
        range_of(list, 0, -1) == list,
        range_of(list, start, stop) == list.subrange(start, stop + 1),
        range_of(list, start - list.len(), stop) == range_of(list, start, stop),
        range_of(list, start, stop - list.len()) == range_of(list, start, stop),
{
    assert(list.subrange(0, list.len() as int) =~= list);
}

proof fn lemma_filter_keeps_all(
    entries: Seq<StreamEntryView>,
    keep: spec_fn(StreamEntryView) -> bool,
)
    requires
        forall|i: int| 0 <= i < entries.len() ==> keep(#[trigger] entries[i]),
    ensures
        entries.filter(keep) == entries,
    decreases entries.len(),
{
    reveal(Seq::filter);
    if entries.len() > 0 {
        assert(keep(entries[entries.len() - 1]));
        lemma_filter_keeps_all(entries.drop_last(), keep);
        assert(entries.drop_last().push(entries.last()) =~= entries);
    } else {
        assert(entries.filter(keep) =~= entries);
    }
}

proof fn lemma_filter_keeps_none(
    entries: Seq<StreamEntryView>,
    keep: spec_fn(StreamEntryView) -> bool,
)
    requires
        forall|i: int| 0 <= i < entries.len() ==> !keep(#[trigger] entries[i]),
    ensures
        entries.filter(keep) == Seq::<StreamEntryView>::empty(),
    decreases entries.len(),
{
    reveal(Seq::filter);
    if entries.len() > 0 {
        assert(!keep(entries[entries.len() - 1]));
        lemma_filter_keeps_none(entries.drop_last(), keep);
    }
}

proof fn lemma_filter_contains(
    entries: Seq<StreamEntryView>,
    keep: spec_fn(StreamEntryView) -> bool,
    entry: StreamEntryView,
)
    ensures
        entries.filter(keep).contains(entry) <==> entries.contains(entry) && keep(entry),
{
    if entries.contains(entry) && keep(entry) {
        let i = choose|i: int| 0 <= i < entries.len() && entries[i] == entry;
        entries.lemma_filter_contains(keep, i);
    }
    if entries.filter(keep).contains(entry) {
        let selected = entries.filter(keep);
        let i = choose|i: int| 0 <= i < selected.len() && selected[i] == entry;
        entries.lemma_filter_pred(keep, i);
        entries.lemma_filter_contains_rev(keep, entry);
    }
}

/// `XRANGE` from the least ID to the greatest gives the whole stream.
pub proof fn law_whole_range_is_whole_stream(entries: Seq<StreamEntryView>)
    ensures
        entries_between(entries, StreamId::zero(), StreamId::max()) == entries,
{
    lemma_filter_keeps_all(
        entries,
        |entry: StreamEntryView|
            !entry.id.before(StreamId::zero()) && !StreamId::max().before(entry.id),
    );
}

/// `XRANGE` gives the entries whose IDs lie from the one bound to the other, both of them among
/// these, and no others.
pub proof fn law_range_selects_by_id(
    entries: Seq<StreamEntryView>,
    start: StreamId,
    end: StreamId,
    entry: StreamEntryView,
)
    ensures
        entries_between(entries, start, end).contains(entry) <==> entries.contains(entry)
            && !entry.id.before(start) && !end.before(entry.id),
{
    let keep = |entry: StreamEntryView| !entry.id.before(start) && !end.before(entry.id);
    lemma_filter_contains(entries, keep, entry);
}

/// A read of a stream gives the entries whose IDs come after the start, and no others.
pub proof fn law_read_selects_by_id(
    entries: Seq<StreamEntryView>,
    start: StreamId,
    entry: StreamEntryView,
)
    ensures
        entries_after(entries, start).contains(entry) <==> entries.contains(entry)
            && start.before(entry.id),
{
    let keep = |entry: StreamEntryView| start.before(entry.id);
    lemma_filter_contains(entries, keep, entry);
}

/// A read that starts at the last ID of a stream, as a dollar sign asks for, gives exactly the
/// entries that are added later. In a stream without entries it starts at the least ID of all, so
/// that an entry with this very ID is not found.
pub proof fn law_read_from_last_id_gives_what_is_added(
    earlier: Seq<StreamEntryView>,
    later: Seq<StreamEntryView>,
)
    requires
        ascending(earlier + later),
        earlier.len() == 0 && later.len() > 0 ==> later[0].id != StreamId::zero(),
    ensures
        ({
            let start = match last_id(earlier) {
                Some(id) => id,
                None => StreamId::zero(),
            };
            entries_after(earlier + later, start) == later
        }),
{
    let all = earlier + later;
    let start = match last_id(earlier) {
        Some(id) => id,
        None => StreamId::zero(),
    };
    let keep = |entry: StreamEntryView| start.before(entry.id);
    assert forall|i: int| 0 <= i < earlier.len() implies !keep(#[trigger] earlier[i]) by {
        assert(all[i] == earlier[i]);
        assert(all[earlier.len() - 1] == earlier.last());
        law_ids_are_ordered(start, earlier[i].id, start);
    }
    assert forall|i: int| 0 <= i < later.len() implies keep(#[trigger] later[i]) by {
        assert(all[earlier.len() + i] == later[i]);
        if earlier.len() > 0 {
            assert(all[earlier.len() - 1] == earlier.last());
        } else if i > 0 {
            assert(all[0] == later[0]);
            assert(all[0].id.before(all[i].id));
        }
    }
    Seq::filter_distributes_over_add(earlier, later, keep);
    lemma_filter_keeps_none(earlier, keep);
    lemma_filter_keeps_all(later, keep);
    assert(Seq::<StreamEntryView>::empty() + later =~= later);
}

/// An entry that `XADD` adds stands at the end of the stream, under the ID of the answer and with
/// the fields in their order. Its ID comes after those of all others. A read from the last ID
/// before gives this entry alone.
pub proof fn law_added_entry_is_found(
    db: DatabaseView,
    command: Seq<Seq<u8>>,
    clock: Clock,
    entries: Seq<StreamEntryView>,
    id: StreamId,
)
    requires
        ascending(entries),
        stream_at(db.expired(command[1], clock.now), command[1]) == Some(entries),
        xadd_outcome(db, command, clock.now, clock.unix_milliseconds).1
            == Added::<Seq<u8>>::Done(id),
    ensures
        ({
            let after = xadd_outcome(db, command, clock.now, clock.unix_milliseconds).0;
            let added = StreamEntryView { id, fields: pairs(command.skip(3)) };
            let longer = entries.push(added);
            &&& stream_at(after, command[1]) == Some(longer)
            &&& ascending(longer)
            &&& latest_id(after, command[1]) == id
            &&& last_id(entries) matches Some(last) ==> entries_after(longer, last) == seq![added]
            &&& xadd_reaction(db, command, clock).1 == (ReactionView::StreamExtended {
                reply: bulk_string(id_bytes(id)),
            })
        }),
{
    let added = StreamEntryView { id, fields: pairs(command.skip(3)) };
    if let Ok(spec) = xadd_request(command) {
        lemma_added_is_ascending(entries, spec, clock.unix_milliseconds, added);
    }
    if entries.len() > 0 {
        assert(entries.push(added) =~= entries + seq![added]);
        law_read_from_last_id_gives_what_is_added(entries, seq![added]);
    }
}

/// An `XADD` command that is refused changes nothing but removes its key if that has expired.
pub proof fn law_refused_entry_changes_nothing(
    db: DatabaseView,
    command: Seq<Seq<u8>>,
    now: u64,
    unix_milliseconds: Option<u64>,
)
    requires
        xadd_outcome(db, command, now, unix_milliseconds).1 is Refused,
    ensures
        xadd_outcome(db, command, now, unix_milliseconds).0 == db || xadd_outcome(
            db,
            command,
            now,
            unix_milliseconds,
        ).0 == db.expired(command[1], now),
{
}

/// Streams in the order of a read, without those that got nothing.
pub open spec fn additions(
    keys: Seq<Seq<u8>>,
    added: Seq<Seq<StreamEntryView>>,
    count: nat,
) -> Seq<(Seq<u8>, Seq<StreamEntryView>)>
    decreases count,
{
    if count == 0 {
        Seq::empty()
    } else {
        let earlier = additions(keys, added, (count - 1) as nat);
        if added[count - 1].len() > 0 {
            earlier.push((keys[count - 1], added[count - 1]))
        } else {
            earlier
        }
    }
}

/// Whether each key holds the same in two states once it is removed if it has expired.
spec fn same_when_expired(a: DatabaseView, b: DatabaseView, now: u64) -> bool {
    forall|key: Seq<u8>| #[trigger] a.expired(key, now).value(key) == b.expired(key, now).value(key)
}

proof fn lemma_expired_is_same_when_expired(
    a: DatabaseView,
    b: DatabaseView,
    removed: Seq<u8>,
    now: u64,
)
    requires
        same_when_expired(a, b, now),
    ensures
        same_when_expired(a.expired(removed, now), b, now),
{
    let after = a.expired(removed, now);
    assert forall|key: Seq<u8>| #[trigger]
        after.expired(key, now).value(key) == b.expired(key, now).value(key) by {
        assert(a.expired(key, now).value(key) == b.expired(key, now).value(key));
    }
}

proof fn lemma_dollar_starts(
    db: DatabaseView,
    keys: Seq<Seq<u8>>,
    arguments: Seq<Seq<u8>>,
    count: nat,
    now: u64,
)
    requires
        count <= keys.len() == arguments.len(),
        forall|i: int| 0 <= i < keys.len() ==> #[trigger] arguments[i] == bytes_of("$"),
    ensures
        same_when_expired(start_ids(db, keys, arguments, count, now).0, db, now),
        start_ids(db, keys, arguments, count, now).1 == Some(
            Seq::new(count, |i: int| latest_id(db.expired(keys[i], now), keys[i])),
        ),
    decreases count,
{
    let starts = Seq::new(count, |i: int| latest_id(db.expired(keys[i], now), keys[i]));
    if count > 0 {
        let key = keys[count - 1];
        let earlier = start_ids(db, keys, arguments, (count - 1) as nat, now).0;
        lemma_dollar_starts(db, keys, arguments, (count - 1) as nat, now);
        assert(arguments[count - 1] == bytes_of("$"));
        assert(earlier.expired(key, now).value(key) == db.expired(key, now).value(key));
        lemma_expired_is_same_when_expired(earlier, db, key, now);
        assert(starts.drop_last() =~= Seq::new(
            (count - 1) as nat,
            |i: int| latest_id(db.expired(keys[i], now), keys[i]),
        ));
        assert(starts =~= starts.drop_last().push(latest_id(db.expired(key, now), key)));
    } else {
        assert(starts =~= Seq::empty());
    }
}

proof fn lemma_additions_are_read(
    db: DatabaseView,
    keys: Seq<Seq<u8>>,
    starts: Seq<StreamId>,
    added: Seq<Seq<StreamEntryView>>,
    count: nat,
    now: u64,
)
    requires
        count <= keys.len() == starts.len() == added.len(),
        forall|i: int|
            0 <= i < keys.len() ==> (stream_at(
                db.expired(#[trigger] keys[i], now),
                keys[i],
            ) matches Some(entries) && entries_after(entries, starts[i]) == added[i]),
    ensures
        same_when_expired(streams_read(db, keys, starts, count, now).0, db, now),
        streams_read(db, keys, starts, count, now).1 == Some(additions(keys, added, count)),
    decreases count,
{
    if count > 0 {
        let key = keys[count - 1];
        let earlier = streams_read(db, keys, starts, (count - 1) as nat, now).0;
        lemma_additions_are_read(db, keys, starts, added, (count - 1) as nat, now);
        assert(earlier.expired(key, now).value(key) == db.expired(key, now).value(key));
        lemma_expired_is_same_when_expired(earlier, db, key, now);
    }
}

/// A read of streams from dollar signs gives, in the order of its keys, exactly the entries that
/// were added since the starts were found, and nothing where none was added. Each key is absent,
/// has expired or holds a stream, and an entry that is the first of its stream does not have the
/// least ID of all.
pub proof fn law_dollar_reads_what_is_added(
    then: DatabaseView,
    db: DatabaseView,
    keys: Seq<Seq<u8>>,
    arguments: Seq<Seq<u8>>,
    added: Seq<Seq<StreamEntryView>>,
    asked_at: u64,
    read_at: u64,
)
    requires
        keys.len() == arguments.len() == added.len(),
        forall|i: int| 0 <= i < keys.len() ==> #[trigger] arguments[i] == bytes_of("$"),
        forall|i: int|
            0 <= i < keys.len() ==> (stream_at(
                then.expired(#[trigger] keys[i], asked_at),
                keys[i],
            ) matches Some(earlier) && {
                &&& stream_at(db.expired(keys[i], read_at), keys[i]) == Some(earlier + added[i])
                &&& ascending(earlier + added[i])
                &&& earlier.len() == 0 && added[i].len() > 0 ==> added[i][0].id != StreamId::zero()
            }),
    ensures
        start_ids(then, keys, arguments, keys.len(), asked_at).1 matches Some(starts)
            && streams_read(db, keys, starts, keys.len(), read_at).1 == Some(
            additions(keys, added, keys.len()),
        ),
{
    lemma_dollar_starts(then, keys, arguments, keys.len(), asked_at);
    let starts = Seq::new(
        keys.len(),
        |i: int| latest_id(then.expired(keys[i], asked_at), keys[i]),
    );
    assert forall|i: int| 0 <= i < keys.len() implies (stream_at(
        db.expired(#[trigger] keys[i], read_at),
        keys[i],
    ) matches Some(entries) && entries_after(entries, starts[i]) == added[i]) by {
        if let Some(earlier) = stream_at(then.expired(keys[i], asked_at), keys[i]) {
            law_read_from_last_id_gives_what_is_added(earlier, added[i]);
        }
    }
    lemma_additions_are_read(db, keys, starts, added, keys.len(), read_at);
}

} // verus!
