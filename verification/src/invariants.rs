//! What every command keeps: counts of modifications that tell of every change, and stored values
//! that are as they should be.

use vstd::prelude::*;
use crate::bytes::bytes_of;
use crate::commands::{answer, xread_reaction, Clock, ReactionView};
use crate::database::{DatabaseView, EntryView, ValueView};
use crate::encode::{array, array_header, bulk_string, integer};
use crate::lists::{extended, list_at, lpop_outcome, pop_outcome, push_outcome};
use crate::number::unsigned_upto;
use crate::reply::{is_named, null_array, null_bulk_string};
use crate::session::{
    controls_transaction, exec_outcome, respond, watch_outcome, SessionView,
};
use crate::stream::{
    law_ids_are_ordered, law_resolved_id_follows, resolved_id, StreamEntryView, StreamId,
    StreamIdSpec, XaddError,
};
use crate::streams::{
    last_id, pairs, start_ids, stream_at, streams_read, xadd_outcome, xadd_request, xread_request,
    Added,
};
use crate::strings::{incr_outcome, set_outcome};
use crate::transaction::{queue_outcome, queued_outcome};

verus! {

/// What is stored under a key.
pub open spec fn entry_at(db: DatabaseView, key: Seq<u8>) -> Option<EntryView> {
    if db.entries.contains_key(key) {
        Some(db.entries[key])
    } else {
        None
    }
}

/// Whether the counts tell of every change from one state of the database to a later one: no
/// count went down, and that of each key with another entry went up.
pub open spec fn counted(before: DatabaseView, after: DatabaseView) -> bool {
    forall|key: Seq<u8>|
        {
            &&& before.version(key) <= #[trigger] after.version(key)
            &&& entry_at(before, key) != entry_at(after, key) ==> before.version(key)
                < after.version(key)
        }
}

/// Whether nothing happened to the entries and to the counts, but that some entries that have
/// expired are gone.
pub open spec fn kept(before: DatabaseView, after: DatabaseView, now: u64) -> bool {
    &&& after.propagated == before.propagated
    &&& forall|key: Seq<u8>|
        {
            ||| #[trigger] entry_at(after, key) == entry_at(before, key) && after.version(key)
                == before.version(key)
            ||| before.is_expired(key, now) && entry_at(after, key) is None
        }
}

/// Whether the IDs of a stream's entries go up.
pub open spec fn ascending(entries: Seq<StreamEntryView>) -> bool {
    forall|i: int, j: int| 0 <= i < j < entries.len() ==> entries[i].id.before(entries[j].id)
}

/// Whether the IDs of the entries of every stream go up.
pub open spec fn streams_ascend(db: DatabaseView) -> bool {
    forall|key: Seq<u8>| #[trigger]
        db.entries.contains_key(key) ==> (db.entries[key].value matches ValueView::Stream(entries)
            ==> ascending(entries))
}

/// Whether an entry is as it should be: no list is empty, the IDs of a stream go up, and nothing
/// but a string expires.
pub open spec fn valid_entry(entry: EntryView) -> bool {
    match entry.value {
        ValueView::String(_) => true,
        ValueView::List(list) => list.len() > 0 && entry.expires_at is None,
        ValueView::Stream(entries) => ascending(entries) && entry.expires_at is None,
    }
}

/// Whether all entries are as they should be.
pub open spec fn valid(db: DatabaseView) -> bool {
    forall|key: Seq<u8>| #[trigger] db.entries.contains_key(key) ==> valid_entry(db.entries[key])
}

/// The empty database is as it should be, and no key in it was ever modified.
pub proof fn law_empty_database_is_valid()
    ensures
        valid(DatabaseView::empty()),
        streams_ascend(DatabaseView::empty()),
        forall|key: Seq<u8>| #[trigger] DatabaseView::empty().version(key) == 0,
{
}

/// Counts that tell of the changes in each of two steps tell of the changes in both together.
pub proof fn law_counts_tell_of_all_steps(a: DatabaseView, b: DatabaseView, c: DatabaseView)
    requires
        counted(a, b),
        counted(b, c),
    ensures
        counted(a, c),
{
    assert forall|key: Seq<u8>|
        {
            &&& a.version(key) <= #[trigger] c.version(key)
            &&& entry_at(a, key) != entry_at(c, key) ==> a.version(key) < c.version(key)
        } by {
        assert(a.version(key) <= b.version(key));
        assert(b.version(key) <= c.version(key));
    }
}

proof fn lemma_kept_is_transitive(a: DatabaseView, b: DatabaseView, c: DatabaseView, now: u64)
    requires
        kept(a, b, now),
        kept(b, c, now),
    ensures
        kept(a, c, now),
{
    assert forall|key: Seq<u8>|
        {
            ||| #[trigger] entry_at(c, key) == entry_at(a, key) && c.version(key)
                == a.version(key)
            ||| a.is_expired(key, now) && entry_at(c, key) is None
        } by {
        assert(entry_at(b, key) == entry_at(a, key) && b.version(key) == a.version(key)
            || a.is_expired(key, now) && entry_at(b, key) is None);
    }
}

/// What removing a key that has expired keeps.
proof fn lemma_expired(db: DatabaseView, key: Seq<u8>, now: u64)
    ensures
        counted(db, db.expired(key, now)),
        kept(db, db.expired(key, now), now),
        valid(db) ==> valid(db.expired(key, now)),
        streams_ascend(db) ==> streams_ascend(db.expired(key, now)),
{
}

/// What storing an entry and counting the modification keeps.
proof fn lemma_stored(db: DatabaseView, key: Seq<u8>, entry: EntryView)
    ensures
        counted(db, db.stored(key, entry).modified(key)),
        valid(db) && valid_entry(entry) ==> valid(db.stored(key, entry).modified(key)),
        streams_ascend(db) && (entry.value matches ValueView::Stream(entries) ==> ascending(
            entries,
        )) ==> streams_ascend(db.stored(key, entry).modified(key)),
{
}

/// What removing an entry and counting the modification keeps.
proof fn lemma_deleted(db: DatabaseView, key: Seq<u8>)
    ensures
        counted(db, db.deleted(key).modified(key)),
        valid(db) ==> valid(db.deleted(key).modified(key)),
        streams_ascend(db) ==> streams_ascend(db.deleted(key).modified(key)),
{
}

proof fn lemma_set(db: DatabaseView, command: Seq<Seq<u8>>, now: u64)
    ensures
        counted(db, set_outcome(db, command, now).0),
        valid(db) ==> valid(set_outcome(db, command, now).0),
        streams_ascend(db) ==> streams_ascend(set_outcome(db, command, now).0),
{
    let after = set_outcome(db, command, now).0;
    if after != db {
        let entry = after.entries[command[1]];
        lemma_stored(db, command[1], entry);
        let stored = db.stored(command[1], entry).modified(command[1]);
        assert(forall|key: Seq<u8>| stored.version(key) == #[trigger] after.version(key));
        assert(forall|key: Seq<u8>| entry_at(stored, key) == #[trigger] entry_at(after, key));
    }
}

proof fn lemma_incr(db: DatabaseView, key: Seq<u8>, now: u64)
    ensures
        counted(db, incr_outcome(db, key, now).0),
        valid(db) ==> valid(incr_outcome(db, key, now).0),
        streams_ascend(db) ==> streams_ascend(incr_outcome(db, key, now).0),
{
    let live = db.expired(key, now);
    lemma_expired(db, key, now);
    let after = incr_outcome(db, key, now).0;
    if after != live {
        lemma_stored(live, key, after.entries[key]);
        law_counts_tell_of_all_steps(db, live, after);
    }
}

proof fn lemma_push(
    db: DatabaseView,
    key: Seq<u8>,
    values: Seq<Seq<u8>>,
    front: bool,
    now: u64,
)
    requires
        values.len() > 0,
    ensures
        counted(db, push_outcome(db, key, values, front, now).0),
        valid(db) ==> valid(push_outcome(db, key, values, front, now).0),
        streams_ascend(db) ==> streams_ascend(push_outcome(db, key, values, front, now).0),
{
    let live = db.expired(key, now);
    lemma_expired(db, key, now);
    if let Some(list) = list_at(live, key) {
        let after = push_outcome(db, key, values, front, now).0;
        assert(extended(list, values, front).len() > 0);
        lemma_stored(live, key, after.entries[key]);
        law_counts_tell_of_all_steps(db, live, after);
    }
}

/// Taking values off a list is counted, and leaves the data as it should be.
pub proof fn law_taking_values_is_counted(db: DatabaseView, key: Seq<u8>, count: nat, now: u64)
    ensures
        counted(db, pop_outcome(db, key, count, now).0),
        valid(db) ==> valid(pop_outcome(db, key, count, now).0),
        streams_ascend(db) ==> streams_ascend(pop_outcome(db, key, count, now).0),
{
    let live = db.expired(key, now);
    lemma_expired(db, key, now);
    if let Some(ValueView::List(list)) = live.value(key) {
        let after = pop_outcome(db, key, count, now).0;
        if list.len() <= count {
            lemma_deleted(live, key);
            law_counts_tell_of_all_steps(db, live, after);
        } else if count > 0 {
            lemma_stored(live, key, after.entries[key]);
            law_counts_tell_of_all_steps(db, live, after);
        }
    }
}

/// A stream whose IDs go up still does when an entry gets the ID that it asks for.
pub(crate) proof fn lemma_added_is_ascending(
    entries: Seq<StreamEntryView>,
    spec: StreamIdSpec,
    unix_milliseconds: Option<u64>,
    added: StreamEntryView,
)
    requires
        ascending(entries),
        resolved_id(spec, last_id(entries), unix_milliseconds) == Ok::<StreamId, XaddError>(
            added.id,
        ),
    ensures
        ascending(entries.push(added)),
{
    let longer = entries.push(added);
    if let Some(last) = last_id(entries) {
        law_resolved_id_follows(spec, last, unix_milliseconds);
        assert forall|i: int, j: int| 0 <= i < j < longer.len() implies longer[i].id.before(
            longer[j].id,
        ) by {
            if j == entries.len() && i < entries.len() - 1 {
                assert(entries[i].id.before(entries[entries.len() - 1].id));
                law_ids_are_ordered(entries[i].id, last, added.id);
            }
        }
    }
}

proof fn lemma_xadd(
    db: DatabaseView,
    command: Seq<Seq<u8>>,
    now: u64,
    unix_milliseconds: Option<u64>,
)
    ensures
        !(xadd_outcome(db, command, now, unix_milliseconds).1 is ClockUnavailable) ==> counted(
            db,
            xadd_outcome(db, command, now, unix_milliseconds).0,
        ),
        valid(db) ==> valid(xadd_outcome(db, command, now, unix_milliseconds).0),
        streams_ascend(db) ==> streams_ascend(xadd_outcome(db, command, now, unix_milliseconds).0),
{
    let outcome = xadd_outcome(db, command, now, unix_milliseconds);
    if let Ok(spec) = xadd_request(command) {
        let key = command[1];
        let live = db.expired(key, now);
        lemma_expired(db, key, now);
        if let Some(entries) = stream_at(live, key) {
            if let Added::Done(id) = outcome.1 {
                lemma_stored(live, key, outcome.0.entries[key]);
                law_counts_tell_of_all_steps(db, live, outcome.0);
                if valid(db) || streams_ascend(db) {
                    assert(ascending(entries));
                    lemma_added_is_ascending(
                        entries,
                        spec,
                        unix_milliseconds,
                        StreamEntryView { id, fields: pairs(command.skip(3)) },
                    );
                }
            }
        }
    }
}

proof fn lemma_start_ids(
    db: DatabaseView,
    keys: Seq<Seq<u8>>,
    arguments: Seq<Seq<u8>>,
    count: nat,
    now: u64,
)
    ensures
        counted(db, start_ids(db, keys, arguments, count, now).0),
        kept(db, start_ids(db, keys, arguments, count, now).0, now),
        valid(db) ==> valid(start_ids(db, keys, arguments, count, now).0),
        streams_ascend(db) ==> streams_ascend(start_ids(db, keys, arguments, count, now).0),
    decreases count,
{
    if count > 0 {
        let earlier = start_ids(db, keys, arguments, (count - 1) as nat, now).0;
        lemma_start_ids(db, keys, arguments, (count - 1) as nat, now);
        let live = earlier.expired(keys[count - 1], now);
        lemma_expired(earlier, keys[count - 1], now);
        law_counts_tell_of_all_steps(db, earlier, live);
        lemma_kept_is_transitive(db, earlier, live, now);
    }
}

/// Reading streams, once or again and again until there is something to read, changes nothing but
/// removes expired keys.
pub proof fn law_reading_streams_changes_nothing(
    db: DatabaseView,
    keys: Seq<Seq<u8>>,
    starts: Seq<StreamId>,
    count: nat,
    now: u64,
)
    ensures
        counted(db, streams_read(db, keys, starts, count, now).0),
        kept(db, streams_read(db, keys, starts, count, now).0, now),
        valid(db) ==> valid(streams_read(db, keys, starts, count, now).0),
        streams_ascend(db) ==> streams_ascend(streams_read(db, keys, starts, count, now).0),
    decreases count,
{
    if count > 0 {
        let earlier = streams_read(db, keys, starts, (count - 1) as nat, now).0;
        law_reading_streams_changes_nothing(db, keys, starts, (count - 1) as nat, now);
        let live = earlier.expired(keys[count - 1], now);
        lemma_expired(earlier, keys[count - 1], now);
        law_counts_tell_of_all_steps(db, earlier, live);
        lemma_kept_is_transitive(db, earlier, live, now);
    }
}

proof fn lemma_watch(
    db: DatabaseView,
    watched: Map<Seq<u8>, u64>,
    keys: Seq<Seq<u8>>,
    count: nat,
    now: u64,
)
    ensures
        counted(db, watch_outcome(db, watched, keys, count, now).0),
        kept(db, watch_outcome(db, watched, keys, count, now).0, now),
        valid(db) ==> valid(watch_outcome(db, watched, keys, count, now).0),
        streams_ascend(db) ==> streams_ascend(watch_outcome(db, watched, keys, count, now).0),
    decreases count,
{
    if count > 0 {
        let earlier = watch_outcome(db, watched, keys, (count - 1) as nat, now).0;
        lemma_watch(db, watched, keys, (count - 1) as nat, now);
        let live = earlier.expired(keys[count - 1], now);
        lemma_expired(earlier, keys[count - 1], now);
        law_counts_tell_of_all_steps(db, earlier, live);
        lemma_kept_is_transitive(db, earlier, live, now);
    }
}

/// A queued command is counted, and leaves the data as it should be.
pub proof fn law_queued_command_is_counted(db: DatabaseView, command: Seq<Seq<u8>>, now: u64)
    ensures
        counted(db, queued_outcome(db, command, now).0),
        valid(db) ==> valid(queued_outcome(db, command, now).0),
        streams_ascend(db) ==> streams_ascend(queued_outcome(db, command, now).0),
{
    lemma_set(db, command, now);
    lemma_incr(db, command[1], now);
    lemma_expired(db, command[1], now);
}

/// A list of queued commands is counted as a whole, and leaves the data as it should be.
pub proof fn law_queue_is_counted(
    db: DatabaseView,
    commands: Seq<Seq<Seq<u8>>>,
    count: nat,
    now: u64,
)
    ensures
        counted(db, queue_outcome(db, commands, count, now).0),
        valid(db) ==> valid(queue_outcome(db, commands, count, now).0),
        streams_ascend(db) ==> streams_ascend(queue_outcome(db, commands, count, now).0),
    decreases count,
{
    if count > 0 {
        let earlier = queue_outcome(db, commands, (count - 1) as nat, now).0;
        law_queue_is_counted(db, commands, (count - 1) as nat, now);
        law_queued_command_is_counted(earlier, commands[count - 1], now);
        law_counts_tell_of_all_steps(
            db,
            earlier,
            queued_outcome(earlier, commands[count - 1], now).0,
        );
    }
}

pub(crate) proof fn lemma_all_expired(db: DatabaseView, keys: Set<Seq<u8>>, now: u64)
    ensures
        counted(db, db.all_expired(keys, now)),
        kept(db, db.all_expired(keys, now), now),
        valid(db) ==> valid(db.all_expired(keys, now)),
        streams_ascend(db) ==> streams_ascend(db.all_expired(keys, now)),
{
    let live = db.all_expired(keys, now);
    assert forall|key: Seq<u8>|
        {
            &&& db.version(key) <= #[trigger] live.version(key)
            &&& entry_at(db, key) != entry_at(live, key) ==> db.version(key) < live.version(key)
        } by {
    }
}

proof fn lemma_answer(db: DatabaseView, command: Seq<Seq<u8>>, clock: Clock, is_replica: bool)
    ensures
        !(answer(db, command, clock, is_replica).1 is ClockUnavailable) ==> counted(
            db,
            answer(db, command, clock, is_replica).0,
        ),
        valid(db) ==> valid(answer(db, command, clock, is_replica).0),
        streams_ascend(db) ==> streams_ascend(answer(db, command, clock, is_replica).0),
{
    let now = clock.now;
    lemma_set(db, command, now);
    lemma_incr(db, command[1], now);
    lemma_expired(db, command[1], now);
    if is_named(command, "XADD") {
        lemma_xadd(db, command, now, clock.unix_milliseconds);
    }
    if command.len() >= 3 {
        lemma_push(db, command[1], command.skip(2), true, now);
        lemma_push(db, command[1], command.skip(2), false, now);
    }
    if is_named(command, "LPOP") {
        law_taking_values_is_counted(db, command[1], 1, now);
        if let Some(count) = unsigned_upto(command[2], usize::MAX as nat) {
            law_taking_values_is_counted(db, command[1], count, now);
        }
    }
    if is_named(command, "XREAD") {
        lemma_xread(db, command, now);
    }
}

proof fn lemma_xread(db: DatabaseView, command: Seq<Seq<u8>>, now: u64)
    ensures
        counted(db, xread_reaction(db, command, now).0),
        kept(db, xread_reaction(db, command, now).0, now),
        valid(db) ==> valid(xread_reaction(db, command, now).0),
        streams_ascend(db) ==> streams_ascend(xread_reaction(db, command, now).0),
{
    if let Ok((block, first)) = xread_request(command) {
        let count = (command.len() - first) / 2;
        let keys = command.subrange(first, first + count);
        let arguments = command.skip(first + count);
        lemma_start_ids(db, keys, arguments, count as nat, now);
    }
}

/// Whatever a client sends, the counts tell of every change, and the data stays as it should be.
///
/// The one exception is a command that needs a time where the wall clock shows none: the server
/// gives up on it, and it may leave an empty stream behind that is not counted.
pub proof fn law_every_change_is_counted(
    db: DatabaseView,
    session: SessionView,
    command: Seq<Seq<u8>>,
    clock: Clock,
    is_replica: bool,
)
    ensures
        respond(db, session, command, clock, is_replica).reaction is ClockUnavailable || counted(
            db,
            respond(db, session, command, clock, is_replica).db,
        ),
        valid(db) ==> valid(respond(db, session, command, clock, is_replica).db),
        streams_ascend(db) ==> streams_ascend(
            respond(db, session, command, clock, is_replica).db,
        ),
{
    if session.in_transaction && !controls_transaction(command) {
    } else if is_named(command, "EXEC") && !is_named(command, "MULTI") {
        lemma_exec(db, session, clock.now);
    } else if is_named(command, "WATCH") && !is_named(command, "MULTI") {
        if command.len() >= 2 {
            let keys = command.drop_first();
            lemma_watch(db, session.watched, keys, keys.len(), clock.now);
        }
    } else {
        lemma_answer(db, command, clock, is_replica);
    }
}

proof fn lemma_exec(db: DatabaseView, session: SessionView, now: u64)
    ensures
        counted(db, exec_outcome(db, session, now).db),
        valid(db) ==> valid(exec_outcome(db, session, now).db),
        streams_ascend(db) ==> streams_ascend(exec_outcome(db, session, now).db),
{
    let live = db.all_expired(session.watched.dom(), now);
    lemma_all_expired(db, session.watched.dom(), now);
    law_queue_is_counted(live, session.queued, session.queued.len(), now);
    law_counts_tell_of_all_steps(
        db,
        live,
        queue_outcome(live, session.queued, session.queued.len(), now).0,
    );
}

/// Whether a reply reports an error.
pub open spec fn is_error(reply: Seq<u8>) -> bool {
    reply.len() > 0 && reply[0] == 45
}

/// A reply that reports success is not taken for an error.
proof fn lemma_success_is_no_error()
    ensures
        !is_error(bytes_of("+OK\r\n")),
        !is_error(null_bulk_string()),
        !is_error(null_array()),
        forall|value: int| !is_error(#[trigger] integer(value)),
        forall|value: Seq<u8>| !is_error(#[trigger] bulk_string(value)),
        forall|values: Seq<Seq<u8>>| !is_error(#[trigger] array(values)),
        forall|length: nat, rest: Seq<u8>| !is_error(#[trigger] (array_header(length) + rest)),
{
    reveal_strlit("+OK\r\n");
    assert(vstd::string::is_ascii("+OK\r\n"));
    reveal_strlit("$-1\r\n");
    assert(vstd::string::is_ascii("$-1\r\n"));
    reveal_strlit("*-1\r\n");
    assert(vstd::string::is_ascii("*-1\r\n"));
}

/// Whether a command neither stores, takes or adds values nor ends a transaction.
pub open spec fn is_reading(command: Seq<Seq<u8>>) -> bool {
    &&& !is_named(command, "SET")
    &&& !is_named(command, "INCR")
    &&& !is_named(command, "RPUSH")
    &&& !is_named(command, "LPUSH")
    &&& !is_named(command, "LPOP")
    &&& !is_named(command, "XADD")
    &&& !is_named(command, "EXEC")
}

/// A command that neither stores, takes or adds values nor ends a transaction changes nothing but
/// removes expired keys.
pub proof fn law_reading_changes_nothing(
    db: DatabaseView,
    session: SessionView,
    command: Seq<Seq<u8>>,
    clock: Clock,
    is_replica: bool,
)
    requires
        is_reading(command),
    ensures
        kept(db, respond(db, session, command, clock, is_replica).db, clock.now),
{
    lemma_expired(db, command[1], clock.now);
    lemma_xread(db, command, clock.now);
    if is_named(command, "WATCH") && command.len() >= 2 {
        let keys = command.drop_first();
        lemma_watch(db, session.watched, keys, keys.len(), clock.now);
    }
}

proof fn lemma_queued_is_no_error()
    ensures
        !is_error(bytes_of("+QUEUED\r\n")),
{
    reveal_strlit("+QUEUED\r\n");
    assert(vstd::string::is_ascii("+QUEUED\r\n"));
}

proof fn lemma_refused_set(db: DatabaseView, command: Seq<Seq<u8>>, now: u64)
    ensures
        is_error(set_outcome(db, command, now).1) ==> set_outcome(db, command, now).0 == db,
{
    lemma_success_is_no_error();
}

proof fn lemma_refused_incr(db: DatabaseView, key: Seq<u8>, now: u64)
    ensures
        is_error(incr_outcome(db, key, now).1) ==> kept(db, incr_outcome(db, key, now).0, now),
{
    lemma_success_is_no_error();
    lemma_expired(db, key, now);
}

proof fn lemma_refused_lpop(db: DatabaseView, command: Seq<Seq<u8>>, now: u64)
    ensures
        is_error(lpop_outcome(db, command, now).1) ==> kept(
            db,
            lpop_outcome(db, command, now).0,
            now,
        ),
{
    lemma_success_is_no_error();
    lemma_expired(db, command[1], now);
}

proof fn lemma_refused_answer(
    db: DatabaseView,
    command: Seq<Seq<u8>>,
    clock: Clock,
    is_replica: bool,
)
    requires
        answer(db, command, clock, is_replica).1 matches ReactionView::Reply(reply) && is_error(
            reply,
        ),
    ensures
        kept(db, answer(db, command, clock, is_replica).0, clock.now),
{
    lemma_refused_set(db, command, clock.now);
    lemma_refused_incr(db, command[1], clock.now);
    lemma_refused_lpop(db, command, clock.now);
    lemma_expired(db, command[1], clock.now);
    lemma_xread(db, command, clock.now);
}

proof fn lemma_exec_is_no_error(db: DatabaseView, session: SessionView, now: u64)
    ensures
        exec_outcome(db, session, now).reaction matches ReactionView::Reply(reply) ==> !is_error(
            reply,
        ),
{
    lemma_success_is_no_error();
}

/// A command that is answered with an error changes nothing but removes expired keys.
pub proof fn law_refused_command_changes_nothing(
    db: DatabaseView,
    session: SessionView,
    command: Seq<Seq<u8>>,
    clock: Clock,
    is_replica: bool,
)
    requires
        respond(db, session, command, clock, is_replica).reaction matches ReactionView::Reply(
            reply,
        ) && is_error(reply),
    ensures
        kept(db, respond(db, session, command, clock, is_replica).db, clock.now),
        respond(db, session, command, clock, is_replica).session == session,
{
    lemma_success_is_no_error();
    lemma_queued_is_no_error();
    lemma_exec_is_no_error(db, session, clock.now);
    let is_control = controls_transaction(command) || is_named(command, "UNWATCH");
    if !session.in_transaction && !is_control {
        lemma_refused_answer(db, command, clock, is_replica);
    }
}

} // verus!
