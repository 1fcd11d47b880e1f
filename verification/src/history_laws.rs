//! Laws of whole histories: what holds after any steps of any clients.

use vstd::prelude::*;
use crate::commands::{answer, push_reaction, xadd_reaction, xread_reaction, Clock};
use crate::database::DatabaseView;
use crate::invariants::{
    counted, entry_at, is_reading, law_counts_tell_of_all_steps, law_every_change_is_counted,
    law_queued_command_is_counted, law_reading_changes_nothing,
    law_reading_streams_changes_nothing, law_taking_values_is_counted, streams_ascend, valid,
};
use crate::lists::pop_outcome;
use crate::reply::is_named;
use crate::session::{exec_outcome, respond, watch_outcome, SessionView};
use crate::stream::StreamId;
use crate::streams::{paired, start_ids, streams_read, xread_request};
use crate::transaction::{queue_outcome, queued_outcome};

verus! {

/// A step in the life of a database.
pub enum Step {
    /// A client sent a command.
    Command { session: SessionView, command: Seq<Seq<u8>>, clock: Clock, is_replica: bool },
    /// A command was carried out as queued ones are.
    Queued { command: Seq<Seq<u8>>, now: u64 },
    /// Values were taken off a list for a client that waits.
    Taken { key: Seq<u8>, count: nat, now: u64 },
    /// Streams were read for a client that waits.
    Read { keys: Seq<Seq<u8>>, starts: Seq<StreamId>, now: u64 },
    /// A key was removed if it had expired.
    Expired { key: Seq<u8>, now: u64 },
    /// A modification of a key was counted.
    Modified { key: Seq<u8> },
    /// A command was put on the list for the replicas.
    Propagated { command: Seq<Seq<u8>> },
    /// The list for the replicas was emptied.
    Sent,
}

/// The database after a step.
pub open spec fn after_step(db: DatabaseView, step: Step) -> DatabaseView {
    match step {
        Step::Command { session, command, clock, is_replica } => respond(
            db,
            session,
            command,
            clock,
            is_replica,
        ).db,
        Step::Queued { command, now } => queued_outcome(db, command, now).0,
        Step::Taken { key, count, now } => pop_outcome(db, key, count, now).0,
        Step::Read { keys, starts, now } => streams_read(
            db,
            keys,
            starts,
            paired(keys.len(), starts.len()),
            now,
        ).0,
        Step::Expired { key, now } => db.expired(key, now),
        Step::Modified { key } => db.modified(key),
        Step::Propagated { command } => db.announced(command),
        Step::Sent => DatabaseView { propagated: Seq::empty(), ..db },
    }
}

/// Whether the server gives up on a step, for want of a usable time.
pub open spec fn is_given_up(db: DatabaseView, step: Step) -> bool {
    step matches Step::Command { session, command, clock, is_replica } && respond(
        db,
        session,
        command,
        clock,
        is_replica,
    ).reaction is ClockUnavailable
}

/// The database after the first `count` steps of a history.
pub open spec fn after_steps(db: DatabaseView, steps: Seq<Step>, count: nat) -> DatabaseView
    decreases count,
{
    if count == 0 {
        db
    } else {
        after_step(after_steps(db, steps, (count - 1) as nat), steps[count - 1])
    }
}

proof fn lemma_step_is_counted(db: DatabaseView, step: Step)
    ensures
        is_given_up(db, step) || counted(db, after_step(db, step)),
        valid(db) ==> valid(after_step(db, step)),
        streams_ascend(db) ==> streams_ascend(after_step(db, step)),
{
    match step {
        Step::Command { session, command, clock, is_replica } => {
            law_every_change_is_counted(db, session, command, clock, is_replica);
        },
        Step::Queued { command, now } => {
            law_queued_command_is_counted(db, command, now);
        },
        Step::Taken { key, count, now } => {
            law_taking_values_is_counted(db, key, count, now);
        },
        Step::Read { keys, starts, now } => {
            let count = paired(keys.len(), starts.len());
            law_reading_streams_changes_nothing(db, keys, starts, count, now);
        },
        Step::Expired { key, now } => {},
        Step::Modified { key } => {},
        Step::Propagated { command } => {},
        Step::Sent => {},
    }
}

/// After any steps the data are as they should be, and the IDs of each stream go up, if they were
/// and did before.
pub proof fn law_history_keeps_data_valid(db: DatabaseView, steps: Seq<Step>, count: nat)
    ensures
        valid(db) ==> valid(after_steps(db, steps, count)),
        streams_ascend(db) ==> streams_ascend(after_steps(db, steps, count)),
    decreases count,
{
    if count > 0 {
        law_history_keeps_data_valid(db, steps, (count - 1) as nat);
        lemma_step_is_counted(after_steps(db, steps, (count - 1) as nat), steps[count - 1]);
    }
}

/// Over any steps the counts tell of every change: no count goes down, and that of each key with
/// another entry than before goes up.
pub proof fn law_history_is_counted(db: DatabaseView, steps: Seq<Step>, from: nat, to: nat)
    requires
        from <= to,
        forall|i: nat|
            from <= i < to ==> !is_given_up(#[trigger] after_steps(db, steps, i), steps[i as int]),
    ensures
        counted(after_steps(db, steps, from), after_steps(db, steps, to)),
    decreases to - from,
{
    if from < to {
        let before = after_steps(db, steps, (to - 1) as nat);
        law_history_is_counted(db, steps, from, (to - 1) as nat);
        lemma_step_is_counted(before, steps[to - 1]);
        law_counts_tell_of_all_steps(
            after_steps(db, steps, from),
            before,
            after_steps(db, steps, to),
        );
    }
}

/// A key that was created, changed or removed at any time in a history has a greater count at its
/// end than before, also where it is back to what it was.
pub proof fn law_changed_key_has_greater_count(
    db: DatabaseView,
    steps: Seq<Step>,
    from: nat,
    between: nat,
    to: nat,
    key: Seq<u8>,
)
    requires
        from <= between <= to,
        forall|i: nat|
            from <= i < to ==> !is_given_up(#[trigger] after_steps(db, steps, i), steps[i as int]),
        entry_at(after_steps(db, steps, from), key) != entry_at(
            after_steps(db, steps, between),
            key,
        ),
    ensures
        after_steps(db, steps, from).version(key) < after_steps(db, steps, to).version(key),
{
    law_history_is_counted(db, steps, from, between);
    law_history_is_counted(db, steps, between, to);
    let changed = after_steps(db, steps, between);
    assert(after_steps(db, steps, from).version(key) < changed.version(key));
    assert(changed.version(key) <= after_steps(db, steps, to).version(key));
}

/// Whether a step names a key.
pub open spec fn names(step: Step, key: Seq<u8>) -> bool {
    match step {
        Step::Command { session, command, .. } => {
            ||| command.contains(key)
            ||| session.watched.contains_key(key)
            ||| exists|i: int|
                0 <= i < session.queued.len() && (#[trigger] session.queued[i]).contains(key)
        },
        Step::Queued { command, .. } => command.contains(key),
        Step::Taken { key: taken, .. } => taken == key,
        Step::Read { keys, starts, .. } => keys.take(
            paired(keys.len(), starts.len()) as int,
        ).contains(key),
        Step::Expired { key: expired, .. } => expired == key,
        Step::Modified { key: modified } => modified == key,
        _ => false,
    }
}

/// Whether a key has the same entry and the same count in two states.
pub open spec fn untouched(before: DatabaseView, after: DatabaseView, key: Seq<u8>) -> bool {
    entry_at(after, key) == entry_at(before, key) && after.version(key) == before.version(key)
}

proof fn lemma_queued_leaves_others(
    db: DatabaseView,
    command: Seq<Seq<u8>>,
    now: u64,
    key: Seq<u8>,
)
    requires
        !command.contains(key),
    ensures
        untouched(db, queued_outcome(db, command, now).0, key),
{
    if command.len() >= 2 {
        assert(command[1] != key);
    }
}

proof fn lemma_queue_leaves_others(
    db: DatabaseView,
    commands: Seq<Seq<Seq<u8>>>,
    count: nat,
    now: u64,
    key: Seq<u8>,
)
    requires
        count <= commands.len(),
        forall|i: int| 0 <= i < commands.len() ==> !(#[trigger] commands[i]).contains(key),
    ensures
        untouched(db, queue_outcome(db, commands, count, now).0, key),
    decreases count,
{
    if count > 0 {
        lemma_queue_leaves_others(db, commands, (count - 1) as nat, now, key);
        lemma_queued_leaves_others(
            queue_outcome(db, commands, (count - 1) as nat, now).0,
            commands[count - 1],
            now,
            key,
        );
    }
}

proof fn lemma_start_ids_leave_others(
    db: DatabaseView,
    keys: Seq<Seq<u8>>,
    arguments: Seq<Seq<u8>>,
    count: nat,
    now: u64,
    key: Seq<u8>,
)
    requires
        count <= keys.len(),
        !keys.contains(key),
    ensures
        untouched(db, start_ids(db, keys, arguments, count, now).0, key),
    decreases count,
{
    if count > 0 {
        assert(keys[count - 1] != key);
        lemma_start_ids_leave_others(db, keys, arguments, (count - 1) as nat, now, key);
    }
}

proof fn lemma_streams_read_leave_others(
    db: DatabaseView,
    keys: Seq<Seq<u8>>,
    starts: Seq<StreamId>,
    count: nat,
    now: u64,
    key: Seq<u8>,
)
    requires
        count <= keys.len(),
        !keys.take(count as int).contains(key),
    ensures
        untouched(db, streams_read(db, keys, starts, count, now).0, key),
    decreases count,
{
    if count > 0 {
        let shorter = keys.take(count - 1);
        let longer = keys.take(count as int);
        assert(longer[count - 1] == keys[count - 1]);
        if shorter.contains(key) {
            let i = choose|i: int| 0 <= i < shorter.len() && shorter[i] == key;
            assert(longer[i] == key);
        }
        lemma_streams_read_leave_others(db, keys, starts, (count - 1) as nat, now, key);
    }
}

proof fn lemma_watch_leaves_others(
    db: DatabaseView,
    watched: Map<Seq<u8>, u64>,
    keys: Seq<Seq<u8>>,
    count: nat,
    now: u64,
    key: Seq<u8>,
)
    requires
        count <= keys.len(),
        !keys.contains(key),
    ensures
        untouched(db, watch_outcome(db, watched, keys, count, now).0, key),
    decreases count,
{
    if count > 0 {
        assert(keys[count - 1] != key);
        lemma_watch_leaves_others(db, watched, keys, (count - 1) as nat, now, key);
    }
}

proof fn lemma_xread_leaves_others(
    db: DatabaseView,
    command: Seq<Seq<u8>>,
    now: u64,
    key: Seq<u8>,
)
    requires
        !command.contains(key),
    ensures
        untouched(db, xread_reaction(db, command, now).0, key),
{
    if let Ok((_, first)) = xread_request(command) {
        let count = (command.len() - first) / 2;
        let keys = command.subrange(first, first + count);
        if keys.contains(key) {
            let i = choose|i: int| 0 <= i < keys.len() && keys[i] == key;
            assert(command[first + i] == key);
        }
        lemma_start_ids_leave_others(
            db,
            keys,
            command.skip(first + count),
            count as nat,
            now,
            key,
        );
    }
}

proof fn lemma_answer_leaves_others(
    db: DatabaseView,
    command: Seq<Seq<u8>>,
    clock: Clock,
    is_replica: bool,
    key: Seq<u8>,
)
    requires
        !command.contains(key),
    ensures
        untouched(db, answer(db, command, clock, is_replica).0, key),
{
    if command.len() >= 2 {
        assert(command[1] != key);
        assert(untouched(db, db.expired(command[1], clock.now), key));
        assert(untouched(db, push_reaction(db, command, true, clock.now).0, key));
        assert(untouched(db, push_reaction(db, command, false, clock.now).0, key));
        assert(untouched(db, xadd_reaction(db, command, clock).0, key));
    }
    if is_named(command, "XREAD") {
        lemma_xread_leaves_others(db, command, clock.now, key);
    }
}

proof fn lemma_command_leaves_others(
    db: DatabaseView,
    session: SessionView,
    command: Seq<Seq<u8>>,
    clock: Clock,
    is_replica: bool,
    key: Seq<u8>,
)
    requires
        !names(Step::Command { session, command, clock, is_replica }, key),
    ensures
        untouched(db, respond(db, session, command, clock, is_replica).db, key),
{
    let live = db.all_expired(session.watched.dom(), clock.now);
    assert(untouched(db, live, key));
    lemma_queue_leaves_others(live, session.queued, session.queued.len(), clock.now, key);
    assert(untouched(db, exec_outcome(db, session, clock.now).db, key));
    if command.len() > 0 {
        let keys = command.drop_first();
        if keys.contains(key) {
            let i = choose|i: int| 0 <= i < keys.len() && keys[i] == key;
            assert(command[i + 1] == key);
        }
        lemma_watch_leaves_others(db, session.watched, keys, keys.len(), clock.now, key);
    }
    lemma_answer_leaves_others(db, command, clock, is_replica, key);
}

/// A step changes neither the entry nor the count of a key that it does not name.
pub proof fn law_step_leaves_other_keys(db: DatabaseView, step: Step, key: Seq<u8>)
    requires
        !names(step, key),
    ensures
        untouched(db, after_step(db, step), key),
{
    match step {
        Step::Command { session, command, clock, is_replica } => {
            lemma_command_leaves_others(db, session, command, clock, is_replica, key);
        },
        Step::Queued { command, now } => {
            lemma_queued_leaves_others(db, command, now, key);
        },
        Step::Read { keys, starts, now } => {
            let count = paired(keys.len(), starts.len());
            lemma_streams_read_leave_others(db, keys, starts, count, now, key);
        },
        _ => {},
    }
}

/// Whether a step can at most read what is under a key.
pub open spec fn only_reads(step: Step, key: Seq<u8>) -> bool {
    ||| !names(step, key)
    ||| step matches Step::Command { command, .. } && is_reading(command)
    ||| step is Read
    ||| step is Expired
}

/// A key that was never modified has the count zero: in a history from the empty database, a key
/// that no step names but to read it has it, and nothing is stored under it.
pub proof fn law_key_that_is_only_read_has_count_zero(steps: Seq<Step>, count: nat, key: Seq<u8>)
    requires
        count <= steps.len(),
        forall|i: int| 0 <= i < count ==> only_reads(#[trigger] steps[i], key),
    ensures
        after_steps(DatabaseView::empty(), steps, count).version(key) == 0,
        entry_at(after_steps(DatabaseView::empty(), steps, count), key) is None,
    decreases count,
{
    if count > 0 {
        let before = after_steps(DatabaseView::empty(), steps, (count - 1) as nat);
        let step = steps[count - 1];
        law_key_that_is_only_read_has_count_zero(steps, (count - 1) as nat, key);
        assert(only_reads(step, key));
        if let Step::Read { keys, starts, now } = step {
            let count = paired(keys.len(), starts.len());
            law_reading_streams_changes_nothing(before, keys, starts, count, now);
            assert(entry_at(after_step(before, step), key) is None);
        } else if !names(step, key) {
            law_step_leaves_other_keys(before, step, key);
        } else if let Step::Command { session, command, clock, is_replica } = step {
            law_reading_changes_nothing(before, session, command, clock, is_replica);
            assert(entry_at(after_step(before, step), key) is None);
        }
    }
}

/// A key whose count is zero never held anything: in a history from the empty database nothing was
/// stored under it at any time.
pub proof fn law_key_with_count_zero_was_never_stored(
    steps: Seq<Step>,
    between: nat,
    to: nat,
    key: Seq<u8>,
)
    requires
        between <= to,
        forall|i: nat|
            i < to ==> !is_given_up(
                #[trigger] after_steps(DatabaseView::empty(), steps, i),
                steps[i as int],
            ),
        after_steps(DatabaseView::empty(), steps, to).version(key) == 0,
    ensures
        entry_at(after_steps(DatabaseView::empty(), steps, between), key) is None,
{
    if entry_at(after_steps(DatabaseView::empty(), steps, between), key) is Some {
        law_changed_key_has_greater_count(DatabaseView::empty(), steps, 0, between, to, key);
    }
}

} // verus!
