//! Laws of replication: what a master sends, and what its replica makes of it.

use vstd::prelude::*;
use crate::bytes::bytes_of;
use crate::commands::{answer, xadd_reaction, xread_reaction, Clock};
use crate::database::{DatabaseView, ValueView};
use crate::decode::{
    header_value, lemma_header_reads_back, lemma_line_bounds, lemma_line_feed_index,
    lemma_line_feed_index_is_settled, lemma_line_feed_index_skips, law_line_is_settled, line_at,
    line_feed_index, Parse,
};
use crate::encode::{array, bulk_header, crlf};
use crate::error::ErrorKind;
use crate::number::decimal;
use crate::replica::{
    acknowledgement, follow_outcome, handshake_at, handshake_response, is_getack, length_at,
    next_step, snapshot_at, sync_at, FollowedView, HandshakeStep, SyncStage,
};
use crate::replication::{empty_snapshot, resync_greeting, MASTER_REPLID, MASTER_REPL_OFFSET};
use crate::reply::is_named;
use crate::session::{respond, watch_outcome, SessionView};
use crate::streams::{start_ids, xread_request};
use crate::strings::{set_expiry, set_outcome};
use crate::transaction::{queue_outcome, queued_outcome};

verus! {

/// Whether a command is a `SET` that stores its value.
pub open spec fn is_storing(command: Seq<Seq<u8>>) -> bool {
    is_named(command, "SET") && set_expiry(command, 0) is Ok
}

/// Whether all commands from index `from` on are `SET` commands that store their values.
pub open spec fn all_storing(commands: Seq<Seq<Seq<u8>>>, from: int) -> bool {
    forall|i: int| from <= i < commands.len() ==> is_storing(#[trigger] commands[i])
}

/// Whether one list of commands for the replicas goes on as another does, by `SET` commands that
/// stored their values.
pub open spec fn goes_on(before: DatabaseView, after: DatabaseView) -> bool {
    &&& before.propagated.is_prefix_of(after.propagated)
    &&& all_storing(after.propagated, before.propagated.len() as int)
}

proof fn lemma_set_goes_on(db: DatabaseView, command: Seq<Seq<u8>>, now: u64)
    requires
        is_named(command, "SET"),
    ensures
        goes_on(db, set_outcome(db, command, now).0),
{
    let after = set_outcome(db, command, now).0;
    assert(after.propagated.take(db.propagated.len() as int) =~= db.propagated);
}

proof fn lemma_queue_goes_on(
    db: DatabaseView,
    commands: Seq<Seq<Seq<u8>>>,
    count: nat,
    now: u64,
)
    ensures
        goes_on(db, queue_outcome(db, commands, count, now).0),
    decreases count,
{
    if count > 0 {
        let earlier = queue_outcome(db, commands, (count - 1) as nat, now).0;
        lemma_queue_goes_on(db, commands, (count - 1) as nat, now);
        if is_named(commands[count - 1], "SET") {
            lemma_set_goes_on(earlier, commands[count - 1], now);
        }
    }
}

proof fn lemma_start_ids_propagate_nothing(
    db: DatabaseView,
    keys: Seq<Seq<u8>>,
    arguments: Seq<Seq<u8>>,
    count: nat,
    now: u64,
)
    ensures
        start_ids(db, keys, arguments, count, now).0.propagated == db.propagated,
    decreases count,
{
    if count > 0 {
        lemma_start_ids_propagate_nothing(db, keys, arguments, (count - 1) as nat, now);
    }
}

proof fn lemma_watch_propagates_nothing(
    db: DatabaseView,
    watched: Map<Seq<u8>, u64>,
    keys: Seq<Seq<u8>>,
    count: nat,
    now: u64,
)
    ensures
        watch_outcome(db, watched, keys, count, now).0.propagated == db.propagated,
    decreases count,
{
    if count > 0 {
        lemma_watch_propagates_nothing(db, watched, keys, (count - 1) as nat, now);
    }
}

proof fn lemma_xread_propagates_nothing(db: DatabaseView, command: Seq<Seq<u8>>, now: u64)
    ensures
        xread_reaction(db, command, now).0.propagated == db.propagated,
{
    if let Ok((_, first)) = xread_request(command) {
        let count = (command.len() - first) / 2;
        lemma_start_ids_propagate_nothing(
            db,
            command.subrange(first, first + count),
            command.skip(first + count),
            count as nat,
            now,
        );
    }
}

proof fn lemma_xadd_propagates_nothing(db: DatabaseView, command: Seq<Seq<u8>>, clock: Clock)
    ensures
        xadd_reaction(db, command, clock).0.propagated == db.propagated,
{
}

proof fn lemma_others_propagate_nothing(
    db: DatabaseView,
    command: Seq<Seq<u8>>,
    clock: Clock,
    is_replica: bool,
)
    requires
        !is_named(command, "SET"),
    ensures
        answer(db, command, clock, is_replica).0.propagated == db.propagated,
{
    if is_named(command, "XREAD") {
        lemma_xread_propagates_nothing(db, command, clock.now);
    }
    if is_named(command, "XADD") {
        lemma_xadd_propagates_nothing(db, command, clock);
    }
}

proof fn lemma_answer_goes_on(
    db: DatabaseView,
    command: Seq<Seq<u8>>,
    clock: Clock,
    is_replica: bool,
)
    ensures
        goes_on(db, answer(db, command, clock, is_replica).0),
{
    if is_named(command, "SET") {
        lemma_set_goes_on(db, command, clock.now);
    } else {
        lemma_others_propagate_nothing(db, command, clock, is_replica);
    }
}

/// Replicas are sent `SET` commands that stored their values, by themselves or in a
/// transaction, and nothing else. They come after what the replicas are to be sent already.
pub proof fn law_only_sets_are_propagated(
    db: DatabaseView,
    session: SessionView,
    command: Seq<Seq<u8>>,
    clock: Clock,
    is_replica: bool,
)
    ensures
        goes_on(db, respond(db, session, command, clock, is_replica).db),
{
    let live = db.all_expired(session.watched.dom(), clock.now);
    lemma_queue_goes_on(live, session.queued, session.queued.len(), clock.now);
    if command.len() > 0 {
        let keys = command.drop_first();
        lemma_watch_propagates_nothing(db, session.watched, keys, keys.len(), clock.now);
    }
    lemma_answer_goes_on(db, command, clock, is_replica);
}

/// A `SET` command that stores its value is put on the list for the replicas as it came.
pub proof fn law_storing_set_is_propagated(db: DatabaseView, command: Seq<Seq<u8>>, now: u64)
    requires
        is_storing(command),
    ensures
        set_outcome(db, command, now).0.propagated == db.propagated.push(command),
{
}

/// A replica follows a `SET` command as its master did: it stores the same value, and reports
/// nothing.
pub proof fn law_replica_stores_the_same_value(
    replica: DatabaseView,
    command: Seq<Seq<u8>>,
    now: u64,
)
    requires
        is_storing(command),
    ensures
        follow_outcome(replica, command, now).1 is Applied,
        follow_outcome(replica, command, now).0 == set_outcome(replica, command, now).0,
        follow_outcome(replica, command, now).0.value(command[1]) == Some(
            ValueView::String(command[2]),
        ),
{
    reveal_strlit("SET");
    reveal_strlit("REPLCONF");
    reveal_strlit("+OK\r\n");
    assert(vstd::string::is_ascii("SET"));
    assert(vstd::string::is_ascii("REPLCONF"));
    assert(vstd::string::is_ascii("+OK\r\n"));
    assert(bytes_of("SET").len() == 3);
    assert(bytes_of("REPLCONF").len() == 8);
}

/// The database of a replica after it followed commands of its master, each at its time.
pub open spec fn followed(replica: DatabaseView, steps: Seq<(Seq<Seq<u8>>, u64)>) -> DatabaseView
    decreases steps.len(),
{
    if steps.len() == 0 {
        replica
    } else {
        follow_outcome(followed(replica, steps.drop_last()), steps.last().0, steps.last().1).0
    }
}

/// What a replica sends its master when it follows a command.
pub open spec fn answer_to_master(followed: FollowedView) -> Seq<u8> {
    match followed {
        FollowedView::Acknowledge(bytes) => bytes,
        _ => Seq::empty(),
    }
}

/// What a replica has sent its master after it followed commands, each at its time.
pub open spec fn sent(replica: DatabaseView, steps: Seq<(Seq<Seq<u8>>, u64)>) -> Seq<u8>
    decreases steps.len(),
{
    if steps.len() == 0 {
        Seq::empty()
    } else {
        sent(replica, steps.drop_last()) + answer_to_master(
            follow_outcome(
                followed(replica, steps.drop_last()),
                steps.last().0,
                steps.last().1,
            ).1,
        )
    }
}

/// The database after commands were carried out as queued ones are, each at its time.
pub open spec fn carried_out(db: DatabaseView, steps: Seq<(Seq<Seq<u8>>, u64)>) -> DatabaseView
    decreases steps.len(),
{
    if steps.len() == 0 {
        db
    } else {
        queued_outcome(carried_out(db, steps.drop_last()), steps.last().0, steps.last().1).0
    }
}

/// The steps but those in which the master asks how far its replica is.
pub open spec fn other_steps(steps: Seq<(Seq<Seq<u8>>, u64)>) -> Seq<(Seq<Seq<u8>>, u64)> {
    steps.filter(|step: (Seq<Seq<u8>>, u64)| !is_getack(step.0))
}

/// Bytes, one time after the other.
pub open spec fn repeated(bytes: Seq<u8>, count: nat) -> Seq<u8>
    decreases count,
{
    if count == 0 {
        Seq::empty()
    } else {
        repeated(bytes, (count - 1) as nat) + bytes
    }
}

/// Whatever commands a master sends, its replica answers each question how far it is with one
/// acknowledgement, and nothing else, and its data become what the other commands make of them in
/// their order. A command that fails neither ends this nor is answered.
pub proof fn law_replica_follows_its_master(
    replica: DatabaseView,
    steps: Seq<(Seq<Seq<u8>>, u64)>,
)
    ensures
        other_steps(steps).len() <= steps.len(),
        followed(replica, steps) == carried_out(replica, other_steps(steps)),
        sent(replica, steps) == repeated(
            array(acknowledgement()),
            (steps.len() - other_steps(steps).len()) as nat,
        ),
    decreases steps.len(),
{
    reveal(Seq::filter);
    if steps.len() > 0 {
        let earlier = steps.drop_last();
        law_replica_follows_its_master(replica, earlier);
        let others = other_steps(earlier);
        if is_getack(steps.last().0) {
            assert(other_steps(steps) == others);
        } else {
            assert(other_steps(steps) == others.push(steps.last()));
            assert(other_steps(steps).drop_last() =~= others);
            assert(sent(replica, steps) =~= sent(replica, earlier));
        }
    }
}

/// A replica that followed the `SET` commands of its master holds under each key the value of the
/// last of them for that key.
pub proof fn law_replica_ends_with_the_last_values(
    replica: DatabaseView,
    steps: Seq<(Seq<Seq<u8>>, u64)>,
    i: int,
)
    requires
        0 <= i < steps.len(),
        forall|j: int| 0 <= j < steps.len() ==> is_storing((#[trigger] steps[j]).0),
        forall|j: int| i < j < steps.len() ==> (#[trigger] steps[j]).0[1] != steps[i].0[1],
    ensures
        followed(replica, steps).value(steps[i].0[1]) == Some(ValueView::String(steps[i].0[2])),
    decreases steps.len(),
{
    let earlier = steps.drop_last();
    assert(is_storing(steps[steps.len() - 1].0));
    law_replica_stores_the_same_value(
        followed(replica, earlier),
        steps.last().0,
        steps.last().1,
    );
    if i < steps.len() - 1 {
        assert forall|j: int| 0 <= j < earlier.len() implies is_storing(
            (#[trigger] earlier[j]).0,
        ) by {
            assert(earlier[j] == steps[j]);
        }
        assert forall|j: int| i < j < earlier.len() implies (#[trigger] earlier[j]).0[1]
            != earlier[i].0[1] by {
            assert(earlier[j] == steps[j]);
        }
        law_replica_ends_with_the_last_values(replica, earlier, i);
        assert(steps[steps.len() - 1].0[1] != steps[i].0[1]);
    }
}

proof fn lemma_snapshot_goes_on(
    remaining: usize,
    input: Seq<u8>,
    more: Seq<u8>,
    from: int,
    at_end: bool,
)
    requires
        0 <= from <= input.len(),
    ensures
        match snapshot_at(remaining, input, from, false) {
            Parse::Ready(stage, next) => sync_at(stage, input + more, next, at_end) == snapshot_at(
                remaining,
                input + more,
                from,
                at_end,
            ),
            _ => false,
        },
{
}

proof fn lemma_length_goes_on(input: Seq<u8>, more: Seq<u8>, from: int, at_end: bool)
    requires
        0 <= from <= input.len(),
    ensures
        match length_at(input, from, false) {
            Parse::Ready(stage, next) => sync_at(stage, input + more, next, at_end) == length_at(
                input + more,
                from,
                at_end,
            ),
            outcome => length_at(input + more, from, at_end) == outcome,
        },
{
    if !(line_at(input, from, false) is Pending) {
        law_line_is_settled(input, more, from, at_end);
        lemma_line_bounds(input, from, false);
        if let Parse::Ready(header, start) = line_at(input, from, false) {
            if let Some(length) = header_value(header, 36) {
                lemma_snapshot_goes_on(length as usize, input, more, start, at_end);
            }
        }
    }
}

/// In whatever pieces the first synchronization comes, its outcome is the same: to look at some
/// bytes first, and then to go on where that ended, comes to the same as to look at all of them.
pub proof fn law_sync_does_not_depend_on_pieces(
    stage: SyncStage,
    input: Seq<u8>,
    more: Seq<u8>,
    from: int,
    at_end: bool,
)
    requires
        0 <= from <= input.len(),
    ensures
        match sync_at(stage, input, from, false) {
            Parse::Ready(reached, next) => sync_at(reached, input + more, next, at_end) == sync_at(
                stage,
                input + more,
                from,
                at_end,
            ),
            outcome => sync_at(stage, input + more, from, at_end) == outcome,
        },
{
    match stage {
        SyncStage::Snapshot(remaining) => {
            lemma_snapshot_goes_on(remaining, input, more, from, at_end);
        },
        SyncStage::Length => {
            lemma_length_goes_on(input, more, from, at_end);
        },
        SyncStage::Announcement => {
            if !(line_at(input, from, false) is Pending) {
                law_line_is_settled(input, more, from, at_end);
                lemma_line_bounds(input, from, false);
                if let Parse::Ready(response, start) = line_at(input, from, false) {
                    lemma_length_goes_on(input, more, start, at_end);
                }
            }
        },
    }
}

/// The announcement with which a synchronization starts, without its ending.
spec fn announcement_line() -> Seq<u8> {
    bytes_of("+FULLRESYNC ") + bytes_of(MASTER_REPLID) + bytes_of(" ") + decimal(
        MASTER_REPL_OFFSET as nat,
    )
}

proof fn lemma_announcement_line(rest: Seq<u8>, at_end: bool)
    ensures
        line_at(announcement_line() + crlf() + rest, 0, at_end) == Parse::Ready(
            announcement_line(),
            (announcement_line().len() + 2) as int,
        ),
        bytes_of("+FULLRESYNC ").is_prefix_of(announcement_line()),
{
    let line = announcement_line();
    let input = line + crlf() + rest;
    assert forall|i: int| 0 <= i < line.len() implies line[i] != 10 by {
        reveal_strlit("+FULLRESYNC ");
        reveal_strlit("8371b4fb1155b71f4a04d3e1bc3e18c4a990aeeb");
        reveal_strlit(" ");
        assert(vstd::string::is_ascii("+FULLRESYNC "));
        assert(vstd::string::is_ascii("8371b4fb1155b71f4a04d3e1bc3e18c4a990aeeb"));
        assert(vstd::string::is_ascii(" "));
    }
    lemma_line_feed_index_skips(input, 0, (line.len() + 1) as int);
    assert(input.subrange(0, line.len() as int) =~= line);
    assert(line.take(bytes_of("+FULLRESYNC ").len() as int) =~= bytes_of("+FULLRESYNC "));
}

proof fn lemma_snapshot_is_consumed(snapshot: Seq<u8>, rest: Seq<u8>, at_end: bool)
    requires
        snapshot.len() <= usize::MAX,
    ensures
        ({
            let greeting = announcement_line() + crlf() + bulk_header(snapshot.len()) + snapshot;
            sync_at(SyncStage::Announcement, greeting + rest, 0, at_end) == Parse::Ready(
                SyncStage::Snapshot(0),
                greeting.len() as int,
            )
        }),
{
    let before = announcement_line() + crlf();
    let header = bulk_header(snapshot.len());
    let input = before + header + snapshot + rest;
    assert(input =~= before + (header + snapshot + rest));
    lemma_announcement_line(header + snapshot + rest, at_end);
    assert(input =~= before + (seq![36u8] + decimal(snapshot.len()) + crlf()) + (snapshot + rest));
    lemma_header_reads_back(before, 36, snapshot.len(), snapshot + rest, at_end);
}

/// A replica that synchronizes with a server of this kind takes exactly the greeting as the first
/// synchronization. What follows, also in the same piece, is left for it to read as commands.
pub proof fn law_greeting_is_the_whole_synchronization(rest: Seq<u8>, at_end: bool)
    ensures
        sync_at(SyncStage::Announcement, resync_greeting() + rest, 0, at_end) == Parse::Ready(
            SyncStage::Snapshot(0),
            resync_greeting().len() as int,
        ),
{
    lemma_snapshot_is_consumed(empty_snapshot(), rest, at_end);
}

/// A response that a step waits for ends where its only line feed stands.
proof fn lemma_response_is_a_line(step: HandshakeStep)
    ensures
        handshake_response(step) matches Some(expected) ==> {
            &&& expected.len() > 0
            &&& expected.last() == 10
            &&& forall|i: int| 0 <= i < expected.len() - 1 ==> expected[i] != 10
        },
{
    reveal_strlit("+PONG\r\n");
    reveal_strlit("+OK\r\n");
    assert(vstd::string::is_ascii("+PONG\r\n"));
    assert(vstd::string::is_ascii("+OK\r\n"));
}

/// A step of the handshake is over exactly when the response that it waits for has come in full,
/// and no byte after the response is taken with it.
pub proof fn law_handshake_waits_for_response(
    step: HandshakeStep,
    input: Seq<u8>,
    from: int,
    at_end: bool,
)
    requires
        0 <= from <= input.len(),
    ensures
        handshake_response(step) matches Some(expected) ==> {
            &&& handshake_at(step, input, from, at_end) is Ready <==> from + expected.len()
                <= input.len() && input.subrange(from, from + expected.len()) == expected
            &&& handshake_at(step, input, from, at_end) matches Parse::Ready(reached, next)
                ==> reached == next_step(step) && next == from + expected.len()
        },
{
    lemma_response_is_a_line(step);
    lemma_line_feed_index(input, from);
    if let Some(expected) = handshake_response(step) {
        let end = from + expected.len();
        if end <= input.len() && input.subrange(from, end) == expected {
            assert forall|i: int| from <= i < end - 1 implies input[i] != 10 by {
                assert(input[i] == input.subrange(from, end)[i - from]);
            }
            assert(input[end - 1] == input.subrange(from, end)[end - 1 - from]);
            lemma_line_feed_index_skips(input, from, end - 1);
        }
    }
}

/// A line other than the response that a step waits for ends the handshake with an error.
pub proof fn law_handshake_rejects_other_responses(
    step: HandshakeStep,
    input: Seq<u8>,
    from: int,
    at_end: bool,
)
    requires
        0 <= from <= input.len(),
        handshake_response(step) is Some,
        line_feed_index(input, from) < input.len() || at_end,
        !(handshake_at(step, input, from, at_end) is Ready),
    ensures
        handshake_at(step, input, from, at_end) matches Parse::Failed(kind, _) && kind
            == ErrorKind::InvalidData,
{
}

/// Once the bytes that arrived settle how a step of the handshake ends, later bytes change
/// nothing.
pub proof fn law_handshake_is_settled(
    step: HandshakeStep,
    input: Seq<u8>,
    more: Seq<u8>,
    from: int,
    at_end: bool,
)
    requires
        0 <= from <= input.len(),
        !(handshake_at(step, input, from, false) is Pending),
    ensures
        handshake_at(step, input + more, from, at_end) == handshake_at(step, input, from, false),
{
    lemma_line_feed_index(input, from);
    let feed = line_feed_index(input, from);
    if feed < input.len() {
        lemma_line_feed_index_is_settled(input, more, from);
        assert((input + more).subrange(from, feed + 1) =~= input.subrange(from, feed + 1));
    }
}

/// The handshake asks for the synchronization after three responses, in this order of steps.
pub proof fn law_handshake_has_three_responses()
    ensures
        next_step(HandshakeStep::Ping) == HandshakeStep::ListeningPort,
        next_step(HandshakeStep::ListeningPort) == HandshakeStep::Capability,
        next_step(HandshakeStep::Capability) == HandshakeStep::Synchronize,
        forall|step: HandshakeStep| #[trigger] handshake_response(step) is None <==> step
            == HandshakeStep::Synchronize,
{
}

} // verus!
