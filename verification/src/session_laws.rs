//! Laws of sessions: which command does what in and outside a transaction, and what each command
//! of a transaction leaves for the next.

use vstd::prelude::*;
use crate::byte_laws::law_fixed_replies;
use crate::bytes::{bytes_of, is_word};
use crate::commands::{answer, Clock, ReactionView};
use crate::database::DatabaseView;
use crate::encode::{array_header, bulk_string};
use crate::names::lemma_names;
use crate::replication::{replication_info, resync_greeting};
use crate::reply::is_named;
use crate::session::{
    law_each_queued_command_is_answered, respond, watch_outcome, Outcome, SessionView,
};
use crate::transaction::{joined, queue_outcome, queued_outcome};

verus! {

/// Each command of a transaction does to the data exactly what it does alone on what those before
/// it left, whatever they were answered, and gets the reply that it gets alone.
pub proof fn law_queue_is_carried_out_one_by_one(
    db: DatabaseView,
    commands: Seq<Seq<Seq<u8>>>,
    i: nat,
    now: u64,
)
    ensures
        queue_outcome(db, commands, 0, now) == (db, Seq::<Seq<u8>>::empty()),
        queue_outcome(db, commands, i + 1, now).0 == queued_outcome(
            queue_outcome(db, commands, i, now).0,
            commands[i as int],
            now,
        ).0,
        queue_outcome(db, commands, i + 1, now).1 == queue_outcome(db, commands, i, now).1.push(
            queued_outcome(
                queue_outcome(db, commands, i, now).0,
                commands[i as int],
                now,
            ).1,
        ),
{
}

/// A queued `SET`, `INCR` or `GET` does to the data what it does outside a transaction, and gets
/// the same reply. With a wrong number of arguments `INCR` and `GET` are refused. Every other
/// command is unknown in a transaction and changes nothing.
pub proof fn law_queued_command_does_what_it_does_alone(
    db: DatabaseView,
    command: Seq<Seq<u8>>,
    clock: Clock,
    is_replica: bool,
)
    ensures
        ({
            let queued = queued_outcome(db, command, clock.now);
            let alone = answer(db, command, clock, is_replica);
            if is_named(command, "SET") || is_named(command, "INCR") && command.len() == 2
                || is_named(command, "GET") && command.len() == 2 {
                queued.0 == alone.0 && ReactionView::Reply(queued.1) == alone.1
            } else if is_named(command, "INCR") {
                queued == (
                    db,
                    bytes_of("-ERR wrong number of arguments for 'incr' command\r\n"),
                )
            } else if is_named(command, "GET") {
                queued == (
                    db,
                    bytes_of("-ERR wrong number of arguments for 'get' command\r\n"),
                )
            } else {
                queued == (db, bytes_of("-ERR unknown command\r\n"))
            }
        }),
{
    lemma_names();
}

/// Outside a transaction every command but those that open, end or prepare one does what it does
/// by itself, and leaves the session as it is.
pub proof fn law_session_passes_commands_on(
    db: DatabaseView,
    session: SessionView,
    command: Seq<Seq<u8>>,
    clock: Clock,
    is_replica: bool,
)
    requires
        !session.in_transaction,
        !is_named(command, "MULTI"),
        !is_named(command, "EXEC"),
        !is_named(command, "DISCARD"),
        !is_named(command, "WATCH"),
        !is_named(command, "UNWATCH"),
    ensures
        ({
            let outcome = respond(db, session, command, clock, is_replica);
            let alone = answer(db, command, clock, is_replica);
            outcome.db == alone.0 && outcome.session == session && outcome.reaction == alone.1
        }),
{
}

/// In a transaction every command but `MULTI`, `EXEC`, `DISCARD` and `WATCH` is put behind those
/// that wait already. Nothing else changes.
pub proof fn law_commands_wait_in_order(
    db: DatabaseView,
    session: SessionView,
    command: Seq<Seq<u8>>,
    clock: Clock,
    is_replica: bool,
)
    requires
        session.in_transaction,
        !is_named(command, "MULTI"),
        !is_named(command, "EXEC"),
        !is_named(command, "DISCARD"),
        !is_named(command, "WATCH"),
    ensures
        ({
            let outcome = respond(db, session, command, clock, is_replica);
            &&& outcome.db == db
            &&& outcome.session.in_transaction
            &&& outcome.session.queued == session.queued.push(command)
            &&& outcome.session.watched == session.watched
            &&& outcome.reaction == ReactionView::Reply(bytes_of("+QUEUED\r\n"))
        }),
{
}

/// Whether an outcome changes nothing and sends a reply.
pub open spec fn says(
    outcome: Outcome,
    db: DatabaseView,
    session: SessionView,
    reply: &str,
) -> bool {
    &&& outcome.db == db
    &&& outcome.session == session
    &&& outcome.reaction == ReactionView::Reply(bytes_of(reply))
}

/// `MULTI` opens a transaction without commands, where none is open.
pub proof fn law_multi_opens_a_transaction(
    db: DatabaseView,
    session: SessionView,
    command: Seq<Seq<u8>>,
    clock: Clock,
    is_replica: bool,
)
    requires
        is_named(command, "MULTI"),
    ensures
        ({
            let outcome = respond(db, session, command, clock, is_replica);
            if command.len() != 1 {
                says(
                    outcome,
                    db,
                    session,
                    "-ERR wrong number of arguments for 'MULTI' command\r\n",
                )
            } else if session.in_transaction {
                says(outcome, db, session, "-ERR MULTI calls can not be nested\r\n")
            } else {
                says(
                    outcome,
                    db,
                    SessionView {
                        in_transaction: true,
                        queued: Seq::empty(),
                        watched: session.watched,
                    },
                    "+OK\r\n",
                )
            }
        }),
{
    lemma_names();
}

/// `EXEC` ends a transaction and carries out its commands, where one is open. It carries out none
/// where a watched key, once the watched keys that have expired are removed, was modified since
/// its watch began. Afterwards nothing waits and nothing is watched.
pub proof fn law_exec_ends_a_transaction(
    db: DatabaseView,
    session: SessionView,
    command: Seq<Seq<u8>>,
    clock: Clock,
    is_replica: bool,
)
    requires
        is_named(command, "EXEC"),
    ensures
        ({
            let outcome = respond(db, session, command, clock, is_replica);
            let live = db.all_expired(session.watched.dom(), clock.now);
            let is_modified = exists|key: Seq<u8>| #[trigger]
                session.watched.contains_key(key) && live.version(key) != session.watched[key];
            let count = session.queued.len();
            let queue = queue_outcome(live, session.queued, count, clock.now);
            if command.len() != 1 {
                says(
                    outcome,
                    db,
                    session,
                    "-ERR wrong number of arguments for 'exec' command\r\n",
                )
            } else if !session.in_transaction {
                says(outcome, db, session, "-ERR EXEC without MULTI\r\n")
            } else {
                &&& !outcome.session.in_transaction
                &&& outcome.session.queued == Seq::<Seq<Seq<u8>>>::empty()
                &&& outcome.session.watched == Map::<Seq<u8>, u64>::empty()
                &&& if is_modified {
                    outcome.db == live && outcome.reaction == ReactionView::Reply(
                        seq![42u8, 45u8, 49u8, 13u8, 10u8],
                    )
                } else {
                    outcome.db == queue.0 && outcome.reaction == ReactionView::Reply(
                        array_header(count) + joined(queue.1),
                    )
                }
            }
        }),
{
    lemma_names();
    law_fixed_replies();
    let live = db.all_expired(session.watched.dom(), clock.now);
    law_each_queued_command_is_answered(
        live,
        session.queued,
        session.queued.len(),
        clock.now,
    );
}

/// `DISCARD` ends a transaction without carrying out anything, where one is open.
pub proof fn law_discard_ends_a_transaction(
    db: DatabaseView,
    session: SessionView,
    command: Seq<Seq<u8>>,
    clock: Clock,
    is_replica: bool,
)
    requires
        is_named(command, "DISCARD"),
    ensures
        ({
            let outcome = respond(db, session, command, clock, is_replica);
            if command.len() != 1 {
                says(
                    outcome,
                    db,
                    session,
                    "-ERR wrong number of arguments for 'discard' command\r\n",
                )
            } else if !session.in_transaction {
                says(outcome, db, session, "-ERR DISCARD without MULTI\r\n")
            } else {
                says(
                    outcome,
                    db,
                    SessionView {
                        in_transaction: false,
                        queued: Seq::empty(),
                        watched: Map::empty(),
                    },
                    "+OK\r\n",
                )
            }
        }),
{
    lemma_names();
}

/// `WATCH` is refused in a transaction and without a key. Otherwise it begins to watch each of its
/// keys, and leaves the transaction as it is. `UNWATCH` ends all watches.
pub proof fn law_watch_and_unwatch(
    db: DatabaseView,
    session: SessionView,
    command: Seq<Seq<u8>>,
    clock: Clock,
    is_replica: bool,
)
    ensures
        ({
            let outcome = respond(db, session, command, clock, is_replica);
            let keys = Seq::new((command.len() - 1) as nat, |i: int| command[i + 1]);
            let watch = watch_outcome(db, session.watched, keys, keys.len(), clock.now);
            &&& is_named(command, "WATCH") ==> if command.len() < 2 {
                says(
                    outcome,
                    db,
                    session,
                    "-ERR wrong number of arguments for 'watch' command\r\n",
                )
            } else if session.in_transaction {
                says(outcome, db, session, "-ERR WATCH inside MULTI is not allowed\r\n")
            } else {
                says(
                    outcome,
                    watch.0,
                    SessionView {
                        in_transaction: false,
                        queued: session.queued,
                        watched: watch.1,
                    },
                    "+OK\r\n",
                )
            }
            &&& is_named(command, "UNWATCH") && !session.in_transaction ==> if command.len() != 1 {
                says(
                    outcome,
                    db,
                    session,
                    "-ERR wrong number of arguments for 'unwatch' command\r\n",
                )
            } else {
                says(
                    outcome,
                    db,
                    SessionView {
                        in_transaction: false,
                        queued: session.queued,
                        watched: Map::empty(),
                    },
                    "+OK\r\n",
                )
            }
        }),
{
    lemma_names();
    if command.len() > 0 {
        assert(command.drop_first() =~= Seq::new(
            (command.len() - 1) as nat,
            |i: int| command[i + 1],
        ));
    }
}

/// `WATCH` watches its keys one after the other: each is removed if it has expired, and is then
/// watched with its count, unless it is watched already.
pub proof fn law_keys_are_watched_one_by_one(
    db: DatabaseView,
    watched: Map<Seq<u8>, u64>,
    keys: Seq<Seq<u8>>,
    i: nat,
    now: u64,
)
    ensures
        watch_outcome(db, watched, keys, 0, now) == (db, watched),
        ({
            let earlier = watch_outcome(db, watched, keys, i, now);
            let longer = watch_outcome(db, watched, keys, i + 1, now);
            let key = keys[i as int];
            &&& longer.0 == earlier.0.expired(key, now)
            &&& longer.1 == if earlier.1.contains_key(key) {
                earlier.1
            } else {
                earlier.1.insert(key, longer.0.stamp(key))
            }
        }),
{
}

/// A client that has just connected has no transaction and watches nothing.
pub proof fn law_session_starts_empty()
    ensures
        !SessionView::fresh().in_transaction,
        SessionView::fresh().queued == Seq::<Seq<Seq<u8>>>::empty(),
        SessionView::fresh().watched == Map::<Seq<u8>, u64>::empty(),
{
}

/// `REPLCONF` is acknowledged where its options pair, `PSYNC` starts the synchronization of a
/// replica, and `INFO` tells about replication, and nothing about other sections. None of them
/// changes the data.
pub proof fn law_replication_commands(
    db: DatabaseView,
    command: Seq<Seq<u8>>,
    clock: Clock,
    is_replica: bool,
)
    ensures
        answer(db, command, clock, is_replica).0 == db || !(is_named(command, "REPLCONF")
            || is_named(command, "PSYNC") || is_named(command, "INFO")),
        is_named(command, "REPLCONF") ==> answer(db, command, clock, is_replica).1
            == ReactionView::Reply(
            bytes_of(
                if command.len() >= 3 && command.len() % 2 == 1 {
                    "+OK\r\n"
                } else {
                    "-ERR wrong number of arguments for 'replconf' command\r\n"
                },
            ),
        ),
        is_named(command, "PSYNC") ==> answer(db, command, clock, is_replica).1 == (
        if command.len() == 3 {
            ReactionView::StartReplication { greeting: resync_greeting() }
        } else {
            ReactionView::Reply(
                bytes_of("-ERR wrong number of arguments for 'psync' command\r\n"),
            )
        }),
        is_named(command, "INFO") ==> answer(db, command, clock, is_replica).1
            == ReactionView::Reply(
            if command.len() > 2 {
                bytes_of("-ERR wrong number of arguments for 'info' command\r\n")
            } else if command.len() == 2 && !is_word(command[1], "replication") {
                bulk_string(Seq::empty())
            } else {
                bulk_string(replication_info(is_replica))
            },
        ),
{
    lemma_names();
}

/// A command with any other name, or with none, is unknown and changes nothing.
pub proof fn law_other_commands_are_unknown(
    db: DatabaseView,
    command: Seq<Seq<u8>>,
    clock: Clock,
    is_replica: bool,
)
    requires
        !is_named(command, "PING"),
        !is_named(command, "ECHO"),
        !is_named(command, "SET"),
        !is_named(command, "INCR"),
        !is_named(command, "TYPE"),
        !is_named(command, "RPUSH"),
        !is_named(command, "LLEN"),
        !is_named(command, "BLPOP"),
        !is_named(command, "LPOP"),
        !is_named(command, "LPUSH"),
        !is_named(command, "LRANGE"),
        !is_named(command, "GET"),
        !is_named(command, "XADD"),
        !is_named(command, "XREAD"),
        !is_named(command, "XRANGE"),
        !is_named(command, "REPLCONF"),
        !is_named(command, "PSYNC"),
        !is_named(command, "INFO"),
    ensures
        answer(db, command, clock, is_replica) == (
            db,
            ReactionView::Reply(bytes_of("-ERR unknown command\r\n")),
        ),
{
}

} // verus!
