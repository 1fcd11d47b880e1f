//! Laws of transactions and of watched keys.

use vstd::prelude::*;
use crate::bytes::{bytes_of, lowercase};
use crate::commands::{Clock, ReactionView};
use crate::database::DatabaseView;
use crate::encode::array_header;
use crate::invariants::{counted, entry_at, kept, lemma_all_expired};
use crate::reply::{is_named, null_array};
use crate::session::{
    controls_transaction, exec_outcome, is_disturbed, law_each_queued_command_is_answered,
    only_reply, respond, watch_outcome, SessionView,
};
use crate::transaction::{joined, queue_outcome, queued_outcome};

verus! {

/// A command that is sent in a transaction is put aside and changes nothing, unless it acts on the
/// transaction.
pub proof fn law_transaction_collects_commands(
    db: DatabaseView,
    session: SessionView,
    command: Seq<Seq<u8>>,
    clock: Clock,
    is_replica: bool,
)
    requires
        session.in_transaction,
        !controls_transaction(command),
    ensures
        respond(db, session, command, clock, is_replica) == only_reply(
            db,
            SessionView { queued: session.queued.push(command), ..session },
            bytes_of("+QUEUED\r\n"),
        ),
{
}

/// `DISCARD` forgets the commands of a transaction and the watched keys, and changes nothing.
pub proof fn law_discard_forgets(
    db: DatabaseView,
    session: SessionView,
    command: Seq<Seq<u8>>,
    clock: Clock,
    is_replica: bool,
)
    requires
        session.in_transaction,
        is_named(command, "DISCARD"),
        command.len() == 1,
    ensures
        respond(db, session, command, clock, is_replica) == only_reply(
            db,
            SessionView::fresh(),
            bytes_of("+OK\r\n"),
        ),
{
    lemma_names_differ();
}

proof fn lemma_names_differ()
    ensures
        forall|command: Seq<Seq<u8>>|
            is_named(command, "DISCARD") ==> !(#[trigger] is_named(command, "MULTI")) && !is_named(
                command,
                "EXEC",
            ),
        forall|command: Seq<Seq<u8>>|
            is_named(command, "EXEC") ==> !(#[trigger] is_named(command, "MULTI")),
        forall|command: Seq<Seq<u8>>|
            is_named(command, "WATCH") ==> !(#[trigger] is_named(command, "MULTI")) && !is_named(
                command,
                "EXEC",
            ) && !is_named(command, "DISCARD"),
{
    reveal_strlit("MULTI");
    reveal_strlit("EXEC");
    reveal_strlit("DISCARD");
    reveal_strlit("WATCH");
    assert(vstd::string::is_ascii("MULTI"));
    assert(vstd::string::is_ascii("EXEC"));
    assert(vstd::string::is_ascii("DISCARD"));
    assert(vstd::string::is_ascii("WATCH"));
    assert forall|command: Seq<Seq<u8>>| is_named(command, "WATCH") implies !(#[trigger] is_named(
        command,
        "MULTI",
    )) by {
        assert(lowercase(command[0][0]) == lowercase(bytes_of("WATCH")[0]));
    }
}

/// The reply to each command of a queue is the one that the command gets after those before it.
pub(crate) proof fn lemma_queue_reply(
    db: DatabaseView,
    commands: Seq<Seq<Seq<u8>>>,
    count: nat,
    i: int,
    now: u64,
)
    requires
        0 <= i < count,
    ensures
        queue_outcome(db, commands, count, now).1.len() == count,
        queue_outcome(db, commands, count, now).1[i] == queued_outcome(
            queue_outcome(db, commands, i as nat, now).0,
            commands[i],
            now,
        ).1,
    decreases count,
{
    law_each_queued_command_is_answered(db, commands, count, now);
    law_each_queued_command_is_answered(db, commands, (count - 1) as nat, now);
    if i < count - 1 {
        lemma_queue_reply(db, commands, (count - 1) as nat, i, now);
    }
}

/// `EXEC` carries out the commands of a transaction in the order in which they came, each on what
/// those before it left, and answers with one reply for each, unless a watched key was modified.
/// Either way the transaction is over and nothing is watched any more.
pub proof fn law_exec_carries_out_the_queue(
    db: DatabaseView,
    session: SessionView,
    command: Seq<Seq<u8>>,
    clock: Clock,
    is_replica: bool,
)
    requires
        session.in_transaction,
        is_named(command, "EXEC"),
        command.len() == 1,
    ensures
        respond(db, session, command, clock, is_replica).session == SessionView::fresh(),
        ({
            let live = db.all_expired(session.watched.dom(), clock.now);
            let count = session.queued.len();
            let queue = queue_outcome(live, session.queued, count, clock.now);
            let outcome = respond(db, session, command, clock, is_replica);
            !is_disturbed(live, session.watched) ==> {
                &&& outcome.db == queue.0
                &&& outcome.reaction == ReactionView::Reply(array_header(count) + joined(queue.1))
                &&& queue.1.len() == count
                &&& forall|i: int|
                    0 <= i < count ==> #[trigger] queue.1[i] == queued_outcome(
                        queue_outcome(live, session.queued, i as nat, clock.now).0,
                        session.queued[i],
                        clock.now,
                    ).1
            }
        }),
{
    lemma_names_differ();
    let live = db.all_expired(session.watched.dom(), clock.now);
    let count = session.queued.len();
    let queue = queue_outcome(live, session.queued, count, clock.now);
    law_each_queued_command_is_answered(live, session.queued, count, clock.now);
    assert forall|i: int| 0 <= i < count implies #[trigger] queue.1[i] == queued_outcome(
        queue_outcome(live, session.queued, i as nat, clock.now).0,
        session.queued[i],
        clock.now,
    ).1 by {
        lemma_queue_reply(live, session.queued, count, i, clock.now);
    }
}

/// A transaction is dropped where a key that is watched was changed at any time after the watch
/// began, even if it was changed back, or has expired since: nothing is carried out, and the
/// answer says so.
pub proof fn law_modified_watched_key_drops_transaction(
    then: DatabaseView,
    between: DatabaseView,
    db: DatabaseView,
    session: SessionView,
    key: Seq<u8>,
    command: Seq<Seq<u8>>,
    clock: Clock,
    is_replica: bool,
)
    requires
        session.in_transaction,
        is_named(command, "EXEC"),
        command.len() == 1,
        session.watched.contains_key(key),
        session.watched[key] == then.version(key),
        counted(then, between),
        counted(between, db),
        entry_at(then, key) != entry_at(between, key) || db.is_expired(key, clock.now),
    ensures
        respond(db, session, command, clock, is_replica).reaction == ReactionView::Reply(
            null_array(),
        ),
        kept(db, respond(db, session, command, clock, is_replica).db, clock.now),
{
    lemma_names_differ();
    let live = db.all_expired(session.watched.dom(), clock.now);
    lemma_all_expired(db, session.watched.dom(), clock.now);
    assert(then.version(key) <= between.version(key));
    assert(between.version(key) <= db.version(key));
    assert(db.version(key) <= live.version(key));
    assert(session.watched.contains_key(key) && live.version(key) != session.watched[key]);
}

/// A transaction is carried out where no key that is watched was modified or has expired since
/// the watch began.
pub proof fn law_undisturbed_transaction_is_carried_out(
    db: DatabaseView,
    session: SessionView,
    now: u64,
)
    requires
        forall|key: Seq<u8>| #[trigger]
            session.watched.contains_key(key) ==> db.version(key) == session.watched[key]
                && !db.is_expired(key, now),
    ensures
        exec_outcome(db, session, now).db == queue_outcome(
            db,
            session.queued,
            session.queued.len(),
            now,
        ).0,
        exec_outcome(db, session, now).reaction == ReactionView::Reply(
            array_header(session.queued.len()) + joined(
                queue_outcome(db, session.queued, session.queued.len(), now).1,
            ),
        ),
{
    let live = db.all_expired(session.watched.dom(), now);
    assert(live =~= db);
    law_each_queued_command_is_answered(db, session.queued, session.queued.len(), now);
}

proof fn lemma_watch_outcome(
    db: DatabaseView,
    watched: Map<Seq<u8>, u64>,
    keys: Seq<Seq<u8>>,
    count: nat,
    key: Seq<u8>,
    now: u64,
)
    requires
        count <= keys.len(),
    ensures
        ({
            let outcome = watch_outcome(db, watched, keys, count, now);
            &&& watched.contains_key(key) ==> outcome.1.contains_key(key) && outcome.1[key]
                == watched[key]
            &&& keys.take(count as int).contains(key) ==> outcome.1.contains_key(key)
                && !outcome.0.is_expired(key, now)
            &&& !watched.contains_key(key) && outcome.1.contains_key(key) ==> keys.take(
                count as int,
            ).contains(key) && outcome.1[key] == outcome.0.stamp(key)
        }),
    decreases count,
{
    if count > 0 {
        lemma_watch_outcome(db, watched, keys, (count - 1) as nat, key, now);
        let shorter = keys.take(count - 1);
        let longer = keys.take(count as int);
        assert(longer =~= shorter.push(keys[count - 1]));
        assert(longer[count - 1] == keys[count - 1]);
        if longer.contains(key) && key != keys[count - 1] {
            let i = choose|i: int| 0 <= i < longer.len() && longer[i] == key;
            assert(shorter[i] == key);
        }
        if shorter.contains(key) {
            let i = choose|i: int| 0 <= i < shorter.len() && shorter[i] == key;
            assert(longer[i] == key);
        }
    }
}

/// `WATCH` begins to watch each key that it names, as the key is then. A key that is watched
/// already stays watched as it was before.
pub proof fn law_watch_begins_with_what_is_there(
    db: DatabaseView,
    session: SessionView,
    command: Seq<Seq<u8>>,
    clock: Clock,
    is_replica: bool,
    key: Seq<u8>,
)
    requires
        !session.in_transaction,
        is_named(command, "WATCH"),
        command.len() >= 2,
    ensures
        ({
            let outcome = respond(db, session, command, clock, is_replica);
            let watched = outcome.session.watched;
            &&& watched.contains_key(key) <==> session.watched.contains_key(key)
                || command.drop_first().contains(key)
            &&& watched.contains_key(key) ==> watched[key] == (if session.watched.contains_key(
                key,
            ) {
                session.watched[key]
            } else {
                outcome.db.stamp(key)
            })
        }),
{
    lemma_names_differ();
    let keys = command.drop_first();
    lemma_watch_outcome(db, session.watched, keys, keys.len(), key, clock.now);
    assert(keys.take(keys.len() as int) =~= keys);
}

} // verus!
