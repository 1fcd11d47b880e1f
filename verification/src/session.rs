//! A client's session: its transaction, and the keys that it watches.

use vstd::prelude::*;
use crate::byte_map::ByteMap;
use crate::bytes::{append, bytes_of, contents, copy_bytes, to_bytes, Command};
use crate::clock::{current_unix_milliseconds, milliseconds_of};
use crate::commands::{answer, execute, Clock, Reaction, ReactionView};
use crate::database::{command_contents, DatabaseState, DatabaseView};
use crate::encode::{array_header, write_array_header};
use crate::reply::{is_command, is_named, null_array, null_array_reply};
use crate::transaction::{execute_queue, joined, queue_outcome};

verus! {

/// What a [`Session`] stands for: whether a transaction is open, the commands that it holds, and
/// the watched keys with the number of modifications that each had when the watch began.
#[verifier::ext_equal]
pub struct SessionView {
    pub in_transaction: bool,
    pub queued: Seq<Seq<Seq<u8>>>,
    pub watched: Map<Seq<u8>, u64>,
}

impl SessionView {
    /// The session of a client that has just connected.
    pub open spec fn fresh() -> SessionView {
        SessionView { in_transaction: false, queued: Seq::empty(), watched: Map::empty() }
    }
}

/// A client's session.
pub struct Session {
    in_transaction: bool,
    queued_commands: Vec<Command>,
    watched_keys: ByteMap<u64>,
}

impl View for Session {
    type V = SessionView;

    closed spec fn view(&self) -> SessionView {
        SessionView {
            in_transaction: self.in_transaction,
            queued: command_contents(self.queued_commands@),
            watched: self.watched_keys@,
        }
    }
}

/// The database, the session and the reaction that follow a command.
pub struct Outcome {
    pub db: DatabaseView,
    pub session: SessionView,
    pub reaction: ReactionView,
}

/// An outcome that changes nothing but sends a reply.
pub open spec fn only_reply(db: DatabaseView, session: SessionView, reply: Seq<u8>) -> Outcome {
    Outcome { db, session, reaction: ReactionView::Reply(reply) }
}

/// Whether some watched key was modified since its watch began.
pub open spec fn is_disturbed(db: DatabaseView, watched: Map<Seq<u8>, u64>) -> bool {
    exists|key: Seq<u8>| #[trigger] watched.contains_key(key) && db.version(key) != watched[key]
}

/// What follows when a transaction ends in `EXEC`.
pub open spec fn exec_outcome(db: DatabaseView, session: SessionView, now: u64) -> Outcome {
    let live = db.all_expired(session.watched.dom(), now);
    let session_after = SessionView::fresh();
    if is_disturbed(live, session.watched) {
        only_reply(live, session_after, null_array())
    } else {
        let outcome = queue_outcome(live, session.queued, session.queued.len(), now);
        only_reply(
            outcome.0,
            session_after,
            array_header(outcome.1.len()) + joined(outcome.1),
        )
    }
}

/// The database and the watched keys after a watch began on the first `count` of a list of keys.
pub open spec fn watch_outcome(
    db: DatabaseView,
    watched: Map<Seq<u8>, u64>,
    keys: Seq<Seq<u8>>,
    count: nat,
    now: u64,
) -> (DatabaseView, Map<Seq<u8>, u64>)
    decreases count,
{
    if count == 0 {
        (db, watched)
    } else {
        let earlier = watch_outcome(db, watched, keys, (count - 1) as nat, now);
        let key = keys[count - 1];
        let live = earlier.0.expired(key, now);
        (
            live,
            if earlier.1.contains_key(key) {
                earlier.1
            } else {
                earlier.1.insert(key, live.stamp(key))
            },
        )
    }
}

/// Whether a command acts on the transaction itself, also while one is open.
pub open spec fn controls_transaction(command: Seq<Seq<u8>>) -> bool {
    ||| is_named(command, "MULTI")
    ||| is_named(command, "EXEC")
    ||| is_named(command, "DISCARD")
    ||| is_named(command, "WATCH")
}

/// What follows a command.
pub open spec fn respond(
    db: DatabaseView,
    session: SessionView,
    command: Seq<Seq<u8>>,
    clock: Clock,
    is_replica: bool,
) -> Outcome {
    if session.in_transaction && !controls_transaction(command) {
        only_reply(
            db,
            SessionView { queued: session.queued.push(command), ..session },
            bytes_of("+QUEUED\r\n"),
        )
    } else if is_named(command, "MULTI") {
        if command.len() != 1 {
            only_reply(
                db,
                session,
                bytes_of("-ERR wrong number of arguments for 'MULTI' command\r\n"),
            )
        } else if session.in_transaction {
            only_reply(db, session, bytes_of("-ERR MULTI calls can not be nested\r\n"))
        } else {
            only_reply(
                db,
                SessionView { in_transaction: true, queued: Seq::empty(), ..session },
                bytes_of("+OK\r\n"),
            )
        }
    } else if is_named(command, "EXEC") {
        if command.len() != 1 {
            only_reply(
                db,
                session,
                bytes_of("-ERR wrong number of arguments for 'exec' command\r\n"),
            )
        } else if !session.in_transaction {
            only_reply(db, session, bytes_of("-ERR EXEC without MULTI\r\n"))
        } else {
            exec_outcome(db, session, clock.now)
        }
    } else if is_named(command, "DISCARD") {
        if command.len() != 1 {
            only_reply(
                db,
                session,
                bytes_of("-ERR wrong number of arguments for 'discard' command\r\n"),
            )
        } else if !session.in_transaction {
            only_reply(db, session, bytes_of("-ERR DISCARD without MULTI\r\n"))
        } else {
            only_reply(db, SessionView::fresh(), bytes_of("+OK\r\n"))
        }
    } else if is_named(command, "WATCH") {
        if command.len() < 2 {
            only_reply(
                db,
                session,
                bytes_of("-ERR wrong number of arguments for 'watch' command\r\n"),
            )
        } else if session.in_transaction {
            only_reply(db, session, bytes_of("-ERR WATCH inside MULTI is not allowed\r\n"))
        } else {
            let keys = command.drop_first();
            let outcome = watch_outcome(db, session.watched, keys, keys.len(), clock.now);
            only_reply(
                outcome.0,
                SessionView { watched: outcome.1, ..session },
                bytes_of("+OK\r\n"),
            )
        }
    } else if is_named(command, "UNWATCH") {
        if command.len() != 1 {
            only_reply(
                db,
                session,
                bytes_of("-ERR wrong number of arguments for 'unwatch' command\r\n"),
            )
        } else {
            only_reply(
                db,
                SessionView { watched: Map::empty(), ..session },
                bytes_of("+OK\r\n"),
            )
        }
    } else {
        let outcome = answer(db, command, clock, is_replica);
        Outcome { db: outcome.0, session, reaction: outcome.1 }
    }
}

impl Session {
    /// The parts of the session fit together.
    pub closed spec fn wf(self) -> bool {
        &&& self.watched_keys.wf()
        &&& !self.in_transaction ==> self.queued_commands@.len() == 0
    }

    /// No command waits outside a transaction.
    pub proof fn law_nothing_waits_outside_transactions(self)
        requires
            self.wf(),
        ensures
            !self@.in_transaction ==> self@.queued == Seq::<Seq<Seq<u8>>>::empty(),
    {
        if !self.in_transaction {
            assert(self@.queued =~= Seq::<Seq<Seq<u8>>>::empty());
        }
    }

    /// The session of a client that has just connected.
    pub fn new() -> (result: Session)
        ensures
            result.wf(),
            result@ == SessionView::fresh(),
    {
        let result = Session {
            in_transaction: false,
            queued_commands: Vec::new(),
            watched_keys: ByteMap::new(),
        };
        assert(result@ =~= SessionView::fresh());
        result
    }

    /// Removes the watched keys that have expired.
    fn expire_watched(&self, db: &mut DatabaseState, now: u64)
        requires
            self.wf(),
            old(db).wf(),
        ensures
            final(db).wf(),
            final(db)@ == old(db)@.all_expired(self@.watched.dom(), now),
    {
        let ghost start = db@;
        let ghost keys = self.watched_keys.keys();
        proof {
            self.watched_keys.lemma_keys();
            assert(start.all_expired(keys.take(0).to_set(), now) =~= start);
        }
        let total = self.watched_keys.len();
        for i in 0..total
            invariant
                total == keys.len(),
                self.wf(),
                keys == self.watched_keys.keys(),
                keys.no_duplicates(),
                start == old(db)@,
                db.wf(),
                db@ == start.all_expired(keys.take(i as int).to_set(), now),
        {
            let (key, _) = self.watched_keys.pair_at(i);
            proof {
                let seen = keys.take(i as int).to_set();
                assert(!seen.contains(key@)) by {
                    if seen.contains(key@) {
                        let j = choose|j: int|
                            0 <= j < keys.take(i as int).len() && keys.take(i as int)[j] == key@;
                        assert(keys[j] == keys[i as int]);
                    }
                }
                start.lemma_all_expired_grows(seen, key@, now);
                let longer = keys.take(i + 1);
                assert(longer =~= keys.take(i as int).push(key@));
                assert(longer.to_set() =~= seen.insert(key@)) by {
                    assert forall|k: Seq<u8>| #[trigger]
                        longer.to_set().contains(k) <==> seen.insert(key@).contains(k) by {
                        if seen.contains(k) {
                            let j = choose|j: int|
                                0 <= j < keys.take(i as int).len() && keys.take(i as int)[j] == k;
                            assert(longer[j] == k);
                        }
                        if k == key@ {
                            assert(longer[i as int] == k);
                        }
                        if longer.to_set().contains(k) && k != key@ {
                            let j = choose|j: int| 0 <= j < longer.len() && longer[j] == k;
                            assert(keys.take(i as int)[j] == k);
                        }
                    }
                }
            }
            db.remove_if_expired(key.as_slice(), now);
        }
        proof {
            assert(keys.take(keys.len() as int) =~= keys);
            assert(keys.to_set() =~= self@.watched.dom()) by {
                assert forall|k: Seq<u8>| #[trigger]
                    keys.to_set().contains(k) <==> self@.watched.dom().contains(k) by {
                    assert(self.watched_keys@.contains_key(k) <==> keys.contains(k));
                }
            }
        }
    }

    /// Whether some watched key was modified since its watch began.
    fn finds_disturbance(&self, db: &DatabaseState) -> (result: bool)
        requires
            self.wf(),
            db.wf(),
        ensures
            result == is_disturbed(db@, self@.watched),
    {
        let ghost keys = self.watched_keys.keys();
        proof {
            self.watched_keys.lemma_keys();
        }
        let total = self.watched_keys.len();
        for i in 0..total
            invariant
                total == keys.len(),
                self.wf(),
                db.wf(),
                keys == self.watched_keys.keys(),
                forall|j: int|
                    0 <= j < i ==> db@.version(#[trigger] keys[j]) == self@.watched[keys[j]],
        {
            let (key, version) = self.watched_keys.pair_at(i);
            if !db.has_version(key.as_slice(), *version) {
                assert(self@.watched.contains_key(key@));
                return true;
            }
        }
        proof {
            assert forall|key: Seq<u8>| #[trigger]
                self@.watched.contains_key(key) implies db@.version(key) == self@.watched[key] by {
                assert(self.watched_keys@.contains_key(key));
                let j = choose|j: int| 0 <= j < keys.len() && keys[j] == key;
                assert(db@.version(keys[j]) == self@.watched[keys[j]]);
            }
        }
        false
    }

    /// Ends the transaction and carries out its commands, unless a watched key was modified.
    fn execute_transaction(&mut self, db: &mut DatabaseState, now: u64) -> (reply: Vec<u8>)
        requires
            old(self).wf(),
            old(db).wf(),
        ensures
            final(self).wf(),
            final(db).wf(),
            final(db)@ == exec_outcome(old(db)@, old(self)@, now).db,
            final(self)@ == exec_outcome(old(db)@, old(self)@, now).session,
            ReactionView::Reply(reply@) == exec_outcome(old(db)@, old(self)@, now).reaction,
    {
        let ghost queued = self@.queued;
        let mut commands: Vec<Command> = Vec::new();
        commands.append(&mut self.queued_commands);
        assert(commands@ =~= old(self).queued_commands@);
        self.in_transaction = false;
        self.expire_watched(db, now);
        let disturbed = self.finds_disturbance(db);
        self.watched_keys.clear();
        assert(self@ =~= SessionView::fresh());
        if disturbed {
            null_array_reply()
        } else {
            let ghost live = db@;
            let replies = execute_queue(db, commands.as_slice(), now);
            let mut reply: Vec<u8> = Vec::new();
            proof {
                law_each_queued_command_is_answered(live, queued, queued.len(), now);
            }
            write_array_header(&mut reply, commands.len() as u128);
            append(&mut reply, replies.as_slice());
            assert(reply@ =~= array_header(queued.len()) + replies@);
            reply
        }
    }

    /// Begins to watch the keys that a `WATCH` command names.
    fn watch(&mut self, db: &mut DatabaseState, command: &[Vec<u8>], now: u64)
        requires
            old(self).wf(),
            old(db).wf(),
            command@.len() >= 1,
        ensures
            final(self).wf(),
            final(db).wf(),
            ({
                let keys = contents(command@).drop_first();
                let outcome = watch_outcome(
                    old(db)@,
                    old(self)@.watched,
                    keys,
                    keys.len(),
                    now,
                );
                &&& final(db)@ == outcome.0
                &&& final(self)@ == (SessionView { watched: outcome.1, ..old(self)@ })
            }),
    {
        let ghost start = db@;
        let ghost watched = self@.watched;
        let ghost keys = contents(command@).drop_first();
        let total = command.len();
        for i in 1..total
            invariant
                1 <= total == command@.len(),
                keys == contents(command@).drop_first(),
                start == old(db)@,
                watched == old(self)@.watched,
                self.wf(),
                self@.in_transaction == old(self)@.in_transaction,
                self@.queued == old(self)@.queued,
                db.wf(),
                watch_outcome(start, watched, keys, (i - 1) as nat, now) == (db@, self@.watched),
        {
            let key = command[i].as_slice();
            assert(keys[i - 1] == key@);
            db.remove_if_expired(key, now);
            if self.watched_keys.get(key).is_none() {
                let version = db.version(key);
                self.watched_keys.insert(copy_bytes(key), version);
            }
        }
        assert(self@ =~= (SessionView { watched: self@.watched, ..old(self)@ }));
    }

    /// Carries out a command, with the given readings of the clocks.
    pub fn handle_command_at(
        &mut self,
        db: &mut DatabaseState,
        command: Command,
        clock: Clock,
        is_replica: bool,
    ) -> (reaction: Reaction)
        requires
            old(self).wf(),
            old(db).wf(),
        ensures
            final(self).wf(),
            final(db).wf(),
            final(db)@ == respond(
                old(db)@,
                old(self)@,
                contents(command@),
                clock,
                is_replica,
            ).db,
            final(self)@ == respond(
                old(db)@,
                old(self)@,
                contents(command@),
                clock,
                is_replica,
            ).session,
            reaction@ == respond(
                old(db)@,
                old(self)@,
                contents(command@),
                clock,
                is_replica,
            ).reaction,
    {
        let ghost words = contents(command@);
        let ghost queue = self@.queued;
        proof {
            assert(words.len() == command@.len());
        }
        let arguments = command.as_slice();
        let is_multi = is_command(arguments, "MULTI");
        let is_exec = is_command(arguments, "EXEC");
        let is_discard = is_command(arguments, "DISCARD");
        let is_watch = is_command(arguments, "WATCH");
        if self.in_transaction && !is_multi && !is_exec && !is_discard && !is_watch {
            self.queued_commands.push(command);
            assert(self@ =~= (SessionView { queued: queue.push(words), ..old(self)@ }));
            Reaction::Reply(to_bytes("+QUEUED\r\n"))
        } else if is_multi {
            if command.len() != 1 {
                Reaction::Reply(
                    to_bytes("-ERR wrong number of arguments for 'MULTI' command\r\n"),
                )
            } else if self.in_transaction {
                Reaction::Reply(to_bytes("-ERR MULTI calls can not be nested\r\n"))
            } else {
                self.queued_commands.clear();
                self.in_transaction = true;
                assert(self@ =~= (SessionView {
                    in_transaction: true,
                    queued: Seq::empty(),
                    ..old(self)@
                }));
                Reaction::Reply(to_bytes("+OK\r\n"))
            }
        } else if is_exec {
            if command.len() != 1 {
                Reaction::Reply(
                    to_bytes("-ERR wrong number of arguments for 'exec' command\r\n"),
                )
            } else if !self.in_transaction {
                Reaction::Reply(to_bytes("-ERR EXEC without MULTI\r\n"))
            } else {
                Reaction::Reply(self.execute_transaction(db, clock.now))
            }
        } else if is_discard {
            if command.len() != 1 {
                Reaction::Reply(
                    to_bytes("-ERR wrong number of arguments for 'discard' command\r\n"),
                )
            } else if !self.in_transaction {
                Reaction::Reply(to_bytes("-ERR DISCARD without MULTI\r\n"))
            } else {
                self.queued_commands.clear();
                self.watched_keys.clear();
                self.in_transaction = false;
                assert(self@ =~= SessionView::fresh());
                Reaction::Reply(to_bytes("+OK\r\n"))
            }
        } else if is_watch {
            if command.len() < 2 {
                Reaction::Reply(
                    to_bytes("-ERR wrong number of arguments for 'watch' command\r\n"),
                )
            } else if self.in_transaction {
                Reaction::Reply(to_bytes("-ERR WATCH inside MULTI is not allowed\r\n"))
            } else {
                self.watch(db, arguments, clock.now);
                Reaction::Reply(to_bytes("+OK\r\n"))
            }
        } else if is_command(arguments, "UNWATCH") {
            if command.len() != 1 {
                Reaction::Reply(
                    to_bytes("-ERR wrong number of arguments for 'unwatch' command\r\n"),
                )
            } else {
                self.watched_keys.clear();
                assert(self@ =~= (SessionView { watched: Map::empty(), ..old(self)@ }));
                Reaction::Reply(to_bytes("+OK\r\n"))
            }
        } else {
            execute(db, arguments, clock, is_replica)
        }
    }

    /// Carries out a command at the time that the wall clock shows.
    ///
    /// Where the command modifies a key more often than a `u64` can tell, the reaction says so in
    /// place of what was to be done, and the count stays at the greatest number.
    pub fn handle_command(
        &mut self,
        db: &mut DatabaseState,
        command: Command,
        now: u64,
        is_replica: bool,
    ) -> (reaction: Reaction)
        requires
            old(self).wf(),
            old(db).wf(),
        ensures
            final(self).wf(),
            final(db).wf(),
            exists|reading: Option<(u64, u32)>|
                {
                    let clock = Clock {
                        now,
                        unix_milliseconds: #[trigger] milliseconds_of(reading),
                    };
                    let outcome = respond(
                        old(db)@,
                        old(self)@,
                        contents(command@),
                        clock,
                        is_replica,
                    );
                    &&& final(self)@ == outcome.session
                    &&& if outcome.db.fits() {
                        final(db)@ == outcome.db && reaction@ == outcome.reaction
                    } else {
                        final(db)@ == outcome.db.clamped() && reaction@
                            == ReactionView::VersionsExhausted
                    }
                },
    {
        let unix_milliseconds = current_unix_milliseconds();
        let reaction = self.handle_command_at(
            db,
            command,
            Clock { now, unix_milliseconds },
            is_replica,
        );
        if db.is_exhausted() {
            db.forget_uncounted();
            return Reaction::VersionsExhausted;
        }
        reaction
    }
}

/// Each queued command gets one reply.
pub proof fn law_each_queued_command_is_answered(
    db: DatabaseView,
    commands: Seq<Seq<Seq<u8>>>,
    count: nat,
    now: u64,
)
    ensures
        queue_outcome(db, commands, count, now).1.len() == count,
    decreases count,
{
    if count > 0 {
        law_each_queued_command_is_answered(db, commands, (count - 1) as nat, now);
    }
}

} // verus!
