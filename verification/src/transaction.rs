//! Commands that were queued, and those that a master sends: what each does when its turn comes.

use vstd::prelude::*;
use crate::bytes::{append, bytes_of, contents, to_bytes, Command};
use crate::database::{command_contents, DatabaseState, DatabaseView};
use crate::reply::{is_command, is_named};
use crate::strings::{
    execute_queued_set, get_outcome, get_string, incr_outcome, increment, set_outcome,
};

verus! {

/// The database after a queued `INCR` command, and the reply.
pub open spec fn queued_incr_outcome(db: DatabaseView, command: Seq<Seq<u8>>, now: u64) -> (
    DatabaseView,
    Seq<u8>,
) {
    if command.len() == 2 {
        incr_outcome(db, command[1], now)
    } else {
        (db, bytes_of("-ERR wrong number of arguments for 'incr' command\r\n"))
    }
}

/// The database after a queued `GET` command, and the reply.
pub open spec fn queued_get_outcome(db: DatabaseView, command: Seq<Seq<u8>>, now: u64) -> (
    DatabaseView,
    Seq<u8>,
) {
    if command.len() == 2 {
        get_outcome(db, command[1], now)
    } else {
        (db, bytes_of("-ERR wrong number of arguments for 'get' command\r\n"))
    }
}

/// The database after a queued command, and the reply.
pub open spec fn queued_outcome(db: DatabaseView, command: Seq<Seq<u8>>, now: u64) -> (
    DatabaseView,
    Seq<u8>,
) {
    if is_named(command, "SET") {
        set_outcome(db, command, now)
    } else if is_named(command, "INCR") {
        queued_incr_outcome(db, command, now)
    } else if is_named(command, "GET") {
        queued_get_outcome(db, command, now)
    } else {
        (db, bytes_of("-ERR unknown command\r\n"))
    }
}

/// The database after the first `count` of a list of queued commands, and their replies.
pub open spec fn queue_outcome(
    db: DatabaseView,
    commands: Seq<Seq<Seq<u8>>>,
    count: nat,
    now: u64,
) -> (DatabaseView, Seq<Seq<u8>>)
    decreases count,
{
    if count == 0 {
        (db, Seq::empty())
    } else {
        let earlier = queue_outcome(db, commands, (count - 1) as nat, now);
        let outcome = queued_outcome(earlier.0, commands[count - 1], now);
        (outcome.0, earlier.1.push(outcome.1))
    }
}

/// Replies, one after the other.
pub open spec fn joined(replies: Seq<Seq<u8>>) -> Seq<u8>
    decreases replies.len(),
{
    if replies.len() == 0 {
        Seq::empty()
    } else {
        joined(replies.drop_last()) + replies.last()
    }
}

/// Carries out a queued `INCR` command.
pub fn execute_queued_incr(db: &mut DatabaseState, command: &[Vec<u8>], now: u64) -> (reply: Vec<
    u8,
>)
    requires
        old(db).wf(),
    ensures
        final(db).wf(),
        final(db)@ == queued_incr_outcome(old(db)@, contents(command@), now).0,
        reply@ == queued_incr_outcome(old(db)@, contents(command@), now).1,
{
    if command.len() != 2 {
        return to_bytes("-ERR wrong number of arguments for 'incr' command\r\n");
    }
    assert(contents(command@)[1] == command@[1]@);
    increment(db, command[1].as_slice(), now)
}

/// Carries out a queued `GET` command.
pub fn execute_queued_get(db: &mut DatabaseState, command: &[Vec<u8>], now: u64) -> (reply: Vec<u8>)
    requires
        old(db).wf(),
    ensures
        final(db).wf(),
        final(db)@ == queued_get_outcome(old(db)@, contents(command@), now).0,
        reply@ == queued_get_outcome(old(db)@, contents(command@), now).1,
{
    if command.len() != 2 {
        return to_bytes("-ERR wrong number of arguments for 'get' command\r\n");
    }
    assert(contents(command@)[1] == command@[1]@);
    get_string(db, command[1].as_slice(), now)
}

/// Carries out a queued command.
pub fn execute_queued_command(db: &mut DatabaseState, command: &[Vec<u8>], now: u64) -> (reply: Vec<
    u8,
>)
    requires
        old(db).wf(),
    ensures
        final(db).wf(),
        final(db)@ == queued_outcome(old(db)@, contents(command@), now).0,
        reply@ == queued_outcome(old(db)@, contents(command@), now).1,
{
    if is_command(command, "SET") {
        execute_queued_set(db, command, now)
    } else if is_command(command, "INCR") {
        execute_queued_incr(db, command, now)
    } else if is_command(command, "GET") {
        execute_queued_get(db, command, now)
    } else {
        to_bytes("-ERR unknown command\r\n")
    }
}

/// Carries out queued commands in their order, and joins their replies.
pub fn execute_queue(db: &mut DatabaseState, commands: &[Command], now: u64) -> (replies: Vec<u8>)
    requires
        old(db).wf(),
    ensures
        final(db).wf(),
        final(db)@ == queue_outcome(
            old(db)@,
            command_contents(commands@),
            commands@.len(),
            now,
        ).0,
        replies@ == joined(
            queue_outcome(old(db)@, command_contents(commands@), commands@.len(), now).1,
        ),
{
    let mut replies: Vec<u8> = Vec::new();
    let ghost all = command_contents(commands@);
    let ghost start = db@;
    let total = commands.len();
    assert(replies@ =~= joined(Seq::empty()));
    for i in 0..total
        invariant
            total == commands@.len(),
            all == command_contents(commands@),
            start == old(db)@,
            db.wf(),
            db@ == queue_outcome(start, all, i as nat, now).0,
            replies@ == joined(queue_outcome(start, all, i as nat, now).1),
    {
        let command = &commands[i];
        assert(all[i as int] == contents(command@));
        let ghost before = queue_outcome(start, all, i as nat, now).1;
        let reply = execute_queued_command(db, command.as_slice(), now);
        let ghost after = before.push(reply@);
        append(&mut replies, reply.as_slice());
        assert(after.drop_last() =~= before);
        assert(replies@ == joined(after));
    }
    replies
}

} // verus!
