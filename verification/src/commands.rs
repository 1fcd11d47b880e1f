//! Commands outside transactions: which there are, and what each does.

use vstd::prelude::*;
use crate::bytes::{
    bytes_of, contents, copy_bytes, copy_range, is_keyword, is_word, to_bytes,
};
use crate::database::{DatabaseState, DatabaseView};
use crate::encode::{bulk_string, encode_bulk_string, integer};
use crate::lists::{
    execute_lpop, execute_lrange, list_length, llen_outcome, lpop_outcome, lrange_outcome, push,
    push_outcome,
};
use crate::replication::{full_resync, info_text, replication_info, resync_greeting};
use crate::reply::{integer_reply, is_command, is_named, wrong_type, wrong_type_reply};
use crate::stream::{id_bytes, stream_id_to_bytes, StreamId};
use crate::streams::{
    execute_xadd, execute_xrange, paired, read_xread_request, resolve_xread_start_ids, start_ids,
    xadd_outcome, xrange_outcome, xread_request, Added,
};
use crate::strings::{
    execute_queued_set, get_outcome, get_string, incr_outcome, increment, set_outcome,
    type_outcome, value_type,
};

verus! {

/// Readings of the clocks.
#[derive(Clone, Copy, Debug)]
pub struct Clock {
    /// Nanoseconds on a clock that never goes back, against which keys expire.
    pub now: u64,
    /// Milliseconds since the Unix epoch, from which stream IDs are made; nothing where the wall
    /// clock shows no usable time.
    pub unix_milliseconds: Option<u64>,
}

/// How long to wait for stream entries.
#[derive(Clone, Copy, Debug, PartialEq, Eq, Structural)]
pub enum Wait {
    /// Not at all.
    No,
    /// Until there is one.
    Forever,
    /// Until there is one, but no longer than this.
    Milliseconds(u64),
}

/// The wait that a `BLOCK` argument asks for: zero milliseconds stand for no limit.
pub open spec fn wait_for(block: Option<u64>) -> Wait {
    match block {
        None => Wait::No,
        Some(milliseconds) => if milliseconds == 0 {
            Wait::Forever
        } else {
            Wait::Milliseconds(milliseconds)
        },
    }
}

/// What the server is to do about a command.
#[derive(Debug)]
pub enum Reaction {
    /// Send a reply.
    Reply(Vec<u8>),
    /// Wake up to `count` clients that wait for a value of the list under `key`, then send a
    /// reply.
    ListExtended { reply: Vec<u8>, key: Vec<u8>, count: usize },
    /// Wake all clients that wait for stream entries, then send a reply.
    StreamExtended { reply: Vec<u8> },
    /// Wait for a value of the list under `key`, as long as the text `timeout` says.
    AwaitListValue { key: Vec<u8>, timeout: Vec<u8> },
    /// Read streams after the given IDs.
    ReadStreams { keys: Vec<Vec<u8>>, starts: Vec<StreamId>, wait: Wait },
    /// Enter the client as a replica, send it the greeting, and from then on the commands that
    /// are propagated.
    StartReplication { greeting: Vec<u8> },
    /// Give up: the wall clock shows no usable time.
    ClockUnavailable,
    /// Give up: the modifications of a key can no longer be counted.
    VersionsExhausted,
}

/// What a [`Reaction`] stands for.
pub enum ReactionView {
    Reply(Seq<u8>),
    ListExtended { reply: Seq<u8>, key: Seq<u8>, count: nat },
    StreamExtended { reply: Seq<u8> },
    AwaitListValue { key: Seq<u8>, timeout: Seq<u8> },
    ReadStreams { keys: Seq<Seq<u8>>, starts: Seq<StreamId>, wait: Wait },
    StartReplication { greeting: Seq<u8> },
    ClockUnavailable,
    VersionsExhausted,
}

impl View for Reaction {
    type V = ReactionView;

    open spec fn view(&self) -> ReactionView {
        match self {
            Reaction::Reply(reply) => ReactionView::Reply(reply@),
            Reaction::ListExtended { reply, key, count } => ReactionView::ListExtended {
                reply: reply@,
                key: key@,
                count: *count as nat,
            },
            Reaction::StreamExtended { reply } => ReactionView::StreamExtended { reply: reply@ },
            Reaction::AwaitListValue { key, timeout } => ReactionView::AwaitListValue {
                key: key@,
                timeout: timeout@,
            },
            Reaction::ReadStreams { keys, starts, wait } => ReactionView::ReadStreams {
                keys: contents(keys@),
                starts: starts@,
                wait: *wait,
            },
            Reaction::StartReplication { greeting } => ReactionView::StartReplication {
                greeting: greeting@,
            },
            Reaction::ClockUnavailable => ReactionView::ClockUnavailable,
            Reaction::VersionsExhausted => ReactionView::VersionsExhausted,
        }
    }
}

/// An outcome whose reaction is to send the reply.
pub open spec fn replied(outcome: (DatabaseView, Seq<u8>)) -> (DatabaseView, ReactionView) {
    (outcome.0, ReactionView::Reply(outcome.1))
}

/// The database after a push command, and the reaction.
pub open spec fn push_reaction(
    db: DatabaseView,
    command: Seq<Seq<u8>>,
    front: bool,
    now: u64,
) -> (DatabaseView, ReactionView) {
    let outcome = push_outcome(db, command[1], command.skip(2), front, now);
    (
        outcome.0,
        match outcome.1 {
            Some(length) => ReactionView::ListExtended {
                reply: integer(length as int),
                key: command[1],
                count: (command.len() - 2) as nat,
            },
            None => ReactionView::Reply(wrong_type()),
        },
    )
}

/// The database after an `XADD` command, and the reaction.
pub open spec fn xadd_reaction(db: DatabaseView, command: Seq<Seq<u8>>, clock: Clock) -> (
    DatabaseView,
    ReactionView,
) {
    let outcome = xadd_outcome(db, command, clock.now, clock.unix_milliseconds);
    (
        outcome.0,
        match outcome.1 {
            Added::Done(id) => ReactionView::StreamExtended { reply: bulk_string(id_bytes(id)) },
            Added::Refused(reply) => ReactionView::Reply(reply),
            Added::ClockUnavailable => ReactionView::ClockUnavailable,
        },
    )
}

/// The database after the start IDs of an `XREAD` command were found, and the reaction.
pub open spec fn xread_reaction(db: DatabaseView, command: Seq<Seq<u8>>, now: u64) -> (
    DatabaseView,
    ReactionView,
) {
    match xread_request(command) {
        Err(reply) => (db, ReactionView::Reply(reply)),
        Ok((block, first)) => {
            let count = (command.len() - first) / 2;
            let keys = command.subrange(first, first + count);
            let arguments = command.skip(first + count);
            let outcome = start_ids(db, keys, arguments, count as nat, now);
            (
                outcome.0,
                match outcome.1 {
                    Some(starts) => ReactionView::ReadStreams {
                        keys,
                        starts,
                        wait: wait_for(block),
                    },
                    None => ReactionView::Reply(
                        bytes_of("-ERR Invalid stream ID specified as stream comman argument\r\n"),
                    ),
                },
            )
        },
    }
}

/// The database after a command outside a transaction, and the reaction.
pub open spec fn answer(
    db: DatabaseView,
    command: Seq<Seq<u8>>,
    clock: Clock,
    is_replica: bool,
) -> (DatabaseView, ReactionView) {
    let count = command.len();
    let now = clock.now;
    if count == 1 && is_named(command, "PING") {
        (db, ReactionView::Reply(bytes_of("+PONG\r\n")))
    } else if count == 2 && is_named(command, "ECHO") {
        (db, ReactionView::Reply(bulk_string(command[1])))
    } else if is_named(command, "SET") {
        replied(set_outcome(db, command, now))
    } else if is_named(command, "INCR") {
        if count == 2 {
            replied(incr_outcome(db, command[1], now))
        } else {
            (
                db,
                ReactionView::Reply(
                    bytes_of("-ERR wrong number of argument for 'incr' command\r\n"),
                ),
            )
        }
    } else if is_named(command, "TYPE") {
        if count == 2 {
            replied(type_outcome(db, command[1], now))
        } else {
            (
                db,
                ReactionView::Reply(
                    bytes_of("-ERR wrong number of arguments for 'type' command\r\n"),
                ),
            )
        }
    } else if count >= 3 && is_named(command, "RPUSH") {
        push_reaction(db, command, false, now)
    } else if count == 2 && is_named(command, "LLEN") {
        replied(llen_outcome(db, command[1], now))
    } else if is_named(command, "BLPOP") {
        if count == 3 {
            (db, ReactionView::AwaitListValue { key: command[1], timeout: command[2] })
        } else {
            (
                db,
                ReactionView::Reply(
                    bytes_of("-ERR wrong number of arguments for 'BLPOP' command\r\n"),
                ),
            )
        }
    } else if is_named(command, "LPOP") {
        replied(lpop_outcome(db, command, now))
    } else if count >= 3 && is_named(command, "LPUSH") {
        push_reaction(db, command, true, now)
    } else if is_named(command, "LRANGE") {
        replied(lrange_outcome(db, command, now))
    } else if count == 2 && is_named(command, "GET") {
        replied(get_outcome(db, command[1], now))
    } else if is_named(command, "XADD") {
        xadd_reaction(db, command, clock)
    } else if is_named(command, "XREAD") {
        xread_reaction(db, command, now)
    } else if is_named(command, "XRANGE") {
        replied(xrange_outcome(db, command, now))
    } else if is_named(command, "REPLCONF") {
        (
            db,
            ReactionView::Reply(
                if count < 3 || count % 2 == 0 {
                    bytes_of("-ERR wrong number of arguments for 'replconf' command\r\n")
                } else {
                    bytes_of("+OK\r\n")
                },
            ),
        )
    } else if is_named(command, "PSYNC") {
        (
            db,
            if count == 3 {
                ReactionView::StartReplication { greeting: resync_greeting() }
            } else {
                ReactionView::Reply(
                    bytes_of("-ERR wrong number of arguments for 'psync' command\r\n"),
                )
            },
        )
    } else if is_named(command, "INFO") {
        (
            db,
            ReactionView::Reply(
                if count > 2 {
                    bytes_of("-ERR wrong number of arguments for 'info' command\r\n")
                } else if count == 1 || is_word(command[1], "replication") {
                    bulk_string(replication_info(is_replica))
                } else {
                    bulk_string(Seq::empty())
                },
            ),
        )
    } else {
        (db, ReactionView::Reply(bytes_of("-ERR unknown command\r\n")))
    }
}

fn execute_push(db: &mut DatabaseState, command: &[Vec<u8>], front: bool, now: u64) -> (reaction:
    Reaction)
    requires
        old(db).wf(),
        command@.len() >= 3,
    ensures
        final(db).wf(),
        final(db)@ == push_reaction(old(db)@, contents(command@), front, now).0,
        reaction@ == push_reaction(old(db)@, contents(command@), front, now).1,
{
    match push(db, command, front, now) {
        Ok(length) => Reaction::ListExtended {
            reply: integer_reply(length as i128),
            key: copy_bytes(command[1].as_slice()),
            count: command.len() - 2,
        },
        Err(()) => Reaction::Reply(wrong_type_reply()),
    }
}

fn execute_xread(db: &mut DatabaseState, command: &[Vec<u8>], now: u64) -> (reaction: Reaction)
    requires
        old(db).wf(),
    ensures
        final(db).wf(),
        final(db)@ == xread_reaction(old(db)@, contents(command@), now).0,
        reaction@ == xread_reaction(old(db)@, contents(command@), now).1,
{
    let (block, first) = match read_xread_request(command) {
        Ok(request) => request,
        Err(reply) => {
            return Reaction::Reply(reply);
        },
    };
    let count = (command.len() - first) / 2;
    let keys = copy_range(command, first, first + count);
    let arguments = copy_range(command, first + count, command.len());
    proof {
        let all = contents(command@);
        assert(contents(arguments@) =~= all.skip(first + count));
        assert(contents(keys@).len() == keys@.len());
        assert(contents(arguments@).len() == arguments@.len());
        assert(paired(keys@.len(), arguments@.len()) == count);
    }
    match resolve_xread_start_ids(db, keys.as_slice(), arguments.as_slice(), now) {
        Ok(starts) => {
            let wait = match block {
                None => Wait::No,
                Some(milliseconds) => if milliseconds == 0 {
                    Wait::Forever
                } else {
                    Wait::Milliseconds(milliseconds)
                },
            };
            Reaction::ReadStreams { keys, starts, wait }
        },
        Err(_) => Reaction::Reply(
            to_bytes("-ERR Invalid stream ID specified as stream comman argument\r\n"),
        ),
    }
}

/// Carries out a command outside a transaction.
#[verifier::rlimit(60)]
pub fn execute(
    db: &mut DatabaseState,
    command: &[Vec<u8>],
    clock: Clock,
    is_replica: bool,
) -> (reaction: Reaction)
    requires
        old(db).wf(),
    ensures
        final(db).wf(),
        final(db)@ == answer(old(db)@, contents(command@), clock, is_replica).0,
        reaction@ == answer(old(db)@, contents(command@), clock, is_replica).1,
{
    let ghost words = contents(command@);
    assert(words.len() == command@.len());
    assert(forall|i: int| 0 <= i < words.len() ==> #[trigger] words[i] == command@[i]@);
    let count = command.len();
    let now = clock.now;
    if count == 1 && is_command(command, "PING") {
        Reaction::Reply(to_bytes("+PONG\r\n"))
    } else if count == 2 && is_command(command, "ECHO") {
        Reaction::Reply(encode_bulk_string(command[1].as_slice()))
    } else if is_command(command, "SET") {
        Reaction::Reply(execute_queued_set(db, command, now))
    } else if is_command(command, "INCR") {
        if count == 2 {
            Reaction::Reply(increment(db, command[1].as_slice(), now))
        } else {
            Reaction::Reply(to_bytes("-ERR wrong number of argument for 'incr' command\r\n"))
        }
    } else if is_command(command, "TYPE") {
        if count == 2 {
            Reaction::Reply(value_type(db, command[1].as_slice(), now))
        } else {
            Reaction::Reply(to_bytes("-ERR wrong number of arguments for 'type' command\r\n"))
        }
    } else if count >= 3 && is_command(command, "RPUSH") {
        execute_push(db, command, false, now)
    } else if count == 2 && is_command(command, "LLEN") {
        Reaction::Reply(list_length(db, command[1].as_slice(), now))
    } else if is_command(command, "BLPOP") {
        if count == 3 {
            Reaction::AwaitListValue {
                key: copy_bytes(command[1].as_slice()),
                timeout: copy_bytes(command[2].as_slice()),
            }
        } else {
            Reaction::Reply(to_bytes("-ERR wrong number of arguments for 'BLPOP' command\r\n"))
        }
    } else if is_command(command, "LPOP") {
        Reaction::Reply(execute_lpop(db, command, now))
    } else if count >= 3 && is_command(command, "LPUSH") {
        execute_push(db, command, true, now)
    } else if is_command(command, "LRANGE") {
        Reaction::Reply(execute_lrange(db, command, now))
    } else if count == 2 && is_command(command, "GET") {
        Reaction::Reply(get_string(db, command[1].as_slice(), now))
    } else if is_command(command, "XADD") {
        match execute_xadd(db, command, now, clock.unix_milliseconds) {
            Added::Done(id) => {
                let written = stream_id_to_bytes(id);
                Reaction::StreamExtended { reply: encode_bulk_string(written.as_slice()) }
            },
            Added::Refused(reply) => Reaction::Reply(reply),
            Added::ClockUnavailable => Reaction::ClockUnavailable,
        }
    } else if is_command(command, "XREAD") {
        execute_xread(db, command, now)
    } else if is_command(command, "XRANGE") {
        Reaction::Reply(execute_xrange(db, command, now))
    } else if is_command(command, "REPLCONF") {
        if count < 3 || count % 2 == 0 {
            Reaction::Reply(
                to_bytes("-ERR wrong number of arguments for 'replconf' command\r\n"),
            )
        } else {
            Reaction::Reply(to_bytes("+OK\r\n"))
        }
    } else if is_command(command, "PSYNC") {
        if count == 3 {
            Reaction::StartReplication { greeting: full_resync() }
        } else {
            Reaction::Reply(to_bytes("-ERR wrong number of arguments for 'psync' command\r\n"))
        }
    } else if is_command(command, "INFO") {
        if count > 2 {
            Reaction::Reply(to_bytes("-ERR wrong number of arguments for 'info' command\r\n"))
        } else if count == 1 || is_keyword(command[1].as_slice(), "replication") {
            let info = info_text(is_replica);
            Reaction::Reply(encode_bulk_string(info.as_slice()))
        } else {
            let nothing: Vec<u8> = Vec::new();
            Reaction::Reply(encode_bulk_string(nothing.as_slice()))
        }
    } else {
        Reaction::Reply(to_bytes("-ERR unknown command\r\n"))
    }
}

} // verus!
