//! Laws of what the values of the library stand for.

use vstd::prelude::*;
use crate::bytes::{contents, Command};
use crate::commands::{Reaction, ReactionView, Wait};
use crate::database::{command_contents, Entry, RedisValue, ValueView};
use crate::replica::{Followed, FollowedView};
use crate::stream::{
    entry_contents, pair_contents, read_contents, StreamEntry, StreamId, StreamReadResult,
};

verus! {

/// A list of byte strings stands for those byte strings, in their order, and a list of commands
/// for the words of each.
pub proof fn law_lists_stand_for_their_items(
    list: Seq<Vec<u8>>,
    commands: Seq<Command>,
    pairs: Seq<(Vec<u8>, Vec<u8>)>,
)
    ensures
        contents(list).len() == list.len(),
        forall|i: int| 0 <= i < list.len() ==> #[trigger] contents(list)[i] == list[i]@,
        command_contents(commands).len() == commands.len(),
        forall|i: int|
            0 <= i < commands.len() ==> #[trigger] command_contents(commands)[i] == contents(
                commands[i]@,
            ),
        pair_contents(pairs).len() == pairs.len(),
        forall|i: int|
            0 <= i < pairs.len() ==> #[trigger] pair_contents(pairs)[i] == (
                pairs[i].0@,
                pairs[i].1@,
            ),
{
}

/// Entries of a stream stand for their IDs and their fields, in their order, and what was read of
/// streams for the key and the entries of each.
pub proof fn law_entries_stand_for_their_fields(
    entries: Seq<StreamEntry>,
    results: Seq<StreamReadResult>,
)
    ensures
        entry_contents(entries).len() == entries.len(),
        forall|i: int|
            0 <= i < entries.len() ==> (#[trigger] entry_contents(entries)[i]).id == entries[i].id
                && entry_contents(entries)[i].fields == pair_contents(entries[i].fields@),
        read_contents(results).len() == results.len(),
        forall|i: int|
            0 <= i < results.len() ==> #[trigger] read_contents(results)[i] == (
                results[i].key@,
                entry_contents(results[i].entries@),
            ),
{
}

/// A stored value stands for its bytes, its items or its entries, and expires when it says.
pub proof fn law_stored_values_stand_for_themselves(
    bytes: Vec<u8>,
    list: Vec<Vec<u8>>,
    entries: Vec<StreamEntry>,
    entry: Entry,
)
    ensures
        RedisValue::String(bytes)@ == ValueView::String(bytes@),
        RedisValue::List(list)@ == ValueView::List(contents(list@)),
        RedisValue::Stream(entries)@ == ValueView::Stream(entry_contents(entries@)),
        entry@.value == entry.value@,
        entry@.expires_at == entry.expires_at,
{
}

/// A reaction stands for the bytes that are sent, and for what else its receiver has to do.
pub proof fn law_reactions_stand_for_themselves(
    reply: Vec<u8>,
    key: Vec<u8>,
    timeout: Vec<u8>,
    count: usize,
    keys: Vec<Vec<u8>>,
    starts: Vec<StreamId>,
    wait: Wait,
)
    ensures
        Reaction::Reply(reply)@ == ReactionView::Reply(reply@),
        (Reaction::ListExtended { reply, key, count })@ == (ReactionView::ListExtended {
            reply: reply@,
            key: key@,
            count: count as nat,
        }),
        (Reaction::StreamExtended { reply })@ == (ReactionView::StreamExtended { reply: reply@ }),
        (Reaction::AwaitListValue { key, timeout })@ == (ReactionView::AwaitListValue {
            key: key@,
            timeout: timeout@,
        }),
        (Reaction::ReadStreams { keys, starts, wait })@ == (ReactionView::ReadStreams {
            keys: contents(keys@),
            starts: starts@,
            wait,
        }),
        (Reaction::StartReplication { greeting: reply })@ == (ReactionView::StartReplication {
            greeting: reply@,
        }),
        Reaction::ClockUnavailable@ == ReactionView::ClockUnavailable,
        Reaction::VersionsExhausted@ == ReactionView::VersionsExhausted,
        Followed::Acknowledge(reply)@ == FollowedView::Acknowledge(reply@),
        Followed::Applied@ == FollowedView::Applied,
        Followed::Refused(reply)@ == FollowedView::Refused(reply@),
{
}

} // verus!
