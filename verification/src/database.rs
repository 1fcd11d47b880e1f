//! The stored data: values under their keys, and how often each key was modified.

use vstd::prelude::*;
use crate::byte_map::ByteMap;
use crate::bytes::{bytes_equal, contents, copy_bytes, copy_list, Command};
use crate::stream::{entry_contents, StreamEntry, StreamEntryView};

verus! {

/// A stored value.
pub enum RedisValue {
    String(Vec<u8>),
    List(Vec<Vec<u8>>),
    Stream(Vec<StreamEntry>),
}

/// What a [`RedisValue`] stands for.
pub enum ValueView {
    String(Seq<u8>),
    List(Seq<Seq<u8>>),
    Stream(Seq<StreamEntryView>),
}

impl View for RedisValue {
    type V = ValueView;

    open spec fn view(&self) -> ValueView {
        match self {
            RedisValue::String(value) => ValueView::String(value@),
            RedisValue::List(list) => ValueView::List(contents(list@)),
            RedisValue::Stream(entries) => ValueView::Stream(entry_contents(entries@)),
        }
    }
}

/// A stored value and the time at which it expires, in nanoseconds on the clock that the
/// database's callers read.
pub struct Entry {
    pub value: RedisValue,
    pub expires_at: Option<u128>,
}

/// What an [`Entry`] stands for.
pub struct EntryView {
    pub value: ValueView,
    pub expires_at: Option<u128>,
}

impl View for Entry {
    type V = EntryView;

    open spec fn view(&self) -> EntryView {
        EntryView { value: self.value@, expires_at: self.expires_at }
    }
}

/// The stored entries, the number of modifications of each key, and the commands that replicas
/// are still to be sent, in order.
#[verifier::ext_equal]
pub struct DatabaseView {
    pub entries: Map<Seq<u8>, EntryView>,
    pub versions: Map<Seq<u8>, nat>,
    pub propagated: Seq<Seq<Seq<u8>>>,
}

impl DatabaseView {
    /// The empty database.
    pub open spec fn empty() -> DatabaseView {
        DatabaseView { entries: Map::empty(), versions: Map::empty(), propagated: Seq::empty() }
    }

    /// How often a key was modified.
    pub open spec fn version(self, key: Seq<u8>) -> nat {
        if self.versions.contains_key(key) {
            self.versions[key]
        } else {
            0
        }
    }

    /// How often a key was modified, as far as a `u64` can tell.
    pub open spec fn stamp(self, key: Seq<u8>) -> u64 {
        if self.version(key) <= u64::MAX {
            self.version(key) as u64
        } else {
            u64::MAX
        }
    }

    /// Whether a `u64` can tell how often each key was modified.
    pub open spec fn fits(self) -> bool {
        forall|key: Seq<u8>| #[trigger] self.version(key) <= u64::MAX
    }

    /// The database with each count as far as a `u64` can tell.
    pub open spec fn clamped(self) -> DatabaseView {
        DatabaseView {
            versions: Map::new(
                |key: Seq<u8>| self.versions.contains_key(key),
                |key: Seq<u8>| self.stamp(key) as nat,
            ),
            ..self
        }
    }

    /// The database after one more modification of a key is counted.
    pub open spec fn modified(self, key: Seq<u8>) -> DatabaseView {
        DatabaseView {
            versions: self.versions.insert(key, self.version(key) + 1),
            ..self
        }
    }

    /// The database with an entry under a key.
    pub open spec fn stored(self, key: Seq<u8>, entry: EntryView) -> DatabaseView {
        DatabaseView { entries: self.entries.insert(key, entry), ..self }
    }

    /// The database with nothing under a key.
    pub open spec fn deleted(self, key: Seq<u8>) -> DatabaseView {
        DatabaseView { entries: self.entries.remove(key), ..self }
    }

    /// The database with one more command for the replicas.
    pub open spec fn announced(self, command: Seq<Seq<u8>>) -> DatabaseView {
        DatabaseView { propagated: self.propagated.push(command), ..self }
    }

    /// Whether the time at which a key expires has come.
    pub open spec fn is_expired(self, key: Seq<u8>, now: u64) -> bool {
        self.entries.contains_key(key) && (self.entries[key].expires_at matches Some(time) && now
            >= time)
    }

    /// The database after a key was removed if it has expired.
    pub open spec fn expired(self, key: Seq<u8>, now: u64) -> DatabaseView {
        if self.is_expired(key, now) {
            self.deleted(key).modified(key)
        } else {
            self
        }
    }

    /// The database after those of the given keys that have expired were removed.
    pub open spec fn all_expired(self, keys: Set<Seq<u8>>, now: u64) -> DatabaseView {
        let gone = Set::new(|key: Seq<u8>| keys.contains(key) && self.is_expired(key, now));
        DatabaseView {
            entries: self.entries.remove_keys(gone),
            versions: Map::new(
                |key: Seq<u8>| self.versions.contains_key(key) || gone.contains(key),
                |key: Seq<u8>|
                    if gone.contains(key) {
                        self.version(key) + 1
                    } else {
                        self.versions[key]
                    },
            ),
            ..self
        }
    }

    /// The value under a key.
    pub open spec fn value(self, key: Seq<u8>) -> Option<ValueView> {
        if self.entries.contains_key(key) {
            Some(self.entries[key].value)
        } else {
            None
        }
    }

    /// Removing expired keys one after the other removes them all.
    pub proof fn lemma_all_expired_grows(self, keys: Set<Seq<u8>>, key: Seq<u8>, now: u64)
        requires
            !keys.contains(key),
        ensures
            self.all_expired(keys, now).is_expired(key, now) == self.is_expired(key, now),
            self.all_expired(keys, now).version(key) == self.version(key),
            self.all_expired(keys, now).expired(key, now) == self.all_expired(
                keys.insert(key),
                now,
            ),
    {
        assert(self.all_expired(keys, now).expired(key, now) =~= self.all_expired(
            keys.insert(key),
            now,
        ));
    }
}

/// How often a key occurs in a list.
pub open spec fn occurrences(keys: Seq<Seq<u8>>, key: Seq<u8>) -> nat
    decreases keys.len(),
{
    if keys.len() == 0 {
        0
    } else {
        occurrences(keys.drop_last(), key) + if keys.last() == key {
            1nat
        } else {
            0
        }
    }
}

proof fn lemma_occurrences(keys: Seq<Seq<u8>>, key: Seq<u8>)
    ensures
        occurrences(keys, key) > 0 <==> keys.contains(key),
    decreases keys.len(),
{
    if keys.len() > 0 {
        lemma_occurrences(keys.drop_last(), key);
        if keys.drop_last().contains(key) {
            let i = choose|i: int| 0 <= i < keys.len() - 1 && keys.drop_last()[i] == key;
            assert(keys[i] == key);
        }
        if keys.last() == key {
            assert(keys[keys.len() - 1] == key);
        }
        if keys.contains(key) && keys.last() != key {
            let i = choose|i: int| 0 <= i < keys.len() && keys[i] == key;
            assert(keys.drop_last()[i] == key);
        }
    }
}

/// The stored data.
pub struct DatabaseState {
    entries: ByteMap<Entry>,
    /// How often each key was modified, as far as a `u64` can tell. A count stays when its key is
    /// removed, so that removing a key and storing it again is noticed.
    versions: ByteMap<u64>,
    /// The keys that were modified when their count was full, one for each such modification.
    uncounted: Vec<Vec<u8>>,
    /// The commands that replicas are still to be sent.
    propagated: Vec<Command>,
}

/// The commands that a list holds.
pub open spec fn command_contents(commands: Seq<Command>) -> Seq<Seq<Seq<u8>>> {
    Seq::new(commands.len(), |i: int| contents(commands[i]@))
}

impl View for DatabaseState {
    type V = DatabaseView;

    closed spec fn view(&self) -> DatabaseView {
        DatabaseView {
            entries: self.entries@.map_values(|entry: Entry| entry@),
            versions: Map::new(
                |key: Seq<u8>| self.versions@.contains_key(key),
                |key: Seq<u8>|
                    self.versions@[key] as nat + occurrences(contents(self.uncounted@), key),
            ),
            propagated: command_contents(self.propagated@),
        }
    }
}

impl DatabaseState {
    /// The parts of the database fit together.
    pub closed spec fn wf(self) -> bool {
        &&& self.entries.wf()
        &&& self.versions.wf()
        &&& forall|key: Seq<u8>| #[trigger]
            contents(self.uncounted@).contains(key) ==> self.versions@.contains_key(key)
                && self.versions@[key] == u64::MAX
    }

    /// The empty database.
    pub fn new() -> (result: DatabaseState)
        ensures
            result.wf(),
            result@ == DatabaseView::empty(),
    {
        let result = DatabaseState {
            entries: ByteMap::new(),
            versions: ByteMap::new(),
            uncounted: Vec::new(),
            propagated: Vec::new(),
        };
        assert(result@ =~= DatabaseView::empty());
        result
    }

    /// Puts a command on the list of those that replicas are to be sent.
    pub fn propagate(&mut self, command: &[Vec<u8>])
        requires
            old(self).wf(),
        ensures
            final(self).wf(),
            final(self)@ == old(self)@.announced(contents(command@)),
    {
        let copy = copy_list(command);
        self.propagated.push(copy);
        assert(self@ =~= old(self)@.announced(contents(command@)));
    }

    /// Takes the commands that replicas are to be sent off the list.
    pub fn take_propagated(&mut self) -> (result: Vec<Command>)
        requires
            old(self).wf(),
        ensures
            final(self).wf(),
            command_contents(result@) == old(self)@.propagated,
            final(self)@ == (DatabaseView { propagated: Seq::empty(), ..old(self)@ }),
    {
        let mut result: Vec<Command> = Vec::new();
        result.append(&mut self.propagated);
        assert(result@ =~= old(self).propagated@);
        assert(self@ =~= (DatabaseView { propagated: Seq::empty(), ..old(self)@ }));
        result
    }

    /// How often a key was modified, as far as a `u64` can tell.
    pub fn version(&self, key: &[u8]) -> (result: u64)
        requires
            self.wf(),
        ensures
            result == self@.stamp(key@),
    {
        proof {
            lemma_occurrences(contents(self.uncounted@), key@);
        }
        match self.versions.get(key) {
            Some(version) => *version,
            None => 0,
        }
    }

    /// Whether a key was modified when its count was full.
    fn is_uncounted(&self, key: &[u8]) -> (result: bool)
        ensures
            result == contents(self.uncounted@).contains(key@),
    {
        let ghost keys = contents(self.uncounted@);
        for i in 0..self.uncounted.len()
            invariant
                keys == contents(self.uncounted@),
                forall|j: int| 0 <= j < i ==> #[trigger] keys[j] != key@,
        {
            assert(keys[i as int] == self.uncounted@[i as int]@);
            if bytes_equal(self.uncounted[i].as_slice(), key) {
                return true;
            }
        }
        false
    }

    /// Whether a key was modified just this often.
    pub fn has_version(&self, key: &[u8], version: u64) -> (result: bool)
        requires
            self.wf(),
        ensures
            result == (self@.version(key@) == version),
    {
        proof {
            lemma_occurrences(contents(self.uncounted@), key@);
        }
        self.version(key) == version && !self.is_uncounted(key)
    }

    /// Whether some key was modified more often than a `u64` can tell.
    pub fn is_exhausted(&self) -> (result: bool)
        requires
            self.wf(),
        ensures
            result == !self@.fits(),
    {
        let ghost keys = contents(self.uncounted@);
        proof {
            if keys.len() > 0 {
                lemma_occurrences(keys, keys[0]);
                assert(keys.contains(keys[0]));
                assert(self@.version(keys[0]) > u64::MAX);
            } else {
                assert forall|key: Seq<u8>| #[trigger] self@.version(key) <= u64::MAX by {
                    lemma_occurrences(keys, key);
                }
            }
        }
        self.uncounted.len() > 0
    }

    /// Forgets the modifications that are more than a `u64` can tell.
    pub fn forget_uncounted(&mut self)
        requires
            old(self).wf(),
        ensures
            final(self).wf(),
            final(self)@ == old(self)@.clamped(),
            final(self)@.fits(),
    {
        let ghost keys = contents(self.uncounted@);
        proof {
            assert forall|key: Seq<u8>|
                occurrences(keys, key) > 0 <==> #[trigger] keys.contains(key) by {
                lemma_occurrences(keys, key);
            }
        }
        self.uncounted.clear();
        proof {
            assert forall|key: Seq<u8>| #[trigger]
                self@.versions.contains_key(key) implies self@.versions[key]
                == old(self)@.clamped().versions[key] by {
                lemma_occurrences(keys, key);
                lemma_occurrences(contents(self.uncounted@), key);
                assert(!contents(self.uncounted@).contains(key));
            }
            assert(self@ =~= old(self)@.clamped());
        }
    }

    /// Counts one more modification of a key.
    pub fn mark_modified(&mut self, key: &[u8])
        requires
            old(self).wf(),
        ensures
            final(self).wf(),
            final(self)@ == old(self)@.modified(key@),
    {
        let ghost keys = contents(self.uncounted@);
        proof {
            lemma_occurrences(keys, key@);
        }
        let version = self.version(key);
        if version == u64::MAX {
            self.uncounted.push(copy_bytes(key));
            proof {
                let longer = contents(self.uncounted@);
                assert(longer =~= keys.push(key@));
                assert(longer.drop_last() =~= keys);
                assert forall|k: Seq<u8>| #[trigger] longer.contains(k) implies
                    self.versions@.contains_key(k) && self.versions@[k] == u64::MAX by {
                    if k != key@ {
                        let i = choose|i: int| 0 <= i < longer.len() && longer[i] == k;
                        assert(keys[i] == k);
                        assert(keys.contains(k));
                    }
                }
            }
        } else {
            self.versions.insert(copy_bytes(key), version + 1);
        }
        assert(self@ =~= old(self)@.modified(key@));
    }

    /// The entry under a key.
    pub fn get(&self, key: &[u8]) -> (result: Option<&Entry>)
        requires
            self.wf(),
        ensures
            match result {
                Some(entry) => self@.entries.contains_key(key@) && entry@ == self@.entries[key@],
                None => !self@.entries.contains_key(key@),
            },
    {
        self.entries.get(key)
    }

    /// The entry under a key, to be changed in place.
    pub(crate) fn get_mut(&mut self, key: &[u8]) -> (result: Option<&mut Entry>)
        requires
            old(self).wf(),
        ensures
            final(self).wf(),
            match result {
                Some(entry) => {
                    &&& old(self)@.entries.contains_key(key@)
                    &&& entry@ == old(self)@.entries[key@]
                    &&& final(self)@ == old(self)@.stored(key@, (*final(entry))@)
                },
                None => !old(self)@.entries.contains_key(key@) && final(self)@ == old(self)@,
            },
    {
        proof {
            assert forall|entry: Entry|
                self.entries@.insert(key@, entry).map_values(|e: Entry| e@)
                    == #[trigger] self@.stored(key@, entry@).entries by {
                assert(self.entries@.insert(key@, entry).map_values(|e: Entry| e@)
                    =~= self@.stored(key@, entry@).entries);
            }
        }
        self.entries.get_mut(key)
    }

    /// Puts an entry under a key.
    pub(crate) fn store(&mut self, key: Vec<u8>, entry: Entry)
        requires
            old(self).wf(),
        ensures
            final(self).wf(),
            final(self)@ == old(self)@.stored(key@, entry@),
    {
        let ghost name = key@;
        self.entries.insert(key, entry);
        assert(self@ =~= old(self)@.stored(name, entry@));
    }

    /// Removes what is under a key, and says whether there was anything.
    pub(crate) fn delete(&mut self, key: &[u8]) -> (result: bool)
        requires
            old(self).wf(),
        ensures
            final(self).wf(),
            final(self)@ == old(self)@.deleted(key@),
            result == old(self)@.entries.contains_key(key@),
    {
        let removed = self.entries.remove(key);
        assert(self@ =~= old(self)@.deleted(key@));
        removed.is_some()
    }

    /// Removes a key if it has expired, and says whether it had.
    pub fn remove_if_expired(&mut self, key: &[u8], now: u64) -> (result: bool)
        requires
            old(self).wf(),
        ensures
            final(self).wf(),
            result == old(self)@.is_expired(key@, now),
            final(self)@ == old(self)@.expired(key@, now),
    {
        let expired = match self.get(key) {
            Some(entry) => match entry.expires_at {
                Some(expires_at) => now as u128 >= expires_at,
                None => false,
            },
            None => false,
        };
        if expired {
            self.delete(key);
            self.mark_modified(key);
        }
        expired
    }
}

} // verus!
