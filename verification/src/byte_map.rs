//! A map from byte strings, kept as a vector in the order of the keys.

use vstd::prelude::*;

verus! {

/// The order of byte strings: that of their first differing bytes, and a string after its
/// beginnings.
spec fn earlier(a: Seq<u8>, b: Seq<u8>) -> bool
    decreases a.len(),
{
    if b.len() == 0 {
        false
    } else if a.len() == 0 {
        true
    } else if a[0] != b[0] {
        a[0] < b[0]
    } else {
        earlier(a.drop_first(), b.drop_first())
    }
}

proof fn lemma_earlier_is_total(a: Seq<u8>, b: Seq<u8>)
    ensures
        !earlier(a, a),
        a == b || earlier(a, b) || earlier(b, a),
        !(earlier(a, b) && earlier(b, a)),
    decreases a.len(),
{
    if a.len() > 0 {
        lemma_earlier_is_total(a.drop_first(), a.drop_first());
        if b.len() > 0 && a[0] == b[0] {
            lemma_earlier_is_total(a.drop_first(), b.drop_first());
            if a.drop_first() == b.drop_first() {
                assert(a =~= seq![a[0]] + a.drop_first());
                assert(b =~= seq![b[0]] + b.drop_first());
            }
        }
    } else if b.len() == 0 {
        assert(a =~= b);
    }
}

proof fn lemma_earlier_is_transitive(a: Seq<u8>, b: Seq<u8>, c: Seq<u8>)
    requires
        earlier(a, b),
        earlier(b, c),
    ensures
        earlier(a, c),
    decreases a.len(),
{
    if a.len() > 0 && a[0] == b[0] && b[0] == c[0] {
        lemma_earlier_is_transitive(a.drop_first(), b.drop_first(), c.drop_first());
    }
}

/// Where a byte string stands towards another.
enum Side {
    Before,
    Same,
    After,
}

fn side_of(a: &[u8], b: &[u8]) -> (side: Side)
    ensures
        match side {
            Side::Before => earlier(a@, b@),
            Side::Same => a@ == b@,
            Side::After => earlier(b@, a@),
        },
{
    let mut i: usize = 0;
    assert(a@.skip(0) =~= a@);
    assert(b@.skip(0) =~= b@);
    while i < a.len() && i < b.len()
        invariant
            i <= a@.len(),
            i <= b@.len(),
            a@.take(i as int) == b@.take(i as int),
            earlier(a@, b@) == earlier(a@.skip(i as int), b@.skip(i as int)),
            earlier(b@, a@) == earlier(b@.skip(i as int), a@.skip(i as int)),
        decreases a@.len() - i,
    {
        if a[i] < b[i] {
            return Side::Before;
        }
        if a[i] > b[i] {
            return Side::After;
        }
        assert(a@.skip(i as int).drop_first() =~= a@.skip(i + 1));
        assert(b@.skip(i as int).drop_first() =~= b@.skip(i + 1));
        assert(a@.take(i + 1) =~= a@.take(i as int).push(a@[i as int]));
        assert(b@.take(i + 1) =~= b@.take(i as int).push(b@[i as int]));
        i = i + 1;
    }
    if a.len() < b.len() {
        Side::Before
    } else if a.len() > b.len() {
        Side::After
    } else {
        assert(a@ =~= a@.take(i as int));
        assert(b@ =~= b@.take(i as int));
        Side::Same
    }
}

/// A map from byte strings to values.
pub struct ByteMap<V> {
    slots: Vec<(Vec<u8>, V)>,
}

impl<V> View for ByteMap<V> {
    type V = Map<Seq<u8>, V>;

    closed spec fn view(&self) -> Map<Seq<u8>, V> {
        Map::new(|key: Seq<u8>| self.holds(key), |key: Seq<u8>| self.slots@[self.slot(key)].1)
    }
}

impl<V> ByteMap<V> {
    spec fn holds(self, key: Seq<u8>) -> bool {
        exists|i: int| 0 <= i < self.slots@.len() && (#[trigger] self.slots@[i]).0@ == key
    }

    spec fn slot(self, key: Seq<u8>) -> int {
        choose|i: int| 0 <= i < self.slots@.len() && (#[trigger] self.slots@[i]).0@ == key
    }

    /// The slots are in the order of their keys, so that no key occurs twice.
    pub closed spec fn wf(self) -> bool {
        forall|i: int, j: int|
            0 <= i < j < self.slots@.len() ==> earlier(
                (#[trigger] self.slots@[i]).0@,
                (#[trigger] self.slots@[j]).0@,
            )
    }

    /// The keys, each once.
    pub closed spec fn keys(self) -> Seq<Seq<u8>> {
        Seq::new(self.slots@.len(), |i: int| self.slots@[i].0@)
    }

    proof fn lemma_slot(self, i: int)
        requires
            self.wf(),
            0 <= i < self.slots@.len(),
        ensures
            self@.contains_key(self.slots@[i].0@),
            self@[self.slots@[i].0@] == self.slots@[i].1,
            self.slot(self.slots@[i].0@) == i,
    {
        let key = self.slots@[i].0@;
        assert(self.holds(key));
        let j = self.slot(key);
        lemma_earlier_is_total(key, key);
        assert(self.slots@[j].0@ == key);
    }

    /// A map that differs from this one in the value of one slot maps that slot's key to the new
    /// value and every other key as before.
    proof fn lemma_slot_changes(self, i: int, after: ByteMap<V>)
        requires
            self.wf(),
            0 <= i < self.slots@.len(),
            after.slots@.len() == self.slots@.len(),
            after.slots@[i].0 == self.slots@[i].0,
            forall|j: int|
                0 <= j < self.slots@.len() && j != i ==> #[trigger] after.slots@[j]
                    == self.slots@[j],
        ensures
            after.wf(),
            after@ == self@.insert(self.slots@[i].0@, after.slots@[i].1),
    {
        let key = self.slots@[i].0@;
        assert(after.wf()) by {
            assert forall|m: int, n: int| 0 <= m < n < after.slots@.len() implies earlier(
                (#[trigger] after.slots@[m]).0@,
                (#[trigger] after.slots@[n]).0@,
            ) by {
                assert(after.slots@[m].0 == self.slots@[m].0);
                assert(after.slots@[n].0 == self.slots@[n].0);
            }
        }
        self.lemma_slot(i);
        assert forall|k: Seq<u8>| #[trigger] after@.contains_key(k) == self@.contains_key(k) by {
            if after.holds(k) {
                assert(self.slots@[after.slot(k)].0@ == k);
            }
            if self.holds(k) {
                assert(after.slots@[self.slot(k)].0@ == k);
            }
        }
        assert forall|k: Seq<u8>| #[trigger] after@.contains_key(k) implies after@[k]
            == self@.insert(key, after.slots@[i].1)[k] by {
            let j = after.slot(k);
            after.lemma_slot(j);
            self.lemma_slot(j);
        }
        assert(after@ =~= self@.insert(key, after.slots@[i].1));
    }

    /// The keys that are listed are the keys of the map, and none is listed twice.
    pub proof fn lemma_keys(self)
        requires
            self.wf(),
        ensures
            forall|key: Seq<u8>| #[trigger] self@.contains_key(key) <==> self.keys().contains(key),
            self.keys().no_duplicates(),
    {
        assert forall|key: Seq<u8>| #[trigger] self@.contains_key(key) <==> self.keys().contains(
            key,
        ) by {
            if self@.contains_key(key) {
                assert(self.keys()[self.slot(key)] == key);
            }
            if self.keys().contains(key) {
                let i = choose|i: int| 0 <= i < self.keys().len() && self.keys()[i] == key;
                self.lemma_slot(i);
            }
        }
        assert forall|i: int, j: int|
            0 <= i < j < self.keys().len() implies self.keys()[i] != self.keys()[j] by {
            lemma_earlier_is_total(self.slots@[i].0@, self.slots@[j].0@);
        }
    }

    /// The empty map.
    pub fn new() -> (result: ByteMap<V>)
        ensures
            result.wf(),
            result@ == Map::<Seq<u8>, V>::empty(),
    {
        let result = ByteMap { slots: Vec::new() };
        assert(result@ =~= Map::<Seq<u8>, V>::empty());
        result
    }

    /// The slot of a key, or the slot before which it belongs.
    fn find(&self, key: &[u8]) -> (result: Result<usize, usize>)
        requires
            self.wf(),
        ensures
            match result {
                Ok(i) => i < self.slots@.len() && self.slots@[i as int].0@ == key@,
                Err(i) => {
                    &&& i <= self.slots@.len()
                    &&& !self@.contains_key(key@)
                    &&& forall|j: int| 0 <= j < i ==> earlier((#[trigger] self.slots@[j]).0@, key@)
                    &&& forall|j: int|
                        i <= j < self.slots@.len() ==> earlier(
                            key@,
                            (#[trigger] self.slots@[j]).0@,
                        )
                },
            },
    {
        let mut low: usize = 0;
        let mut high: usize = self.slots.len();
        while low < high
            invariant
                self.wf(),
                low <= high <= self.slots@.len(),
                forall|j: int| 0 <= j < low ==> earlier((#[trigger] self.slots@[j]).0@, key@),
                forall|j: int|
                    high <= j < self.slots@.len() ==> earlier(key@, (#[trigger] self.slots@[j]).0@),
            decreases high - low,
        {
            let middle = low + (high - low) / 2;
            match side_of(self.slots[middle].0.as_slice(), key) {
                Side::Same => {
                    return Ok(middle);
                },
                Side::Before => {
                    assert forall|j: int| 0 <= j < middle + 1 implies earlier(
                        (#[trigger] self.slots@[j]).0@,
                        key@,
                    ) by {
                        if j < middle {
                            lemma_earlier_is_transitive(
                                self.slots@[j].0@,
                                self.slots@[middle as int].0@,
                                key@,
                            );
                        }
                    }
                    low = middle + 1;
                },
                Side::After => {
                    assert forall|j: int| middle <= j < self.slots@.len() implies earlier(
                        key@,
                        (#[trigger] self.slots@[j]).0@,
                    ) by {
                        if j > middle {
                            lemma_earlier_is_transitive(
                                key@,
                                self.slots@[middle as int].0@,
                                self.slots@[j].0@,
                            );
                        }
                    }
                    high = middle;
                },
            }
        }
        proof {
            lemma_earlier_is_total(key@, key@);
            if self@.contains_key(key@) {
                let j = self.slot(key@);
                assert(self.slots@[j].0@ == key@);
            }
        }
        Err(low)
    }

    /// The value of a key.
    pub fn get(&self, key: &[u8]) -> (result: Option<&V>)
        requires
            self.wf(),
        ensures
            match result {
                Some(value) => self@.contains_key(key@) && *value == self@[key@],
                None => !self@.contains_key(key@),
            },
    {
        match self.find(key) {
            Ok(i) => {
                proof {
                    self.lemma_slot(i as int);
                }
                Some(&self.slots[i].1)
            },
            Err(_) => None,
        }
    }

    /// The value of a key, to be changed in place.
    pub fn get_mut(&mut self, key: &[u8]) -> (result: Option<&mut V>)
        requires
            old(self).wf(),
        ensures
            final(self).wf(),
            match result {
                Some(value) => {
                    &&& old(self)@.contains_key(key@)
                    &&& *value == old(self)@[key@]
                    &&& final(self)@ == old(self)@.insert(key@, *final(value))
                },
                None => !old(self)@.contains_key(key@) && final(self)@ == old(self)@,
            },
    {
        let ghost before = *self;
        match self.find(key) {
            Ok(i) => {
                proof {
                    before.lemma_slot(i as int);
                    assert forall|after: ByteMap<V>|
                        {
                            &&& after.slots@.len() == before.slots@.len()
                            &&& after.slots@[i as int].0 == before.slots@[i as int].0
                            &&& forall|j: int|
                                0 <= j < before.slots@.len() && j != i
                                    ==> #[trigger] after.slots@[j] == before.slots@[j]
                        } implies #[trigger] after@ == before@.insert(
                        key@,
                        after.slots@[i as int].1,
                    ) by {
                        before.lemma_slot_changes(i as int, after);
                    }
                }
                let slot = &mut self.slots[i];
                Some(&mut slot.1)
            },
            Err(_) => None,
        }
    }

    /// Gives a key a value, in place of the one that it may have.
    pub fn insert(&mut self, key: Vec<u8>, value: V)
        requires
            old(self).wf(),
        ensures
            final(self).wf(),
            final(self)@ == old(self)@.insert(key@, value),
    {
        let ghost before = *self;
        let ghost name = key@;
        match self.find(key.as_slice()) {
            Ok(i) => {
                self.slots[i].1 = value;
                proof {
                    before.lemma_slot_changes(i as int, *self);
                }
            },
            Err(i) => {
                self.slots.insert(i, (key, value));
                proof {
                    let after = *self;
                    assert(after.wf()) by {
                        assert forall|m: int, n: int| 0 <= m < n < after.slots@.len() implies earlier(
                            (#[trigger] after.slots@[m]).0@,
                            (#[trigger] after.slots@[n]).0@,
                        ) by {
                            let m0 = if m < i {
                                m
                            } else {
                                m - 1
                            };
                            let n0 = if n < i {
                                n
                            } else {
                                n - 1
                            };
                            if m != i {
                                assert(after.slots@[m] == before.slots@[m0]);
                            }
                            if n != i {
                                assert(after.slots@[n] == before.slots@[n0]);
                            }
                        }
                    }
                    after.lemma_slot(i as int);
                    assert forall|k: Seq<u8>| #[trigger] after@.contains_key(k)
                        == before@.insert(name, value).contains_key(k) by {
                        if after.holds(k) && k != name {
                            let j = after.slot(k);
                            assert(before.slots@[if j < i {
                                j
                            } else {
                                j - 1
                            }].0@ == k);
                        }
                        if before.holds(k) {
                            let j = before.slot(k);
                            assert(after.slots@[if j < i {
                                j
                            } else {
                                j + 1
                            }].0@ == k);
                        }
                    }
                    assert forall|k: Seq<u8>| #[trigger] after@.contains_key(k) implies after@[k]
                        == before@.insert(name, value)[k] by {
                        if k != name {
                            let j = after.slot(k);
                            after.lemma_slot(j);
                            let j0 = if j < i {
                                j
                            } else {
                                j - 1
                            };
                            assert(before.slots@[j0] == after.slots@[j]);
                            before.lemma_slot(j0);
                        }
                    }
                    assert(after@ =~= before@.insert(name, value));
                }
            },
        }
    }

    /// Takes a key and its value out of the map.
    pub fn remove(&mut self, key: &[u8]) -> (result: Option<V>)
        requires
            old(self).wf(),
        ensures
            final(self).wf(),
            final(self)@ == old(self)@.remove(key@),
            match result {
                Some(value) => old(self)@.contains_key(key@) && value == old(self)@[key@],
                None => !old(self)@.contains_key(key@),
            },
    {
        let ghost before = *self;
        match self.find(key) {
            Ok(i) => {
                let (_, value) = self.slots.remove(i);
                proof {
                    let after = *self;
                    before.lemma_slot(i as int);
                    lemma_earlier_is_total(key@, key@);
                    assert(after.wf()) by {
                        assert forall|m: int, n: int| 0 <= m < n < after.slots@.len() implies earlier(
                            (#[trigger] after.slots@[m]).0@,
                            (#[trigger] after.slots@[n]).0@,
                        ) by {
                            assert(after.slots@[m] == before.slots@[if m < i {
                                m
                            } else {
                                m + 1
                            }]);
                            assert(after.slots@[n] == before.slots@[if n < i {
                                n
                            } else {
                                n + 1
                            }]);
                        }
                    }
                    assert forall|k: Seq<u8>| #[trigger] after@.contains_key(k)
                        == before@.remove(key@).contains_key(k) by {
                        if after.holds(k) {
                            let j = after.slot(k);
                            let j0 = if j < i {
                                j
                            } else {
                                j + 1
                            };
                            assert(before.slots@[j0].0@ == k);
                            before.lemma_slot(j0);
                        }
                        if before.holds(k) && k != key@ {
                            let j = before.slot(k);
                            assert(after.slots@[if j < i {
                                j
                            } else {
                                j - 1
                            }].0@ == k);
                        }
                    }
                    assert forall|k: Seq<u8>| #[trigger] after@.contains_key(k) implies after@[k]
                        == before@[k] by {
                        let j = after.slot(k);
                        after.lemma_slot(j);
                        before.lemma_slot(if j < i {
                            j
                        } else {
                            j + 1
                        });
                    }
                    assert(after@ =~= before@.remove(key@));
                }
                Some(value)
            },
            Err(_) => {
                assert(self@ =~= before@.remove(key@));
                None
            },
        }
    }

    /// Takes everything out of the map.
    pub fn clear(&mut self)
        ensures
            final(self).wf(),
            final(self)@ == Map::<Seq<u8>, V>::empty(),
    {
        self.slots.clear();
        assert(self@ =~= Map::<Seq<u8>, V>::empty());
    }

    /// The number of keys.
    pub fn len(&self) -> (result: usize)
        ensures
            result == self.keys().len(),
    {
        self.slots.len()
    }

    /// A key and its value, by its place among the keys.
    pub fn pair_at(&self, i: usize) -> (result: (&Vec<u8>, &V))
        requires
            self.wf(),
            i < self.keys().len(),
        ensures
            result.0@ == self.keys()[i as int],
            self@.contains_key(result.0@),
            *result.1 == self@[result.0@],
    {
        proof {
            self.lemma_slot(i as int);
        }
        (&self.slots[i].0, &self.slots[i].1)
    }
}

} // verus!
