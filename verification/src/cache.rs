use vstd::prelude::*;

verus! {

/// A memoizing cache from string keys to lazily computed values.
///
/// Entries are only ever appended: a slot handed out by `query` stays valid,
/// and keeps its value, for the whole life of the cache. Each distinct key is
/// computed at most once; a later `query` with the same key returns the slot
/// that already holds it and leaves the cache unchanged.
pub struct ArenaCache<V> {
    keys: Vec<String>,
    vals: Vec<V>,
}

impl<V> ArenaCache<V> {
    /// How many entries the cache holds.
    pub closed spec fn len(&self) -> nat {
        self.keys@.len()
    }

    /// The key stored in a slot.
    pub closed spec fn key_at(&self, i: int) -> Seq<char> {
        self.keys@[i]@
    }

    /// The value stored in a slot.
    pub closed spec fn val_at(&self, i: int) -> V {
        self.vals@[i]
    }

    /// Keys and values line up, and no key occurs twice.
    pub closed spec fn wf(&self) -> bool {
        &&& self.keys@.len() == self.vals@.len()
        &&& forall|i: int, j: int|
            0 <= i < j < self.keys@.len() ==> self.key_at(i) != self.key_at(j)
    }

    /// Whether some slot holds this key.
    pub open spec fn has_key(&self, k: Seq<char>) -> bool {
        exists|i: int| 0 <= i < self.len() && self.key_at(i) == k
    }

    /// An empty cache.
    pub fn new() -> (r: ArenaCache<V>)
        ensures
            r.wf(),
            r.len() == 0,
    {
        ArenaCache { keys: Vec::new(), vals: Vec::new() }
    }

    /// Returns the slot that holds the value for `key`, computing it first if
    /// no slot does yet. A present key is never recomputed, and existing slots
    /// are never moved or changed.
    pub fn query<F: FnOnce(&str) -> V>(&mut self, key: &str, computation: F) -> (i: usize)
        requires
            old(self).wf(),
            call_requires(computation, (key,)),
        ensures
            final(self).wf(),
            i < final(self).len(),
            final(self).key_at(i as int) == key@,
            forall|j: int|
                0 <= j < old(self).len() ==> final(self).key_at(j) == old(self).key_at(j)
                    && final(self).val_at(j) == old(self).val_at(j),
            old(self).has_key(key@) ==> *final(self) == *old(self),
            !old(self).has_key(key@) ==> {
                &&& final(self).len() == old(self).len() + 1
                &&& i == old(self).len()
                &&& call_ensures(computation, (key,), final(self).val_at(i as int))
            },
    {
        let owned: String = key.to_owned();
        let n = self.keys.len();
        let mut i: usize = 0;
        while i < n
            invariant
                n == self.keys@.len(),
                i <= n,
                self.wf(),
                owned@ == key@,
                forall|j: int| 0 <= j < i ==> self.key_at(j) != key@,
            decreases n - i,
        {
            if self.keys[i] == owned {
                return i;
            }
            i += 1;
        }
        assert(!self.has_key(key@));
        let value = computation(key);
        let ghost prev = *self;
        self.keys.push(owned);
        self.vals.push(value);
        proof {
            assert forall|a: int, b: int|
                0 <= a < b < self.keys@.len() implies self.key_at(a) != self.key_at(b) by {
                assert(self.key_at(a) == prev.key_at(a));
                if b + 1 == self.keys@.len() {
                    assert(self.key_at(b) == key@);
                } else {
                    assert(self.key_at(b) == prev.key_at(b));
                }
            }
        }
        n
    }

    /// Reads the value in a slot.
    pub fn get(&self, i: usize) -> (r: &V)
        requires
            self.wf(),
            i < self.len(),
        ensures
            *r == self.val_at(i as int),
    {
        &self.vals[i]
    }
}

} // verus!
