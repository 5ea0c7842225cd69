use crate::primitives::TemporaryExposureKey;
use crate::primitives::Validity;
use vstd::prelude::*;

verus! {

/// Whether `key`, a temporary exposure key given by the start of its rolling period and
/// its bytes, occurs in `keys`.
pub open spec fn seq_has(keys: Seq<Validity<TemporaryExposureKey>>, key: (int, Seq<u8>)) -> bool {
    exists|i: int| 0 <= i < keys.len() && #[trigger] keys[i]@ == key
}

/// The temporary exposure keys that occur in `keys`, each given by the start of its
/// rolling period and its bytes.
pub open spec fn key_set(keys: Seq<Validity<TemporaryExposureKey>>) -> Set<(int, Seq<u8>)> {
    Set::new(|key: (int, Seq<u8>)| seq_has(keys, key))
}

/// Whether no temporary exposure key occurs twice in `keys`.
pub open spec fn distinct(keys: Seq<Validity<TemporaryExposureKey>>) -> bool {
    forall|i: int, j: int| 0 <= i < j < keys.len() ==> #[trigger] keys[i]@ != #[trigger] keys[j]@
}

/// A set of temporary exposure keys with their validity, kept in the order in which the
/// keys came in.
#[derive(Debug)]
pub struct TekSet {
    pub(crate) keys: Vec<Validity<TemporaryExposureKey>>,
}

impl View for TekSet {
    type V = Set<(int, Seq<u8>)>;

    /// The keys of the set, each as the start of its rolling period and its bytes.
    open(crate) spec fn view(&self) -> Set<(int, Seq<u8>)> {
        key_set(self.keys@)
    }
}

impl TekSet {
    /// Whether `key` is stored.
    pub open(crate) spec fn has(self, key: (int, Seq<u8>)) -> bool {
        seq_has(self.keys@, key)
    }

    /// The keys of the set in the order in which they came in.
    pub open(crate) spec fn elements(self) -> Seq<Validity<TemporaryExposureKey>> {
        self.keys@
    }

    /// No key is stored twice.
    pub open(crate) spec fn wf(self) -> bool {
        distinct(self.keys@)
    }

    /// The empty set.
    pub fn new() -> (r: Self)
        ensures
            r.wf(),
            r@ == Set::<(int, Seq<u8>)>::empty(),
            r.elements() == Seq::<Validity<TemporaryExposureKey>>::empty(),
    {
        let r = TekSet { keys: Vec::new() };
        assert(r@ =~= Set::<(int, Seq<u8>)>::empty());
        r
    }

    /// The number of keys in the set.
    pub fn len(&self) -> (n: usize)
        ensures
            n == self.elements().len(),
    {
        self.keys.len()
    }

    /// Whether the set holds nothing.
    pub fn is_empty(&self) -> (r: bool)
        ensures
            r == (self@ == Set::<(int, Seq<u8>)>::empty()),
            r == (self.elements().len() == 0),
    {
        let r = self.keys.len() == 0;
        proof {
            if r {
                assert(self@ =~= Set::<(int, Seq<u8>)>::empty());
            } else {
                assert(self.has(self.keys@[0]@));
                assert(self@.contains(self.keys@[0]@));
            }
        }
        r
    }

    /// The key at place `index` of the order in which the keys came in.
    pub fn get(&self, index: usize) -> (key: Validity<TemporaryExposureKey>)
        requires
            index < self.elements().len(),
        ensures
            key == self.elements()[index as int],
            self@.contains(key@),
    {
        assert(self.has(self.keys@[index as int]@));
        self.keys[index]
    }

    /// Whether `key` is in the set.
    pub fn contains(&self, key: &Validity<TemporaryExposureKey>) -> (r: bool)
        ensures
            r == self@.contains(key@),
    {
        let mut i: usize = 0;
        while i < self.keys.len()
            invariant
                i <= self.keys@.len(),
                forall|j: int| 0 <= j < i ==> #[trigger] self.keys@[j]@ != key@,
            decreases self.keys@.len() - i,
        {
            if self.keys[i] == *key {
                assert(self.has(key@));
                return true;
            }
            i += 1;
        }
        false
    }

    /// Puts `key` into the set, behind the keys that are there, and says whether it was
    /// new.
    pub fn insert(&mut self, key: Validity<TemporaryExposureKey>) -> (added: bool)
        requires
            old(self).wf(),
        ensures
            final(self).wf(),
            final(self)@ == old(self)@.insert(key@),
            added == !old(self)@.contains(key@),
            added ==> final(self).elements() == old(self).elements().push(key),
            !added ==> final(self).elements() == old(self).elements(),
    {
        if self.contains(&key) {
            assert(self@ =~= old(self)@.insert(key@));
            return false;
        }
        self.keys.push(key);
        proof {
            let before = old(self).keys@;
            let after = self.keys@;
            assert forall|candidate: (int, Seq<u8>)|
                final(self)@.contains(candidate) == old(self)@.insert(key@).contains(candidate) by {
                if final(self).has(candidate) {
                    let k = choose|k: int| 0 <= k < after.len() && #[trigger] after[k]@ == candidate;
                    if k < before.len() {
                        assert(before[k]@ == candidate);
                    }
                }
                if old(self).has(candidate) {
                    let k = choose|k: int|
                        0 <= k < before.len() && #[trigger] before[k]@ == candidate;
                    assert(after[k]@ == candidate);
                }
                if candidate == key@ {
                    assert(after[before.len() as int]@ == candidate);
                }
            }
            assert(final(self)@ =~= old(self)@.insert(key@));
            assert forall|i: int, j: int| 0 <= i < j < after.len() implies #[trigger] after[i]@
                != #[trigger] after[j]@ by {
                if j == before.len() {
                    assert(before[i]@ != key@);
                } else {
                    assert(before[i]@ != before[j]@);
                }
            }
        }
        true
    }

    /// Puts every key of `other` into the set.
    pub fn extend(&mut self, other: &TekSet)
        requires
            old(self).wf(),
        ensures
            final(self).wf(),
            final(self)@ == old(self)@.union(other@),
    {
        let mut i: usize = 0;
        while i < other.keys.len()
            invariant
                i <= other.keys@.len(),
                self.wf(),
                forall|key: (int, Seq<u8>)|
                    self@.contains(key) <==> (old(self)@.contains(key) || exists|j: int|
                        0 <= j < i && #[trigger] other.keys@[j]@ == key),
            decreases other.keys@.len() - i,
        {
            let ghost before = self@;
            self.insert(other.keys[i]);
            proof {
                assert forall|key: (int, Seq<u8>)|
                    self@.contains(key) <==> (old(self)@.contains(key) || exists|j: int|
                        0 <= j < i + 1 && #[trigger] other.keys@[j]@ == key) by {
                    if before.contains(key) && !old(self)@.contains(key) {
                        let j = choose|j: int| 0 <= j < i && #[trigger] other.keys@[j]@ == key;
                        assert(0 <= j < i + 1 && other.keys@[j]@ == key);
                    }
                    if exists|j: int| 0 <= j < i + 1 && #[trigger] other.keys@[j]@ == key {
                        let j = choose|j: int| 0 <= j < i + 1 && #[trigger] other.keys@[j]@ == key;
                        if j < i {
                            assert(before.contains(key));
                        }
                    }
                }
            }
            i += 1;
        }
        assert(self@ =~= old(self)@.union(other@));
    }

    /// The keys of this set that are not in `other`, in the order of this set.
    #[verifier::rlimit(30)]
    pub fn difference(&self, other: &TekSet) -> (r: Self)
        requires
            self.wf(),
        ensures
            r.wf(),
            r@ == self@.difference(other@),
    {
        let mut r = TekSet { keys: Vec::new() };
        let mut i: usize = 0;
        while i < self.keys.len()
            invariant
                i <= self.keys@.len(),
                self.wf(),
                r.wf(),
                forall|k: int| 0 <= k < r.keys@.len() ==> exists|j: int|
                    0 <= j < i && self.keys@[j] == #[trigger] r.keys@[k],
                forall|k: int| 0 <= k < r.keys@.len() ==> !other@.contains(#[trigger] r.keys@[k]@),
                forall|j: int|
                    0 <= j < i && !other@.contains(#[trigger] self.keys@[j]@) ==> r.has(
                        self.keys@[j]@,
                    ),
            decreases self.keys@.len() - i,
        {
            let key: Validity<TemporaryExposureKey> = self.keys[i];
            if !other.contains(&key) {
                let ghost before = r;
                proof {
                    assert forall|k: int| 0 <= k < r.keys@.len() implies #[trigger] r.keys@[k]@
                        != key@ by {
                        let j = choose|j: int| 0 <= j < i && self.keys@[j] == r.keys@[k];
                        assert(self.keys@[j]@ != self.keys@[i as int]@);
                    }
                }
                r.keys.push(key);
                proof {
                    assert forall|j: int|
                        0 <= j < i + 1 && !other@.contains(
                            #[trigger] self.keys@[j]@,
                        ) implies r.has(self.keys@[j]@) by {
                        if j < i {
                            assert(before.has(self.keys@[j]@));
                            let k = choose|k: int|
                                0 <= k < before.keys@.len() && #[trigger] before.keys@[k]@
                                    == self.keys@[j]@;
                            assert(r.keys@[k]@ == self.keys@[j]@);
                        } else {
                            assert(r.keys@[r.keys@.len() - 1]@ == self.keys@[j]@);
                        }
                    }
                    assert forall|k: int| 0 <= k < r.keys@.len() implies exists|j: int|
                        0 <= j < i + 1 && self.keys@[j] == #[trigger] r.keys@[k] by {
                        if k < before.keys@.len() {
                            let j = choose|j: int| 0 <= j < i && self.keys@[j] == before.keys@[k];
                            assert(self.keys@[j] == r.keys@[k]);
                        } else {
                            assert(self.keys@[i as int] == r.keys@[k]);
                        }
                    }
                    assert forall|a: int, b: int| 0 <= a < b < r.keys@.len() implies #[trigger] r.keys@[a]@
                        != #[trigger] r.keys@[b]@ by {
                        if b == before.keys@.len() {
                            assert(before.keys@[a]@ != key@);
                        } else {
                            assert(before.keys@[a]@ != before.keys@[b]@);
                        }
                    }
                }
            }
            i += 1;
        }
        proof {
            assert forall|key: (int, Seq<u8>)|
                r@.contains(key) == self@.difference(other@).contains(key) by {
                if r.has(key) {
                    let k = choose|k: int| 0 <= k < r.keys@.len() && #[trigger] r.keys@[k]@ == key;
                    let j = choose|j: int| 0 <= j < i && self.keys@[j] == r.keys@[k];
                    assert(self.keys@[j]@ == key);
                    assert(self.has(key));
                }
                if self.has(key) && !other@.contains(key) {
                    let j = choose|j: int| 0 <= j < self.keys@.len() && #[trigger] self.keys@[j]@
                        == key;
                    assert(r.has(self.keys@[j]@));
                }
            }
            assert(r@ =~= self@.difference(other@));
        }
        r
    }
}

impl Clone for TekSet {
    fn clone(&self) -> (r: Self)
        ensures
            r.elements() == self.elements(),
            r@ == self@,
            r.wf() == self.wf(),
    {
        let mut keys: Vec<Validity<TemporaryExposureKey>> = Vec::new();
        let mut i: usize = 0;
        while i < self.keys.len()
            invariant
                i <= self.keys@.len(),
                keys@ == self.keys@.subrange(0, i as int),
            decreases self.keys@.len() - i,
        {
            keys.push(self.keys[i]);
            assert(keys@ =~= self.keys@.subrange(0, i + 1));
            i += 1;
        }
        assert(keys@ =~= self.keys@);
        let r = TekSet { keys };
        proof {
            assert(r.keys@ == self.keys@);
            assert forall|key: (int, Seq<u8>)| r.has(key) == self.has(key) by {
                if r.has(key) {
                    let k = choose|k: int| 0 <= k < r.keys@.len() && #[trigger] r.keys@[k]@ == key;
                    assert(self.keys@[k]@ == key);
                }
                if self.has(key) {
                    let k = choose|k: int| 0 <= k < self.keys@.len() && #[trigger] self.keys@[k]@
                        == key;
                    assert(r.keys@[k]@ == key);
                }
            }
            assert(r@ =~= self@);
        }
        r
    }
}

} // verus!
