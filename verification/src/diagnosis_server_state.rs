use crate::primitives::ComputationId;
use crate::primitives::TemporaryExposureKey;
use crate::primitives::Validity;
use crate::tek_set::distinct;
use crate::tek_set::key_set;
use crate::tek_set::TekSet;
use crate::time::TimeInterval;
use vstd::prelude::*;

verus! {

/// The two lists that the diagnosis server keeps for a computation.
#[derive(Copy, Clone, Debug, PartialEq, Eq, Structural)]
pub enum ListType {
    /// The keys of participants who tested positive.
    Blacklist,
    /// The keys that pooling nodes announce for transitive contacts.
    Greylist,
}

/// The two lists of one computation, each as the keys in the order in which they came in.
pub struct ComputationStateView {
    pub blacklist: Seq<Validity<TemporaryExposureKey>>,
    pub greylist: Seq<Validity<TemporaryExposureKey>>,
}

impl ComputationStateView {
    /// The keys of the list `list`.
    pub open spec fn list(self, list: ListType) -> Seq<Validity<TemporaryExposureKey>> {
        match list {
            ListType::Blacklist => self.blacklist,
            ListType::Greylist => self.greylist,
        }
    }

    /// Neither list holds a key twice.
    pub open spec fn wf(self) -> bool {
        distinct(self.blacklist) && distinct(self.greylist)
    }
}

/// What one chunk holds of one computation: its blacklist and its greylist.
#[derive(Debug)]
pub struct ComputationState {
    pub(crate) blacklist: TekSet,
    pub(crate) greylist: TekSet,
}

impl View for ComputationState {
    type V = ComputationStateView;

    open(crate) spec fn view(&self) -> ComputationStateView {
        ComputationStateView {
            blacklist: self.blacklist.elements(),
            greylist: self.greylist.elements(),
        }
    }
}

impl ComputationState {
    /// Two empty lists.
    pub fn new() -> (r: Self)
        ensures
            r@.wf(),
            r@.blacklist == Seq::<Validity<TemporaryExposureKey>>::empty(),
            r@.greylist == Seq::<Validity<TemporaryExposureKey>>::empty(),
    {
        ComputationState { blacklist: TekSet::new(), greylist: TekSet::new() }
    }

    /// Puts the keys of `data` on the list `list`.
    pub fn insert(&mut self, list: ListType, data: &TekSet)
        requires
            old(self)@.wf(),
        ensures
            final(self)@.wf(),
            key_set(final(self)@.list(list)) == key_set(old(self)@.list(list)).union(data@),
            list == ListType::Blacklist ==> final(self)@.greylist == old(self)@.greylist,
            list == ListType::Greylist ==> final(self)@.blacklist == old(self)@.blacklist,
    {
        match list {
            ListType::Blacklist => {
                self.blacklist.extend(data);
            },
            ListType::Greylist => {
                self.greylist.extend(data);
            },
        }
    }

    pub fn blacklist(&self) -> (r: &TekSet)
        ensures
            r.elements() == self@.blacklist,
            r@ == key_set(self@.blacklist),
            r.wf() == distinct(self@.blacklist),
    {
        &self.blacklist
    }

    pub fn greylist(&self) -> (r: &TekSet)
        ensures
            r.elements() == self@.greylist,
            r@ == key_set(self@.greylist),
            r.wf() == distinct(self@.greylist),
    {
        &self.greylist
    }

    /// The blacklist and the greylist, taken apart.
    pub fn to_data(self) -> (r: (TekSet, TekSet))
        ensures
            r.0.elements() == self@.blacklist,
            r.1.elements() == self@.greylist,
            r.0.wf() == distinct(self@.blacklist),
            r.1.wf() == distinct(self@.greylist),
    {
        (self.blacklist, self.greylist)
    }
}

impl Clone for ComputationState {
    fn clone(&self) -> (r: Self)
        ensures
            r@ == self@,
    {
        ComputationState { blacklist: self.blacklist.clone(), greylist: self.greylist.clone() }
    }
}

/// A chunk as a value: the time that it covers and, in the order in which the
/// computations came in, the number and the lists of each.
pub struct ChunkView {
    pub covers: TimeInterval,
    pub data: Seq<(ComputationId, ComputationStateView)>,
}

impl ChunkView {
    /// No computation occurs twice, and no list holds a key twice.
    pub open spec fn wf(self) -> bool {
        &&& forall|i: int, j: int|
            0 <= i < j < self.data.len() ==> (#[trigger] self.data[i]).0 != (#[trigger] self.data[j]).0
        &&& forall|i: int| 0 <= i < self.data.len() ==> (#[trigger] self.data[i]).1.wf()
    }

    /// Whether the chunk holds anything of the computation `id`.
    pub open spec fn has(self, id: ComputationId) -> bool {
        exists|i: int| 0 <= i < self.data.len() && (#[trigger] self.data[i]).0 == id
    }

    /// Where the chunk holds the lists of the computation `id`.
    pub open spec fn place_of(self, id: ComputationId) -> int {
        choose|i: int| 0 <= i < self.data.len() && (#[trigger] self.data[i]).0 == id
    }

    /// The keys on the list `list` of the computation `id`, each given by the start of
    /// its rolling period and its bytes; none where the chunk holds nothing of the
    /// computation.
    pub open spec fn keys_of(self, list: ListType, id: ComputationId) -> Set<(int, Seq<u8>)> {
        if self.has(id) {
            key_set(self.data[self.place_of(id)].1.list(list))
        } else {
            Set::empty()
        }
    }

    /// The lists of a computation that the chunk holds are those at its place.
    pub proof fn lemma_place(self, i: int)
        requires
            self.wf(),
            0 <= i < self.data.len(),
        ensures
            self.has(self.data[i].0),
            self.place_of(self.data[i].0) == i,
    {
        let p = self.place_of(self.data[i].0);
        if p < i {
            assert(self.data[p].0 != self.data[i].0);
        } else if i < p {
            assert(self.data[i].0 != self.data[p].0);
        }
    }
}

/// What the diagnosis server collected during one stretch of time: for each computation
/// the keys that were put on its two lists.
#[derive(Debug)]
pub struct Chunk {
    pub(crate) covers: TimeInterval,
    pub(crate) data: Vec<(ComputationId, ComputationState)>,
}

impl View for Chunk {
    type V = ChunkView;

    open(crate) spec fn view(&self) -> ChunkView {
        ChunkView {
            covers: self.covers,
            data: Seq::new(self.data@.len(), |i: int| (self.data@[i].0, self.data@[i].1@)),
        }
    }
}

impl Chunk {
    /// An empty chunk that covers `covers`.
    pub fn new(covers: TimeInterval) -> (r: Self)
        ensures
            r@.wf(),
            r@.covers == covers,
            r@.data == Seq::<(ComputationId, ComputationStateView)>::empty(),
    {
        let r = Chunk { covers, data: Vec::new() };
        assert(r@.data =~= Seq::<(ComputationId, ComputationStateView)>::empty());
        r
    }

    /// An empty chunk that covers the stretch of the same length after this one.
    pub fn next_chunk(&self) -> (r: Self)
        requires
            self@.covers.end() + (self@.covers.end() - self@.covers.start()) <= i128::MAX,
        ensures
            r@.wf(),
            r@.covers.wf(),
            r@.covers.start() == self@.covers.end(),
            r@.covers.end() - r@.covers.start() == self@.covers.end() - self@.covers.start(),
            r@.data == Seq::<(ComputationId, ComputationStateView)>::empty(),
    {
        Self::new(self.covers.next_interval())
    }

    /// Puts the keys of `data` on the list `list` of the computation `computation_id`,
    /// which the chunk holds from then on.
    #[verifier::rlimit(30)]
    pub fn insert(&mut self, list: ListType, computation_id: ComputationId, data: &TekSet)
        requires
            old(self)@.wf(),
        ensures
            final(self)@.wf(),
            final(self)@.covers == old(self)@.covers,
            forall|id: ComputationId| #[trigger]
                final(self)@.has(id) == (old(self)@.has(id) || id == computation_id),
            forall|l: ListType, id: ComputationId| #[trigger]
                final(self)@.keys_of(l, id) == if l == list && id == computation_id {
                    old(self)@.keys_of(l, id).union(data@)
                } else {
                    old(self)@.keys_of(l, id)
                },
    {
        let mut i: usize = 0;
        while i < self.data.len() && self.data[i].0 != computation_id
            invariant
                i <= self.data@.len(),
                *self == *old(self),
                forall|j: int| 0 <= j < i ==> (#[trigger] self@.data[j]).0 != computation_id,
            decreases self.data@.len() - i,
        {
            i += 1;
        }
        let found: bool = i < self.data.len();
        let ghost before = old(self)@;
        proof {
            if found {
                assert(before.data[i as int].0 == computation_id);
                before.lemma_place(i as int);
            } else {
                assert(!before.has(computation_id));
            }
        }
        let mut entry: (ComputationId, ComputationState) = if found {
            self.data.remove(i)
        } else {
            (computation_id, ComputationState::new())
        };
        let ghost state_before = entry.1@;
        proof {
            if found {
                assert(state_before == before.data[i as int].1);
            }
            assert(state_before.wf());
            assert(key_set(state_before.list(ListType::Blacklist)) =~= before.keys_of(
                ListType::Blacklist,
                computation_id,
            ));
            assert(key_set(state_before.list(ListType::Greylist)) =~= before.keys_of(
                ListType::Greylist,
                computation_id,
            ));
        }
        entry.1.insert(list, data);
        let ghost state_after = entry.1@;
        self.data.insert(i, entry);
        proof {
            let after = final(self)@;
            assert(after.data.len() == if found {
                before.data.len()
            } else {
                before.data.len() + 1
            });
            assert(after.data[i as int] == (computation_id, state_after));
            assert forall|j: int| 0 <= j < before.data.len() && j != i implies (
            #[trigger] after.data[j]) == before.data[j] by {}
            assert forall|a: int, b: int| 0 <= a < b < after.data.len() implies (
            #[trigger] after.data[a]).0 != (#[trigger] after.data[b]).0 by {
                if a != i && b != i {
                    assert(before.data[a].0 != before.data[b].0);
                }
            }
            assert forall|a: int| 0 <= a < after.data.len() implies (#[trigger] after.data[a]).1.wf() by {
                if a != i {
                    assert(before.data[a].1.wf());
                }
            }
            assert(after.wf());
            after.lemma_place(i as int);
            assert forall|id: ComputationId| #[trigger]
                after.has(id) == (before.has(id) || id == computation_id) by {
                if after.has(id) && id != computation_id {
                    let p = after.place_of(id);
                    assert(before.data[p].0 == id);
                }
                if before.has(id) && id != computation_id {
                    let p = before.place_of(id);
                    assert(after.data[p].0 == id);
                }
            }
            assert forall|l: ListType, id: ComputationId| #[trigger]
                after.keys_of(l, id) == if l == list && id == computation_id {
                    before.keys_of(l, id).union(data@)
                } else {
                    before.keys_of(l, id)
                } by {
                if id == computation_id {
                    if l != list {
                        assert(state_after.list(l) == state_before.list(l));
                    }
                } else if before.has(id) {
                    let p = before.place_of(id);
                    assert(after.data[p] == before.data[p]);
                    after.lemma_place(p);
                    assert(after.place_of(id) == p);
                }
            }
        }
    }

    pub fn covers(&self) -> (r: &TimeInterval)
        ensures
            *r == self@.covers,
    {
        &self.covers
    }

    /// The number and the lists of each computation that the chunk holds.
    pub fn data(&self) -> (r: &Vec<(ComputationId, ComputationState)>)
        ensures
            r@.len() == self@.data.len(),
            forall|i: int|
                0 <= i < r@.len() ==> (#[trigger] r@[i]).0 == self@.data[i].0 && r@[i].1@
                    == self@.data[i].1,
    {
        &self.data
    }

    /// The lists of the computation `computation_id`, if the chunk holds any.
    pub fn get(&self, computation_id: ComputationId) -> (r: Option<&ComputationState>)
        requires
            self@.wf(),
        ensures
            r is Some == self@.has(computation_id),
            r is Some ==> r->0@ == self@.data[self@.place_of(computation_id)].1,
    {
        let mut i: usize = 0;
        while i < self.data.len()
            invariant
                i <= self.data@.len(),
                self@.wf(),
                forall|j: int| 0 <= j < i ==> (#[trigger] self@.data[j]).0 != computation_id,
            decreases self.data@.len() - i,
        {
            if self.data[i].0 == computation_id {
                proof {
                    assert(self@.data[i as int].0 == computation_id);
                    self@.lemma_place(i as int);
                }
                return Some(&self.data[i].1);
            }
            i += 1;
        }
        None
    }
}

impl Clone for Chunk {
    fn clone(&self) -> (r: Self)
        ensures
            r@ == self@,
    {
        let mut data: Vec<(ComputationId, ComputationState)> = Vec::new();
        let mut i: usize = 0;
        while i < self.data.len()
            invariant
                i <= self.data@.len(),
                data@.len() == i,
                forall|j: int|
                    0 <= j < i ==> (#[trigger] data@[j]).0 == self.data@[j].0 && data@[j].1@
                        == self.data@[j].1@,
            decreases self.data@.len() - i,
        {
            data.push((self.data[i].0, self.data[i].1.clone()));
            i += 1;
        }
        let r = Chunk { covers: self.covers, data };
        assert(r@.data =~= self@.data);
        r
    }
}

} // verus!
