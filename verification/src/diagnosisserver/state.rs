use crate::config::DiagnosisServerConfig;
use crate::diagnosis_server_state::Chunk;
use crate::diagnosis_server_state::ChunkView;
use crate::diagnosis_server_state::ComputationStateView;
use crate::diagnosis_server_state::ListType;
use crate::primitives::ComputationId;
use crate::rpcs::BlacklistUploadParams;
use crate::rpcs::DownloadParams;
use crate::rpcs::GreylistUploadParams;
use crate::tek_set::TekSet;
use crate::time::Duration;
use crate::time::TimeInterval;
use crate::time::Timestamp;
use crate::time::MAX_ALIGNED_NANOS;
use crate::time::NANOS_PER_DAY;
use crate::time::NANOS_PER_INTERVAL;
use std::collections::VecDeque;
use vstd::prelude::*;

verus! {

/// Whether `a <= b - c`, whatever the three numbers are.
fn at_most_difference(a: i128, b: i128, c: i128) -> (r: bool)
    ensures
        r == (a <= b - c),
{
    if c >= 0 {
        b >= i128::MIN + c && a <= b - c
    } else {
        b > i128::MAX + c || a <= b - c
    }
}

/// The chunks that are done, the newest first, kept for the retention period.
#[derive(Debug)]
pub struct Chunks {
    pub(crate) retention_period: Duration,
    pub(crate) inner: VecDeque<Chunk>,
}

impl Chunks {
    /// The chunks as values, the newest first.
    pub open(crate) spec fn chunks(self) -> Seq<ChunkView> {
        Seq::new(self.inner@.len(), |i: int| self.inner@[i]@)
    }

    /// For how long a chunk is kept, in nanoseconds.
    pub open(crate) spec fn retention(self) -> int {
        self.retention_period@
    }

    /// Whether every chunk of `chunks` is in order and covers the stretch of time right
    /// before the chunk in front of it.
    pub open spec fn in_sequence(chunks: Seq<ChunkView>) -> bool {
        &&& forall|i: int| 0 <= i < chunks.len() ==> (#[trigger] chunks[i]).wf() && chunks[i].covers.wf()
        &&& forall|i: int|
            0 <= i && i + 1 < chunks.len() ==> (#[trigger] chunks[i + 1]).covers.end()
                == chunks[i].covers.start()
    }

    /// The chunks are in order, the newest first, and leave no gap.
    pub open spec fn wf(self) -> bool {
        Self::in_sequence(self.chunks())
    }

    /// The keys that the done chunks hold on the list `list` of the computation `id`.
    pub open spec fn listed(self, list: ListType, id: ComputationId) -> Set<(int, Seq<u8>)> {
        Set::new(
            |key: (int, Seq<u8>)|
                exists|i: int|
                    0 <= i < self.chunks().len() && (#[trigger] self.chunks()[i]).keys_of(
                        list,
                        id,
                    ).contains(key),
        )
    }

    /// What is kept of `chunks` at the instant `now`: all of them, but for the oldest
    /// where it ended a retention period ago or earlier.
    pub open spec fn pruned(chunks: Seq<ChunkView>, now: int, retention: int) -> Seq<ChunkView> {
        if chunks.len() > 0 && chunks.last().covers.end() <= now - retention {
            chunks.drop_last()
        } else {
            chunks
        }
    }

    /// How many of the newest chunks a participant gets who has everything up to `from`:
    /// none where the newest chunk starts at `from` or before, and otherwise those in
    /// front of the first chunk that covers `from`.
    pub open spec fn fresh(chunks: Seq<ChunkView>, from: int, count: int) -> bool {
        &&& 0 <= count <= chunks.len()
        &&& (chunks.len() == 0 || from >= chunks[0].covers.start()) ==> count == 0
        &&& forall|i: int| 0 <= i < count ==> !(#[trigger] chunks[i]).covers.holds(from)
        &&& (chunks.len() > 0 && from < chunks[0].covers.start() && count < chunks.len())
            ==> chunks[count].covers.holds(from)
    }

    /// No done chunks, to be kept for `retention_period` each.
    pub fn new(retention_period: Duration) -> (r: Self)
        ensures
            r.wf(),
            r.retention() == retention_period@,
            r.chunks() == Seq::<ChunkView>::empty(),
    {
        let r = Chunks { retention_period, inner: VecDeque::new() };
        assert(r.chunks() =~= Seq::<ChunkView>::empty());
        r
    }

    /// The number of done chunks.
    pub fn len(&self) -> (n: usize)
        ensures
            n == self.chunks().len(),
    {
        self.inner.len()
    }

    /// The done chunk at place `index`, counted from the newest.
    pub fn get(&self, index: usize) -> (r: &Chunk)
        requires
            index < self.chunks().len(),
        ensures
            r@ == self.chunks()[index as int],
    {
        &self.inner[index]
    }

    /// Takes in the chunk that was just done, at the present moment.
    pub fn add_done_chunk(&mut self, chunk: Chunk)
        requires
            old(self).wf(),
            chunk@.wf(),
            old(self).chunks().len() > 0 ==> old(self).chunks()[0].covers.end()
                == chunk@.covers.start(),
        ensures
            final(self).wf(),
            final(self).retention() == old(self).retention(),
            final(self).chunks() == seq![chunk@] + old(self).chunks() || final(self).chunks() == (
            seq![chunk@] + old(self).chunks()).drop_last(),
    {
        self.add_done_chunk_at(chunk, Timestamp::now())
    }

    /// Takes in the chunk that was just done, at the instant `now`: it becomes the
    /// newest, and the oldest chunk leaves where it ended a retention period before
    /// `now` or earlier.
    #[verifier::rlimit(30)]
    pub fn add_done_chunk_at(&mut self, chunk: Chunk, now: Timestamp)
        requires
            old(self).wf(),
            chunk@.wf(),
            old(self).chunks().len() > 0 ==> old(self).chunks()[0].covers.end()
                == chunk@.covers.start(),
        ensures
            final(self).wf(),
            final(self).retention() == old(self).retention(),
            final(self).chunks() == Self::pruned(
                seq![chunk@] + old(self).chunks(),
                now@,
                old(self).retention(),
            ),
    {
        proof {
            use_type_invariant(&chunk.covers);
        }
        let ghost pushed = seq![chunk@] + old(self).chunks();
        self.inner.push_front(chunk);
        assert(self.chunks() =~= pushed);
        proof {
            assert forall|i: int| 0 <= i && i + 1 < pushed.len() implies (#[trigger] pushed[i
                + 1]).covers.end() == pushed[i].covers.start() by {
                if i > 0 {
                    assert(old(self).chunks()[i - 1 + 1].covers.end() == old(
                        self,
                    ).chunks()[i - 1].covers.start());
                }
            }
            assert forall|i: int| 0 <= i < pushed.len() implies (#[trigger] pushed[i]).wf()
                && pushed[i].covers.wf() by {
                if i > 0 {
                    assert(old(self).chunks()[i - 1].wf());
                }
            }
        }
        let last: usize = self.inner.len() - 1;
        if at_most_difference(
            self.inner[last].covers.to_excluding().nanos(),
            now.nanos(),
            self.retention_period.num_nanoseconds(),
        ) {
            self.inner.pop_back();
            assert(self.chunks() =~= pushed.drop_last());
            proof {
                let kept = pushed.drop_last();
                assert forall|i: int| 0 <= i && i + 1 < kept.len() implies (#[trigger] kept[i
                    + 1]).covers.end() == kept[i].covers.start() by {
                    assert(pushed[i + 1].covers.end() == pushed[i].covers.start());
                }
                assert forall|i: int| 0 <= i < kept.len() implies (#[trigger] kept[i]).wf()
                    && kept[i].covers.wf() by {
                    assert(pushed[i].wf());
                }
            }
        }
    }

    /// The chunks for a participant who has everything up to `from`: the newest first,
    /// down to the chunk that covers `from`, which is left out with all that is older;
    /// nothing where the newest chunk starts at `from` or before.
    pub fn get_chunks(&self, from: &Timestamp) -> (r: Vec<Chunk>)
        requires
            self.wf(),
        ensures
            Self::fresh(self.chunks(), from@, r@.len() as int),
            forall|i: int| 0 <= i < r@.len() ==> (#[trigger] r@[i])@ == self.chunks()[i],
            forall|i: int| 0 <= i < r@.len() ==> (#[trigger] r@[i])@.covers.start() > from@,
    {
        let mut r: Vec<Chunk> = Vec::new();
        if self.inner.len() == 0 {
            return r;
        }
        if !self.inner[0].covers.before(from) {
            return r;
        }
        let mut i: usize = 0;
        while i < self.inner.len() && !self.inner[i].covers.contains(from)
            invariant
                i <= self.inner@.len(),
                self.wf(),
                r@.len() == i,
                self.chunks().len() > 0,
                from@ < self.chunks()[0].covers.start(),
                forall|j: int| 0 <= j < i ==> (#[trigger] r@[j])@ == self.chunks()[j],
                forall|j: int| 0 <= j < i ==> !(#[trigger] self.chunks()[j]).covers.holds(from@),
                forall|j: int| 0 <= j < i ==> (#[trigger] self.chunks()[j]).covers.start() > from@,
            decreases self.inner@.len() - i,
        {
            proof {
                let chunks = self.chunks();
                assert(!chunks[i as int].covers.holds(from@));
                if i > 0 {
                    assert(chunks[i - 1 + 1].covers.end() == chunks[i - 1].covers.start());
                    assert(chunks[i - 1].covers.start() > from@);
                }
                assert(chunks[i as int].covers.start() > from@);
            }
            r.push(self.inner[i].clone());
            i += 1;
        }
        proof {
            if i < self.inner@.len() {
                assert(self.chunks()[i as int].covers.holds(from@));
            }
        }
        r
    }

    /// Splits `candidates` for the list `list` of the computation `computation_id`: into
    /// the keys that no done chunk holds there yet, and those that one holds.
    #[verifier::rlimit(30)]
    pub fn deduplicate(&self, list: ListType, computation_id: ComputationId, candidates: &TekSet) -> (r:
        (TekSet, TekSet))
        requires
            self.wf(),
            candidates.wf(),
        ensures
            r.0.wf(),
            r.1.wf(),
            r.0@ == candidates@.difference(self.listed(list, computation_id)),
            r.1@ == candidates@.intersect(self.listed(list, computation_id)),
    {
        let mut deduplicated: TekSet = candidates.clone();
        let mut i: usize = 0;
        while i < self.inner.len()
            invariant
                i <= self.inner@.len(),
                self.wf(),
                deduplicated.wf(),
                forall|key: (int, Seq<u8>)|
                    deduplicated@.contains(key) <==> (candidates@.contains(key) && forall|j: int|
                        0 <= j < i ==> !(#[trigger] self.chunks()[j]).keys_of(
                            list,
                            computation_id,
                        ).contains(key)),
            decreases self.inner@.len() - i,
        {
            let ghost before = deduplicated@;
            let ghost chunk = self.chunks()[i as int];
            assert(chunk.wf());
            match self.inner[i].get(computation_id) {
                Some(computation_state) => {
                    let listed: &TekSet = match list {
                        ListType::Blacklist => computation_state.blacklist(),
                        ListType::Greylist => computation_state.greylist(),
                    };
                    assert(listed@ == chunk.keys_of(list, computation_id));
                    deduplicated = deduplicated.difference(listed);
                },
                None => {
                    assert(chunk.keys_of(list, computation_id) == Set::<(int, Seq<u8>)>::empty());
                },
            }
            proof {
                assert forall|key: (int, Seq<u8>)|
                    deduplicated@.contains(key) <==> (candidates@.contains(key) && forall|j: int|
                        0 <= j < i + 1 ==> !(#[trigger] self.chunks()[j]).keys_of(
                            list,
                            computation_id,
                        ).contains(key)) by {
                    assert(deduplicated@.contains(key) == (before.contains(key) && !chunk.keys_of(
                        list,
                        computation_id,
                    ).contains(key)));
                    if deduplicated@.contains(key) {
                        assert forall|j: int| 0 <= j < i + 1 implies !(
                        #[trigger] self.chunks()[j]).keys_of(list, computation_id).contains(key) by {
                            if j == i {
                            }
                        }
                    }
                    if candidates@.contains(key) && forall|j: int|
                        0 <= j < i + 1 ==> !(#[trigger] self.chunks()[j]).keys_of(
                            list,
                            computation_id,
                        ).contains(key) {
                        assert(!self.chunks()[i as int].keys_of(list, computation_id).contains(
                            key,
                        ));
                    }
                }
            }
            i += 1;
        }
        proof {
            assert forall|key: (int, Seq<u8>)|
                deduplicated@.contains(key) == candidates@.difference(
                    self.listed(list, computation_id),
                ).contains(key) by {
                if self.listed(list, computation_id).contains(key) {
                    let j = choose|j: int|
                        0 <= j < self.chunks().len() && (#[trigger] self.chunks()[j]).keys_of(
                            list,
                            computation_id,
                        ).contains(key);
                    assert(!deduplicated@.contains(key));
                }
            }
            assert(deduplicated@ =~= candidates@.difference(self.listed(list, computation_id)));
        }
        let duplicates: TekSet = candidates.difference(&deduplicated);
        assert(duplicates@ =~= candidates@.intersect(self.listed(list, computation_id)));
        (deduplicated, duplicates)
    }
}

/// The state of the diagnosis server: the chunk that is being filled, the chunks that
/// are done, and the number that the next computation gets.
#[derive(Debug)]
pub struct DiagnosisServerState {
    pub(crate) current_chunk: Chunk,
    pub(crate) done_chunks: Chunks,
    pub(crate) computation_id_seed: u32,
    pub(crate) rotated_at: Timestamp,
}

impl DiagnosisServerState {
    /// The chunk that is being filled.
    pub open(crate) spec fn current(self) -> ChunkView {
        self.current_chunk@
    }

    /// The chunks that are done, the newest first.
    pub open(crate) spec fn done(self) -> Seq<ChunkView> {
        self.done_chunks.chunks()
    }

    /// For how long a done chunk is kept, in nanoseconds.
    pub open(crate) spec fn retention(self) -> int {
        self.done_chunks.retention()
    }

    /// The number that the next computation gets.
    pub open(crate) spec fn seed(self) -> int {
        self.computation_id_seed as int
    }

    /// The instant at which the server last moved on to a new chunk, or at which it
    /// started.
    pub open(crate) spec fn last_rotation(self) -> int {
        self.rotated_at@
    }

    /// The keys that the done chunks hold on the list `list` of the computation `id`.
    pub open(crate) spec fn sealed(self, list: ListType, id: ComputationId) -> Set<(int, Seq<u8>)> {
        self.done_chunks.listed(list, id)
    }

    /// All chunks are in order, and the done chunks lead up to the current one without a
    /// gap.
    pub open spec fn wf(self) -> bool {
        &&& self.current().wf()
        &&& self.current().covers.wf()
        &&& Chunks::in_sequence(self.done())
        &&& self.done().len() > 0 ==> self.done()[0].covers.end() == self.current().covers.start()
        &&& self.done().len() > 0 ==> self.current().covers.start() <= self.last_rotation()
    }

    /// What an upload changes: the keys of `uploaded` that no done chunk holds on the
    /// list `list` of the computation `id` come onto that list of the current chunk, and
    /// nothing else changes; where all of them are held already, the current chunk stays
    /// as it is.
    pub open spec fn uploaded(
        self,
        after: Self,
        list: ListType,
        id: ComputationId,
        uploaded: Set<(int, Seq<u8>)>,
    ) -> bool {
        let fresh = uploaded.difference(self.sealed(list, id));
        &&& after.done() == self.done()
        &&& after.retention() == self.retention()
        &&& after.last_rotation() == self.last_rotation()
        &&& after.current().covers == self.current().covers
        &&& fresh == Set::<(int, Seq<u8>)>::empty() ==> after.current() == self.current()
        &&& forall|other: ComputationId| #[trigger]
            after.current().has(other) == (self.current().has(other) || (other == id && fresh
                != Set::<(int, Seq<u8>)>::empty()))
        &&& forall|l: ListType, other: ComputationId| #[trigger]
            after.current().keys_of(l, other) == if l == list && other == id {
                self.current().keys_of(l, other).union(fresh)
            } else {
                self.current().keys_of(l, other)
            }
    }

    /// A server without computations whose current chunk is the one of the present
    /// moment.
    pub fn new(config: &DiagnosisServerConfig) -> (r: Self)
        requires
            config.params.chunk_period@ > 0,
        ensures
            r.wf(),
            r.seed() == 0,
            r.done() == Seq::<ChunkView>::empty(),
            r.current().data == Seq::<(ComputationId, ComputationStateView)>::empty(),
            r.current().covers.end() - r.current().covers.start() == config.params.chunk_period@,
            r.retention() == config.params.infection_period@ * config.params.tek_rolling_period@
                * NANOS_PER_INTERVAL,
    {
        Self::new_at(config, Timestamp::now())
    }

    /// A server without computations whose current chunk is the one that covers `now`.
    pub fn new_at(config: &DiagnosisServerConfig, now: Timestamp) -> (r: Self)
        requires
            config.params.chunk_period@ > 0,
            now@ - NANOS_PER_DAY >= i128::MIN,
            now@ + config.params.chunk_period@ <= i128::MAX,
        ensures
            r.wf(),
            r.seed() == 0,
            r.done() == Seq::<ChunkView>::empty(),
            r.current().data == Seq::<(ComputationId, ComputationStateView)>::empty(),
            r.current().covers.start() == TimeInterval::aligned_start(
                now@,
                config.params.chunk_period@,
            ),
            r.current().covers.end() - r.current().covers.start() == config.params.chunk_period@,
            r.current().covers.holds(now@),
            r.last_rotation() == now@,
            r.retention() == config.params.infection_period@ * config.params.tek_rolling_period@
                * NANOS_PER_INTERVAL,
    {
        let chunk_period: Duration = Duration::from(config.params.chunk_period);
        let retention_period: Duration = config.params.infection_period.as_duration(
            config.params.tek_rolling_period,
        );
        let done_chunks = Chunks::new(retention_period);
        let current_chunk = Chunk::new(TimeInterval::aligned_at(now, chunk_period));
        DiagnosisServerState { done_chunks, current_chunk, computation_id_seed: 0, rotated_at: now }
    }

    /// How long it is from `now` until the current chunk is done: no time where it is
    /// done already, and never more than the longest duration there is.
    pub fn time_to_next_deadline(&self, now: Timestamp) -> (r: Duration)
        ensures
            r@ == if now@ >= self.current().covers.end() {
                0
            } else if self.current().covers.end() - now@ > i128::MAX {
                i128::MAX as int
            } else {
                self.current().covers.end() - now@
            },
    {
        let deadline: i128 = self.current_chunk.covers().to_excluding().nanos();
        let at: i128 = now.nanos();
        if at >= deadline {
            Duration::zero()
        } else if at >= 0 || deadline <= i128::MAX + at {
            Duration::nanoseconds(deadline - at)
        } else {
            Duration::nanoseconds(i128::MAX)
        }
    }

    /// Moves on to the next chunk if the current one is done at the instant `now`, and
    /// says whether it did: the current chunk then becomes the newest of the done
    /// chunks, of which the oldest leaves where its time is up, and an empty chunk for
    /// the next stretch of time takes its place. Before that instant nothing changes.
    pub fn rotate(&mut self, now: Timestamp) -> (rotated: bool)
        requires
            old(self).wf(),
            old(self).current().covers.end() + (old(self).current().covers.end() - old(
                self,
            ).current().covers.start()) <= i128::MAX,
        ensures
            final(self).wf(),
            rotated == (now@ >= old(self).current().covers.end()),
            !rotated ==> *final(self) == *old(self),
            rotated ==> {
                &&& final(self).last_rotation() == now@
                &&& final(self).seed() == old(self).seed()
                &&& final(self).retention() == old(self).retention()
                &&& final(self).current().covers.start() == old(self).current().covers.end()
                &&& final(self).current().covers.end() - final(self).current().covers.start()
                    == old(self).current().covers.end() - old(self).current().covers.start()
                &&& final(self).current().data == Seq::<
                    (ComputationId, ComputationStateView),
                >::empty()
                &&& final(self).done() == Chunks::pruned(
                    seq![old(self).current()] + old(self).done(),
                    now@,
                    old(self).retention(),
                )
            },
    {
        if !self.current_chunk.covers().after(&now) {
            return false;
        }
        let mut done: Chunk = self.current_chunk.next_chunk();
        std::mem::swap(&mut self.current_chunk, &mut done);
        self.done_chunks.add_done_chunk_at(done, now);
        self.rotated_at = now;
        proof {
            let pushed = seq![old(self).current()] + old(self).done();
            assert(pushed[0].covers.end() == self.current().covers.start());
            if self.done().len() > 0 {
                assert(self.done()[0] == pushed[0]);
            }
        }
        true
    }

    /// Starts a computation for the keys of a participant who tested positive, and
    /// returns its number: the keys come onto the blacklist of the computation in the
    /// current chunk.
    pub fn add_to_blacklist(&mut self, data: &BlacklistUploadParams) -> (computation_id:
        ComputationId)
        requires
            old(self).wf(),
            old(self).seed() < u32::MAX,
            data.diagnosis_keys.wf(),
        ensures
            final(self).wf(),
            computation_id@ == old(self).seed(),
            final(self).seed() == old(self).seed() + 1,
            old(self).uploaded(
                *final(self),
                ListType::Blacklist,
                computation_id,
                data.diagnosis_keys@,
            ),
    {
        let computation_id: ComputationId = self.next_computation_id();
        self.upload(ListType::Blacklist, computation_id, &data.diagnosis_keys);
        computation_id
    }

    /// Takes in the keys that a pooling node announces: they come onto the greylist of
    /// its computation in the current chunk.
    pub fn add_to_greylist(&mut self, data: &GreylistUploadParams)
        requires
            old(self).wf(),
            data.diagnosis_keys.wf(),
        ensures
            final(self).wf(),
            final(self).seed() == old(self).seed(),
            old(self).uploaded(
                *final(self),
                ListType::Greylist,
                data.computation_id,
                data.diagnosis_keys@,
            ),
    {
        self.upload(ListType::Greylist, data.computation_id, &data.diagnosis_keys);
    }

    /// Puts those of `keys` that no done chunk holds on the list `list` of the
    /// computation `computation_id` onto that list of the current chunk.
    fn upload(&mut self, list: ListType, computation_id: ComputationId, keys: &TekSet)
        requires
            old(self).wf(),
            keys.wf(),
        ensures
            final(self).wf(),
            final(self).seed() == old(self).seed(),
            old(self).uploaded(*final(self), list, computation_id, keys@),
    {
        let (deduplicated, _duplicates) = self.done_chunks.deduplicate(list, computation_id, keys);
        if !deduplicated.is_empty() {
            self.current_chunk.insert(list, computation_id, &deduplicated);
        } else {
            proof {
                assert forall|l: ListType, other: ComputationId| #[trigger]
                    self.current().keys_of(l, other) == if l == list && other == computation_id {
                        old(self).current().keys_of(l, other).union(deduplicated@)
                    } else {
                        old(self).current().keys_of(l, other)
                    } by {
                    assert(old(self).current().keys_of(l, other).union(
                        Set::<(int, Seq<u8>)>::empty(),
                    ) =~= old(self).current().keys_of(l, other));
                }
            }
        }
    }

    /// The chunks for a participant who has everything up to `data.from`: done chunks
    /// only, the newest first, each of which starts after `data.from` and ended when the
    /// current chunk started or before, which is no later than the latest rotation.
    pub fn request_chunks(&self, data: &DownloadParams) -> (r: Vec<Chunk>)
        requires
            self.wf(),
        ensures
            Chunks::fresh(self.done(), data.from@, r@.len() as int),
            forall|i: int| 0 <= i < r@.len() ==> (#[trigger] r@[i])@ == self.done()[i],
            forall|i: int| 0 <= i < r@.len() ==> (#[trigger] r@[i])@.covers.start() > data.from@,
            forall|i: int|
                0 <= i < r@.len() ==> (#[trigger] r@[i])@.covers.end()
                    <= self.current().covers.start(),
            forall|i: int|
                0 <= i < r@.len() ==> (#[trigger] r@[i])@.covers.end() <= self.last_rotation(),
    {
        let r = self.done_chunks.get_chunks(&data.from);
        proof {
            Self::lemma_done_before_current(self.done(), self.current().covers.start());
        }
        r
    }

    /// Done chunks that lead up to an instant without a gap all end at that instant or
    /// before.
    proof fn lemma_done_before_current(done: Seq<ChunkView>, start: int)
        requires
            Chunks::in_sequence(done),
            done.len() > 0 ==> done[0].covers.end() == start,
        ensures
            forall|i: int| 0 <= i < done.len() ==> (#[trigger] done[i]).covers.end() <= start,
        decreases done.len(),
    {
        if done.len() > 0 {
            let rest = done.drop_first();
            assert forall|i: int| 0 <= i < rest.len() implies (#[trigger] rest[i]).wf()
                && rest[i].covers.wf() by {
                assert(done[i + 1].wf());
            }
            assert forall|i: int| 0 <= i && i + 1 < rest.len() implies (#[trigger] rest[i
                + 1]).covers.end() == rest[i].covers.start() by {
                assert(done[(i + 1) + 1].covers.end() == done[i + 1].covers.start());
            }
            if rest.len() > 0 {
                assert(done[0int + 1].covers.end() == done[0int].covers.start());
                assert(done[0].covers.wf());
            }
            Self::lemma_done_before_current(rest, done[0].covers.start());
            assert forall|i: int| 0 <= i < done.len() implies (#[trigger] done[i]).covers.end()
                <= start by {
                if i > 0 {
                    assert(rest[i - 1].covers.end() <= done[0].covers.start());
                    assert(done[0].covers.wf());
                }
            }
        }
    }

    /// Hands out the number for the next computation.
    fn next_computation_id(&mut self) -> (computation_id: ComputationId)
        requires
            old(self).seed() < u32::MAX,
        ensures
            computation_id@ == old(self).seed(),
            final(self).seed() == old(self).seed() + 1,
            final(self).current_chunk == old(self).current_chunk,
            final(self).done_chunks == old(self).done_chunks,
            final(self).rotated_at == old(self).rotated_at,
    {
        let current: u32 = self.computation_id_seed;
        self.computation_id_seed += 1;
        ComputationId::from(current)
    }

    /// The chunk that is being filled.
    pub fn current_chunk(&self) -> (r: &Chunk)
        ensures
            r@ == self.current(),
    {
        &self.current_chunk
    }

    /// The chunks that are done.
    pub fn done_chunks(&self) -> (r: &Chunks)
        ensures
            r.chunks() == self.done(),
            r.retention() == self.retention(),
    {
        &self.done_chunks
    }

    /// The instant at which the server last moved on to a new chunk, or at which it
    /// started.
    pub fn rotated_at(&self) -> (r: Timestamp)
        ensures
            r@ == self.last_rotation(),
    {
        self.rotated_at
    }

    /// The number that the next computation gets.
    pub fn computation_id_seed(&self) -> (r: u32)
        ensures
            r == self.seed(),
    {
        self.computation_id_seed
    }
}

/// In a row of chunks that leaves no gap, a chunk ends where the chunks in front of it
/// start or before.
pub proof fn lemma_older_ends_before(chunks: Seq<ChunkView>, i: int, j: int)
    requires
        Chunks::in_sequence(chunks),
        0 <= i < j < chunks.len(),
    ensures
        chunks[j].covers.end() <= chunks[i].covers.start(),
    decreases j - i,
{
    if j == i + 1 {
        assert(chunks[i + 1].covers.end() == chunks[i].covers.start());
    } else {
        lemma_older_ends_before(chunks, i, j - 1);
        assert(chunks[(j - 1) + 1].covers.end() == chunks[j - 1].covers.start());
        assert(chunks[j - 1].covers.wf());
    }
}

/// A download hands out exactly the done chunks that start after the instant from which
/// the participant asks. So a participant that asks from the start of the newest chunk
/// that it has gets every chunk that was done since, once, and none that it has.
pub proof fn law_download_exact(chunks: Seq<ChunkView>, from: int, count: int)
    requires
        Chunks::in_sequence(chunks),
        Chunks::fresh(chunks, from, count),
    ensures
        forall|i: int|
            0 <= i < chunks.len() ==> (i < count) == ((#[trigger] chunks[i]).covers.start() > from),
{
    assert forall|i: int| 0 <= i < chunks.len() implies (i < count) == ((
    #[trigger] chunks[i]).covers.start() > from) by {
        assert(chunks[i].covers.wf());
        if from >= chunks[0].covers.start() {
            if i > 0 {
                lemma_older_ends_before(chunks, 0, i);
            }
        } else if i < count {
            lemma_fresh_start_after(chunks, from, count, i);
        } else {
            assert(chunks[count].covers.holds(from));
            if i > count {
                lemma_older_ends_before(chunks, count, i);
            }
        }
    }
}

/// Each of the chunks that a download hands out starts after the instant from which the
/// participant asks.
proof fn lemma_fresh_start_after(chunks: Seq<ChunkView>, from: int, count: int, i: int)
    requires
        Chunks::in_sequence(chunks),
        Chunks::fresh(chunks, from, count),
        0 <= i < count,
        from < chunks[0].covers.start(),
    ensures
        chunks[i].covers.start() > from,
    decreases i,
{
    if i > 0 {
        lemma_fresh_start_after(chunks, from, count, i - 1);
        assert(chunks[(i - 1) + 1].covers.end() == chunks[i - 1].covers.start());
        assert(!chunks[i].covers.holds(from));
    }
}

} // verus!
