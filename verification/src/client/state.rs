use crate::client::laws::grown;
use crate::client::laws::law_chunk_grows;
use crate::client::laws::law_chunks_grow;
use crate::client::laws::law_tek_forward_keeps;
use crate::client::laws::law_tek_match_grows;
use crate::client::laws::lemma_grown_reflexive;
use crate::client_state::BluetoothLayer;
use crate::client_state::Keys;
use crate::client_state::MatchView;
use crate::client_state::Matches;
use crate::config::ClientConfig;
use crate::config::Endpoint;
use crate::config::Participant;
use crate::config::SystemParams;
use crate::diagnosis_server_state::Chunk;
use crate::diagnosis_server_state::ChunkView;
use crate::diagnosis_server_state::ComputationStateView;
use crate::diagnosis_server_state::ListType;
use crate::error::ProtocolViolation;
use crate::primitives::ComputationId;
use crate::primitives::ExposureKeyring;
use crate::primitives::TekKeyring;
use crate::primitives::TekRollingPeriod;
use crate::primitives::TemporaryExposureKey;
use crate::primitives::Validity;
use crate::rpcs::BlacklistUploadParams;
use crate::rpcs::ForwardParams;
use crate::rpcs::GreylistUploadParams;
use crate::tek_set::distinct;
use crate::tek_set::key_set;
use crate::tek_set::seq_has;
use crate::tek_set::TekSet;
use crate::time::ExposureTime;
use crate::time::ExposureTimeSet;
use crate::time::Timestamp;
use vstd::prelude::*;

verus! {

/// What a participant is told.
#[derive(Copy, Clone, Debug, PartialEq, Eq, Structural)]
pub enum Alert {
    /// The participant met someone who tested positive, with high risk.
    HighRiskTracedContact,
    /// The participant met someone who tested positive, with low risk.
    LowRiskTracedContact,
    /// The participant was, with high risk, where someone who tested positive was with
    /// high risk; `already_traced` says whether a traced contact of high risk was told
    /// before.
    TransitiveContact { already_traced: bool },
}

/// A forward as a value.
pub struct ForwardView {
    pub computation_id: ComputationId,
    pub valid_from: int,
    pub origin: Seq<u8>,
    pub predecessor: Seq<u8>,
    pub shared_encounter_times: Set<int>,
}

/// The forward `params` as a value.
pub open spec fn forward_view(params: ForwardParams) -> ForwardView {
    ForwardView {
        computation_id: params.computation_id,
        valid_from: params.info.start(),
        origin: params.info.content().origin.tek@,
        predecessor: params.info.content().predecessor.tek@,
        shared_encounter_times: params.shared_encounter_times@,
    }
}

/// What a participant asks its surroundings to do.
#[derive(Debug)]
pub enum Action {
    /// Tell the participant.
    Raise(Alert),
    /// Keep the forwarder open for a computation period from now on.
    OpenWindow,
    /// Send the forward `params` to `endpoint`. Where the forward starts a chain, the
    /// owner of the matched key became a successor with it: `successor` is then that key,
    /// for the successor to be taken back should the forward not get through.
    Forward {
        endpoint: Endpoint,
        params: ForwardParams,
        successor: Option<Validity<TemporaryExposureKey>>,
    },
    /// Announce keys to the greylist on the diagnosis server.
    GreylistUpload(GreylistUploadParams),
    /// Announce keys to the blacklist on the diagnosis server.
    BlacklistUpload(BlacklistUploadParams),
}

/// An action as a value.
pub enum ActionView {
    Raise(Alert),
    OpenWindow,
    Forward { endpoint: Endpoint, params: ForwardView, successor: Option<(int, Seq<u8>)> },
    GreylistUpload { computation_id: ComputationId, keys: Set<(int, Seq<u8>)> },
    BlacklistUpload { keys: Set<(int, Seq<u8>)> },
}

impl View for Action {
    type V = ActionView;

    open spec fn view(&self) -> ActionView {
        match *self {
            Action::Raise(alert) => ActionView::Raise(alert),
            Action::OpenWindow => ActionView::OpenWindow,
            Action::Forward { endpoint, params, successor } => ActionView::Forward {
                endpoint,
                params: forward_view(params),
                successor: match successor {
                    Some(key) => Some(key@),
                    None => None,
                },
            },
            Action::GreylistUpload(params) => ActionView::GreylistUpload {
                computation_id: params.computation_id,
                keys: params.diagnosis_keys@,
            },
            Action::BlacklistUpload(params) => ActionView::BlacklistUpload {
                keys: params.diagnosis_keys@,
            },
        }
    }
}

impl Action {
    /// Whether the sets that the action holds are in order.
    pub open spec fn wf(self) -> bool {
        match self {
            Action::Forward { endpoint, params, successor } => params.shared_encounter_times.wf(),
            Action::GreylistUpload(params) => params.diagnosis_keys.wf(),
            Action::BlacklistUpload(params) => params.diagnosis_keys.wf(),
            _ => true,
        }
    }
}

/// The actions `actions` as values.
pub open spec fn action_views(actions: Seq<Action>) -> Seq<ActionView> {
    Seq::new(actions.len(), |i: int| actions[i]@)
}

/// A computation as a value: whether the participant started it by an upload of its
/// own, the successors in the order in which they came in, and the redlist.
pub struct ComputationView {
    pub own: bool,
    pub successors: Seq<MatchView>,
    pub redlist: Seq<Validity<TemporaryExposureKey>>,
}

impl ComputationView {
    /// Whether the participant started the computation itself, by an upload of its own
    /// keys to the blacklist, and so pools what is forwarded in it.
    pub open spec fn is_own(self) -> bool {
        self.own
    }

    /// Whether a successor with the key `key` is known.
    pub open spec fn has_successor(self, key: (int, Seq<u8>)) -> bool {
        exists|i: int| 0 <= i < self.successors.len() && (#[trigger] self.successors[i]).key == key
    }

    /// The computation with `successor` added, unless a successor with the same key is
    /// known already.
    pub open spec fn with_successor(self, successor: MatchView) -> ComputationView {
        if self.has_successor(successor.key) {
            self
        } else {
            ComputationView {
                own: self.own,
                successors: self.successors.push(successor),
                redlist: self.redlist,
            }
        }
    }

    /// Where the successor with the key `key` stands among the successors.
    pub open spec fn successor_place(self, key: (int, Seq<u8>)) -> int {
        choose|i: int| 0 <= i < self.successors.len() && (#[trigger] self.successors[i]).key == key
    }

    /// The computation without the successor with the key `key`.
    pub open spec fn without_successor(self, key: (int, Seq<u8>)) -> ComputationView {
        if self.has_successor(key) {
            ComputationView {
                own: self.own,
                successors: self.successors.remove(self.successor_place(key)),
                redlist: self.redlist,
            }
        } else {
            self
        }
    }

    /// The computation with `key` on the redlist, unless it is there already.
    pub open spec fn with_redlisted(self, key: Validity<TemporaryExposureKey>) -> ComputationView {
        if seq_has(self.redlist, key@) {
            self
        } else {
            ComputationView {
                own: self.own,
                successors: self.successors,
                redlist: self.redlist.push(key),
            }
        }
    }

    /// A computation that the participant just started by an upload of its own: without
    /// successors and with an empty redlist.
    pub open spec fn started() -> ComputationView {
        ComputationView { own: true, successors: Seq::empty(), redlist: Seq::empty() }
    }

    /// A computation that someone else started and of which nothing is known yet.
    pub open spec fn relayed() -> ComputationView {
        ComputationView { own: false, successors: Seq::empty(), redlist: Seq::empty() }
    }
}

/// What a participant knows of one computation: the successors to which forwards go
/// on, and the redlist of predecessors that were admitted.
#[derive(Debug)]
pub struct Computation {
    pub(crate) own: bool,
    pub(crate) successors: Vec<Matches>,
    pub(crate) redlist: TekSet,
}

impl View for Computation {
    type V = ComputationView;

    open(crate) spec fn view(&self) -> ComputationView {
        ComputationView {
            own: self.own,
            successors: Seq::new(self.successors@.len(), |i: int| self.successors@[i]@),
            redlist: self.redlist.elements(),
        }
    }
}

impl Default for Computation {
    /// A computation that the participant just started by an upload of its own.
    fn default() -> (r: Self)
        ensures
            r.wf(),
            r@ == ComputationView::started(),
    {
        let r = Computation { own: true, successors: Vec::new(), redlist: TekSet::new() };
        assert(r@.successors =~= Seq::<MatchView>::empty());
        r
    }
}

impl Computation {
    /// No successor and no redlisted key occurs twice, and all sets are in order.
    pub open(crate) spec fn wf(self) -> bool {
        &&& self.redlist.wf()
        &&& forall|i: int| 0 <= i < self.successors@.len() ==> (#[trigger] self.successors@[i]).wf()
        &&& forall|i: int, j: int|
            0 <= i < j < self.successors@.len() ==> (#[trigger] self.successors@[i]).key() != (
            #[trigger] self.successors@[j]).key()
    }

    /// A computation that someone else started and of which nothing is known yet.
    pub fn relayed() -> (r: Self)
        ensures
            r.wf(),
            r@ == ComputationView::relayed(),
    {
        let r = Computation { own: false, successors: Vec::new(), redlist: TekSet::new() };
        assert(r@.successors =~= Seq::<MatchView>::empty());
        r
    }

    /// Whether the participant started the computation itself, by an upload of its own
    /// keys to the blacklist.
    pub fn is_own(&self) -> (r: bool)
        ensures
            r == self@.is_own(),
    {
        self.own
    }

    pub fn successors(&self) -> (r: &Vec<Matches>)
        ensures
            r@.len() == self@.successors.len(),
            forall|i: int| 0 <= i < r@.len() ==> (#[trigger] r@[i])@ == self@.successors[i],
            self.wf() ==> forall|i: int| 0 <= i < r@.len() ==> (#[trigger] r@[i]).wf(),
    {
        &self.successors
    }

    pub fn redlist(&self) -> (r: &TekSet)
        ensures
            r.elements() == self@.redlist,
            r@ == key_set(self@.redlist),
            self.wf() ==> r.wf(),
    {
        &self.redlist
    }

    /// The successors, to be changed in place. Whoever changes them sees to it that no
    /// successor occurs twice.
    pub fn successors_mut(&mut self) -> (r: &mut Vec<Matches>)
        ensures
            r@.len() == old(self)@.successors.len(),
            forall|i: int| 0 <= i < r@.len() ==> (#[trigger] r@[i])@ == old(self)@.successors[i],
            final(self)@.redlist == old(self)@.redlist,
            final(self)@.own == old(self)@.own,
            final(self)@.successors.len() == final(r)@.len(),
            forall|i: int|
                0 <= i < final(r)@.len() ==> #[trigger] final(self)@.successors[i] == final(r)@[i]@,
    {
        &mut self.successors
    }

    /// The redlist, to be changed in place.
    pub fn redlist_mut(&mut self) -> (r: &mut TekSet)
        ensures
            r.elements() == old(self)@.redlist,
            r.wf() == distinct(old(self)@.redlist),
            final(self)@.successors == old(self)@.successors,
            final(self)@.own == old(self)@.own,
            final(self)@.redlist == final(r).elements(),
    {
        &mut self.redlist
    }

    /// Adds a successor, unless one with the same key is known already; says whether
    /// it was added.
    pub fn add_successor(&mut self, successor: Matches) -> (added: bool)
        requires
            old(self).wf(),
            successor.wf(),
        ensures
            final(self).wf(),
            final(self)@ == old(self)@.with_successor(successor@),
            added == !old(self)@.has_successor(successor@.key),
    {
        let mut i: usize = 0;
        while i < self.successors.len()
            invariant
                i <= self.successors@.len(),
                *self == *old(self),
                self.wf(),
                forall|j: int| 0 <= j < i ==> (#[trigger] self@.successors[j]).key != successor@.key,
            decreases self.successors@.len() - i,
        {
            if self.successors[i].tek == successor.tek {
                assert(self@.successors[i as int].key == successor@.key);
                return false;
            }
            i += 1;
        }
        self.successors.push(successor);
        proof {
            assert(self@.successors =~= old(self)@.successors.push(successor@));
            assert forall|a: int, b: int| 0 <= a < b < self.successors@.len() implies (
            #[trigger] self.successors@[a]).key() != (#[trigger] self.successors@[b]).key() by {
                if b == old(self).successors@.len() {
                    assert(old(self)@.successors[a].key != successor@.key);
                } else {
                    assert(old(self).successors@[a].key() != old(self).successors@[b].key());
                }
            }
        }
        true
    }

    /// Takes the successor with the key `key` away, if there is one; says whether there
    /// was.
    pub fn remove_successor(&mut self, key: &Validity<TemporaryExposureKey>) -> (removed: bool)
        requires
            old(self).wf(),
        ensures
            final(self).wf(),
            final(self)@ == old(self)@.without_successor(key@),
            removed == old(self)@.has_successor(key@),
    {
        let mut i: usize = 0;
        while i < self.successors.len()
            invariant
                i <= self.successors@.len(),
                *self == *old(self),
                self.wf(),
                forall|j: int| 0 <= j < i ==> (#[trigger] self@.successors[j]).key != key@,
            decreases self.successors@.len() - i,
        {
            if self.successors[i].tek == *key {
                proof {
                    assert(self@.successors[i as int].key == key@);
                    let p = self@.successor_place(key@);
                    if p < i {
                        assert(self@.successors[p].key != key@);
                    } else if i < p {
                        assert(self.successors@[i as int].key() != self.successors@[p].key());
                    }
                }
                self.successors.remove(i);
                proof {
                    assert(self@.successors =~= old(self)@.successors.remove(i as int));
                    assert forall|a: int, b: int| 0 <= a < b < self.successors@.len() implies (
                    #[trigger] self.successors@[a]).key() != (#[trigger] self.successors@[b]).key() by {
                        let before_a = if a < i { a } else { a + 1 };
                        let before_b = if b < i { b } else { b + 1 };
                        assert(old(self).successors@[before_a].key() != old(self).successors@[before_b].key());
                    }
                    assert forall|a: int| 0 <= a < self.successors@.len() implies (
                    #[trigger] self.successors@[a]).wf() by {
                        let before_a = if a < i { a } else { a + 1 };
                        assert(old(self).successors@[before_a].wf());
                    }
                }
                return true;
            }
            i += 1;
        }
        false
    }

    /// Puts a predecessor on the redlist, unless it is there already; says whether it
    /// was put there.
    pub fn redlist_insert(&mut self, predecessor: Validity<TemporaryExposureKey>) -> (added: bool)
        requires
            old(self).wf(),
        ensures
            final(self).wf(),
            final(self)@ == old(self)@.with_redlisted(predecessor),
            added == !seq_has(old(self)@.redlist, predecessor@),
    {
        let added = self.redlist.insert(predecessor);
        proof {
            assert(self@.successors =~= old(self)@.successors);
        }
        added
    }
}

/// The part of a participant's state that changes: what was found out so far, and the
/// computations in the order in which the participant got to know them.
pub struct NodeView {
    pub traced_contact: bool,
    pub transitive_contact: bool,
    pub computations: Seq<(ComputationId, ComputationView)>,
}

impl NodeView {
    /// Whether the computation `id` is known.
    pub open spec fn has(self, id: ComputationId) -> bool {
        exists|i: int| 0 <= i < self.computations.len() && (#[trigger] self.computations[i]).0 == id
    }

    /// Where the computation `id` is kept.
    pub open spec fn place_of(self, id: ComputationId) -> int {
        choose|i: int| 0 <= i < self.computations.len() && (#[trigger] self.computations[i]).0 == id
    }

    /// What is known of the computation `id`: nothing yet where it is not known.
    pub open spec fn computation(self, id: ComputationId) -> ComputationView {
        if self.has(id) {
            self.computations[self.place_of(id)].1
        } else {
            ComputationView::relayed()
        }
    }

    /// No computation occurs twice.
    pub open spec fn wf(self) -> bool {
        forall|i: int, j: int|
            0 <= i < j < self.computations.len() ==> (#[trigger] self.computations[i]).0 != (
            #[trigger] self.computations[j]).0
    }

    /// The state in which `computation` is what is known of the computation `id`.
    pub open spec fn with_computation(self, id: ComputationId, computation: ComputationView) -> NodeView {
        NodeView {
            traced_contact: self.traced_contact,
            transitive_contact: self.transitive_contact,
            computations: if self.has(id) {
                self.computations.update(self.place_of(id), (id, computation))
            } else {
                self.computations.push((id, computation))
            },
        }
    }

    /// The state after a forward that started a chain in the computation `id` did not get
    /// through: the owner of the key `key`, who became a successor with that forward, is
    /// a successor no longer; and a computation that someone else started and that is
    /// then left without successors is known no longer, since nothing but that forward
    /// made it known.
    pub open spec fn forward_failed(self, id: ComputationId, key: (int, Seq<u8>)) -> NodeView {
        if !self.has(id) || !self.computation(id).has_successor(key) {
            self
        } else {
            let computation = self.computation(id).without_successor(key);
            if !computation.own && computation.successors.len() == 0 {
                NodeView {
                    traced_contact: self.traced_contact,
                    transitive_contact: self.transitive_contact,
                    computations: self.computations.remove(self.place_of(id)),
                }
            } else {
                self.with_computation(id, computation)
            }
        }
    }

    /// The state with a traced contact of high risk noted, if `noted` says so.
    pub open spec fn with_traced_contact(self, noted: bool) -> NodeView {
        NodeView {
            traced_contact: self.traced_contact || noted,
            transitive_contact: self.transitive_contact,
            computations: self.computations,
        }
    }

    /// The state with a transitive contact noted, if `noted` says so.
    pub open spec fn with_transitive_contact(self, noted: bool) -> NodeView {
        NodeView {
            traced_contact: self.traced_contact,
            transitive_contact: self.transitive_contact || noted,
            computations: self.computations,
        }
    }

    /// A computation that is kept is found at its place.
    pub proof fn lemma_place(self, i: int)
        requires
            self.wf(),
            0 <= i < self.computations.len(),
        ensures
            self.has(self.computations[i].0),
            self.place_of(self.computations[i].0) == i,
            self.computation(self.computations[i].0) == self.computations[i].1,
    {
        let p = self.place_of(self.computations[i].0);
        if p < i {
            assert(self.computations[p].0 != self.computations[i].0);
        } else if i < p {
            assert(self.computations[i].0 != self.computations[p].0);
        }
    }
}

/// What the reactions of a participant depend on and what no event changes: its keys,
/// its contact history and the number of intervals in a TEK rolling period.
pub struct Setup {
    pub keys: Keys,
    pub contacts: BluetoothLayer,
    pub tekrp: int,
}

impl Setup {
    /// The keyring that belongs to the temporary exposure key `tek`, with its validity.
    pub open(crate) spec fn keyring_of(tek: Validity<TemporaryExposureKey>) -> Validity<TekKeyring> {
        Validity { valid_from: tek.valid_from, keyring: TekKeyring::derived_from(tek.keyring) }
    }

    /// What the contact history tells of the owner of the temporary exposure key `tek`.
    pub open spec fn matched(self, tek: Validity<TemporaryExposureKey>) -> Option<MatchView> {
        self.contacts.found(Setup::keyring_of(tek))
    }

    /// The bytes of the participant's own temporary exposure key for the rolling period
    /// that holds the interval `at`, if it has one.
    pub open spec fn own_tek(self, at: int) -> Option<Seq<u8>> {
        match self.keys.valid_at(ExposureTime::floor_of(at, self.tekrp)) {
            Some(exposure_keyring) => Some(exposure_keyring.tek_part().tek_bytes()),
            None => None,
        }
    }

    /// The forward with which the participant starts a chain towards the owner of the
    /// matched key: it names the participant's own key `own` as origin and predecessor
    /// and the encounters of high risk as shared.
    pub open spec fn first_forward(self, id: ComputationId, found: MatchView, own: Seq<u8>) -> ForwardView {
        ForwardView {
            computation_id: id,
            valid_from: ExposureTime::floor_of(found.key.0, self.tekrp),
            origin: own,
            predecessor: own,
            shared_encounter_times: found.high,
        }
    }

    /// What a temporary exposure key on a list of the diagnosis server leads to, from the
    /// state `node`: the state afterwards and what is to be done.
    ///
    /// A key whose owner was not met leads to nothing. A key from the blacklist raises an
    /// alert for a traced contact, of high risk where an encounter of high risk is among
    /// the contacts. Only an encounter of high risk leads further, and a key from the
    /// greylist only where it is not on the redlist of the computation: the forwarder is
    /// opened, a first forward goes to the owner of the key, who becomes a successor in
    /// the computation.
    pub open spec fn tek_match(
        self,
        node: NodeView,
        tek: Validity<TemporaryExposureKey>,
        list: ListType,
        id: ComputationId,
    ) -> (NodeView, Seq<ActionView>) {
        match self.matched(tek) {
            None => (node, Seq::empty()),
            Some(found) => {
                let high = found.high != Set::<int>::empty();
                let alerts = if list == ListType::Blacklist {
                    seq![
                        ActionView::Raise(
                            if high {
                                Alert::HighRiskTracedContact
                            } else {
                                Alert::LowRiskTracedContact
                            },
                        ),
                    ]
                } else {
                    Seq::empty()
                };
                let noted = node.with_traced_contact(list == ListType::Blacklist && high);
                if !high {
                    (noted, alerts)
                } else if list == ListType::Greylist && node.has(id) && seq_has(
                    node.computation(id).redlist,
                    found.key,
                ) {
                    (noted, alerts)
                } else {
                    match self.own_tek(found.key.0) {
                        None => (noted, alerts),
                        Some(own) => (
                            noted.with_computation(id, noted.computation(id).with_successor(found)),
                            alerts + seq![
                                ActionView::OpenWindow,
                                ActionView::Forward {
                                    endpoint: found.endpoint,
                                    params: self.first_forward(id, found, own),
                                    successor: if noted.computation(id).has_successor(found.key) {
                                        None
                                    } else {
                                        Some(found.key)
                                    },
                                },
                            ],
                        ),
                    }
                }
            },
        }
    }

    /// What a row of temporary exposure keys from the list `list` of the computation `id`
    /// leads to, one key after the other.
    pub open spec fn tek_matches(
        self,
        node: NodeView,
        teks: Seq<Validity<TemporaryExposureKey>>,
        list: ListType,
        id: ComputationId,
    ) -> (NodeView, Seq<ActionView>)
        decreases teks.len(),
    {
        if teks.len() == 0 {
            (node, Seq::empty())
        } else {
            let before = self.tek_matches(node, teks.drop_last(), list, id);
            let last = self.tek_match(before.0, teks.last(), list, id);
            (last.0, before.1 + last.1)
        }
    }

    /// Whether one of `teks` is a key of the participant's own.
    pub open spec fn any_own(self, teks: Seq<Validity<TemporaryExposureKey>>) -> bool {
        exists|i: int| 0 <= i < teks.len() && self.keys.own((#[trigger] teks[i])@)
    }

    /// What the lists of the computation `id` in a chunk lead to: an alert for a
    /// transitive contact where the computation is known, a key of the participant's own
    /// is on the greylist and no such alert was raised before; then what the keys of the
    /// blacklist lead to, then those of the greylist.
    pub open spec fn entry_processed(self, node: NodeView, id: ComputationId, lists: ComputationStateView) -> (
        NodeView,
        Seq<ActionView>,
    ) {
        let hit = node.has(id) && self.any_own(lists.greylist);
        let alerts = if hit && !node.transitive_contact {
            seq![ActionView::Raise(Alert::TransitiveContact { already_traced: node.traced_contact })]
        } else {
            Seq::empty()
        };
        let noted = node.with_transitive_contact(hit);
        let black = self.tek_matches(noted, lists.blacklist, ListType::Blacklist, id);
        let grey = self.tek_matches(black.0, lists.greylist, ListType::Greylist, id);
        (grey.0, alerts + black.1 + grey.1)
    }

    /// What the computations of a chunk lead to, one after the other.
    pub open spec fn chunk_processed(self, node: NodeView, data: Seq<(ComputationId, ComputationStateView)>) -> (
        NodeView,
        Seq<ActionView>,
    )
        decreases data.len(),
    {
        if data.len() == 0 {
            (node, Seq::empty())
        } else {
            let before = self.chunk_processed(node, data.drop_last());
            let last = self.entry_processed(before.0, data.last().0, data.last().1);
            (last.0, before.1 + last.1)
        }
    }

    /// What a row of chunks leads to, one after the other.
    pub open spec fn chunks_processed(self, node: NodeView, chunks: Seq<ChunkView>) -> (
        NodeView,
        Seq<ActionView>,
    )
        decreases chunks.len(),
    {
        if chunks.len() == 0 {
            (node, Seq::empty())
        } else {
            let before = self.chunks_processed(node, chunks.drop_last());
            let last = self.chunk_processed(before.0, chunks.last().data);
            (last.0, before.1 + last.1)
        }
    }

    /// The forward that the participant sends on to a successor: the forward `params`
    /// with the participant's own key `own` as predecessor and `shared` as the times
    /// shared so far.
    pub open spec fn relay_forward(params: ForwardView, own: Seq<u8>, shared: Set<int>) -> ForwardView {
        ForwardView {
            computation_id: params.computation_id,
            valid_from: params.valid_from,
            origin: params.origin,
            predecessor: own,
            shared_encounter_times: shared,
        }
    }

    /// The forwards that go on to the successors: one to each successor that was met
    /// with high risk at one of the times `shared`, in the order of the successors.
    pub open spec fn relayed(successors: Seq<MatchView>, params: ForwardView, own: Seq<u8>, shared: Set<int>) -> Seq<
        ActionView,
    >
        decreases successors.len(),
    {
        if successors.len() == 0 {
            Seq::empty()
        } else {
            let before = Self::relayed(successors.drop_last(), params, own, shared);
            let next = shared.intersect(successors.last().high);
            if next == Set::<int>::empty() {
                before
            } else {
                before.push(
                    ActionView::Forward {
                        endpoint: successors.last().endpoint,
                        params: Self::relay_forward(params, own, next),
                        successor: None,
                    },
                )
            }
        }
    }

    /// What a forward leads to, from the state `node`: the state afterwards, and what is
    /// to be done or why the forward is dropped.
    ///
    /// The forward is dropped where its predecessor was never met or its computation is
    /// not known. A first forward puts its predecessor on the redlist of the
    /// computation; a forward whose predecessor is not on the redlist is dropped, and
    /// so is one that names no time at which the predecessor was met with high risk. In
    /// a computation of the participant's own, the key of the origin is announced to the
    /// greylist; in another, the forward goes on to the successors.
    pub open spec fn tek_forward(self, node: NodeView, params: ForwardParams) -> (
        NodeView,
        Result<Seq<ActionView>, ProtocolViolation>,
    ) {
        let predecessor = params.predecessor_at(self.tekrp);
        let id = params.computation_id;
        match self.matched(predecessor) {
            None => (
                node,
                Err(
                    if self.contacts.sighted(Self::keyring_of(predecessor)) {
                        ProtocolViolation::InconsistentEndpoint
                    } else {
                        ProtocolViolation::NeverMet
                    },
                ),
            ),
            Some(found) => {
                if !node.has(id) {
                    (node, Err(ProtocolViolation::UnknownComputation))
                } else {
                    let computation = if params.first() {
                        node.computation(id).with_redlisted(predecessor)
                    } else {
                        node.computation(id)
                    };
                    let after = node.with_computation(id, computation);
                    let shared = found.high.intersect(params.shared_encounter_times@);
                    if !seq_has(computation.redlist, predecessor@) {
                        (after, Err(ProtocolViolation::MissingPredecessor))
                    } else if shared == Set::<int>::empty() {
                        (after, Err(ProtocolViolation::NoSharedEncounter))
                    } else if computation.is_own() {
                        (
                            after,
                            Ok(
                                seq![
                                    ActionView::GreylistUpload {
                                        computation_id: id,
                                        keys: set![params.origin_key(self.tekrp)],
                                    },
                                ],
                            ),
                        )
                    } else {
                        match self.own_tek(found.key.0) {
                            None => (after, Err(ProtocolViolation::MissingOwnKey)),
                            Some(own) => (
                                after,
                                Ok(
                                    Self::relayed(
                                        computation.successors,
                                        forward_view(params),
                                        own,
                                        shared,
                                    ),
                                ),
                            ),
                        }
                    }
                }
            },
        }
    }

    /// The instant from which a participant asks for chunks after it took in `chunks`,
    /// having asked from `last_from` before: the latest start of a chunk, and never less
    /// than before. The diagnosis server leaves out the chunk that covers that instant,
    /// which the participant has, and hands out every chunk after it.
    pub open spec fn next_from(last_from: int, chunks: Seq<ChunkView>) -> int
        decreases chunks.len(),
    {
        if chunks.len() == 0 {
            last_from
        } else {
            let before = Self::next_from(last_from, chunks.drop_last());
            if chunks.last().covers.start() > before {
                chunks.last().covers.start()
            } else {
                before
            }
        }
    }
}

/// A participant node: who it is, its keys and its contact history, which stay as they
/// are, and what it found out and the computations that it takes part in, which change
/// with each event.
#[derive(Debug)]
pub struct ClientState {
    pub(crate) participant: Participant,
    pub(crate) system_params: SystemParams,
    pub(crate) keys: Keys,
    pub(crate) bluetooth_layer: BluetoothLayer,
    pub(crate) computations: Vec<(ComputationId, Computation)>,
    pub(crate) traced_contact: bool,
    pub(crate) transitive_contact: bool,
}

impl View for ClientState {
    type V = NodeView;

    open(crate) spec fn view(&self) -> NodeView {
        NodeView {
            traced_contact: self.traced_contact,
            transitive_contact: self.transitive_contact,
            computations: Seq::new(
                self.computations@.len(),
                |i: int| (self.computations@[i].0, self.computations@[i].1@),
            ),
        }
    }
}

impl ClientState {
    /// Who the participant is.
    pub open(crate) spec fn who(self) -> Participant {
        self.participant
    }

    /// The parameters of the system.
    pub open(crate) spec fn params(self) -> SystemParams {
        self.system_params
    }

    /// The number of intervals in a TEK rolling period.
    pub open(crate) spec fn tekrp(self) -> int {
        self.system_params.tek_rolling_period@
    }

    /// The keys of the participant.
    pub open(crate) spec fn key_history(self) -> Keys {
        self.keys
    }

    /// The contact history of the participant.
    pub open(crate) spec fn contact_history(self) -> BluetoothLayer {
        self.bluetooth_layer
    }

    /// Whether `other` is the same participant with the same keys and contact history.
    pub open spec fn same_setup(self, other: Self) -> bool {
        &&& self.who() == other.who()
        &&& self.params() == other.params()
        &&& self.key_history() == other.key_history()
        &&& self.contact_history() == other.contact_history()
        &&& self.setup() == other.setup()
    }

    /// The contact history is in order, no computation occurs twice, and each
    /// computation is in order.
    pub open(crate) spec fn wf(self) -> bool {
        &&& self.bluetooth_layer.wf()
        &&& self@.wf()
        &&& forall|i: int|
            0 <= i < self.computations@.len() ==> (#[trigger] self.computations@[i]).1.wf()
    }

    /// What the participant's reactions depend on and what no event changes.
    pub open(crate) spec fn setup(self) -> Setup {
        Setup { keys: self.keys, contacts: self.bluetooth_layer, tekrp: self.tekrp() }
    }

    /// A participant at its start, with the keys and the contact history of `config` and
    /// no computation.
    pub fn new(config: ClientConfig) -> (r: Self)
        requires
            config.state.contact_history().wf(),
        ensures
            r.wf(),
            r.who() == config.participant,
            r.params() == config.params,
            r.key_history() == config.state.key_history(),
            r.contact_history() == config.state.contact_history(),
            r@ == (NodeView {
                traced_contact: false,
                transitive_contact: false,
                computations: Seq::empty(),
            }),
    {
        let ClientConfig { participant, client_endpoint, diagnosis_server_endpoint, params, state } =
            config;
        let (keys, bluetooth_layer) = state.into_parts();
        let r = ClientState {
            participant,
            system_params: params,
            keys,
            bluetooth_layer,
            computations: Vec::new(),
            traced_contact: false,
            transitive_contact: false,
        };
        assert(r@.computations =~= Seq::<(ComputationId, ComputationView)>::empty());
        r
    }

    /// Where the computation `id` is kept, if it is known.
    fn find(&self, id: ComputationId) -> (r: Option<usize>)
        requires
            self@.wf(),
        ensures
            r is Some == self@.has(id),
            r is Some ==> r->0 == self@.place_of(id) && r->0 < self.computations@.len(),
    {
        let mut i: usize = 0;
        while i < self.computations.len()
            invariant
                i <= self.computations@.len(),
                self@.wf(),
                forall|j: int| 0 <= j < i ==> (#[trigger] self@.computations[j]).0 != id,
            decreases self.computations@.len() - i,
        {
            if self.computations[i].0 == id {
                proof {
                    assert(self@.computations[i as int].0 == id);
                    self@.lemma_place(i as int);
                }
                return Some(i);
            }
            i += 1;
        }
        None
    }

    /// What is known of the computation `id`, if it is known.
    pub fn computation(&self, id: ComputationId) -> (r: Option<&Computation>)
        requires
            self.wf(),
        ensures
            r is Some == self@.has(id),
            r is Some ==> r->0@ == self@.computation(id) && r->0.wf(),
    {
        match self.find(id) {
            Some(i) => Some(&self.computations[i].1),
            None => None,
        }
    }

    /// Takes the computation `id` out of the table, or makes a fresh one where it is not
    /// known; together with the place at which it is to be put back.
    #[verifier::rlimit(30)]
    fn take_computation(&mut self, id: ComputationId) -> (r: (usize, Computation))
        requires
            old(self).wf(),
        ensures
            r.1.wf(),
            r.1@ == old(self)@.computation(id),
            r.0 <= final(self).computations@.len(),
            old(self)@.has(id) ==> r.0 == old(self)@.place_of(id) && final(self).wf() && final(self)@.computations == old(self)@.computations.remove(r.0 as int),
            final(self).traced_contact == old(self).traced_contact,
            final(self).transitive_contact == old(self).transitive_contact,
            final(self).same_setup(*old(self)),
            forall|computation: Computation| #[trigger]
                computation.wf() ==> {
                    let after = final(self).computations@.insert(r.0 as int, (id, computation));
                    &&& forall|i: int| 0 <= i < after.len() ==> (#[trigger] after[i]).1.wf()
                    &&& Seq::new(after.len(), |i: int| (after[i].0, after[i].1@)) == old(self)@.with_computation(id, computation@).computations
                    &&& old(self)@.with_computation(id, computation@).wf()
                },
    {
        let found = self.find(id);
        let ghost before = old(self)@;
        match found {
            Some(i) => {
                let entry = self.computations.remove(i);
                proof {
                    before.lemma_place(i as int);
                    assert(entry.1 == old(self).computations@[i as int].1);
                    assert(self@.computations =~= before.computations.remove(i as int));
                    assert forall|a: int, b: int| 0 <= a < b < self@.computations.len() implies (
                    #[trigger] self@.computations[a]).0 != (#[trigger] self@.computations[b]).0 by {
                        let before_a = if a < i { a } else { a + 1 };
                        let before_b = if b < i { b } else { b + 1 };
                        assert(before.computations[before_a].0 != before.computations[before_b].0);
                    }
                    assert forall|a: int| 0 <= a < self.computations@.len() implies (
                    #[trigger] self.computations@[a]).1.wf() by {
                        let before_a = if a < i { a } else { a + 1 };
                        assert(old(self).computations@[before_a].1.wf());
                    }
                    assert forall|computation: Computation| #[trigger] computation.wf() implies {
                        let after = self.computations@.insert(i as int, (id, computation));
                        &&& forall|k: int| 0 <= k < after.len() ==> (#[trigger] after[k]).1.wf()
                        &&& Seq::new(after.len(), |k: int| (after[k].0, after[k].1@))
                            == before.with_computation(id, computation@).computations
                        &&& before.with_computation(id, computation@).wf()
                    } by {
                        let after = self.computations@.insert(i as int, (id, computation));
                        let target = before.with_computation(id, computation@);
                        assert forall|k: int| 0 <= k < after.len() implies (#[trigger] after[k]).1.wf() by {
                            if k != i {
                                assert(after[k] == old(self).computations@[k]);
                            }
                        }
                        assert(Seq::new(after.len(), |k: int| (after[k].0, after[k].1@))
                            =~= target.computations) by {
                            assert forall|k: int| 0 <= k < after.len() implies (
                                after[k].0,
                                after[k].1@,
                            ) == #[trigger] target.computations[k] by {
                                if k != i {
                                    assert(after[k] == old(self).computations@[k]);
                                }
                            }
                        }
                        assert forall|a: int, b: int|
                            0 <= a < b < target.computations.len() implies (
                        #[trigger] target.computations[a]).0 != (#[trigger] target.computations[b]).0 by {
                            assert(before.computations[a].0 != before.computations[b].0);
                        }
                    }
                }
                (i, entry.1)
            },
            None => {
                let place = self.computations.len();
                let fresh = Computation::relayed();
                proof {
                    assert forall|computation: Computation| #[trigger] computation.wf() implies {
                        let after = self.computations@.insert(place as int, (id, computation));
                        &&& forall|k: int| 0 <= k < after.len() ==> (#[trigger] after[k]).1.wf()
                        &&& Seq::new(after.len(), |k: int| (after[k].0, after[k].1@))
                            == before.with_computation(id, computation@).computations
                        &&& before.with_computation(id, computation@).wf()
                    } by {
                        let after = self.computations@.insert(place as int, (id, computation));
                        let target = before.with_computation(id, computation@);
                        assert(after =~= self.computations@.push((id, computation)));
                        assert(Seq::new(after.len(), |k: int| (after[k].0, after[k].1@))
                            =~= target.computations);
                        assert forall|a: int, b: int|
                            0 <= a < b < target.computations.len() implies (
                        #[trigger] target.computations[a]).0 != (#[trigger] target.computations[b]).0 by {
                            if b == place {
                                assert(before.computations[a].0 != id);
                            } else {
                                assert(before.computations[a].0 != before.computations[b].0);
                            }
                        }
                    }
                }
                (place, fresh)
            },
        }
    }

    /// Puts a computation into the table at the place `place`.
    fn put_computation(&mut self, place: usize, id: ComputationId, computation: Computation)
        requires
            place <= old(self).computations@.len(),
        ensures
            final(self).computations@ == old(self).computations@.insert(
                place as int,
                (id, computation),
            ),
            final(self).traced_contact == old(self).traced_contact,
            final(self).transitive_contact == old(self).transitive_contact,
            final(self).same_setup(*old(self)),
    {
        self.computations.insert(place, (id, computation));
    }

    /// Reacts to a temporary exposure key that was found on the list `from` of the
    /// computation `computation_id`, and says what is to be done. Whatever is matched,
    /// the computations that are known stay known, and each stays the participant's own
    /// or not as it was.
    pub fn on_tek_match(
        &mut self,
        tek: Validity<TemporaryExposureKey>,
        from: ListType,
        computation_id: ComputationId,
    ) -> (actions: Vec<Action>)
        requires
            old(self).wf(),
        ensures
            final(self).wf(),
            final(self).same_setup(*old(self)),
            final(self)@ == old(self).setup().tek_match(old(self)@, tek, from, computation_id).0,
            action_views(actions@) == old(self).setup().tek_match(
                old(self)@,
                tek,
                from,
                computation_id,
            ).1,
            old(self).setup().matched(tek) is None ==> final(self)@ == old(self)@ && actions@.len()
                == 0,
            grown(old(self)@, final(self)@),
            forall|id: ComputationId|
                old(self)@.has(id) ==> final(self)@.has(id) && (#[trigger] final(self)@.computation(
                    id,
                )).is_own() == old(self)@.computation(id).is_own(),
            forall|i: int| 0 <= i < actions@.len() ==> (#[trigger] actions@[i]).wf(),
    {
        let actions = self.tek_match_step(tek, from, computation_id);
        proof {
            law_tek_match_grows(old(self).setup(), old(self)@, tek, from, computation_id);
        }
        actions
    }

    /// Goes through the steps of a reaction to a temporary exposure key.
    #[verifier::rlimit(40)]
    fn tek_match_step(
        &mut self,
        tek: Validity<TemporaryExposureKey>,
        from: ListType,
        computation_id: ComputationId,
    ) -> (actions: Vec<Action>)
        requires
            old(self).wf(),
        ensures
            final(self).wf(),
            final(self).same_setup(*old(self)),
            final(self)@ == old(self).setup().tek_match(old(self)@, tek, from, computation_id).0,
            action_views(actions@) == old(self).setup().tek_match(
                old(self)@,
                tek,
                from,
                computation_id,
            ).1,
            old(self).setup().matched(tek) is None ==> final(self)@ == old(self)@ && actions@.len()
                == 0,
            forall|i: int| 0 <= i < actions@.len() ==> (#[trigger] actions@[i]).wf(),
    {
        let mut actions: Vec<Action> = Vec::new();
        assert(action_views(actions@) =~= Seq::<ActionView>::empty());
        let tek_keyring: Validity<TekKeyring> = match Validity::<TekKeyring>::try_from(tek) {
            Ok(tek_keyring) => tek_keyring,
            Err(_) => {
                return actions;
            },
        };
        assert(tek_keyring == Setup::keyring_of(tek));
        let matched: Matches = match self.bluetooth_layer.matches(&tek_keyring) {
            Ok(Some(matched)) => matched,
            Ok(None) => {
                return actions;
            },
            Err(_) => {
                return actions;
            },
        };
        let ghost found = matched@;
        let high: bool = !matched.high_risk().is_empty();
        match from {
            ListType::Blacklist => {
                if high {
                    actions.push(Action::Raise(Alert::HighRiskTracedContact));
                    self.traced_contact = true;
                } else {
                    actions.push(Action::Raise(Alert::LowRiskTracedContact));
                }
            },
            ListType::Greylist => {},
        }
        let ghost noted = old(self)@.with_traced_contact(from == ListType::Blacklist && high);
        let ghost alerts = action_views(actions@);
        proof {
            assert(self@.computations =~= old(self)@.computations);
            assert(self@ == noted);
            if from == ListType::Blacklist {
                assert(alerts =~= seq![
                    ActionView::Raise(
                        if high {
                            Alert::HighRiskTracedContact
                        } else {
                            Alert::LowRiskTracedContact
                        },
                    ),
                ]);
            } else {
                assert(alerts =~= Seq::<ActionView>::empty());
            }
        }
        if !high {
            return actions;
        }
        match from {
            ListType::Greylist => {
                if self.is_redlisted(computation_id, matched.tek()) {
                    return actions;
                }
            },
            ListType::Blacklist => {},
        }
        let tekrp: TekRollingPeriod = self.system_params.tek_rolling_period;
        let valid_from: ExposureTime = matched.tek().valid_from();
        let own_tek: TemporaryExposureKey = match self.keys.exposure_keyring(valid_from, tekrp) {
            Some(exposure_keyring) => TemporaryExposureKey::from(*exposure_keyring),
            None => {
                return actions;
            },
        };
        let ghost own = own_tek@;
        assert(self.setup().own_tek(found.key.0) == Some(own));
        actions.push(Action::OpenWindow);
        let params = ForwardParams::new(
            computation_id,
            valid_from,
            tekrp,
            own_tek,
            matched.high_risk().clone(),
        );
        assert(forward_view(params) == self.setup().first_forward(computation_id, found, own));
        let endpoint: Endpoint = matched.connection_identifier();
        let key: Validity<TemporaryExposureKey> = *matched.tek();
        let added: bool = self.add_successor(computation_id, matched);
        let successor: Option<Validity<TemporaryExposureKey>> = if added {
            Some(key)
        } else {
            None
        };
        actions.push(Action::Forward { endpoint, params, successor });
        proof {
            assert(action_views(actions@) =~= alerts + seq![
                ActionView::OpenWindow,
                ActionView::Forward {
                    endpoint: found.endpoint,
                    params: self.setup().first_forward(computation_id, found, own),
                    successor: if noted.computation(computation_id).has_successor(found.key) {
                        None
                    } else {
                        Some(found.key)
                    },
                },
            ]);
        }
        actions
    }

    /// Makes the owner of a matched key a successor in the computation `id`, unless it is
    /// one already; says whether it was made one.
    fn add_successor(&mut self, id: ComputationId, matched: Matches) -> (added: bool)
        requires
            old(self).wf(),
            matched.wf(),
        ensures
            final(self).wf(),
            final(self).same_setup(*old(self)),
            final(self)@ == old(self)@.with_computation(
                id,
                old(self)@.computation(id).with_successor(matched@),
            ),
            added == !old(self)@.computation(id).has_successor(matched@.key),
    {
        let (place, mut computation) = self.take_computation(id);
        let added = computation.add_successor(matched);
        self.put_computation(place, id, computation);
        added
    }

    /// Takes note that a forward which started a chain in the computation
    /// `computation_id` did not get through: the owner of the key `successor`, who became
    /// a successor with that forward, is taken back, and with it a computation that
    /// nothing but that forward made known.
    pub fn forward_failed(
        &mut self,
        computation_id: ComputationId,
        successor: &Validity<TemporaryExposureKey>,
    )
        requires
            old(self).wf(),
        ensures
            final(self).wf(),
            final(self).same_setup(*old(self)),
            final(self)@ == old(self)@.forward_failed(computation_id, successor@),
    {
        if self.find(computation_id).is_none() {
            return ;
        }
        let (place, mut computation) = self.take_computation(computation_id);
        let removed: bool = computation.remove_successor(successor);
        if removed && !computation.is_own() && computation.successors().len() == 0 {
            return ;
        }
        proof {
            if !removed {
                assert(computation@ == old(self)@.computation(computation_id));
                old(self)@.lemma_place(place as int);
                assert(old(self)@.with_computation(computation_id, computation@).computations
                    =~= old(self)@.computations);
            }
        }
        self.put_computation(place, computation_id, computation);
    }

    /// Whether the key `tek` is on the redlist of the computation `id`.
    fn is_redlisted(&self, id: ComputationId, tek: &Validity<TemporaryExposureKey>) -> (r: bool)
        requires
            self.wf(),
        ensures
            r == (self@.has(id) && seq_has(self@.computation(id).redlist, tek@)),
    {
        match self.computation(id) {
            Some(computation) => computation.redlist().contains(tek),
            None => false,
        }
    }
}

/// What happens to a participant.
#[derive(Debug)]
pub enum Event {
    /// New chunks came from the diagnosis server, for a participant that had everything
    /// up to `last_from`.
    NewChunks { last_from: Timestamp, chunks: Vec<Chunk> },
    /// A forward came in.
    NewForwardRequest { params: ForwardParams },
    /// The computation period is over.
    ComputationPeriodExpired,
}

/// How a participant reacts to an event.
#[derive(Debug)]
pub enum Reaction {
    /// The chunks were taken in: the participant asks from `next_from` on next time, and
    /// `actions` are to be done.
    ChunksProcessed { next_from: Timestamp, actions: Vec<Action> },
    /// The forward was handled: what is to be done, or why it was dropped.
    ForwardHandled(Result<Vec<Action>, ProtocolViolation>),
    /// The computation period is over: `warned` says whether the participant was found
    /// to be a contact or tested positive, `correct` whether that is as it ought to be.
    Verdict { warned: bool, correct: bool },
}

impl ClientState {
    /// Whether the participant was told of a traced contact of high risk.
    pub fn traced_contact(&self) -> (r: bool)
        ensures
            r == self@.traced_contact,
    {
        self.traced_contact
    }

    /// Whether the participant was told of a transitive contact.
    pub fn transitive_contact(&self) -> (r: bool)
        ensures
            r == self@.transitive_contact,
    {
        self.transitive_contact
    }

    /// Who the participant is.
    pub fn participant(&self) -> (r: &Participant)
        ensures
            *r == self.who(),
    {
        &self.participant
    }

    /// The parameters of the system.
    pub fn system_params(&self) -> (r: &SystemParams)
        ensures
            *r == self.params(),
    {
        &self.system_params
    }

    /// What a participant does at its start: one who tested positive opens the forwarder
    /// and announces all its keys to the blacklist; another does nothing.
    pub fn init(&self) -> (actions: Vec<Action>)
        ensures
            action_views(actions@) == if self.who().positively_tested {
                seq![
                    ActionView::OpenWindow,
                    ActionView::BlacklistUpload {
                        keys: Set::new(|key: (int, Seq<u8>)| self.key_history().own(key)),
                    },
                ]
            } else {
                Seq::<ActionView>::empty()
            },
            forall|i: int| 0 <= i < actions@.len() ==> (#[trigger] actions@[i]).wf(),
    {
        let mut actions: Vec<Action> = Vec::new();
        if self.participant.positively_tested() {
            let diagnosis_keys = self.keys.all_teks();
            actions.push(Action::OpenWindow);
            actions.push(Action::BlacklistUpload(BlacklistUploadParams { diagnosis_keys }));
            assert(action_views(actions@) =~= seq![
                ActionView::OpenWindow,
                ActionView::BlacklistUpload {
                    keys: Set::new(|key: (int, Seq<u8>)| self.key_history().own(key)),
                },
            ]);
        } else {
            assert(action_views(actions@) =~= Seq::<ActionView>::empty());
        }
        actions
    }

    /// Notes the number that the diagnosis server gave to the computation that the
    /// participant started: the computation is from then on known as one of the
    /// participant's own, without successors. Says whether a computation of that number
    /// was known before, which it then replaces.
    pub fn computation_started(&mut self, computation_id: ComputationId) -> (replaced: bool)
        requires
            old(self).wf(),
        ensures
            final(self).wf(),
            final(self).same_setup(*old(self)),
            replaced == old(self)@.has(computation_id),
            final(self)@ == old(self)@.with_computation(computation_id, ComputationView::started()),
            final(self)@.computation(computation_id).is_own(),
    {
        let replaced: bool = self.find(computation_id).is_some();
        let (place, _old_computation) = self.take_computation(computation_id);
        let fresh = Computation::default();
        self.put_computation(place, computation_id, fresh);
        proof {
            self@.lemma_place(place as int);
        }
        replaced
    }

    /// Reacts to a row of keys from the list `from` of the computation `computation_id`.
    fn on_tek_matches(&mut self, teks: &TekSet, from: ListType, computation_id: ComputationId) -> (actions:
        Vec<Action>)
        requires
            old(self).wf(),
        ensures
            final(self).wf(),
            final(self).same_setup(*old(self)),
            (final(self)@, action_views(actions@)) == old(self).setup().tek_matches(
                old(self)@,
                teks.elements(),
                from,
                computation_id,
            ),
            forall|i: int| 0 <= i < actions@.len() ==> (#[trigger] actions@[i]).wf(),
    {
        let mut actions: Vec<Action> = Vec::new();
        let mut i: usize = 0;
        assert(action_views(actions@) =~= Seq::<ActionView>::empty());
        assert(teks.elements().take(0) =~= Seq::<Validity<TemporaryExposureKey>>::empty());
        while i < teks.len()
            invariant
                i <= teks.elements().len(),
                self.wf(),
                self.same_setup(*old(self)),
                (self@, action_views(actions@)) == old(self).setup().tek_matches(
                    old(self)@,
                    teks.elements().take(i as int),
                    from,
                    computation_id,
                ),
                forall|j: int| 0 <= j < actions@.len() ==> (#[trigger] actions@[j]).wf(),
            decreases teks.elements().len() - i,
        {
            let ghost done = action_views(actions@);
            let mut more: Vec<Action> = self.on_tek_match(teks.get(i), from, computation_id);
            let ghost added = action_views(more@);
            actions.append(&mut more);
            proof {
                let prefix = teks.elements().take(i + 1);
                assert(prefix.drop_last() =~= teks.elements().take(i as int));
                assert(prefix.last() == teks.elements()[i as int]);
                assert(action_views(actions@) =~= done + added);
            }
            i += 1;
        }
        assert(teks.elements().take(i as int) =~= teks.elements());
        actions
    }

    /// Whether one of `teks` is a key of the participant's own.
    fn any_own_tek(&self, teks: &TekSet) -> (r: bool)
        ensures
            r == self.setup().any_own(teks.elements()),
    {
        let mut i: usize = 0;
        while i < teks.len()
            invariant
                i <= teks.elements().len(),
                forall|j: int| 0 <= j < i ==> !self.keys.own((#[trigger] teks.elements()[j])@),
            decreases teks.elements().len() - i,
        {
            let tek = teks.get(i);
            if self.keys.is_own_tek(&tek) {
                return true;
            }
            i += 1;
        }
        false
    }

    /// Reacts to the lists of one computation in a chunk.
    fn process_entry(&mut self, computation_id: ComputationId, blacklist: &TekSet, greylist: &TekSet) -> (actions:
        Vec<Action>)
        requires
            old(self).wf(),
        ensures
            final(self).wf(),
            final(self).same_setup(*old(self)),
            (final(self)@, action_views(actions@)) == old(self).setup().entry_processed(
                old(self)@,
                computation_id,
                ComputationStateView {
                    blacklist: blacklist.elements(),
                    greylist: greylist.elements(),
                },
            ),
            forall|i: int| 0 <= i < actions@.len() ==> (#[trigger] actions@[i]).wf(),
    {
        let mut actions: Vec<Action> = Vec::new();
        let known: bool = self.find(computation_id).is_some();
        let hit: bool = known && self.any_own_tek(greylist);
        if hit {
            if !self.transitive_contact {
                actions.push(
                    Action::Raise(Alert::TransitiveContact { already_traced: self.traced_contact }),
                );
            }
            self.transitive_contact = true;
        }
        let ghost alerts = action_views(actions@);
        proof {
            assert(self@.computations =~= old(self)@.computations);
            assert(self@ == old(self)@.with_transitive_contact(hit));
            if hit && !old(self)@.transitive_contact {
                assert(alerts =~= seq![
                    ActionView::Raise(
                        Alert::TransitiveContact { already_traced: old(self)@.traced_contact },
                    ),
                ]);
            } else {
                assert(alerts =~= Seq::<ActionView>::empty());
            }
        }
        let mut black: Vec<Action> = self.on_tek_matches(
            blacklist,
            ListType::Blacklist,
            computation_id,
        );
        let ghost black_views = action_views(black@);
        actions.append(&mut black);
        let mut grey: Vec<Action> = self.on_tek_matches(greylist, ListType::Greylist, computation_id);
        let ghost grey_views = action_views(grey@);
        actions.append(&mut grey);
        assert(action_views(actions@) =~= alerts + black_views + grey_views);
        actions
    }

    /// Reacts to a chunk from the diagnosis server: to the lists of each of its
    /// computations, in the order of the chunk.
    pub fn process_chunk(&mut self, chunk: &Chunk) -> (actions: Vec<Action>)
        requires
            old(self).wf(),
        ensures
            final(self).wf(),
            final(self).same_setup(*old(self)),
            final(self)@ == old(self).setup().chunk_processed(old(self)@, chunk@.data).0,
            action_views(actions@) == old(self).setup().chunk_processed(old(self)@, chunk@.data).1,
            grown(old(self)@, final(self)@),
            forall|i: int| 0 <= i < actions@.len() ==> (#[trigger] actions@[i]).wf(),
    {
        let mut actions: Vec<Action> = Vec::new();
        let data = chunk.data();
        let mut i: usize = 0;
        assert(action_views(actions@) =~= Seq::<ActionView>::empty());
        assert(chunk@.data.take(0) =~= Seq::<(ComputationId, ComputationStateView)>::empty());
        while i < data.len()
            invariant
                i <= data@.len(),
                data@.len() == chunk@.data.len(),
                forall|j: int|
                    0 <= j < data@.len() ==> (#[trigger] data@[j]).0 == chunk@.data[j].0
                        && data@[j].1@ == chunk@.data[j].1,
                self.wf(),
                self.same_setup(*old(self)),
                (self@, action_views(actions@)) == old(self).setup().chunk_processed(
                    old(self)@,
                    chunk@.data.take(i as int),
                ),
                forall|j: int| 0 <= j < actions@.len() ==> (#[trigger] actions@[j]).wf(),
            decreases data@.len() - i,
        {
            let ghost done = action_views(actions@);
            let mut more: Vec<Action> = self.process_entry(
                data[i].0,
                data[i].1.blacklist(),
                data[i].1.greylist(),
            );
            let ghost added = action_views(more@);
            actions.append(&mut more);
            proof {
                let prefix = chunk@.data.take(i + 1);
                assert(prefix.drop_last() =~= chunk@.data.take(i as int));
                assert(prefix.last() == chunk@.data[i as int]);
                assert(data@[i as int].1@ == chunk@.data[i as int].1);
                assert(chunk@.data[i as int].1 == (ComputationStateView {
                    blacklist: data@[i as int].1@.blacklist,
                    greylist: data@[i as int].1@.greylist,
                }));
                assert(action_views(actions@) =~= done + added);
            }
            i += 1;
        }
        assert(chunk@.data.take(i as int) =~= chunk@.data);
        proof {
            law_chunk_grows(old(self).setup(), old(self)@, chunk@.data);
        }
        actions
    }

    /// Reacts to one event.
    ///
    /// New chunks are taken in one after the other; the participant then asks from the
    /// latest start of a chunk on. A forward is handled. At the end of the
    /// computation period the participant counts as warned if it was told of a traced
    /// contact of high risk or of a transitive contact, or tested positive, and that is
    /// correct if it is what ought to be.
    #[verifier::rlimit(30)]
    pub fn run(&mut self, event: Event) -> (reaction: Reaction)
        requires
            old(self).wf(),
            event matches Event::NewForwardRequest { params } ==> params.shared_encounter_times.wf(),
        ensures
            final(self).wf(),
            final(self).same_setup(*old(self)),
            grown(old(self)@, final(self)@),
            match event {
                Event::NewChunks { last_from, chunks } => {
                    let views = Seq::new(chunks@.len(), |i: int| chunks@[i]@);
                    &&& reaction matches Reaction::ChunksProcessed { next_from, actions }
                    &&& next_from@ == Setup::next_from(last_from@, views)
                    &&& final(self)@ == old(self).setup().chunks_processed(old(self)@, views).0
                    &&& action_views(actions@) == old(self).setup().chunks_processed(
                        old(self)@,
                        views,
                    ).1
                },
                Event::NewForwardRequest { params } => {
                    let expected = old(self).setup().tek_forward(old(self)@, params);
                    &&& reaction matches Reaction::ForwardHandled(outcome)
                    &&& final(self)@ == expected.0
                    &&& match outcome {
                        Ok(actions) => expected.1 == Ok::<Seq<ActionView>, ProtocolViolation>(
                            action_views(actions@),
                        ),
                        Err(violation) => expected.1 == Err::<Seq<ActionView>, ProtocolViolation>(
                            violation,
                        ),
                    }
                },
                Event::ComputationPeriodExpired => {
                    let warned = old(self)@.traced_contact || old(self)@.transitive_contact || old(self).who().positively_tested;
                    &&& final(self)@ == old(self)@
                    &&& reaction matches Reaction::Verdict { warned: w, correct: c }
                    &&& w == warned
                    &&& c == (warned == old(self).who().to_be_warned)
                },
            },
    {
        match event {
            Event::NewChunks { last_from, chunks } => {
                let mut next_from: Timestamp = last_from;
                let mut actions: Vec<Action> = Vec::new();
                let ghost views = Seq::new(chunks@.len(), |i: int| chunks@[i]@);
                let mut i: usize = 0;
                assert(action_views(actions@) =~= Seq::<ActionView>::empty());
                assert(views.take(0) =~= Seq::<ChunkView>::empty());
                while i < chunks.len()
                    invariant
                        i <= chunks@.len(),
                        views == Seq::new(chunks@.len(), |k: int| chunks@[k]@),
                        self.wf(),
                        self.same_setup(*old(self)),
                        next_from@ == Setup::next_from(last_from@, views.take(i as int)),
                        (self@, action_views(actions@)) == old(self).setup().chunks_processed(
                            old(self)@,
                            views.take(i as int),
                        ),
                        forall|j: int| 0 <= j < actions@.len() ==> (#[trigger] actions@[j]).wf(),
                    decreases chunks@.len() - i,
                {
                    let ghost done = action_views(actions@);
                    if next_from.is_before(chunks[i].covers().from_including()) {
                        next_from = *chunks[i].covers().from_including();
                    }
                    let mut more: Vec<Action> = self.process_chunk(&chunks[i]);
                    let ghost added = action_views(more@);
                    actions.append(&mut more);
                    proof {
                        let prefix = views.take(i + 1);
                        assert(prefix.drop_last() =~= views.take(i as int));
                        assert(prefix.last() == chunks@[i as int]@);
                        assert(action_views(actions@) =~= done + added);
                    }
                    i += 1;
                }
                assert(views.take(i as int) =~= views);
                proof {
                    law_chunks_grow(old(self).setup(), old(self)@, views);
                }
                Reaction::ChunksProcessed { next_from, actions }
            },
            Event::NewForwardRequest { params } => Reaction::ForwardHandled(
                self.on_tek_forward(&params),
            ),
            Event::ComputationPeriodExpired => {
                proof {
                    lemma_grown_reflexive(self@);
                }
                let warned: bool = self.traced_contact || self.transitive_contact
                    || self.participant.positively_tested();
                let correct: bool = warned == self.participant.to_be_warned();
                Reaction::Verdict { warned, correct }
            },
        }
    }

    /// Reacts to a forward, and says what is to be done or why the forward is dropped.
    /// Whatever the forward, the same computations are known afterwards, with the same
    /// successors, and each is the participant's own or not as it was.
    pub fn on_tek_forward(&mut self, params: &ForwardParams) -> (outcome: Result<
        Vec<Action>,
        ProtocolViolation,
    >)
        requires
            old(self).wf(),
            params.shared_encounter_times.wf(),
        ensures
            final(self).wf(),
            final(self).same_setup(*old(self)),
            final(self)@ == old(self).setup().tek_forward(old(self)@, *params).0,
            match outcome {
                Ok(actions) => old(self).setup().tek_forward(old(self)@, *params).1 == Ok::<
                    Seq<ActionView>,
                    ProtocolViolation,
                >(action_views(actions@)) && forall|i: int|
                    0 <= i < actions@.len() ==> (#[trigger] actions@[i]).wf(),
                Err(violation) => old(self).setup().tek_forward(old(self)@, *params).1 == Err::<
                    Seq<ActionView>,
                    ProtocolViolation,
                >(violation),
            },
            grown(old(self)@, final(self)@),
            forall|id: ComputationId| #[trigger] final(self)@.has(id) == old(self)@.has(id),
            forall|id: ComputationId|
                (#[trigger] final(self)@.computation(id)).is_own() == old(self)@.computation(
                    id,
                ).is_own() && final(self)@.computation(id).successors == old(self)@.computation(
                    id,
                ).successors,
    {
        let outcome = self.tek_forward_step(params);
        proof {
            law_tek_forward_keeps(old(self).setup(), old(self)@, *params);
            assert forall|id: ComputationId|
                (#[trigger] self@.computation(id)).is_own() == old(self)@.computation(id).is_own() by {
                if !old(self)@.has(id) {
                    assert(!self@.has(id));
                }
            }
        }
        outcome
    }

    /// Goes through the steps of a reaction to a forward.
    #[verifier::rlimit(40)]
    fn tek_forward_step(&mut self, params: &ForwardParams) -> (outcome: Result<
        Vec<Action>,
        ProtocolViolation,
    >)
        requires
            old(self).wf(),
            params.shared_encounter_times.wf(),
        ensures
            final(self).wf(),
            final(self).same_setup(*old(self)),
            final(self)@ == old(self).setup().tek_forward(old(self)@, *params).0,
            match outcome {
                Ok(actions) => old(self).setup().tek_forward(old(self)@, *params).1 == Ok::<
                    Seq<ActionView>,
                    ProtocolViolation,
                >(action_views(actions@)) && forall|i: int|
                    0 <= i < actions@.len() ==> (#[trigger] actions@[i]).wf(),
                Err(violation) => old(self).setup().tek_forward(old(self)@, *params).1 == Err::<
                    Seq<ActionView>,
                    ProtocolViolation,
                >(violation),
            },
    {
        let tekrp: TekRollingPeriod = self.system_params.tek_rolling_period;
        let origin_tek: Validity<TemporaryExposureKey> = params.origin_tek(tekrp);
        let predecessor_tek: Validity<TemporaryExposureKey> = params.predecessor_tek(tekrp);
        let predecessor_tek_keyring: Validity<TekKeyring> = match Validity::<TekKeyring>::try_from(
            predecessor_tek,
        ) {
            Ok(tek_keyring) => tek_keyring,
            Err(_) => {
                return Err(ProtocolViolation::NeverMet);
            },
        };
        assert(predecessor_tek_keyring == Setup::keyring_of(predecessor_tek));
        let matched: Matches = match self.bluetooth_layer.matches(&predecessor_tek_keyring) {
            Ok(Some(matched)) => matched,
            Ok(None) => {
                return Err(ProtocolViolation::NeverMet);
            },
            Err(violation) => {
                return Err(violation);
            },
        };
        let ghost found = matched@;
        let computation_id: ComputationId = params.computation_id();
        if self.find(computation_id).is_none() {
            return Err(ProtocolViolation::UnknownComputation);
        }
        let (place, mut computation) = self.take_computation(computation_id);
        if params.is_first_forward() {
            computation.redlist_insert(predecessor_tek);
        }
        let ghost view = computation@;
        let admitted: bool = computation.redlist().contains(&predecessor_tek);
        let shared_encounter_times: ExposureTimeSet = matched.high_risk().intersection(
            params.shared_encounter_times(),
        );
        let outcome: Result<Vec<Action>, ProtocolViolation> = if !admitted {
            Err(ProtocolViolation::MissingPredecessor)
        } else if shared_encounter_times.is_empty() {
            Err(ProtocolViolation::NoSharedEncounter)
        } else if computation.is_own() {
            let mut diagnosis_keys = TekSet::new();
            diagnosis_keys.insert(origin_tek);
            let mut actions: Vec<Action> = Vec::new();
            actions.push(
                Action::GreylistUpload(GreylistUploadParams { computation_id, diagnosis_keys }),
            );
            proof {
                assert(diagnosis_keys@ =~= set![params.origin_key(self.setup().tekrp)]);
                assert(action_views(actions@) =~= seq![
                    ActionView::GreylistUpload {
                        computation_id,
                        keys: set![params.origin_key(self.setup().tekrp)],
                    },
                ]);
            }
            Ok(actions)
        } else {
            let valid_from: ExposureTime = matched.tek().valid_from();
            match self.keys.exposure_keyring(valid_from, tekrp) {
                Some(exposure_keyring) => {
                    let own_tek = TemporaryExposureKey::from(*exposure_keyring);
                    assert(self.setup().own_tek(found.key.0) == Some(own_tek@));
                    Ok(Self::relay(&computation, params, own_tek, &shared_encounter_times))
                },
                None => Err(ProtocolViolation::MissingOwnKey),
            }
        };
        self.put_computation(place, computation_id, computation);
        outcome
    }

    /// The forwards that go on to the successors of a computation.
    fn relay(
        computation: &Computation,
        params: &ForwardParams,
        own_tek: TemporaryExposureKey,
        shared_encounter_times: &ExposureTimeSet,
    ) -> (actions: Vec<Action>)
        requires
            computation.wf(),
            shared_encounter_times.wf(),
        ensures
            action_views(actions@) == Setup::relayed(
                computation@.successors,
                forward_view(*params),
                own_tek@,
                shared_encounter_times@,
            ),
            forall|i: int| 0 <= i < actions@.len() ==> (#[trigger] actions@[i]).wf(),
    {
        let successors = computation.successors();
        let mut actions: Vec<Action> = Vec::new();
        let mut i: usize = 0;
        assert(action_views(actions@) =~= Seq::<ActionView>::empty());
        assert(computation@.successors.take(0) =~= Seq::<MatchView>::empty());
        while i < successors.len()
            invariant
                i <= successors@.len(),
                successors@.len() == computation@.successors.len(),
                forall|j: int|
                    0 <= j < successors@.len() ==> (#[trigger] successors@[j])@
                        == computation@.successors[j] && successors@[j].wf(),
                shared_encounter_times.wf(),
                action_views(actions@) == Setup::relayed(
                    computation@.successors.take(i as int),
                    forward_view(*params),
                    own_tek@,
                    shared_encounter_times@,
                ),
                forall|j: int| 0 <= j < actions@.len() ==> (#[trigger] actions@[j]).wf(),
            decreases successors@.len() - i,
        {
            let ghost done = action_views(actions@);
            let successor: &Matches = &successors[i];
            let next_shared_encounter_times: ExposureTimeSet = shared_encounter_times.intersection(
                successor.high_risk(),
            );
            proof {
                let prefix = computation@.successors.take(i + 1);
                assert(prefix.drop_last() =~= computation@.successors.take(i as int));
                assert(prefix.last() == successor@);
            }
            if !next_shared_encounter_times.is_empty() {
                let ghost next = next_shared_encounter_times@;
                let mut next_params: ForwardParams = params.clone();
                next_params.update(own_tek, next_shared_encounter_times);
                assert(forward_view(next_params) == Setup::relay_forward(
                    forward_view(*params),
                    own_tek@,
                    next,
                ));
                actions.push(
                    Action::Forward {
                        endpoint: successor.connection_identifier(),
                        params: next_params,
                        successor: None,
                    },
                );
                assert(action_views(actions@) =~= done.push(
                    ActionView::Forward {
                        endpoint: successor@.endpoint,
                        params: Setup::relay_forward(forward_view(*params), own_tek@, next),
                        successor: None,
                    },
                ));
            }
            i += 1;
        }
        assert(computation@.successors.take(i as int) =~= computation@.successors);
        actions
    }
}

} // verus!
