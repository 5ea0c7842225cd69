use crate::config::Endpoint;
use crate::config::Intensity;
use crate::error::ExposurelibError;
use crate::error::ProtocolViolation;
use crate::primitives::AssociatedEncryptedMetadata;
use crate::primitives::ExposureKeyring;
use crate::primitives::InfectionPeriod;
use crate::primitives::Metadata;
use crate::primitives::RollingProximityIdentifier;
use crate::primitives::TekKeyring;
use crate::primitives::TekRollingPeriod;
use crate::primitives::TemporaryExposureKey;
use crate::primitives::Validity;
use crate::tek_set::TekSet;
use crate::time::Duration;
use crate::time::ExposureTime;
use crate::time::ExposureTimeSet;
use crate::time::Timestamp;
use crate::time::NANOS_PER_INTERVAL;
use vstd::prelude::*;

verus! {

/// A beacon of another participant as it was observed: when, and what was broadcast.
#[derive(Debug, Clone, Copy)]
pub struct TracedContact {
    pub(crate) timestamp: Timestamp,
    pub(crate) exposure_time: ExposureTime,
    pub(crate) rpi: RollingProximityIdentifier,
    pub(crate) aem: AssociatedEncryptedMetadata,
}

impl TracedContact {
    /// The instant of the observation, in nanoseconds since the epoch.
    pub open(crate) spec fn seen_at(self) -> int {
        self.timestamp@
    }

    /// The number of the interval of the observation.
    pub open(crate) spec fn interval(self) -> int {
        self.exposure_time@
    }

    /// The bytes of the identifier that was observed.
    pub open(crate) spec fn identifier(self) -> Seq<u8> {
        self.rpi@
    }

    /// The encrypted metadata that was observed.
    pub open(crate) spec fn sealed(self) -> AssociatedEncryptedMetadata {
        self.aem
    }

    /// What this contact tells the holder of `keyring`, were it observed during the
    /// interval `at`: the metadata, if the identifier is the one that the keyring's owner
    /// broadcast then, and nothing otherwise.
    pub open spec fn reveals(self, keyring: TekKeyring, at: int) -> Option<Metadata> {
        if self.identifier() == RollingProximityIdentifier::derived(keyring.rpik_bytes(), at) {
            Some(self.sealed().opened(keyring.aemk_bytes(), self.identifier()))
        } else {
            None
        }
    }

    /// The contact observed at `timestamp`.
    pub fn new(
        timestamp: Timestamp,
        rpi: RollingProximityIdentifier,
        aem: AssociatedEncryptedMetadata,
    ) -> (r: Self)
        ensures
            r.seen_at() == timestamp@,
            r.interval() == ExposureTime::interval_number_at(timestamp@),
            r.identifier() == rpi@,
            r.sealed() == aem,
    {
        TracedContact {
            timestamp,
            exposure_time: ExposureTime::from(timestamp),
            rpi,
            aem,
        }
    }

    pub fn timestamp(&self) -> (r: Timestamp)
        ensures
            r@ == self.seen_at(),
    {
        self.timestamp
    }

    pub fn exposure_time(&self) -> (r: ExposureTime)
        ensures
            r@ == self.interval(),
    {
        self.exposure_time
    }

    pub fn rpi(&self) -> (r: RollingProximityIdentifier)
        ensures
            r@ == self.identifier(),
    {
        self.rpi
    }

    pub fn aem(&self) -> (r: AssociatedEncryptedMetadata)
        ensures
            r == self.sealed(),
    {
        self.aem
    }
}

/// A match as a value: the endpoint, the key that was matched, given by the start of its
/// rolling period and its bytes, and the intervals of the encounters by risk.
pub struct MatchView {
    pub endpoint: Endpoint,
    pub key: (int, Seq<u8>),
    pub high: Set<int>,
    pub low: Set<int>,
}

/// What the contact history tells about the owner of one temporary exposure key: where
/// the owner can be reached and at which times the owner was met, by risk.
#[derive(Debug)]
pub struct Matches {
    pub(crate) socket_addr: Endpoint,
    pub(crate) tek: Validity<TemporaryExposureKey>,
    pub(crate) high_risk: ExposureTimeSet,
    pub(crate) low_risk: ExposureTimeSet,
}

impl View for Matches {
    type V = MatchView;

    open(crate) spec fn view(&self) -> MatchView {
        MatchView {
            endpoint: self.socket_addr,
            key: self.tek@,
            high: self.high_risk@,
            low: self.low_risk@,
        }
    }
}

impl Matches {
    /// Where the owner of the key can be reached.
    pub open(crate) spec fn endpoint(self) -> Endpoint {
        self.socket_addr
    }

    /// The key that was matched: the start of its rolling period and its bytes.
    pub open(crate) spec fn key(self) -> (int, Seq<u8>) {
        self.tek@
    }

    /// The times of the encounters of high risk.
    pub open(crate) spec fn high(self) -> Set<int> {
        self.high_risk@
    }

    /// The times of the encounters of low risk.
    pub open(crate) spec fn low(self) -> Set<int> {
        self.low_risk@
    }

    /// Both sets of times are in order.
    pub open(crate) spec fn wf(self) -> bool {
        self.high_risk.wf() && self.low_risk.wf()
    }

    pub fn new(
        socket_addr: Endpoint,
        tek: Validity<TemporaryExposureKey>,
        high_risk: ExposureTimeSet,
        low_risk: ExposureTimeSet,
    ) -> (r: Self)
        requires
            high_risk.wf(),
            low_risk.wf(),
        ensures
            r.wf(),
            r.endpoint() == socket_addr,
            r.key() == tek@,
            r.high() == high_risk@,
            r.low() == low_risk@,
    {
        Matches { socket_addr, tek, high_risk, low_risk }
    }

    pub fn connection_identifier(&self) -> (r: Endpoint)
        ensures
            r == self.endpoint(),
    {
        self.socket_addr
    }

    pub fn tek(&self) -> (r: &Validity<TemporaryExposureKey>)
        ensures
            r@ == self.key(),
    {
        &self.tek
    }

    pub fn high_risk(&self) -> (r: &ExposureTimeSet)
        ensures
            r@ == self.high(),
            self.wf() ==> r.wf(),
    {
        &self.high_risk
    }

    pub fn low_risk(&self) -> (r: &ExposureTimeSet)
        ensures
            r@ == self.low(),
            self.wf() ==> r.wf(),
    {
        &self.low_risk
    }

    /// The times of all encounters, of whatever risk.
    pub fn any_risk(&self) -> (r: ExposureTimeSet)
        requires
            self.wf(),
        ensures
            r.wf(),
            r@ == self.high().union(self.low()),
    {
        self.high_risk.union(&self.low_risk)
    }
}

impl Clone for Matches {
    fn clone(&self) -> (r: Self)
        ensures
            r@ == self@,
            r.endpoint() == self.endpoint(),
            r.key() == self.key(),
            r.high() == self.high(),
            r.low() == self.low(),
            r.wf() == self.wf(),
    {
        Matches {
            socket_addr: self.socket_addr,
            tek: self.tek,
            high_risk: self.high_risk.clone(),
            low_risk: self.low_risk.clone(),
        }
    }
}

/// The contacts that were observed during one interval, in the order in which they came
/// in.
#[derive(Debug)]
pub struct IntervalContacts {
    pub(crate) exposure_time: ExposureTime,
    pub(crate) contacts: Vec<TracedContact>,
}

impl IntervalContacts {
    /// The number of the interval.
    pub open(crate) spec fn interval(self) -> int {
        self.exposure_time@
    }

    /// The contacts in the order in which they came in.
    pub open(crate) spec fn sightings(self) -> Seq<TracedContact> {
        self.contacts@
    }

    pub fn exposure_time(&self) -> (r: ExposureTime)
        ensures
            r@ == self.interval(),
    {
        self.exposure_time
    }

    pub fn contacts(&self) -> (r: &Vec<TracedContact>)
        ensures
            r@ == self.sightings(),
    {
        &self.contacts
    }

    /// What the contact at place `i` tells the holder of `keyring`.
    pub open(crate) spec fn discloses(self, keyring: TekKeyring, i: int) -> Option<Metadata> {
        if 0 <= i < self.contacts@.len() {
            self.contacts@[i].reveals(keyring, self.exposure_time@)
        } else {
            None
        }
    }

    /// Whether a contact before place `n` tells the holder of `keyring` of an encounter
    /// of the given intensity.
    pub open(crate) spec fn tells(self, keyring: TekKeyring, n: int, intensity: Intensity) -> bool {
        exists|i: int|
            0 <= i < n && (#[trigger] self.discloses(keyring, i)) is Some && self.discloses(
                keyring,
                i,
            )->0.risk() == intensity
    }

    /// Whether a contact before place `n` that tells the holder of `keyring` anything
    /// names `endpoint`.
    pub open(crate) spec fn names(self, keyring: TekKeyring, n: int, endpoint: Endpoint) -> bool {
        exists|i: int|
            0 <= i < n && (#[trigger] self.discloses(keyring, i)) is Some && self.discloses(
                keyring,
                i,
            )->0.endpoint() == endpoint
    }

    /// Whether every contact before place `n` that tells the holder of `keyring` anything
    /// names `endpoint`.
    pub open(crate) spec fn agrees(self, keyring: TekKeyring, n: int, endpoint: Endpoint) -> bool {
        forall|i: int|
            0 <= i < n && (#[trigger] self.discloses(keyring, i)) is Some ==> self.discloses(
                keyring,
                i,
            )->0.endpoint() == endpoint
    }

    /// Whether a contact that tells the holder of `keyring` anything names another
    /// endpoint than `known`, or than another such contact.
    pub open(crate) spec fn clashes(self, keyring: TekKeyring, known: Option<Endpoint>) -> bool {
        ||| exists|i: int|
            (#[trigger] self.discloses(keyring, i)) is Some && known is Some && self.discloses(
                keyring,
                i,
            )->0.endpoint() != known->0
        ||| exists|i: int, j: int|
            (#[trigger] self.discloses(keyring, i)) is Some && (#[trigger] self.discloses(
                keyring,
                j,
            )) is Some && self.discloses(keyring, i)->0.endpoint() != self.discloses(
                keyring,
                j,
            )->0.endpoint()
    }

    /// Goes through the contacts of the interval for the holder of `keyring`, who has so
    /// far learnt of the endpoint `known`: whether there was an encounter of high risk
    /// and one of low risk, and the endpoint that is known afterwards. Fails where a
    /// contact names another endpoint than one before it.
    #[verifier::rlimit(30)]
    pub(crate) fn scan(&self, keyring: &TekKeyring, known: Option<Endpoint>) -> (r: Result<
        (bool, bool, Option<Endpoint>),
        ProtocolViolation,
    >)
        ensures
            match r {
                Ok((high, low, endpoint)) => {
                    let n = self.contacts@.len() as int;
                    &&& high == self.tells(*keyring, n, Intensity::HighRisk)
                    &&& low == self.tells(*keyring, n, Intensity::LowRisk)
                    &&& known is Some ==> endpoint == known
                    &&& endpoint is Some ==> self.agrees(*keyring, n, endpoint->0)
                    &&& endpoint is None ==> forall|i: int| (#[trigger] self.discloses(*keyring, i)) is None
                    &&& known is None && endpoint is Some ==> self.names(*keyring, n, endpoint->0)
                },
                Err(e) => {
                    &&& e == ProtocolViolation::InconsistentEndpoint
                    &&& self.clashes(*keyring, known)
                },
            },
    {
        let derived_rpi: RollingProximityIdentifier = keyring.rpi(self.exposure_time);
        let mut high: bool = false;
        let mut low: bool = false;
        let mut endpoint: Option<Endpoint> = known;
        let mut i: usize = 0;
        while i < self.contacts.len()
            invariant
                i <= self.contacts@.len(),
                derived_rpi@ == RollingProximityIdentifier::derived(
                    keyring.rpik_bytes(),
                    self.exposure_time@,
                ),
                high == self.tells(*keyring, i as int, Intensity::HighRisk),
                low == self.tells(*keyring, i as int, Intensity::LowRisk),
                known is Some ==> endpoint == known,
                endpoint is Some ==> self.agrees(*keyring, i as int, endpoint->0),
                endpoint is None ==> forall|j: int|
                    0 <= j < i ==> (#[trigger] self.discloses(*keyring, j)) is None,
                known is None && endpoint is Some ==> self.names(*keyring, i as int, endpoint->0),
            decreases self.contacts@.len() - i,
        {
            let traced_contact: TracedContact = self.contacts[i];
            if traced_contact.rpi == derived_rpi {
                let metadata: Metadata = traced_contact.aem.decrypt(keyring.aemk(), &derived_rpi);
                assert(self.discloses(*keyring, i as int) == Some(metadata));
                match endpoint {
                    Some(seen) => {
                        if seen != metadata.connection_identifier() {
                            proof {
                                if known is None {
                                    let j = choose|j: int|
                                        0 <= j < i && (#[trigger] self.discloses(*keyring, j)) is Some
                                            && self.discloses(*keyring, j)->0.endpoint() == seen;
                                    assert(self.discloses(*keyring, i as int) is Some
                                        && self.discloses(*keyring, j) is Some);
                                } else {
                                    assert(self.discloses(*keyring, i as int) is Some);
                                }
                                assert(self.clashes(*keyring, known));
                            }
                            return Err(ProtocolViolation::InconsistentEndpoint);
                        }
                    },
                    None => {},
                }
                endpoint = Some(metadata.connection_identifier());
                match metadata.intensity() {
                    Intensity::HighRisk => {
                        high = true;
                    },
                    Intensity::LowRisk => {
                        low = true;
                    },
                }
                proof {
                    assert(self.names(*keyring, i + 1, endpoint->0));
                    assert(self.tells(*keyring, i + 1, metadata.risk()));
                    let other = if metadata.risk() == Intensity::HighRisk {
                        Intensity::LowRisk
                    } else {
                        Intensity::HighRisk
                    };
                    if self.tells(*keyring, i + 1, other) {
                        let j = choose|j: int|
                            0 <= j < i + 1 && (#[trigger] self.discloses(*keyring, j)) is Some
                                && self.discloses(*keyring, j)->0.risk() == other;
                        assert(j < i);
                        assert(self.tells(*keyring, i as int, other));
                    }
                }
            } else {
                assert(self.discloses(*keyring, i as int) is None);
                proof {
                    assert forall|intensity: Intensity|
                        self.tells(*keyring, i + 1, intensity) implies self.tells(
                        *keyring,
                        i as int,
                        intensity,
                    ) by {
                        let j = choose|j: int|
                            0 <= j < i + 1 && (#[trigger] self.discloses(*keyring, j)) is Some
                                && self.discloses(*keyring, j)->0.risk() == intensity;
                        assert(j < i);
                    }
                    if known is None && endpoint is Some {
                        let j = choose|j: int|
                            0 <= j < i && (#[trigger] self.discloses(*keyring, j)) is Some
                                && self.discloses(*keyring, j)->0.endpoint() == endpoint->0;
                        assert(0 <= j < i + 1);
                    }
                }
            }
            i += 1;
        }
        Ok((high, low, endpoint))
    }
}

/// The contacts that were observed during one TEK rolling period, by interval, the
/// intervals in ascending order.
#[derive(Debug)]
pub struct RollingPeriodContacts {
    pub(crate) valid_from: ExposureTime,
    pub(crate) intervals: Vec<IntervalContacts>,
}

impl RollingPeriodContacts {
    /// The interval at which the rolling period starts.
    pub open(crate) spec fn start(self) -> int {
        self.valid_from@
    }

    /// The contacts by interval, the intervals in ascending order.
    pub open(crate) spec fn by_interval(self) -> Seq<IntervalContacts> {
        self.intervals@
    }

    pub fn valid_from(&self) -> (r: ExposureTime)
        ensures
            r@ == self.start(),
    {
        self.valid_from
    }

    pub fn intervals(&self) -> (r: &Vec<IntervalContacts>)
        ensures
            r@ == self.by_interval(),
    {
        &self.intervals
    }

    /// The intervals ascend strictly, so none occurs twice.
    pub open(crate) spec fn wf(self) -> bool {
        forall|i: int, j: int|
            0 <= i < j < self.intervals@.len() ==> #[trigger] self.intervals@[i].exposure_time@
                < #[trigger] self.intervals@[j].exposure_time@
    }

    /// Whether anything was observed during the interval `at`.
    pub open(crate) spec fn has_interval(self, at: int) -> bool {
        exists|s: int|
            0 <= s < self.intervals@.len() && #[trigger] self.intervals@[s].exposure_time@ == at
    }

    /// Where the contacts of the interval `at` are kept.
    pub open(crate) spec fn place_of(self, at: int) -> int {
        choose|s: int|
            0 <= s < self.intervals@.len() && #[trigger] self.intervals@[s].exposure_time@ == at
    }

    /// The contacts observed during the interval `at`, in the order in which they came in.
    pub open(crate) spec fn sightings(self, at: int) -> Seq<TracedContact> {
        if self.has_interval(at) {
            self.intervals@[self.place_of(at)].contacts@
        } else {
            Seq::empty()
        }
    }

    /// The contacts of an interval that is stored are those at its place.
    pub(crate) proof fn lemma_place(self, s: int)
        requires
            self.wf(),
            0 <= s < self.intervals@.len(),
        ensures
            self.has_interval(self.intervals@[s].exposure_time@),
            self.place_of(self.intervals@[s].exposure_time@) == s,
            self.sightings(self.intervals@[s].exposure_time@) == self.intervals@[s].contacts@,
    {
        let at = self.intervals@[s].exposure_time@;
        let p = self.place_of(at);
        if p < s {
            assert(self.intervals@[p].exposure_time@ < self.intervals@[s].exposure_time@);
        } else if s < p {
            assert(self.intervals@[s].exposure_time@ < self.intervals@[p].exposure_time@);
        }
    }

    /// Whether one of the first `s` intervals is the interval `at` and tells the holder of
    /// `keyring` of an encounter of the given intensity.
    pub open(crate) spec fn tells_upto(
        self,
        keyring: TekKeyring,
        s: int,
        at: int,
        intensity: Intensity,
    ) -> bool {
        exists|k: int|
            0 <= k < s && #[trigger] self.intervals@[k].exposure_time@ == at
                && self.intervals@[k].tells(
                keyring,
                self.intervals@[k].contacts@.len() as int,
                intensity,
            )
    }

    /// Whether a contact of the first `s` intervals that tells the holder of `keyring`
    /// anything names `endpoint`.
    pub open(crate) spec fn names_upto(self, keyring: TekKeyring, s: int, endpoint: Endpoint) -> bool {
        exists|k: int|
            0 <= k < s && (#[trigger] self.intervals@[k]).names(
                keyring,
                self.intervals@[k].contacts@.len() as int,
                endpoint,
            )
    }

    /// Whether every contact of the first `s` intervals that tells the holder of
    /// `keyring` anything names `endpoint`.
    pub open(crate) spec fn agrees_upto(self, keyring: TekKeyring, s: int, endpoint: Endpoint) -> bool {
        forall|k: int|
            0 <= k < s ==> (#[trigger] self.intervals@[k]).agrees(
                keyring,
                self.intervals@[k].contacts@.len() as int,
                endpoint,
            )
    }

    /// Whether no contact of the first `s` intervals tells the holder of `keyring`
    /// anything.
    pub open(crate) spec fn silent_upto(self, keyring: TekKeyring, s: int) -> bool {
        forall|k: int, i: int|
            0 <= k < s ==> (#[trigger] self.intervals@[k].discloses(keyring, i)) is None
    }

    /// What one more interval adds to what the intervals before it tell.
    pub(crate) proof fn lemma_tells_step(self, keyring: TekKeyring, s: int, intensity: Intensity)
        requires
            0 <= s < self.intervals@.len(),
        ensures
            forall|at: int| #[trigger]
                self.tells_upto(keyring, s + 1, at, intensity) == (self.tells_upto(
                    keyring,
                    s,
                    at,
                    intensity,
                ) || (self.intervals@[s].exposure_time@ == at && self.intervals@[s].tells(
                    keyring,
                    self.intervals@[s].contacts@.len() as int,
                    intensity,
                ))),
    {
        assert forall|at: int| #[trigger]
            self.tells_upto(keyring, s + 1, at, intensity) == (self.tells_upto(
                keyring,
                s,
                at,
                intensity,
            ) || (self.intervals@[s].exposure_time@ == at && self.intervals@[s].tells(
                keyring,
                self.intervals@[s].contacts@.len() as int,
                intensity,
            ))) by {
            if self.tells_upto(keyring, s + 1, at, intensity) {
                let k = choose|k: int|
                    0 <= k < s + 1 && #[trigger] self.intervals@[k].exposure_time@ == at
                        && self.intervals@[k].tells(
                        keyring,
                        self.intervals@[k].contacts@.len() as int,
                        intensity,
                    );
                if k < s {
                    assert(self.tells_upto(keyring, s, at, intensity));
                }
            }
            if self.tells_upto(keyring, s, at, intensity) {
                let k = choose|k: int|
                    0 <= k < s && #[trigger] self.intervals@[k].exposure_time@ == at
                        && self.intervals@[k].tells(
                        keyring,
                        self.intervals@[k].contacts@.len() as int,
                        intensity,
                    );
                assert(0 <= k < s + 1);
            }
            if self.intervals@[s].exposure_time@ == at && self.intervals@[s].tells(
                keyring,
                self.intervals@[s].contacts@.len() as int,
                intensity,
            ) {
                assert(0 <= s < s + 1);
            }
        }
    }

    /// What the first `s + 1` intervals say of the endpoint, from what the first `s` and
    /// the one after them say.
    pub(crate) proof fn lemma_endpoint_step(
        self,
        keyring: TekKeyring,
        s: int,
        known: Option<Endpoint>,
        seen: Option<Endpoint>,
    )
        requires
            0 <= s < self.intervals@.len(),
            known is Some ==> self.agrees_upto(keyring, s, known->0) && self.names_upto(
                keyring,
                s,
                known->0,
            ),
            known is None ==> self.silent_upto(keyring, s),
            known is Some ==> seen == known,
            seen is Some ==> self.intervals@[s].agrees(
                keyring,
                self.intervals@[s].contacts@.len() as int,
                seen->0,
            ),
            seen is None ==> forall|i: int| (#[trigger] self.intervals@[s].discloses(keyring, i)) is None,
            known is None && seen is Some ==> self.intervals@[s].names(
                keyring,
                self.intervals@[s].contacts@.len() as int,
                seen->0,
            ),
        ensures
            seen is Some ==> self.agrees_upto(keyring, s + 1, seen->0) && self.names_upto(
                keyring,
                s + 1,
                seen->0,
            ),
            seen is None ==> self.silent_upto(keyring, s + 1),
    {
        if seen is Some {
            let endpoint = seen->0;
            assert forall|k: int| 0 <= k < s + 1 implies (#[trigger] self.intervals@[k]).agrees(
                keyring,
                self.intervals@[k].contacts@.len() as int,
                endpoint,
            ) by {
                if k < s {
                    if known is None {
                        assert forall|i: int| (#[trigger] self.intervals@[k].discloses(keyring, i)) is None by {}
                    }
                }
            }
            if known is Some {
                let k = choose|k: int|
                    0 <= k < s && (#[trigger] self.intervals@[k]).names(
                        keyring,
                        self.intervals@[k].contacts@.len() as int,
                        endpoint,
                    );
                assert(0 <= k < s + 1);
            } else {
                assert(0 <= s < s + 1 && self.intervals@[s].names(
                    keyring,
                    self.intervals@[s].contacts@.len() as int,
                    endpoint,
                ));
            }
        } else {
            assert forall|k: int, i: int| 0 <= k < s + 1 implies (
            #[trigger] self.intervals@[k].discloses(keyring, i)) is None by {
                if k == s {
                } else {
                    assert(0 <= k < s);
                }
            }
        }
    }

    /// Adds a contact behind those of its interval.
    #[verifier::rlimit(30)]
    pub(crate) fn add(&mut self, traced_contact: TracedContact)
        requires
            old(self).wf(),
        ensures
            final(self).wf(),
            final(self).valid_from == old(self).valid_from,
            forall|at: int|
                #[trigger] final(self).sightings(at) == if at == traced_contact.interval() {
                    old(self).sightings(at).push(traced_contact)
                } else {
                    old(self).sightings(at)
                },
    {
        let target: u32 = traced_contact.exposure_time.en_interval_number;
        let mut s: usize = 0;
        while s < self.intervals.len() && self.intervals[s].exposure_time.en_interval_number
            < target
            invariant
                s <= self.intervals@.len(),
                *self == *old(self),
                forall|j: int| 0 <= j < s ==> #[trigger] self.intervals@[j].exposure_time@ < target,
            decreases self.intervals@.len() - s,
        {
            s += 1;
        }
        let found: bool = s < self.intervals.len()
            && self.intervals[s].exposure_time.en_interval_number == target;
        let mut slot: IntervalContacts = if found {
            self.intervals.remove(s)
        } else {
            IntervalContacts { exposure_time: traced_contact.exposure_time, contacts: Vec::new() }
        };
        let ghost before = old(self).intervals@;
        proof {
            if !found {
                assert forall|j: int| 0 <= j < before.len() implies #[trigger] before[j].exposure_time@
                    != target by {
                    if j > s {
                        assert(before[s as int].exposure_time@ < before[j].exposure_time@);
                    }
                }
                assert(!old(self).has_interval(target as int));
            } else {
                old(self).lemma_place(s as int);
            }
        }
        slot.contacts.push(traced_contact);
        self.intervals.insert(s, slot);
        proof {
            let after = self.intervals@;
            // where each old place went
            let moved = |j: int| if found || j < s { j } else { j + 1 };
            assert forall|j: int| 0 <= j < before.len() && j != s || (0 <= j < before.len()
                && !found) implies #[trigger] after[moved(j)] == before[j] by {}
            assert(after[s as int].exposure_time@ == target);
            assert(after[s as int].contacts@ == old(self).sightings(target as int).push(
                traced_contact,
            ));
            assert forall|a: int, b: int| 0 <= a < b < after.len() implies #[trigger] after[a].exposure_time@
                < #[trigger] after[b].exposure_time@ by {
                if found {
                    assert(before[a].exposure_time@ < before[b].exposure_time@);
                } else {
                    if a < s && b == s {
                    } else if a < s && b > s {
                        assert(before[a].exposure_time@ < before[b - 1].exposure_time@);
                    } else if a < s && b < s {
                        assert(before[a].exposure_time@ < before[b].exposure_time@);
                    } else if a == s {
                        if b - 1 > s {
                            assert(before[s as int].exposure_time@ < before[b - 1].exposure_time@);
                        }
                    } else {
                        assert(before[a - 1].exposure_time@ < before[b - 1].exposure_time@);
                    }
                }
            }
            assert(final(self).wf());
            assert forall|at: int|
                #[trigger] final(self).sightings(at) == if at == traced_contact.interval() {
                    old(self).sightings(at).push(traced_contact)
                } else {
                    old(self).sightings(at)
                } by {
                if at == target {
                    final(self).lemma_place(s as int);
                } else if old(self).has_interval(at) {
                    let k = old(self).place_of(at);
                    assert(after[moved(k)] == before[k]);
                    final(self).lemma_place(moved(k));
                } else {
                    if final(self).has_interval(at) {
                        let k = final(self).place_of(at);
                        if found {
                            assert(before[k].exposure_time@ == at);
                        } else if k < s {
                            assert(before[k].exposure_time@ == at);
                        } else {
                            assert(before[k - 1].exposure_time@ == at);
                        }
                    }
                }
            }
        }
    }
}

/// The contact history of a participant: every beacon that was observed, by TEK rolling
/// period and interval.
#[derive(Debug)]
pub struct BluetoothLayer {
    pub(crate) traced_contacts: Vec<RollingPeriodContacts>,
}

impl BluetoothLayer {
    /// The rolling periods ascend strictly, so none occurs twice, and so do the intervals
    /// of each.
    pub open(crate) spec fn wf(self) -> bool {
        &&& forall|i: int, j: int|
            0 <= i < j < self.traced_contacts@.len()
                ==> #[trigger] self.traced_contacts@[i].valid_from@
                < #[trigger] self.traced_contacts@[j].valid_from@
        &&& forall|i: int|
            0 <= i < self.traced_contacts@.len() ==> (#[trigger] self.traced_contacts@[i]).wf()
    }

    /// Whether anything is filed under the rolling period that starts at `valid_from`.
    pub open(crate) spec fn has_period(self, valid_from: int) -> bool {
        exists|b: int|
            0 <= b < self.traced_contacts@.len() && #[trigger] self.traced_contacts@[b].valid_from@
                == valid_from
    }

    /// Where the contacts of the rolling period that starts at `valid_from` are kept.
    pub open(crate) spec fn place_of(self, valid_from: int) -> int {
        choose|b: int|
            0 <= b < self.traced_contacts@.len() && #[trigger] self.traced_contacts@[b].valid_from@
                == valid_from
    }

    /// The contacts filed under the rolling period that starts at `valid_from` and
    /// observed during the interval `at`, in the order in which they came in.
    pub open(crate) spec fn sightings(self, valid_from: int, at: int) -> Seq<TracedContact> {
        if self.has_period(valid_from) {
            self.traced_contacts@[self.place_of(valid_from)].sightings(at)
        } else {
            Seq::empty()
        }
    }

    /// The contacts of a rolling period that is stored are those at its place.
    pub(crate) proof fn lemma_place(self, b: int)
        requires
            self.wf(),
            0 <= b < self.traced_contacts@.len(),
        ensures
            self.has_period(self.traced_contacts@[b].valid_from@),
            self.place_of(self.traced_contacts@[b].valid_from@) == b,
            forall|at: int| #[trigger]
                self.sightings(self.traced_contacts@[b].valid_from@, at)
                    == self.traced_contacts@[b].sightings(at),
    {
        let valid_from = self.traced_contacts@[b].valid_from@;
        let p = self.place_of(valid_from);
        if p < b {
            assert(self.traced_contacts@[p].valid_from@ < self.traced_contacts@[b].valid_from@);
        } else if b < p {
            assert(self.traced_contacts@[b].valid_from@ < self.traced_contacts@[p].valid_from@);
        }
    }

    /// The contacts by rolling period, the periods in ascending order.
    pub open(crate) spec fn by_period(self) -> Seq<RollingPeriodContacts> {
        self.traced_contacts@
    }

    pub fn traced_contacts(&self) -> (r: &Vec<RollingPeriodContacts>)
        ensures
            r@ == self.by_period(),
    {
        &self.traced_contacts
    }

    /// A contact history without contacts.
    pub fn new() -> (r: Self)
        ensures
            r.wf(),
            forall|valid_from: int, at: int| #[trigger]
                r.sightings(valid_from, at) == Seq::<TracedContact>::empty(),
    {
        BluetoothLayer { traced_contacts: Vec::new() }
    }

    /// Files a contact: under the rolling period of `tekrp` intervals that holds its
    /// interval, and there behind the contacts of the same interval.
    #[verifier::rlimit(30)]
    pub fn add(&mut self, traced_contact: TracedContact, tekrp: TekRollingPeriod)
        requires
            old(self).wf(),
        ensures
            final(self).wf(),
            forall|valid_from: int, at: int|
                #[trigger] final(self).sightings(valid_from, at) == if valid_from
                    == ExposureTime::floor_of(traced_contact.interval(), tekrp@) && at
                    == traced_contact.interval() {
                    old(self).sightings(valid_from, at).push(traced_contact)
                } else {
                    old(self).sightings(valid_from, at)
                },
    {
        let period: ExposureTime = traced_contact.exposure_time.floor_tekrp_multiple(tekrp);
        let target: u32 = period.en_interval_number;
        let mut b: usize = 0;
        while b < self.traced_contacts.len()
            && self.traced_contacts[b].valid_from.en_interval_number < target
            invariant
                b <= self.traced_contacts@.len(),
                *self == *old(self),
                forall|j: int| 0 <= j < b ==> #[trigger] self.traced_contacts@[j].valid_from@ < target,
            decreases self.traced_contacts@.len() - b,
        {
            b += 1;
        }
        let found: bool = b < self.traced_contacts.len()
            && self.traced_contacts[b].valid_from.en_interval_number == target;
        let mut bucket: RollingPeriodContacts = if found {
            self.traced_contacts.remove(b)
        } else {
            RollingPeriodContacts { valid_from: period, intervals: Vec::new() }
        };
        let ghost before = old(self).traced_contacts@;
        let ghost bucket_before = bucket;
        proof {
            if !found {
                assert forall|j: int| 0 <= j < before.len() implies #[trigger] before[j].valid_from@
                    != target by {
                    if j > b {
                        assert(before[b as int].valid_from@ < before[j].valid_from@);
                    }
                }
                assert(!old(self).has_period(target as int));
                assert forall|at: int| #[trigger]
                    bucket.sightings(at) == Seq::<TracedContact>::empty() by {}
            } else {
                old(self).lemma_place(b as int);
                assert(bucket == before[b as int]);
            }
            assert(bucket.wf());
        }
        bucket.add(traced_contact);
        self.traced_contacts.insert(b, bucket);
        proof {
            let after = self.traced_contacts@;
            let moved = |j: int| if found || j < b { j } else { j + 1 };
            assert forall|j: int| 0 <= j < before.len() && j != b || (0 <= j < before.len()
                && !found) implies #[trigger] after[moved(j)] == before[j] by {}
            assert(after[b as int].valid_from@ == target);
            assert forall|a: int, c: int| 0 <= a < c < after.len() implies #[trigger] after[a].valid_from@
                < #[trigger] after[c].valid_from@ by {
                if found {
                    assert(before[a].valid_from@ < before[c].valid_from@);
                } else {
                    if a < b && c == b {
                    } else if a < b && c > b {
                        assert(before[a].valid_from@ < before[c - 1].valid_from@);
                    } else if a < b && c < b {
                        assert(before[a].valid_from@ < before[c].valid_from@);
                    } else if a == b {
                        if c - 1 > b {
                            assert(before[b as int].valid_from@ < before[c - 1].valid_from@);
                        }
                    } else {
                        assert(before[a - 1].valid_from@ < before[c - 1].valid_from@);
                    }
                }
            }
            assert forall|i: int| 0 <= i < after.len() implies (#[trigger] after[i]).wf() by {
                if i == b {
                } else if found || i < b {
                    assert(after[i] == before[i]);
                } else {
                    assert(after[i] == before[i - 1]);
                }
            }
            assert(final(self).wf());
            assert forall|valid_from: int, at: int|
                #[trigger] final(self).sightings(valid_from, at) == if valid_from
                    == ExposureTime::floor_of(traced_contact.interval(), tekrp@) && at
                    == traced_contact.interval() {
                    old(self).sightings(valid_from, at).push(traced_contact)
                } else {
                    old(self).sightings(valid_from, at)
                } by {
                if valid_from == target {
                    final(self).lemma_place(b as int);
                    assert(final(self).sightings(valid_from, at) == after[b as int].sightings(at));
                    assert(old(self).sightings(valid_from, at) == bucket_before.sightings(at));
                } else if old(self).has_period(valid_from) {
                    let k = old(self).place_of(valid_from);
                    assert(after[moved(k)] == before[k]);
                    final(self).lemma_place(moved(k));
                    assert(final(self).sightings(valid_from, at) == after[moved(k)].sightings(at));
                } else {
                    if final(self).has_period(valid_from) {
                        let k = final(self).place_of(valid_from);
                        if found {
                            assert(before[k].valid_from@ == valid_from);
                        } else if k < b {
                            assert(before[k].valid_from@ == valid_from);
                        } else {
                            assert(before[k - 1].valid_from@ == valid_from);
                        }
                    }
                }
            }
        }
    }

    /// What the contact at place `i` among those filed for the rolling period of `with`
    /// and observed during the interval `at` tells the holder of the keyring `with`.
    pub open spec fn revealed(self, with: Validity<TekKeyring>, at: int, i: int) -> Option<
        Metadata,
    > {
        let contacts = self.sightings(with.start(), at);
        if 0 <= i < contacts.len() {
            contacts[i].reveals(with.content(), at)
        } else {
            None
        }
    }

    /// Whether the owner of the keyring `with` was met during its rolling period.
    pub open spec fn sighted(self, with: Validity<TekKeyring>) -> bool {
        exists|at: int, i: int| (#[trigger] self.revealed(with, at, i)) is Some
    }

    /// Whether all contacts with the owner of the keyring `with` name the same endpoint.
    pub open spec fn consistent(self, with: Validity<TekKeyring>) -> bool {
        forall|at: int, i: int, other_at: int, j: int|
            (#[trigger] self.revealed(with, at, i)) is Some && (#[trigger] self.revealed(
                with,
                other_at,
                j,
            )) is Some ==> self.revealed(with, at, i)->0.endpoint() == self.revealed(
                with,
                other_at,
                j,
            )->0.endpoint()
    }

    /// The intervals during which the owner of the keyring `with` was met with the given
    /// intensity.
    pub open spec fn met(self, with: Validity<TekKeyring>, intensity: Intensity) -> Set<int> {
        Set::new(
            |at: int|
                exists|i: int|
                    (#[trigger] self.revealed(with, at, i)) is Some && self.revealed(
                        with,
                        at,
                        i,
                    )->0.risk() == intensity,
        )
    }

    /// The endpoint that a contact with the owner of the keyring `with` names.
    pub open spec fn named_endpoint(self, with: Validity<TekKeyring>) -> Endpoint {
        let (at, i) = choose|at: int, i: int| (#[trigger] self.revealed(with, at, i)) is Some;
        self.revealed(with, at, i)->0.endpoint()
    }

    /// What the contacts tell of the owner of the keyring `with`, where the owner was
    /// met and all contacts name the same endpoint.
    pub open spec fn found(self, with: Validity<TekKeyring>) -> Option<MatchView> {
        if self.sighted(with) && self.consistent(with) {
            Some(
                MatchView {
                    endpoint: self.named_endpoint(with),
                    key: (with.start(), with.content().tek_bytes()),
                    high: self.met(with, Intensity::HighRisk),
                    low: self.met(with, Intensity::LowRisk),
                },
            )
        } else {
            None
        }
    }

    /// What the contacts kept at place `b` tell is what the contacts of that rolling
    /// period tell.
    proof fn lemma_revealed(self, with: Validity<TekKeyring>, b: int)
        requires
            self.wf(),
            0 <= b < self.traced_contacts@.len(),
            self.traced_contacts@[b].valid_from@ == with.start(),
        ensures
            forall|s: int, i: int|
                0 <= s < self.traced_contacts@[b].intervals@.len() ==> (
                #[trigger] self.traced_contacts@[b].intervals@[s].discloses(with.content(), i))
                    == self.revealed(
                    with,
                    self.traced_contacts@[b].intervals@[s].exposure_time@,
                    i,
                ),
            forall|at: int, i: int|
                (#[trigger] self.revealed(with, at, i)) is Some ==> {
                    let s = self.traced_contacts@[b].place_of(at);
                    &&& 0 <= s < self.traced_contacts@[b].intervals@.len()
                    &&& self.traced_contacts@[b].intervals@[s].exposure_time@ == at
                    &&& self.traced_contacts@[b].intervals@[s].discloses(with.content(), i)
                        == self.revealed(with, at, i)
                },
    {
        let bucket = self.traced_contacts@[b];
        self.lemma_place(b);
        assert forall|s: int, i: int| 0 <= s < bucket.intervals@.len() implies (
        #[trigger] bucket.intervals@[s].discloses(with.content(), i)) == self.revealed(
            with,
            bucket.intervals@[s].exposure_time@,
            i,
        ) by {
            bucket.lemma_place(s);
            assert(self.sightings(with.start(), bucket.intervals@[s].exposure_time@)
                == bucket.sightings(bucket.intervals@[s].exposure_time@));
        }
        assert forall|at: int, i: int| (#[trigger] self.revealed(with, at, i)) is Some implies {
            let s = bucket.place_of(at);
            &&& 0 <= s < bucket.intervals@.len()
            &&& bucket.intervals@[s].exposure_time@ == at
            &&& bucket.intervals@[s].discloses(with.content(), i) == self.revealed(with, at, i)
        } by {
            assert(self.sightings(with.start(), at) == bucket.sightings(at));
            assert(bucket.has_interval(at));
            bucket.lemma_place(bucket.place_of(at));
        }
    }

    /// Where no contact of the rolling period of `with` tells anything, its owner was not
    /// met.
    proof fn lemma_not_sighted(self, with: Validity<TekKeyring>, b: int)
        requires
            self.wf(),
            0 <= b < self.traced_contacts@.len(),
            self.traced_contacts@[b].valid_from@ == with.start(),
            self.traced_contacts@[b].silent_upto(
                with.content(),
                self.traced_contacts@[b].intervals@.len() as int,
            ),
        ensures
            !self.sighted(with),
    {
        let bucket = self.traced_contacts@[b];
        self.lemma_revealed(with, b);
        assert forall|at: int, i: int| (#[trigger] self.revealed(with, at, i)) is None by {
            if self.revealed(with, at, i) is Some {
                let p = bucket.place_of(at);
                assert(bucket.intervals@[p].discloses(with.content(), i) is None);
            }
        }
    }

    /// Where the contacts of one interval clash over the endpoint, among themselves or
    /// with what the intervals before told, the contacts of the owner of `with` are not
    /// consistent.
    proof fn lemma_inconsistent(
        self,
        with: Validity<TekKeyring>,
        b: int,
        s: int,
        known: Option<Endpoint>,
    )
        requires
            self.wf(),
            0 <= b < self.traced_contacts@.len(),
            self.traced_contacts@[b].valid_from@ == with.start(),
            0 <= s < self.traced_contacts@[b].intervals@.len(),
            known is Some ==> self.traced_contacts@[b].names_upto(with.content(), s, known->0),
            self.traced_contacts@[b].intervals@[s].clashes(with.content(), known),
        ensures
            self.sighted(with),
            !self.consistent(with),
    {
        let bucket = self.traced_contacts@[b];
        let slot = bucket.intervals@[s];
        let keyring = with.content();
        self.lemma_revealed(with, b);
        if exists|i: int|
            (#[trigger] slot.discloses(keyring, i)) is Some && known is Some && slot.discloses(
                keyring,
                i,
            )->0.endpoint() != known->0 {
            let i = choose|i: int|
                (#[trigger] slot.discloses(keyring, i)) is Some && known is Some && slot.discloses(
                    keyring,
                    i,
                )->0.endpoint() != known->0;
            let k = choose|k: int|
                0 <= k < s && (#[trigger] bucket.intervals@[k]).names(
                    keyring,
                    bucket.intervals@[k].contacts@.len() as int,
                    known->0,
                );
            let j = choose|j: int|
                0 <= j < bucket.intervals@[k].contacts@.len() && (
                #[trigger] bucket.intervals@[k].discloses(keyring, j)) is Some
                    && bucket.intervals@[k].discloses(keyring, j)->0.endpoint() == known->0;
            assert(self.revealed(with, slot.exposure_time@, i) == slot.discloses(keyring, i));
            assert(self.revealed(with, bucket.intervals@[k].exposure_time@, j)
                == bucket.intervals@[k].discloses(keyring, j));
        } else {
            let (i, j) = choose|i: int, j: int|
                (#[trigger] slot.discloses(keyring, i)) is Some && (#[trigger] slot.discloses(
                    keyring,
                    j,
                )) is Some && slot.discloses(keyring, i)->0.endpoint() != slot.discloses(
                    keyring,
                    j,
                )->0.endpoint();
            assert(self.revealed(with, slot.exposure_time@, i) == slot.discloses(keyring, i));
            assert(self.revealed(with, slot.exposure_time@, j) == slot.discloses(keyring, j));
        }
    }

    /// Where the contacts of the rolling period of `with` agree on an endpoint that one
    /// of them names, its owner was met, and all that the contacts tell names that
    /// endpoint.
    proof fn lemma_sighted(self, with: Validity<TekKeyring>, b: int, endpoint: Endpoint)
        requires
            self.wf(),
            0 <= b < self.traced_contacts@.len(),
            self.traced_contacts@[b].valid_from@ == with.start(),
            self.traced_contacts@[b].agrees_upto(
                with.content(),
                self.traced_contacts@[b].intervals@.len() as int,
                endpoint,
            ),
            self.traced_contacts@[b].names_upto(
                with.content(),
                self.traced_contacts@[b].intervals@.len() as int,
                endpoint,
            ),
        ensures
            self.sighted(with),
            self.consistent(with),
            forall|at: int, i: int|
                (#[trigger] self.revealed(with, at, i)) is Some ==> self.revealed(
                    with,
                    at,
                    i,
                )->0.endpoint() == endpoint,
    {
        let bucket = self.traced_contacts@[b];
        let keyring = with.content();
        let n = bucket.intervals@.len() as int;
        self.lemma_revealed(with, b);
        let k = choose|k: int|
            0 <= k < n && (#[trigger] bucket.intervals@[k]).names(
                keyring,
                bucket.intervals@[k].contacts@.len() as int,
                endpoint,
            );
        let j = choose|j: int|
            0 <= j < bucket.intervals@[k].contacts@.len() && (
            #[trigger] bucket.intervals@[k].discloses(keyring, j)) is Some
                && bucket.intervals@[k].discloses(keyring, j)->0.endpoint() == endpoint;
        assert(self.revealed(with, bucket.intervals@[k].exposure_time@, j)
            == bucket.intervals@[k].discloses(keyring, j));
        assert forall|at: int, i: int|
            (#[trigger] self.revealed(with, at, i)) is Some implies self.revealed(
            with,
            at,
            i,
        )->0.endpoint() == endpoint by {
            let p = bucket.place_of(at);
            assert(bucket.intervals@[p].agrees(
                keyring,
                bucket.intervals@[p].contacts@.len() as int,
                endpoint,
            ));
            assert(bucket.intervals@[p].discloses(keyring, i) is Some);
        }
    }

    /// The intervals that the contacts kept at place `b` tell of, with an intensity, are
    /// those during which the owner of `with` was met with it.
    proof fn lemma_met(self, with: Validity<TekKeyring>, b: int, intensity: Intensity, times: Set<int>)
        requires
            self.wf(),
            0 <= b < self.traced_contacts@.len(),
            self.traced_contacts@[b].valid_from@ == with.start(),
            forall|at: int| #[trigger]
                times.contains(at) == self.traced_contacts@[b].tells_upto(
                    with.content(),
                    self.traced_contacts@[b].intervals@.len() as int,
                    at,
                    intensity,
                ),
        ensures
            times == self.met(with, intensity),
    {
        let bucket = self.traced_contacts@[b];
        let keyring = with.content();
        let n = bucket.intervals@.len() as int;
        self.lemma_revealed(with, b);
        assert forall|at: int| times.contains(at) == self.met(with, intensity).contains(at) by {
            if times.contains(at) {
                assert(bucket.tells_upto(keyring, n, at, intensity));
                let k = choose|k: int|
                    0 <= k < n && #[trigger] bucket.intervals@[k].exposure_time@ == at
                        && bucket.intervals@[k].tells(
                        keyring,
                        bucket.intervals@[k].contacts@.len() as int,
                        intensity,
                    );
                let i = choose|i: int|
                    0 <= i < bucket.intervals@[k].contacts@.len() && (
                    #[trigger] bucket.intervals@[k].discloses(keyring, i)) is Some
                        && bucket.intervals@[k].discloses(keyring, i)->0.risk() == intensity;
                assert(self.revealed(with, at, i) == bucket.intervals@[k].discloses(keyring, i));
            }
            if self.met(with, intensity).contains(at) {
                let i = choose|i: int|
                    (#[trigger] self.revealed(with, at, i)) is Some && self.revealed(
                        with,
                        at,
                        i,
                    )->0.risk() == intensity;
                let p = bucket.place_of(at);
                assert(bucket.intervals@[p].discloses(keyring, i) is Some);
                assert(bucket.intervals@[p].tells(
                    keyring,
                    bucket.intervals@[p].contacts@.len() as int,
                    intensity,
                ));
                assert(bucket.intervals@[p].exposure_time@ == at);
                assert(bucket.tells_upto(keyring, n, at, intensity));
            }
        }
        assert(times =~= self.met(with, intensity));
    }

    /// Looks for the owner of the keyring `with` among the contacts of its rolling
    /// period. Where the owner was met, the result names the endpoint that the contacts
    /// tell, the temporary exposure key, and the intervals of the encounters by risk;
    /// where the contacts tell of more than one endpoint, they are not to be trusted and
    /// the result is that violation.
    #[verifier::rlimit(30)]
    pub fn matches(&self, with: &Validity<TekKeyring>) -> (r: Result<
        Option<Matches>,
        ProtocolViolation,
    >)
        requires
            self.wf(),
        ensures
            match r {
                Ok(Some(found)) => {
                    &&& self.found(*with) == Some(found@)
                    &&& self.sighted(*with)
                    &&& self.consistent(*with)
                    &&& found.wf()
                    &&& found.key() == (with.start(), with.content().tek_bytes())
                    &&& found.high() == self.met(*with, Intensity::HighRisk)
                    &&& found.low() == self.met(*with, Intensity::LowRisk)
                    &&& forall|at: int, i: int|
                        (#[trigger] self.revealed(*with, at, i)) is Some ==> self.revealed(
                            *with,
                            at,
                            i,
                        )->0.endpoint() == found.endpoint()
                },
                Ok(None) => !self.sighted(*with) && self.found(*with) is None,
                Err(e) => {
                    &&& e == ProtocolViolation::InconsistentEndpoint
                    &&& self.sighted(*with)
                    &&& !self.consistent(*with)
                    &&& self.found(*with) is None
                },
            },
    {
        let target: u32 = with.valid_from.en_interval_number;
        let mut b: usize = 0;
        while b < self.traced_contacts.len() && self.traced_contacts[b].valid_from.en_interval_number
            != target
            invariant
                b <= self.traced_contacts@.len(),
                forall|j: int| 0 <= j < b ==> #[trigger] self.traced_contacts@[j].valid_from@ != target,
            decreases self.traced_contacts@.len() - b,
        {
            b += 1;
        }
        if b >= self.traced_contacts.len() {
            assert(!self.has_period(with.start()));
            assert forall|at: int, i: int| (#[trigger] self.revealed(*with, at, i)) is None by {}
            return Ok(None);
        }
        let bucket: &RollingPeriodContacts = &self.traced_contacts[b];
        let keyring: &TekKeyring = with.keyring();
        let mut high_risk = ExposureTimeSet::new();
        let mut low_risk = ExposureTimeSet::new();
        let mut endpoint: Option<Endpoint> = None;
        let mut s: usize = 0;
        while s < bucket.intervals.len()
            invariant
                s <= bucket.intervals@.len(),
                self.wf(),
                b < self.traced_contacts@.len(),
                *bucket == self.traced_contacts@[b as int],
                bucket.valid_from@ == with.start(),
                *keyring == with.content(),
                high_risk.wf(),
                low_risk.wf(),
                forall|at: int| #[trigger]
                    high_risk@.contains(at) == bucket.tells_upto(
                        *keyring,
                        s as int,
                        at,
                        Intensity::HighRisk,
                    ),
                forall|at: int| #[trigger]
                    low_risk@.contains(at) == bucket.tells_upto(
                        *keyring,
                        s as int,
                        at,
                        Intensity::LowRisk,
                    ),
                endpoint is Some ==> bucket.agrees_upto(*keyring, s as int, endpoint->0)
                    && bucket.names_upto(*keyring, s as int, endpoint->0),
                endpoint is None ==> bucket.silent_upto(*keyring, s as int),
            decreases bucket.intervals@.len() - s,
        {
            let slot: &IntervalContacts = &bucket.intervals[s];
            let ghost known = endpoint;
            match slot.scan(keyring, endpoint) {
                Ok((high, low, seen)) => {
                    if high {
                        high_risk.insert(slot.exposure_time);
                    }
                    if low {
                        low_risk.insert(slot.exposure_time);
                    }
                    endpoint = seen;
                    proof {
                        bucket.lemma_tells_step(*keyring, s as int, Intensity::HighRisk);
                        bucket.lemma_tells_step(*keyring, s as int, Intensity::LowRisk);
                        bucket.lemma_endpoint_step(*keyring, s as int, known, seen);
                    }
                },
                Err(e) => {
                    proof {
                        self.lemma_inconsistent(*with, b as int, s as int, known);
                    }
                    return Err(ProtocolViolation::InconsistentEndpoint);
                },
            }
            s += 1;
        }
        match endpoint {
            Some(socket_addr) => {
                let tek: Validity<TemporaryExposureKey> = Validity {
                    valid_from: with.valid_from,
                    keyring: keyring.tek,
                };
                proof {
                    self.lemma_sighted(*with, b as int, socket_addr);
                    self.lemma_met(*with, b as int, Intensity::HighRisk, high_risk@);
                    self.lemma_met(*with, b as int, Intensity::LowRisk, low_risk@);
                    let (at, i) = choose|at: int, i: int| (#[trigger] self.revealed(*with, at, i)) is Some;
                    assert(self.revealed(*with, at, i)->0.endpoint() == socket_addr);
                }
                Ok(Some(Matches { socket_addr, tek, high_risk, low_risk }))
            },
            None => {
                proof {
                    self.lemma_not_sighted(*with, b as int);
                }
                Ok(None)
            },
        }
    }
}

/// The key history of a participant: one exposure keyring for each TEK rolling period of
/// the infection period, the newest first.
#[derive(Debug)]
pub struct Keys(pub(crate) Vec<Validity<ExposureKeyring>>);

impl Keys {
    /// The keyrings with their validity, the newest first.
    pub open(crate) spec fn elements(self) -> Seq<Validity<ExposureKeyring>> {
        self.0@
    }

    /// The start of the rolling period that lies `back` rolling periods of `tekrp`
    /// intervals before the instant `from`.
    pub open spec fn period_start(from: int, back: int, tekrp: int) -> int {
        ExposureTime::floor_of(
            ExposureTime::interval_number_at(from - back * tekrp * NANOS_PER_INTERVAL),
            tekrp,
        )
    }

    /// Whether the temporary exposure key `key`, given by the start of its rolling
    /// period and its bytes, is one of this history.
    pub open spec fn own(self, key: (int, Seq<u8>)) -> bool {
        exists|i: int|
            0 <= i < self.elements().len() && key == (
                (#[trigger] self.elements()[i]).start(),
                self.elements()[i].content().tek_part().tek_bytes(),
            )
    }

    /// The keyring of the first entry of the history whose rolling period starts at
    /// `start`, if there is one.
    pub open spec fn valid_at(self, start: int) -> Option<ExposureKeyring> {
        if exists|i: int| 0 <= i < self.elements().len() && (#[trigger] self.elements()[i]).start() == start {
            let first = choose|i: int|
                0 <= i < self.elements().len() && (#[trigger] self.elements()[i]).start() == start
                    && forall|j: int| 0 <= j < i ==> (#[trigger] self.elements()[j]).start() != start;
            Some(self.elements()[first].content())
        } else {
            None
        }
    }

    /// A history of fresh random keys for the `infection_period` rolling periods up to
    /// the one that holds `from`.
    pub fn new(
        from: Timestamp,
        tekrp: TekRollingPeriod,
        infection_period: InfectionPeriod,
        secure_random: &ring::rand::SystemRandom,
    ) -> (r: Result<Self, ExposurelibError>)
        requires
            from@ - infection_period@ * tekrp@ * NANOS_PER_INTERVAL >= i128::MIN,
        ensures
            match r {
                Ok(keys) => {
                    &&& keys.elements().len() == infection_period@
                    &&& forall|i: int|
                        0 <= i < keys.elements().len() ==> (#[trigger] keys.elements()[i]).start()
                            == Self::period_start(from@, i, tekrp@)
                            && keys.elements()[i].content().wf() && ExposureTime::floor_of(
                            keys.elements()[i].start(),
                            tekrp@,
                        ) == keys.elements()[i].start()
                },
                Err(e) => e == ExposurelibError::RandomKeyGenerationError,
            },
    {
        let count: usize = infection_period.periods() as usize;
        let mut keyrings: Vec<ExposureKeyring> = Vec::new();
        let mut i: usize = 0;
        while i < count
            invariant
                i <= count,
                keyrings@.len() == i,
                forall|j: int| 0 <= j < i ==> (#[trigger] keyrings@[j]).wf(),
            decreases count - i,
        {
            match ExposureKeyring::new(secure_random) {
                Ok(exposure_keyring) => {
                    keyrings.push(exposure_keyring);
                },
                Err(e) => {
                    return Err(e);
                },
            }
            i += 1;
        }
        Ok(Self::from_keyrings(from, tekrp, keyrings))
    }

    /// The history that gives the rolling period that holds `from` the first of the
    /// keyrings, the one before it the second, and so on.
    pub fn from_keyrings(from: Timestamp, tekrp: TekRollingPeriod, keyrings: Vec<ExposureKeyring>) -> (r:
        Self)
        requires
            from@ - keyrings@.len() * tekrp@ * NANOS_PER_INTERVAL >= i128::MIN,
        ensures
            r.elements().len() == keyrings@.len(),
            forall|i: int|
                0 <= i < r.elements().len() ==> (#[trigger] r.elements()[i]).start()
                    == Self::period_start(from@, i, tekrp@) && r.elements()[i].content()
                    == keyrings@[i] && ExposureTime::floor_of(r.elements()[i].start(), tekrp@)
                    == r.elements()[i].start(),
    {
        let period: i128 = tekrp.intervals() as i128;
        let mut keys: Vec<Validity<ExposureKeyring>> = Vec::new();
        let mut i: usize = 0;
        while i < keyrings.len()
            invariant
                i <= keyrings@.len(),
                period == tekrp@,
                0 < period <= 65535,
                from@ - keyrings@.len() * tekrp@ * NANOS_PER_INTERVAL >= i128::MIN,
                keys@.len() == i,
                forall|j: int|
                    0 <= j < i ==> (#[trigger] keys@[j]).start() == Self::period_start(
                        from@,
                        j,
                        tekrp@,
                    ) && keys@[j].content() == keyrings@[j] && ExposureTime::floor_of(
                        keys@[j].start(),
                        tekrp@,
                    ) == keys@[j].start(),
            decreases keyrings@.len() - i,
        {
            let back: i128 = i as i128;
            proof {
                let n = keyrings@.len() as int;
                assert(0 <= back * period <= n * period) by (nonlinear_arith)
                    requires
                        0 <= back <= n,
                        0 < period,
                ;
                assert(n * period <= 0x1_0000_0000_0000_0000 * 65535) by (nonlinear_arith)
                    requires
                        0 <= n <= 0x1_0000_0000_0000_0000,
                        0 < period <= 65535,
                ;
            }
            let distance: Duration = Duration::nanoseconds(back * period * NANOS_PER_INTERVAL);
            let date: Timestamp = from.minus(distance);
            keys.push(Validity::new(ExposureTime::from(date), tekrp, keyrings[i]));
            i += 1;
        }
        Keys(keys)
    }

    /// The keyring of the rolling period of `tekrp` intervals that holds `at`: that of
    /// the first entry of the history that is valid then, if there is one.
    pub fn exposure_keyring(&self, at: ExposureTime, tekrp: TekRollingPeriod) -> (r: Option<
        &ExposureKeyring,
    >)
        ensures
            r is Some == self.valid_at(ExposureTime::floor_of(at@, tekrp@)) is Some,
            r is Some ==> *r->0 == self.valid_at(ExposureTime::floor_of(at@, tekrp@))->0,
    {
        let mut i: usize = 0;
        while i < self.0.len()
            invariant
                i <= self.0@.len(),
                forall|j: int|
                    0 <= j < i ==> (#[trigger] self.elements()[j]).start() != ExposureTime::floor_of(
                        at@,
                        tekrp@,
                    ),
            decreases self.0@.len() - i,
        {
            match self.0[i].query(at, tekrp) {
                Some(exposure_keyring) => {
                    proof {
                        let start = ExposureTime::floor_of(at@, tekrp@);
                        assert(self.elements()[i as int].start() == start);
                        let first = choose|k: int|
                            0 <= k < self.elements().len() && (#[trigger] self.elements()[k]).start()
                                == start && forall|j: int|
                                0 <= j < k ==> (#[trigger] self.elements()[j]).start() != start;
                        if first < i {
                            assert(self.elements()[first].start() != start);
                        } else if i < first {
                            assert(self.elements()[i as int].start() != start);
                        }
                    }
                    return Some(exposure_keyring);
                },
                None => {},
            }
            i += 1;
        }
        None
    }

    /// The history that holds the given keyrings with their validity, in that order.
    pub fn from_all(all: Vec<Validity<ExposureKeyring>>) -> (r: Self)
        ensures
            r.elements() == all@,
    {
        Keys(all)
    }

    pub fn all(&self) -> (r: &Vec<Validity<ExposureKeyring>>)
        ensures
            r@ == self.elements(),
    {
        &self.0
    }

    /// The temporary exposure keys of the history with their validity.
    pub fn all_teks(&self) -> (r: TekSet)
        ensures
            r.wf(),
            r@ == Set::new(|key: (int, Seq<u8>)| self.own(key)),
    {
        let mut r = TekSet::new();
        let mut i: usize = 0;
        while i < self.0.len()
            invariant
                i <= self.0@.len(),
                r.wf(),
                forall|key: (int, Seq<u8>)|
                    r@.contains(key) <==> exists|j: int|
                        0 <= j < i && key == (
                            (#[trigger] self.elements()[j]).start(),
                            self.elements()[j].content().tek_part().tek_bytes(),
                        ),
            decreases self.0@.len() - i,
        {
            let ghost before = r@;
            let tek: Validity<TemporaryExposureKey> = Validity {
                valid_from: self.0[i].valid_from,
                keyring: self.0[i].keyring.tek_keyring.tek,
            };
            r.insert(tek);
            proof {
                assert forall|key: (int, Seq<u8>)|
                    r@.contains(key) <==> exists|j: int|
                        0 <= j < i + 1 && key == (
                            (#[trigger] self.elements()[j]).start(),
                            self.elements()[j].content().tek_part().tek_bytes(),
                        ) by {
                    if before.contains(key) {
                        let j = choose|j: int|
                            0 <= j < i && key == (
                                (#[trigger] self.elements()[j]).start(),
                                self.elements()[j].content().tek_part().tek_bytes(),
                            );
                        assert(0 <= j < i + 1);
                    }
                    if key == tek@ {
                        assert(key == (
                            self.elements()[i as int].start(),
                            self.elements()[i as int].content().tek_part().tek_bytes(),
                        ));
                    }
                    if exists|j: int|
                        0 <= j < i + 1 && key == (
                            (#[trigger] self.elements()[j]).start(),
                            self.elements()[j].content().tek_part().tek_bytes(),
                        ) {
                        let j = choose|j: int|
                            0 <= j < i + 1 && key == (
                                (#[trigger] self.elements()[j]).start(),
                                self.elements()[j].content().tek_part().tek_bytes(),
                            );
                        if j < i {
                            assert(before.contains(key));
                        }
                    }
                }
            }
            i += 1;
        }
        assert(r@ =~= Set::new(|key: (int, Seq<u8>)| self.own(key)));
        r
    }

    /// Whether `tek` is a temporary exposure key of this history, valid from the same
    /// interval on.
    pub fn is_own_tek(&self, tek: &Validity<TemporaryExposureKey>) -> (r: bool)
        ensures
            r == self.own(tek@),
    {
        let mut i: usize = 0;
        while i < self.0.len()
            invariant
                i <= self.0@.len(),
                forall|j: int|
                    0 <= j < i ==> tek@ != (
                        (#[trigger] self.elements()[j]).start(),
                        self.elements()[j].content().tek_part().tek_bytes(),
                    ),
            decreases self.0@.len() - i,
        {
            if self.0[i].valid_from.en_interval_number == tek.valid_from.en_interval_number
                && self.0[i].keyring.tek_keyring.tek == tek.keyring {
                assert(tek@ == (
                    self.elements()[i as int].start(),
                    self.elements()[i as int].content().tek_part().tek_bytes(),
                ));
                return true;
            }
            i += 1;
        }
        false
    }
}

/// What a participant starts with: its keys and its contact history.
#[derive(Debug)]
pub struct ClientState {
    pub(crate) keys: Keys,
    pub(crate) bluetooth_layer: BluetoothLayer,
}

impl ClientState {
    /// The keys.
    pub open(crate) spec fn key_history(self) -> Keys {
        self.keys
    }

    /// The contact history.
    pub open(crate) spec fn contact_history(self) -> BluetoothLayer {
        self.bluetooth_layer
    }

    pub fn new(keys: Keys, bluetooth_layer: BluetoothLayer) -> (r: Self)
        ensures
            r.key_history() == keys,
            r.contact_history() == bluetooth_layer,
    {
        ClientState { keys, bluetooth_layer }
    }

    pub fn keys(&self) -> (r: &Keys)
        ensures
            *r == self.key_history(),
    {
        &self.keys
    }

    pub fn bluetooth_layer(&self) -> (r: &BluetoothLayer)
        ensures
            *r == self.contact_history(),
    {
        &self.bluetooth_layer
    }

    /// The keys and the contact history, taken apart.
    pub fn into_parts(self) -> (r: (Keys, BluetoothLayer))
        ensures
            r.0 == self.key_history(),
            r.1 == self.contact_history(),
    {
        (self.keys, self.bluetooth_layer)
    }
}

} // verus!
