use crate::primitives::ComputationId;
use crate::primitives::TekRollingPeriod;
use crate::primitives::TemporaryExposureKey;
use crate::primitives::Validity;
use crate::tek_set::TekSet;
use crate::time::ExposureTime;
use crate::time::ExposureTimeSet;
use crate::time::Timestamp;
use vstd::prelude::*;

verus! {

/// What a participant who tested positive sends to the diagnosis server: its keys.
#[derive(Debug)]
pub struct BlacklistUploadParams {
    pub diagnosis_keys: TekSet,
}

/// What a pooling node sends to the diagnosis server: keys for the greylist of its
/// computation.
#[derive(Debug)]
pub struct GreylistUploadParams {
    pub computation_id: ComputationId,
    pub diagnosis_keys: TekSet,
}

/// What a participant asks the diagnosis server: the chunks since `from`.
#[derive(Debug, Clone, Copy)]
pub struct DownloadParams {
    pub from: Timestamp,
}

/// The key of the participant that sent a forward on.
#[derive(Clone, Copy, Debug)]
pub struct PredecessorInfo {
    pub tek: TemporaryExposureKey,
}

impl PredecessorInfo {
    pub fn new(origin_tek: TemporaryExposureKey) -> (r: Self)
        ensures
            r.tek == origin_tek,
    {
        PredecessorInfo { tek: origin_tek }
    }

    pub fn update(&mut self, next_predecessor_tek: TemporaryExposureKey)
        ensures
            final(self).tek == next_predecessor_tek,
    {
        self.tek = next_predecessor_tek;
    }
}

/// The key of the participant that a chain of forwards started from.
#[derive(Clone, Copy, Debug)]
pub struct OriginInfo {
    pub tek: TemporaryExposureKey,
}

impl OriginInfo {
    pub fn new(origin_tek: TemporaryExposureKey) -> (r: Self)
        ensures
            r.tek == origin_tek,
    {
        OriginInfo { tek: origin_tek }
    }
}

/// The two keys that a forward names.
#[derive(Clone, Copy, Debug)]
pub struct ForwardInfo {
    pub predecessor: PredecessorInfo,
    pub origin: OriginInfo,
}

/// A forward: the message by which a key travels along a chain of high-risk encounters.
#[derive(Debug)]
pub struct ForwardParams {
    pub computation_id: ComputationId,
    pub info: Validity<ForwardInfo>,
    pub shared_encounter_times: ExposureTimeSet,
}

impl ForwardParams {
    /// The key of the origin with its validity: the start of its rolling period, taken
    /// for periods of `tekrp` intervals, and its bytes.
    pub open spec fn origin_key(self, tekrp: int) -> (int, Seq<u8>) {
        (ExposureTime::floor_of(self.info.start(), tekrp), self.info.content().origin.tek@)
    }

    /// The key of the predecessor with its validity: the start of its rolling period,
    /// taken for periods of `tekrp` intervals, and its bytes.
    pub open spec fn predecessor_key(self, tekrp: int) -> (int, Seq<u8>) {
        (ExposureTime::floor_of(self.info.start(), tekrp), self.info.content().predecessor.tek@)
    }

    /// The key of the origin with its validity for rolling periods of `tekrp` intervals.
    pub open(crate) spec fn origin_at(self, tekrp: int) -> Validity<TemporaryExposureKey> {
        Validity {
            valid_from: ExposureTime {
                en_interval_number: ExposureTime::floor_of(self.info.start(), tekrp) as u32,
            },
            keyring: self.info.content().origin.tek,
        }
    }

    /// The key of the predecessor with its validity for rolling periods of `tekrp`
    /// intervals.
    pub open(crate) spec fn predecessor_at(self, tekrp: int) -> Validity<TemporaryExposureKey> {
        Validity {
            valid_from: ExposureTime {
                en_interval_number: ExposureTime::floor_of(self.info.start(), tekrp) as u32,
            },
            keyring: self.info.content().predecessor.tek,
        }
    }

    /// Whether the forward comes from its origin: origin and predecessor are the same
    /// key.
    pub open spec fn first(self) -> bool {
        self.info.content().origin.tek@ == self.info.content().predecessor.tek@
    }

    /// The forward with which the owner of `own_tek` starts a chain in the computation
    /// `computation_id`: it names that key as origin and as predecessor.
    pub fn new(
        computation_id: ComputationId,
        valid_from: ExposureTime,
        tekrp: TekRollingPeriod,
        own_tek: TemporaryExposureKey,
        shared_encounter_times: ExposureTimeSet,
    ) -> (r: Self)
        ensures
            r.computation_id == computation_id,
            r.info.start() == ExposureTime::floor_of(valid_from@, tekrp@),
            r.info.content().origin.tek == own_tek,
            r.info.content().predecessor.tek == own_tek,
            r.shared_encounter_times == shared_encounter_times,
            r.first(),
    {
        let forward_info = ForwardInfo {
            predecessor: PredecessorInfo::new(own_tek),
            origin: OriginInfo::new(own_tek),
        };
        ForwardParams {
            computation_id,
            info: Validity::new(valid_from, tekrp, forward_info),
            shared_encounter_times,
        }
    }

    /// Makes the forward ready for the next hop: it then names `next_predecessor_tek` as
    /// predecessor and `next_shared_encounter_times` as the times shared so far.
    pub fn update(
        &mut self,
        next_predecessor_tek: TemporaryExposureKey,
        next_shared_encounter_times: ExposureTimeSet,
    )
        ensures
            final(self).computation_id == old(self).computation_id,
            final(self).info.start() == old(self).info.start(),
            final(self).info.content().origin == old(self).info.content().origin,
            final(self).info.content().predecessor.tek == next_predecessor_tek,
            final(self).shared_encounter_times == next_shared_encounter_times,
    {
        self.shared_encounter_times = next_shared_encounter_times;
        self.info.keyring.predecessor.update(next_predecessor_tek);
    }

    pub fn is_first_forward(&self) -> (r: bool)
        ensures
            r == self.first(),
    {
        self.info.keyring.origin.tek == self.info.keyring.predecessor.tek
    }

    pub fn computation_id(&self) -> (r: ComputationId)
        ensures
            r == self.computation_id,
    {
        self.computation_id
    }

    pub fn predecessor_tek(&self, tekrp: TekRollingPeriod) -> (r: Validity<TemporaryExposureKey>)
        ensures
            r@ == self.predecessor_key(tekrp@),
            r == self.predecessor_at(tekrp@),
    {
        Validity::new(self.info.valid_from(), tekrp, self.info.keyring.predecessor.tek)
    }

    pub fn origin_tek(&self, tekrp: TekRollingPeriod) -> (r: Validity<TemporaryExposureKey>)
        ensures
            r@ == self.origin_key(tekrp@),
            r == self.origin_at(tekrp@),
    {
        Validity::new(self.info.valid_from(), tekrp, self.info.keyring.origin.tek)
    }

    pub fn shared_encounter_times(&self) -> (r: &ExposureTimeSet)
        ensures
            *r == self.shared_encounter_times,
    {
        &self.shared_encounter_times
    }
}

impl Clone for ForwardParams {
    fn clone(&self) -> (r: Self)
        ensures
            r.computation_id == self.computation_id,
            r.info == self.info,
            r.shared_encounter_times@ == self.shared_encounter_times@,
            r.shared_encounter_times.elements() == self.shared_encounter_times.elements(),
            r.shared_encounter_times.wf() == self.shared_encounter_times.wf(),
    {
        ForwardParams {
            computation_id: self.computation_id,
            info: self.info,
            shared_encounter_times: self.shared_encounter_times.clone(),
        }
    }
}

} // verus!
