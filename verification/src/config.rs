use crate::client_state::ClientState;
use crate::primitives::InfectionPeriod;
use crate::primitives::TekRollingPeriod;
use crate::time::Duration;
use crate::time::Timestamp;
use crate::time::NANOS_PER_SECOND;
use vstd::prelude::*;
use vstd::std_specs::convert::FromSpecImpl;

verus! {

/// How close and how long an encounter was.
#[derive(Debug, PartialEq, Eq, Structural, Copy, Clone, Hash)]
pub enum Intensity {
    LowRisk,
    HighRisk,
}

/// Where a participant can be reached: an internet address and a port.
#[derive(Debug, PartialEq, Eq, Structural, Copy, Clone, Hash)]
#[allow(inconsistent_fields)]
pub enum Endpoint {
    /// An IPv4 address, its four bytes read as one big-endian number, and a port.
    V4 { address: u32, port: u16 },
    /// An IPv6 address, its sixteen bytes read as one big-endian number, with port, flow
    /// information and scope.
    V6 { address: u128, port: u16, flowinfo: u32, scope_id: u32 },
}

/// Someone who takes part.
#[derive(Debug, Clone)]
pub struct Participant {
    pub name: String,
    pub positively_tested: bool,
    pub to_be_warned: bool,
}

impl Participant {
    /// A participant called `name`, whom nobody has yet found to need a warning.
    pub fn new(name: String, positively_tested: bool) -> (r: Self)
        ensures
            r.name == name,
            r.positively_tested == positively_tested,
            !r.to_be_warned,
    {
        Participant { name, positively_tested, to_be_warned: false }
    }

    /// Whether the participant has tested positive.
    pub fn positively_tested(&self) -> (r: bool)
        ensures
            r == self.positively_tested,
    {
        self.positively_tested
    }

    /// Whether the participant ought to be warned in the end.
    pub fn to_be_warned(&self) -> (r: bool)
        ensures
            r == self.to_be_warned,
    {
        self.to_be_warned
    }

    /// Notes that the participant ought to be warned in the end.
    pub fn set_to_be_warned(&mut self)
        ensures
            final(self).to_be_warned,
            final(self).name == old(self).name,
            final(self).positively_tested == old(self).positively_tested,
    {
        self.to_be_warned = true;
    }
}

/// One encounter with another participant.
#[derive(Debug, Copy, Clone, PartialEq, Eq, Structural)]
pub struct Encounter {
    pub time: Timestamp,
    pub intensity: Intensity,
}

impl Encounter {
    pub fn new(timestamp: Timestamp, intensity: Intensity) -> (r: Self)
        ensures
            r.time == timestamp,
            r.intensity == intensity,
    {
        Encounter { time: timestamp, intensity }
    }
}

/// The encounters with one other participant.
#[derive(Debug, Clone)]
pub struct Encounters {
    pub encounters: Vec<Encounter>,
}

impl Encounters {
    pub fn new(encounters: Vec<Encounter>) -> (r: Self)
        ensures
            r.encounters == encounters,
    {
        Encounters { encounters }
    }
}

/// How much time one chunk of the diagnosis server covers.
#[derive(Debug, Copy, Clone)]
pub struct ChunkPeriod {
    pub(crate) seconds: u64,
    pub(crate) subsec_nanos: u32,
}

impl View for ChunkPeriod {
    type V = int;

    /// The length of the period in nanoseconds.
    open(crate) spec fn view(&self) -> int {
        self.seconds * NANOS_PER_SECOND + self.subsec_nanos
    }
}

impl ChunkPeriod {
    #[verifier::type_invariant]
    spec fn in_range(self) -> bool {
        self.subsec_nanos < NANOS_PER_SECOND
    }

    /// A period of `seconds` whole seconds and `subsec_nanos` nanoseconds; none where the
    /// nanoseconds make up a second or more.
    pub fn new(seconds: u64, subsec_nanos: u32) -> (r: Option<Self>)
        ensures
            r is Some <==> subsec_nanos < NANOS_PER_SECOND,
            r is Some ==> r->0@ == seconds * NANOS_PER_SECOND + subsec_nanos,
    {
        if subsec_nanos < 1_000_000_000 {
            Some(ChunkPeriod { seconds, subsec_nanos })
        } else {
            None
        }
    }

    /// The whole seconds of the period.
    pub fn seconds(&self) -> (r: u64)
        ensures
            r == self@ / (NANOS_PER_SECOND as int),
    {
        proof {
            use_type_invariant(self);
            vstd::arithmetic::div_mod::lemma_fundamental_div_mod_converse(
                self@,
                NANOS_PER_SECOND as int,
                self.seconds as int,
                self.subsec_nanos as int,
            );
        }
        self.seconds
    }

    /// The nanoseconds of the period beyond its whole seconds.
    pub fn subsec_nanos(&self) -> (r: u32)
        ensures
            r == self@ % (NANOS_PER_SECOND as int),
    {
        proof {
            use_type_invariant(self);
            vstd::arithmetic::div_mod::lemma_fundamental_div_mod_converse(
                self@,
                NANOS_PER_SECOND as int,
                self.seconds as int,
                self.subsec_nanos as int,
            );
        }
        self.subsec_nanos
    }
}

impl Default for ChunkPeriod {
    /// Thirty seconds.
    fn default() -> (r: Self)
        ensures
            r@ == 30 * NANOS_PER_SECOND,
    {
        ChunkPeriod { seconds: 30, subsec_nanos: 0 }
    }
}

impl From<ChunkPeriod> for Duration {
    fn from(period: ChunkPeriod) -> (d: Duration)
        ensures
            d@ == period@,
    {
        let seconds: i128 = period.seconds as i128;
        let subsec_nanos: i128 = period.subsec_nanos as i128;
        Duration::nanoseconds(seconds * NANOS_PER_SECOND + subsec_nanos)
    }
}

impl FromSpecImpl<ChunkPeriod> for Duration {
    open spec fn obeys_from_spec() -> bool {
        true
    }

    open(crate) spec fn from_spec(period: ChunkPeriod) -> Duration {
        Duration { nanos: period@ as i128 }
    }
}

/// How often a participant asks the diagnosis server for new chunks.
#[derive(Debug, Copy, Clone)]
pub struct RefreshPeriod {
    pub(crate) seconds: u64,
    pub(crate) subsec_nanos: u32,
}

impl View for RefreshPeriod {
    type V = int;

    /// The length of the period in nanoseconds.
    open(crate) spec fn view(&self) -> int {
        self.seconds * NANOS_PER_SECOND + self.subsec_nanos
    }
}

impl RefreshPeriod {
    #[verifier::type_invariant]
    spec fn in_range(self) -> bool {
        self.subsec_nanos < NANOS_PER_SECOND
    }

    /// A period of `seconds` whole seconds and `subsec_nanos` nanoseconds; none where the
    /// nanoseconds make up a second or more.
    pub fn new(seconds: u64, subsec_nanos: u32) -> (r: Option<Self>)
        ensures
            r is Some <==> subsec_nanos < NANOS_PER_SECOND,
            r is Some ==> r->0@ == seconds * NANOS_PER_SECOND + subsec_nanos,
    {
        if subsec_nanos < 1_000_000_000 {
            Some(RefreshPeriod { seconds, subsec_nanos })
        } else {
            None
        }
    }

    /// The whole seconds of the period.
    pub fn seconds(&self) -> (r: u64)
        ensures
            r == self@ / (NANOS_PER_SECOND as int),
    {
        proof {
            use_type_invariant(self);
            vstd::arithmetic::div_mod::lemma_fundamental_div_mod_converse(
                self@,
                NANOS_PER_SECOND as int,
                self.seconds as int,
                self.subsec_nanos as int,
            );
        }
        self.seconds
    }

    /// The nanoseconds of the period beyond its whole seconds.
    pub fn subsec_nanos(&self) -> (r: u32)
        ensures
            r == self@ % (NANOS_PER_SECOND as int),
    {
        proof {
            use_type_invariant(self);
            vstd::arithmetic::div_mod::lemma_fundamental_div_mod_converse(
                self@,
                NANOS_PER_SECOND as int,
                self.seconds as int,
                self.subsec_nanos as int,
            );
        }
        self.subsec_nanos
    }
}

impl Default for RefreshPeriod {
    /// Thirty seconds.
    fn default() -> (r: Self)
        ensures
            r@ == 30 * NANOS_PER_SECOND,
    {
        RefreshPeriod { seconds: 30, subsec_nanos: 0 }
    }
}

impl From<RefreshPeriod> for Duration {
    fn from(period: RefreshPeriod) -> (d: Duration)
        ensures
            d@ == period@,
    {
        let seconds: i128 = period.seconds as i128;
        let subsec_nanos: i128 = period.subsec_nanos as i128;
        Duration::nanoseconds(seconds * NANOS_PER_SECOND + subsec_nanos)
    }
}

impl FromSpecImpl<RefreshPeriod> for Duration {
    open spec fn obeys_from_spec() -> bool {
        true
    }

    open(crate) spec fn from_spec(period: RefreshPeriod) -> Duration {
        Duration { nanos: period@ as i128 }
    }
}

/// For how long a participant stays reachable for forwards after the last trigger.
#[derive(Debug, Copy, Clone)]
pub struct ComputationPeriod {
    pub(crate) seconds: u64,
    pub(crate) subsec_nanos: u32,
}

impl View for ComputationPeriod {
    type V = int;

    /// The length of the period in nanoseconds.
    open(crate) spec fn view(&self) -> int {
        self.seconds * NANOS_PER_SECOND + self.subsec_nanos
    }
}

impl ComputationPeriod {
    #[verifier::type_invariant]
    spec fn in_range(self) -> bool {
        self.subsec_nanos < NANOS_PER_SECOND
    }

    /// A period of `seconds` whole seconds and `subsec_nanos` nanoseconds; none where the
    /// nanoseconds make up a second or more.
    pub fn new(seconds: u64, subsec_nanos: u32) -> (r: Option<Self>)
        ensures
            r is Some <==> subsec_nanos < NANOS_PER_SECOND,
            r is Some ==> r->0@ == seconds * NANOS_PER_SECOND + subsec_nanos,
    {
        if subsec_nanos < 1_000_000_000 {
            Some(ComputationPeriod { seconds, subsec_nanos })
        } else {
            None
        }
    }

    /// The whole seconds of the period.
    pub fn seconds(&self) -> (r: u64)
        ensures
            r == self@ / (NANOS_PER_SECOND as int),
    {
        proof {
            use_type_invariant(self);
            vstd::arithmetic::div_mod::lemma_fundamental_div_mod_converse(
                self@,
                NANOS_PER_SECOND as int,
                self.seconds as int,
                self.subsec_nanos as int,
            );
        }
        self.seconds
    }

    /// The nanoseconds of the period beyond its whole seconds.
    pub fn subsec_nanos(&self) -> (r: u32)
        ensures
            r == self@ % (NANOS_PER_SECOND as int),
    {
        proof {
            use_type_invariant(self);
            vstd::arithmetic::div_mod::lemma_fundamental_div_mod_converse(
                self@,
                NANOS_PER_SECOND as int,
                self.seconds as int,
                self.subsec_nanos as int,
            );
        }
        self.subsec_nanos
    }
}

impl Default for ComputationPeriod {
    /// Ten minutes.
    fn default() -> (r: Self)
        ensures
            r@ == 600 * NANOS_PER_SECOND,
    {
        ComputationPeriod { seconds: 600, subsec_nanos: 0 }
    }
}

impl From<ComputationPeriod> for Duration {
    fn from(period: ComputationPeriod) -> (d: Duration)
        ensures
            d@ == period@,
    {
        let seconds: i128 = period.seconds as i128;
        let subsec_nanos: i128 = period.subsec_nanos as i128;
        Duration::nanoseconds(seconds * NANOS_PER_SECOND + subsec_nanos)
    }
}

impl FromSpecImpl<ComputationPeriod> for Duration {
    open spec fn obeys_from_spec() -> bool {
        true
    }

    open(crate) spec fn from_spec(period: ComputationPeriod) -> Duration {
        Duration { nanos: period@ as i128 }
    }
}

/// The parameters that all parties of the system share.
#[derive(Debug, Copy, Clone)]
pub struct SystemParams {
    pub tek_rolling_period: TekRollingPeriod,
    pub infection_period: InfectionPeriod,
    pub chunk_period: ChunkPeriod,
    pub refresh_period: RefreshPeriod,
    pub computation_period: ComputationPeriod,
}

impl Default for SystemParams {
    fn default() -> (r: Self)
        ensures
            r.tek_rolling_period@ == 144,
            r.infection_period@ == 14,
            r.chunk_period@ == 30 * NANOS_PER_SECOND,
            r.refresh_period@ == 30 * NANOS_PER_SECOND,
            r.computation_period@ == 600 * NANOS_PER_SECOND,
    {
        SystemParams {
            tek_rolling_period: TekRollingPeriod::default(),
            infection_period: InfectionPeriod::default(),
            chunk_period: ChunkPeriod::default(),
            refresh_period: RefreshPeriod::default(),
            computation_period: ComputationPeriod::default(),
        }
    }
}

/// What the diagnosis server is started with.
#[derive(Debug, Copy, Clone)]
pub struct DiagnosisServerConfig {
    pub endpoint: Endpoint,
    pub params: SystemParams,
}

impl DiagnosisServerConfig {
    pub fn new(endpoint: Endpoint, params: SystemParams) -> (r: Self)
        ensures
            r.endpoint == endpoint,
            r.params == params,
    {
        DiagnosisServerConfig { endpoint, params }
    }
}

/// What a participant is started with.
#[derive(Debug)]
pub struct ClientConfig {
    pub participant: Participant,
    pub client_endpoint: Endpoint,
    pub diagnosis_server_endpoint: Endpoint,
    pub params: SystemParams,
    pub state: ClientState,
}

impl ClientConfig {
    pub fn new(
        participant: Participant,
        client_endpoint: Endpoint,
        diagnosis_server_endpoint: Endpoint,
        params: SystemParams,
        state: ClientState,
    ) -> (r: Self)
        ensures
            r.participant == participant,
            r.client_endpoint == client_endpoint,
            r.diagnosis_server_endpoint == diagnosis_server_endpoint,
            r.params == params,
            r.state == state,
    {
        ClientConfig { participant, client_endpoint, diagnosis_server_endpoint, params, state }
    }

    pub fn name(&self) -> (r: &str)
        ensures
            r@ == self.participant.name@,
    {
        self.participant.name.as_str()
    }

    pub fn is_positively_tested(&self) -> (r: bool)
        ensures
            r == self.participant.positively_tested,
    {
        self.participant.positively_tested
    }
}

} // verus!
