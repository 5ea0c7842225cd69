use exposurelib::client::listener::ForwarderServer;
use exposurelib::client::state::{Action, Alert, ClientState, Event, Reaction};
use exposurelib::client_state::{BluetoothLayer, ClientState as InitialState, Keys, TracedContact};
use exposurelib::config::{
    ClientConfig, DiagnosisServerConfig, Endpoint, Intensity, Participant, SystemParams,
};
use exposurelib::diagnosis_server_state::{Chunk, ListType};
use exposurelib::diagnosisserver::state::DiagnosisServerState;
use exposurelib::error::ProtocolViolation;
use exposurelib::primitives::{
    ComputationId, ExposureKeyring, Metadata, Seed, TekRollingPeriod, TemporaryExposureKey,
    Validity,
};
use exposurelib::rpcs::{DownloadParams, ForwardParams};
use exposurelib::time::{Duration, ExposureTime, ExposureTimeSet, TimeInterval, Timestamp};

const N: u32 = 2_692_800;
const A: usize = 0;
const B: usize = 1;
const C: usize = 2;
const D: usize = 3;

fn endpoint(of: usize) -> Endpoint {
    Endpoint::V4 { address: 0x7f00_0001, port: 10000 + of as u16 }
}

fn tek(of: usize) -> TemporaryExposureKey {
    TemporaryExposureKey::from_bytes([of as u8 + 1; 16])
}

fn tek_validity(of: usize) -> Validity<TemporaryExposureKey> {
    Validity::new(ExposureTime::from(N), TekRollingPeriod::default(), tek(of))
}

fn keyring(of: usize) -> ExposureKeyring {
    ExposureKeyring::from_tek_and_sd(tek(of), Seed::from_bytes([of as u8 + 1; 10])).unwrap()
}

fn instant(interval: u32) -> Timestamp {
    Timestamp::from_unix(interval as i64 * 600, 0)
}

struct Peer {
    node: ClientState,
    window: ForwarderServer,
    alerts: Vec<Alert>,
    sent: Vec<(Endpoint, ForwardParams)>,
    dropped: Vec<ProtocolViolation>,
    from: Timestamp,
}

struct World {
    peers: Vec<Peer>,
    server: DiagnosisServerState,
    uploads: usize,
}

/// `encounters` holds (who observed, whom, at which interval, with which intensity).
fn world(positive: &[usize], count: usize, encounters: &[(usize, usize, u32, Intensity)]) -> World {
    let params = SystemParams::default();
    let tekrp = params.tek_rolling_period;
    let now = instant(N + 100);
    let mut peers = Vec::new();
    for who in 0..count {
        let mut layer = BluetoothLayer::new();
        for (observer, observed, at, intensity) in encounters {
            if *observer == who {
                let (rpi, aem) = keyring(*observed)
                    .tek_keyring()
                    .rpi_and_aem(ExposureTime::from(*at), Metadata::new(*intensity, endpoint(*observed)));
                layer.add(TracedContact::new(instant(*at), rpi, aem), tekrp);
            }
        }
        let keys = Keys::from_keyrings(now, tekrp, vec![keyring(who)]);
        let config = ClientConfig::new(
            Participant::new(format!("p{}", who), positive.contains(&who)),
            endpoint(who),
            Endpoint::V4 { address: 0x7f00_0001, port: 9999 },
            params,
            InitialState::new(keys, layer),
        );
        peers.push(Peer {
            node: ClientState::new(config),
            window: ForwarderServer::new(endpoint(who), params.computation_period),
            alerts: Vec::new(),
            sent: Vec::new(),
            dropped: Vec::new(),
            from: now.minus(params.infection_period.as_duration(tekrp)),
        });
    }
    let server = DiagnosisServerState::new_at(
        &DiagnosisServerConfig::new(Endpoint::V4 { address: 0x7f00_0001, port: 9999 }, params),
        now,
    );
    World { peers, server, uploads: 0 }
}

fn mutual(a: usize, b: usize, at: u32, intensity: Intensity) -> [(usize, usize, u32, Intensity); 2] {
    [(a, b, at, intensity), (b, a, at, intensity)]
}

impl World {
    fn perform(&mut self, who: usize, actions: Vec<Action>) {
        let mut queue: Vec<(usize, Action)> = actions.into_iter().map(|a| (who, a)).collect();
        queue.reverse();
        while let Some((who, action)) = queue.pop() {
            match action {
                Action::Raise(alert) => self.peers[who].alerts.push(alert),
                Action::OpenWindow => {
                    self.peers[who].window.request();
                }
                Action::Forward { endpoint: to, params, successor } => {
                    let target = (0..self.peers.len()).find(|p| endpoint(*p) == to).unwrap();
                    self.peers[who].sent.push((to, params.clone()));
                    if self.peers[target].window.is_listening() {
                        match self.peers[target].node.on_tek_forward(&params) {
                            Ok(more) => {
                                let mut more: Vec<(usize, Action)> =
                                    more.into_iter().map(|a| (target, a)).collect();
                                more.reverse();
                                queue.extend(more);
                            }
                            Err(violation) => self.peers[target].dropped.push(violation),
                        }
                    } else if let Some(key) = successor {
                        // nobody listens there: the forward does not get through
                        self.peers[who].node.forward_failed(params.computation_id(), &key);
                    }
                }
                Action::GreylistUpload(params) => {
                    self.uploads += 1;
                    self.server.add_to_greylist(&params);
                }
                Action::BlacklistUpload(params) => {
                    let id = self.server.add_to_blacklist(&params);
                    assert!(!self.peers[who].node.computation_started(id));
                }
            }
        }
    }

    fn start(&mut self) {
        for who in 0..self.peers.len() {
            let actions = self.peers[who].node.init();
            self.perform(who, actions);
        }
    }

    fn seal(&mut self) {
        let now = *self.server.current_chunk().covers().to_excluding();
        assert!(self.server.rotate(now));
    }

    fn refresh(&mut self, who: usize) {
        let chunks: Vec<Chunk> =
            self.server.request_chunks(&DownloadParams { from: self.peers[who].from });
        if chunks.is_empty() {
            return;
        }
        let newest = *chunks[0].covers().from_including();
        let last_from = self.peers[who].from;
        match self.peers[who].node.run(Event::NewChunks { last_from, chunks }) {
            Reaction::ChunksProcessed { next_from, actions } => {
                assert_eq!(next_from, newest);
                self.peers[who].from = next_from;
                self.perform(who, actions);
            }
            other => panic!("unexpected {:?}", other),
        }
    }

    fn transitive_alerts(&self, who: usize) -> usize {
        self.peers[who]
            .alerts
            .iter()
            .filter(|a| matches!(a, Alert::TransitiveContact { .. }))
            .count()
    }

    fn greylisted(&self, id: u32) -> Vec<TemporaryExposureKey> {
        let mut keys = Vec::new();
        let mut chunks: Vec<&Chunk> = vec![self.server.current_chunk()];
        for i in 0..self.server.done_chunks().len() {
            chunks.push(self.server.done_chunks().get(i));
        }
        for chunk in chunks {
            if let Some(state) = chunk.get(ComputationId::from(id)) {
                for i in 0..state.greylist().len() {
                    keys.push(*state.greylist().get(i).keyring());
                }
            }
        }
        keys
    }
}

#[test]
fn direct_high_risk_alert() {
    let mut world = world(&[A], 2, &mutual(A, B, N + 3, Intensity::HighRisk));
    world.start();
    assert!(world.peers[A].window.is_listening());
    assert!(!world.peers[B].window.is_listening());
    assert!(world.peers[A].node.computation(ComputationId::from(0)).unwrap().is_own());
    world.seal();
    world.refresh(B);
    assert_eq!(world.peers[B].alerts, vec![Alert::HighRiskTracedContact]);
    assert!(world.peers[B].node.traced_contact());
    assert!(world.peers[A].alerts.is_empty());
    assert_eq!(world.transitive_alerts(A), 0);
    assert_eq!(world.transitive_alerts(B), 0);
    world.refresh(A);
    assert!(world.peers[A].alerts.is_empty());
    assert!(!world.peers[A].node.traced_contact());
    assert!(!world.peers[A].node.transitive_contact());
}

#[test]
fn first_hop_ends_at_the_pooling_node() {
    let mut encounters = Vec::new();
    encounters.extend(mutual(A, B, N + 3, Intensity::HighRisk));
    encounters.extend(mutual(B, C, N + 3, Intensity::HighRisk));
    let mut world = world(&[A], 3, &encounters);
    world.start();
    world.seal();
    world.refresh(B);
    // B opened its forwarder and sent a first forward to A
    assert!(world.peers[B].window.is_listening());
    assert_eq!(world.peers[B].sent.len(), 1);
    let (to, params) = &world.peers[B].sent[0];
    assert_eq!(*to, endpoint(A));
    assert!(params.is_first_forward());
    assert_eq!(params.computation_id(), ComputationId::from(0));
    assert_eq!(params.origin_tek(TekRollingPeriod::default()), tek_validity(B));
    assert_eq!(params.predecessor_tek(TekRollingPeriod::default()), tek_validity(B));
    assert_eq!(params.shared_encounter_times().to_vec(), vec![N + 3]);
    // A, whose computation it is, put B's key on the greylist and on its redlist
    assert_eq!(world.uploads, 1);
    assert_eq!(world.greylisted(0), vec![tek(B)]);
    let own = world.peers[A].node.computation(ComputationId::from(0)).unwrap();
    assert!(own.is_own());
    assert!(own.redlist().contains(&tek_validity(B)));
    assert!(world.peers[A].dropped.is_empty());
    // B relays for A: A is its successor, and the computation is not B's own
    let relayed = world.peers[B].node.computation(ComputationId::from(0)).unwrap();
    assert!(!relayed.is_own());
    assert_eq!(relayed.successors().len(), 1);
    assert_eq!(relayed.successors()[0].connection_identifier(), endpoint(A));
    assert_eq!(*relayed.successors()[0].tek(), tek_validity(A));
    // nobody is alerted as a transitive contact, and C is not involved
    world.refresh(C);
    world.refresh(A);
    for who in [A, B, C] {
        assert_eq!(world.transitive_alerts(who), 0);
    }
    assert!(world.peers[A].alerts.is_empty());
    assert!(world.peers[C].alerts.is_empty());
    assert!(world.peers[C].sent.is_empty());
    assert!(!world.peers[C].window.is_listening());
}

fn four_parties() -> World {
    let mut encounters = Vec::new();
    encounters.extend(mutual(A, B, N + 3, Intensity::HighRisk));
    encounters.extend(mutual(B, C, N + 3, Intensity::HighRisk));
    encounters.extend(mutual(B, D, N + 3, Intensity::HighRisk));
    let mut world = world(&[A], 4, &encounters);
    world.start();
    world.seal();
    for who in [A, B, C, D] {
        world.refresh(who);
    }
    world.seal();
    world
}

#[test]
fn the_first_relay_is_alerted_once() {
    let mut world = four_parties();
    assert_eq!(world.greylisted(0), vec![tek(B)]);
    world.refresh(B);
    assert_eq!(
        world.peers[B].alerts,
        vec![Alert::HighRiskTracedContact, Alert::TransitiveContact { already_traced: true }]
    );
    assert!(world.peers[B].node.transitive_contact());
    assert_eq!(world.transitive_alerts(C), 0);
    assert_eq!(world.transitive_alerts(D), 0);
    assert!(world.peers[C].alerts.is_empty());
    assert!(world.peers[D].alerts.is_empty());
    // seeing the same key on the greylist again raises no second alert
    let again: Vec<Chunk> = world.server.request_chunks(&DownloadParams {
        from: instant(N).minus(Duration::days(1)),
    });
    for chunk in again.iter() {
        let actions = world.peers[B].node.process_chunk(chunk);
        world.perform(B, actions);
    }
    assert_eq!(world.transitive_alerts(B), 1);
}

#[test]
fn echo_is_prevented() {
    let mut world = four_parties();
    assert_eq!(world.peers[B].sent.len(), 1);
    world.refresh(B);
    world.refresh(A);
    // B sent no second forward, and A none at all: B's key is on A's redlist
    assert_eq!(world.peers[B].sent.len(), 1);
    assert!(world.peers[A].sent.is_empty());
    assert!(world.peers[A].alerts.is_empty());
    assert!(world.peers[A].node.computation(ComputationId::from(0)).unwrap().is_own());
}

#[test]
fn the_vicinity_is_reached_through_the_relay() {
    let mut world = four_parties();
    world.refresh(C);
    // C sent a first forward to B, which relayed it to A with its own key as predecessor
    assert_eq!(world.peers[C].sent.len(), 1);
    assert_eq!(world.peers[C].sent[0].0, endpoint(B));
    assert_eq!(world.peers[B].sent.len(), 2);
    let (to, relayed) = &world.peers[B].sent[1];
    assert_eq!(*to, endpoint(A));
    assert!(!relayed.is_first_forward());
    assert_eq!(relayed.origin_tek(TekRollingPeriod::default()), tek_validity(C));
    assert_eq!(relayed.predecessor_tek(TekRollingPeriod::default()), tek_validity(B));
    assert_eq!(relayed.shared_encounter_times().to_vec(), vec![N + 3]);
    assert!(world.peers[B]
        .node
        .computation(ComputationId::from(0))
        .unwrap()
        .redlist()
        .contains(&tek_validity(C)));
    assert_eq!(world.greylisted(0), vec![tek(C), tek(B)]);
    world.seal();
    world.refresh(C);
    assert_eq!(world.peers[C].alerts, vec![Alert::TransitiveContact { already_traced: false }]);
    assert!(world.peers[A].dropped.is_empty());
    assert!(world.peers[B].dropped.is_empty());
}

#[test]
fn low_risk_does_not_propagate() {
    let mut world = world(&[A], 2, &mutual(A, B, N + 3, Intensity::LowRisk));
    world.start();
    world.seal();
    world.refresh(B);
    assert_eq!(world.peers[B].alerts, vec![Alert::LowRiskTracedContact]);
    assert!(!world.peers[B].node.traced_contact());
    assert!(!world.peers[B].window.is_listening());
    assert!(world.peers[B].sent.is_empty());
    assert!(world.peers[B].node.computation(ComputationId::from(0)).is_none());
    assert_eq!(world.uploads, 0);
}

fn forward(origin: usize, predecessor: usize, id: u32, shared: &[u32]) -> ForwardParams {
    let mut times = ExposureTimeSet::new();
    for at in shared {
        times.insert(ExposureTime::from(*at));
    }
    let mut params = ForwardParams::new(
        ComputationId::from(id),
        ExposureTime::from(N + 3),
        TekRollingPeriod::default(),
        tek(origin),
        ExposureTimeSet::new(),
    );
    params.update(tek(predecessor), times);
    params
}

#[test]
fn forwards_that_break_the_rules_are_dropped() {
    let mut encounters = Vec::new();
    encounters.extend(mutual(A, B, N + 3, Intensity::HighRisk));
    encounters.extend(mutual(A, C, N + 5, Intensity::LowRisk));
    let mut world = world(&[A], 4, &encounters);
    world.start();
    let node = &mut world.peers[A].node;
    assert_eq!(
        node.on_tek_forward(&forward(D, D, 0, &[N + 3])).err(),
        Some(ProtocolViolation::NeverMet)
    );
    assert_eq!(
        node.on_tek_forward(&forward(B, B, 7, &[N + 3])).err(),
        Some(ProtocolViolation::UnknownComputation)
    );
    // a later hop from a predecessor that never sent a first forward
    assert_eq!(
        node.on_tek_forward(&forward(C, B, 0, &[N + 3])).err(),
        Some(ProtocolViolation::MissingPredecessor)
    );
    assert!(node.computation(ComputationId::from(0)).unwrap().redlist().is_empty());
    // a first forward is admitted even where nothing is shared
    assert_eq!(
        node.on_tek_forward(&forward(B, B, 0, &[N + 4])).err(),
        Some(ProtocolViolation::NoSharedEncounter)
    );
    assert_eq!(node.computation(ComputationId::from(0)).unwrap().redlist().len(), 1);
    // C was met with low risk only
    assert_eq!(
        node.on_tek_forward(&forward(C, C, 0, &[N + 5])).err(),
        Some(ProtocolViolation::NoSharedEncounter)
    );
    // a second first forward is not put on the redlist again
    let actions = node.on_tek_forward(&forward(B, B, 0, &[N + 3, N + 9])).unwrap();
    assert_eq!(node.computation(ComputationId::from(0)).unwrap().redlist().len(), 2);
    assert_eq!(actions.len(), 1);
    assert!(matches!(&actions[0], Action::GreylistUpload(p)
        if p.computation_id == ComputationId::from(0) && p.diagnosis_keys.len() == 1
            && p.diagnosis_keys.get(0) == tek_validity(B)));
    let again = node.on_tek_forward(&forward(B, B, 0, &[N + 3])).unwrap();
    assert_eq!(again.len(), 1);
    assert_eq!(node.computation(ComputationId::from(0)).unwrap().redlist().len(), 2);
    // now that B is admitted, a later hop through B is taken
    let later = node.on_tek_forward(&forward(C, B, 0, &[N + 3])).unwrap();
    assert!(matches!(&later[0], Action::GreylistUpload(p) if p.diagnosis_keys.get(0) == tek_validity(C)));
}

#[test]
fn an_inconsistent_history_is_not_trusted() {
    let params = SystemParams::default();
    let tekrp = params.tek_rolling_period;
    let mut layer = BluetoothLayer::new();
    for (at, port) in [(N + 1, 1u16), (N + 2, 2u16)] {
        let (rpi, aem) = keyring(B).tek_keyring().rpi_and_aem(
            ExposureTime::from(at),
            Metadata::new(Intensity::HighRisk, Endpoint::V4 { address: 1, port }),
        );
        layer.add(TracedContact::new(instant(at), rpi, aem), tekrp);
    }
    let keys = Keys::from_keyrings(instant(N + 100), tekrp, vec![keyring(A)]);
    let mut node = ClientState::new(ClientConfig::new(
        Participant::new(String::from("a"), true),
        endpoint(A),
        endpoint(A),
        params,
        InitialState::new(keys, layer),
    ));
    node.computation_started(ComputationId::from(0));
    assert!(node.on_tek_match(tek_validity(B), ListType::Blacklist, ComputationId::from(0)).is_empty());
    assert!(!node.traced_contact());
    assert_eq!(
        node.on_tek_forward(&forward(B, B, 0, &[N + 1])).err(),
        Some(ProtocolViolation::InconsistentEndpoint)
    );
}

#[test]
fn a_match_without_an_own_key_starts_no_chain() {
    let params = SystemParams::default();
    let tekrp = params.tek_rolling_period;
    let mut layer = BluetoothLayer::new();
    let (rpi, aem) = keyring(B)
        .tek_keyring()
        .rpi_and_aem(ExposureTime::from(N + 1), Metadata::new(Intensity::HighRisk, endpoint(B)));
    layer.add(TracedContact::new(instant(N + 1), rpi, aem), tekrp);
    // the only key of the participant belongs to the rolling period after the encounter
    let keys = Keys::from_keyrings(instant(N + 144), tekrp, vec![keyring(A)]);
    let mut node = ClientState::new(ClientConfig::new(
        Participant::new(String::from("a"), false),
        endpoint(A),
        endpoint(A),
        params,
        InitialState::new(keys, layer),
    ));
    let actions = node.on_tek_match(tek_validity(B), ListType::Blacklist, ComputationId::from(3));
    assert_eq!(actions.len(), 1);
    assert!(matches!(actions[0], Action::Raise(Alert::HighRiskTracedContact)));
    assert!(node.traced_contact());
    assert!(node.computation(ComputationId::from(3)).is_none());
    // from the greylist the same key raises no alert and starts no chain either
    let actions = node.on_tek_match(tek_validity(B), ListType::Greylist, ComputationId::from(3));
    assert!(actions.is_empty());
    assert!(node.computation(ComputationId::from(3)).is_none());
    // someone who was never met leads to nothing
    let actions = node.on_tek_match(tek_validity(C), ListType::Blacklist, ComputationId::from(3));
    assert!(actions.is_empty());
}

#[test]
fn the_verdict_compares_with_what_ought_to_be() {
    let verdict = |positive: bool, to_be_warned: bool| {
        let params = SystemParams::default();
        let keys = Keys::from_keyrings(instant(N), params.tek_rolling_period, vec![keyring(A)]);
        let mut participant = Participant::new(String::from("a"), positive);
        if to_be_warned {
            participant.set_to_be_warned();
        }
        let mut node = ClientState::new(ClientConfig::new(
            participant,
            endpoint(A),
            endpoint(A),
            params,
            InitialState::new(keys, BluetoothLayer::new()),
        ));
        match node.run(Event::ComputationPeriodExpired) {
            Reaction::Verdict { warned, correct } => (warned, correct),
            other => panic!("unexpected {:?}", other),
        }
    };
    assert_eq!(verdict(false, false), (false, true));
    assert_eq!(verdict(false, true), (false, false));
    assert_eq!(verdict(true, false), (true, false));
    assert_eq!(verdict(true, true), (true, true));
    let mut world = world(&[A], 2, &mutual(A, B, N + 3, Intensity::HighRisk));
    world.start();
    world.seal();
    world.refresh(B);
    assert!(matches!(
        world.peers[B].node.run(Event::ComputationPeriodExpired),
        Reaction::Verdict { warned: true, correct: false }
    ));
}

#[test]
fn events_are_dispatched() {
    let mut world = world(&[A], 2, &mutual(A, B, N + 3, Intensity::HighRisk));
    world.start();
    let reaction = world.peers[A].node.run(Event::NewForwardRequest {
        params: forward(B, B, 0, &[N + 3]),
    });
    match reaction {
        Reaction::ForwardHandled(Ok(actions)) => assert_eq!(actions.len(), 1),
        other => panic!("unexpected {:?}", other),
    }
    let reaction = world.peers[A].node.run(Event::NewForwardRequest {
        params: forward(B, B, 5, &[N + 3]),
    });
    assert!(matches!(
        reaction,
        Reaction::ForwardHandled(Err(ProtocolViolation::UnknownComputation))
    ));
    // chunks move the instant to ask from to the latest start, and never back
    let covers = TimeInterval::with_duration(instant(N), Duration::seconds(30));
    let chunks = vec![Chunk::new(covers.next_interval()), Chunk::new(covers)];
    match world.peers[B].node.run(Event::NewChunks { last_from: instant(N - 1), chunks }) {
        Reaction::ChunksProcessed { next_from, actions } => {
            assert_eq!(next_from, *covers.to_excluding());
            assert!(actions.is_empty());
        }
        other => panic!("unexpected {:?}", other),
    }
    match world.peers[B].node.run(Event::NewChunks {
        last_from: instant(N + 1),
        chunks: vec![Chunk::new(covers)],
    }) {
        Reaction::ChunksProcessed { next_from, .. } => assert_eq!(next_from, instant(N + 1)),
        other => panic!("unexpected {:?}", other),
    }
    assert_eq!(world.peers[A].node.participant().name, "p0");
    assert_eq!(world.peers[A].node.system_params().tek_rolling_period.intervals(), 144);
    let announced = world.peers[A].node.init();
    assert_eq!(announced.len(), 2);
    assert!(matches!(&announced[0], Action::OpenWindow));
    assert!(matches!(&announced[1], Action::BlacklistUpload(p)
        if p.diagnosis_keys.len() == 1 && p.diagnosis_keys.get(0) == tek_validity(A)));
    assert!(world.peers[B].node.init().is_empty());
}

#[test]
fn an_own_computation_stays_own_when_it_gains_a_successor() {
    // A observed B with high risk; B did not observe A
    let mut world = world(&[A], 2, &[(A, B, N + 3, Intensity::HighRisk)]);
    world.start();
    let node = &mut world.peers[A].node;
    assert!(node.computation(ComputationId::from(0)).unwrap().is_own());
    // B's key shows on the blacklist of the computation that A started
    let actions = node.on_tek_match(tek_validity(B), ListType::Blacklist, ComputationId::from(0));
    assert_eq!(actions.len(), 3);
    assert!(matches!(actions[0], Action::Raise(Alert::HighRiskTracedContact)));
    assert!(matches!(actions[1], Action::OpenWindow));
    assert!(matches!(&actions[2], Action::Forward { endpoint: to, successor: Some(key), .. }
        if *to == endpoint(B) && *key == tek_validity(B)));
    let own = node.computation(ComputationId::from(0)).unwrap();
    assert_eq!(own.successors().len(), 1);
    assert!(own.is_own());
    // and A still pools what is forwarded in it
    let pooled = node.on_tek_forward(&forward(B, B, 0, &[N + 3])).unwrap();
    assert_eq!(pooled.len(), 1);
    assert!(matches!(&pooled[0], Action::GreylistUpload(p)
        if p.computation_id == ComputationId::from(0) && p.diagnosis_keys.get(0) == tek_validity(B)));
    assert!(node.computation(ComputationId::from(0)).unwrap().is_own());
    // the same key from the greylist is now on the redlist and leads to nothing
    assert!(node
        .on_tek_match(tek_validity(B), ListType::Greylist, ComputationId::from(0))
        .is_empty());
    // a second match of the same key names no new successor
    let again = node.on_tek_match(tek_validity(B), ListType::Blacklist, ComputationId::from(0));
    assert!(matches!(&again[2], Action::Forward { successor: None, .. }));
    assert_eq!(node.computation(ComputationId::from(0)).unwrap().successors().len(), 1);
    // a computation that a match made known is not the participant's own
    node.on_tek_match(tek_validity(B), ListType::Blacklist, ComputationId::from(8));
    assert!(!node.computation(ComputationId::from(8)).unwrap().is_own());
}

#[test]
fn a_forward_that_fails_is_taken_back() {
    let mut world = world(&[A], 2, &mutual(A, B, N + 3, Intensity::HighRisk));
    world.start();
    let node = &mut world.peers[B].node;
    let actions = node.on_tek_match(tek_validity(A), ListType::Blacklist, ComputationId::from(0));
    assert!(matches!(&actions[2], Action::Forward { successor: Some(key), .. } if *key == tek_validity(A)));
    assert_eq!(node.computation(ComputationId::from(0)).unwrap().successors().len(), 1);
    // another key and another computation change nothing
    node.forward_failed(ComputationId::from(0), &tek_validity(C));
    node.forward_failed(ComputationId::from(5), &tek_validity(A));
    assert_eq!(node.computation(ComputationId::from(0)).unwrap().successors().len(), 1);
    // the computation was known through that forward alone: it is known no longer
    node.forward_failed(ComputationId::from(0), &tek_validity(A));
    assert!(node.computation(ComputationId::from(0)).is_none());
    assert!(node.traced_contact());
    // in a computation of the participant's own only the successor goes
    let own = &mut world.peers[A].node;
    own.on_tek_match(tek_validity(B), ListType::Blacklist, ComputationId::from(0));
    assert_eq!(own.computation(ComputationId::from(0)).unwrap().successors().len(), 1);
    own.forward_failed(ComputationId::from(0), &tek_validity(B));
    let computation = own.computation(ComputationId::from(0)).unwrap();
    assert!(computation.successors().is_empty());
    assert!(computation.is_own());
}

#[test]
fn a_forward_to_a_closed_forwarder_leaves_no_successor() {
    // B met A, who did not test positive and does not listen; C started the computation
    let mut encounters = Vec::new();
    encounters.extend(mutual(A, B, N + 3, Intensity::HighRisk));
    let mut world = world(&[C], 3, &encounters);
    world.start();
    let actions =
        world.peers[B].node.on_tek_match(tek_validity(A), ListType::Blacklist, ComputationId::from(0));
    world.perform(B, actions);
    assert_eq!(world.peers[B].sent.len(), 1);
    assert!(world.peers[B].node.computation(ComputationId::from(0)).is_none());
    assert_eq!(world.peers[B].alerts, vec![Alert::HighRiskTracedContact]);
}
