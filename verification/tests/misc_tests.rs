use exposurelib::args::{Args, LogLevel};
use exposurelib::client::listener::{ForwarderServer, WindowRequest, WindowTimeout};
use exposurelib::client::state::Event;
use exposurelib::client::updater::Updater;
use exposurelib::config::{
    ChunkPeriod, ComputationPeriod, Encounter, Encounters, Endpoint, Intensity, Participant,
    RefreshPeriod, SystemParams,
};
use exposurelib::configurator::verification::SocialGraph;
use exposurelib::diagnosis_server_state::Chunk;
use exposurelib::time::{Duration, ExposureTime, TimeInterval, Timestamp};

#[test]
fn verbosity_raises_the_log_level() {
    assert_eq!(LogLevel::from_verbosity(0), LogLevel::Error);
    assert_eq!(LogLevel::from_verbosity(1), LogLevel::Warn);
    assert_eq!(LogLevel::from_verbosity(2), LogLevel::Info);
    assert_eq!(LogLevel::from_verbosity(3), LogLevel::Debug);
    assert_eq!(LogLevel::from_verbosity(4), LogLevel::Trace);
    assert_eq!(LogLevel::from_verbosity(u64::MAX), LogLevel::Trace);
    let args = Args::from_values(String::from("a.yaml"), String::from("a.log"), 2);
    assert_eq!(args.config_file_path, "a.yaml");
    assert_eq!(args.log_file_path, "a.log");
    assert_eq!(args.log_level, LogLevel::Info);
}

#[test]
fn default_parameters_are_the_documented_ones() {
    let params = SystemParams::default();
    assert_eq!(params.tek_rolling_period.intervals(), 144);
    assert_eq!(params.infection_period.periods(), 14);
    assert_eq!(Duration::from(params.chunk_period), Duration::seconds(30));
    assert_eq!(Duration::from(params.refresh_period), Duration::seconds(30));
    assert_eq!(Duration::from(params.computation_period), Duration::minutes(10));
    assert!(ChunkPeriod::new(1, 1_000_000_000).is_none());
    assert!(RefreshPeriod::new(1, 1_000_000_000).is_none());
    assert!(ComputationPeriod::new(1, 1_000_000_000).is_none());
    let period = ChunkPeriod::new(2, 500_000_000).unwrap();
    assert_eq!(period.seconds(), 2);
    assert_eq!(period.subsec_nanos(), 500_000_000);
    assert_eq!(Duration::from(period), Duration::nanoseconds(2_500_000_000));
    assert_eq!(
        Duration::from(ChunkPeriod::new(u64::MAX, 999_999_999).unwrap()).num_nanoseconds(),
        u64::MAX as i128 * 1_000_000_000 + 999_999_999
    );
}

#[test]
fn participants_and_encounters_hold_what_they_are_given() {
    let mut participant = Participant::new(String::from("p0"), true);
    assert_eq!(participant.name, "p0");
    assert!(participant.positively_tested());
    assert!(!participant.to_be_warned());
    participant.set_to_be_warned();
    assert!(participant.to_be_warned());
    let encounter = Encounter::new(Timestamp::from_unix(5, 0), Intensity::HighRisk);
    assert_eq!(encounter.time, Timestamp::from_unix(5, 0));
    assert_eq!(encounter.intensity, Intensity::HighRisk);
    assert_eq!(Encounters::new(vec![encounter, encounter]).encounters.len(), 2);
}

#[test]
fn the_forwarder_stays_open_while_it_is_asked_for() {
    let address = Endpoint::V4 { address: 1, port: 2 };
    let mut forwarder = ForwarderServer::new(address, ComputationPeriod::default());
    assert!(!forwarder.is_listening());
    assert_eq!(forwarder.address(), address);
    assert_eq!(Duration::from(forwarder.computation_period()), Duration::minutes(10));
    // a period that ends while nothing listens changes nothing
    assert_eq!(forwarder.timeout(), WindowTimeout::Shutdown);
    assert!(!forwarder.is_listening());
    assert_eq!(forwarder.request(), WindowRequest::Start);
    assert!(forwarder.is_listening());
    assert_eq!(forwarder.request(), WindowRequest::Extend);
    assert_eq!(forwarder.request(), WindowRequest::Extend);
    // asked for during the period: one more period, however often it was asked for
    assert_eq!(forwarder.timeout(), WindowTimeout::Restart);
    assert!(forwarder.is_listening());
    assert_eq!(forwarder.timeout(), WindowTimeout::Shutdown);
    assert!(!forwarder.is_listening());
    assert_eq!(forwarder.request(), WindowRequest::Start);
    assert_eq!(forwarder.timeout(), WindowTimeout::Shutdown);
}

#[test]
fn the_updater_hands_on_what_came() {
    let from = Timestamp::from_unix(100, 0);
    let mut updater = Updater::new(RefreshPeriod::default(), from);
    assert_eq!(updater.download_params().from, from);
    assert_eq!(Duration::from(updater.refresh_period()), Duration::seconds(30));
    assert!(updater.run(None).is_none());
    assert!(updater.run(Some(Vec::new())).is_none());
    let chunk = Chunk::new(TimeInterval::with_duration(
        Timestamp::from_unix(120, 0),
        Duration::seconds(30),
    ));
    match updater.run(Some(vec![chunk])) {
        Some(Event::NewChunks { last_from, chunks }) => {
            assert_eq!(last_from, from);
            assert_eq!(chunks.len(), 1);
        }
        other => panic!("unexpected {:?}", other),
    }
    updater.acknowledge(Timestamp::from_unix(120, 0));
    assert_eq!(updater.download_params().from, Timestamp::from_unix(120, 0));
}

#[test]
fn the_vicinity_follows_mutual_high_risk_registrations() {
    let t1 = ExposureTime::from(100);
    let t2 = ExposureTime::from(112);
    let build = |with_first_link: bool| {
        let mut graph = SocialGraph::new(6);
        if with_first_link {
            graph.add_mutual_registration(0, 1, t2, Intensity::HighRisk);
        }
        graph.add_mutual_registration(1, 2, t2, Intensity::HighRisk);
        graph.add_one_way_registration(1, 2, t1, Intensity::LowRisk);
        graph.add_one_way_registration(2, 1, t1, Intensity::HighRisk);
        graph.add_mutual_registration(2, 3, t1, Intensity::HighRisk);
        graph.add_mutual_registration(2, 4, t1, Intensity::HighRisk);
        graph.add_mutual_registration(0, 4, t1, Intensity::HighRisk);
        graph
    };
    let graph = build(true);
    assert_eq!(graph.participants(), 6);
    assert!(graph.mutual_high_risk_registration_at(0, 1, t2));
    assert!(graph.mutual_high_risk_registration_at(1, 0, t2));
    assert!(!graph.mutual_high_risk_registration_at(0, 1, t1));
    assert!(!graph.mutual_high_risk_registration_at(1, 2, t1));
    assert!(!graph.mutual_high_risk_registration_at(2, 1, t1));
    assert!(!graph.mutual_high_risk_registration_at(0, 9, t1));
    let positive = vec![true, false, false, false, false, false];
    assert_eq!(graph.mark_ssev_group(&positive), vec![true, true, true, true, true, false]);
    assert_eq!(build(false).mark_ssev_group(&positive), vec![true, false, true, true, true, false]);
    // nobody tested positive, or the one who did met nobody with high risk
    assert_eq!(graph.mark_ssev_group(&vec![false; 6]), vec![false; 6]);
    assert_eq!(
        graph.mark_ssev_group(&vec![false, false, false, false, false, true]),
        vec![false; 6]
    );
    let mut marks = vec![false, false, false, false, false, true];
    graph.explore_and_mark(1, t2, &mut marks);
    assert_eq!(marks, vec![true, true, true, false, false, true]);
    let mut marks = vec![false; 6];
    graph.explore_and_mark(3, t2, &mut marks);
    assert_eq!(marks, vec![false, false, false, true, false, false]);
}
