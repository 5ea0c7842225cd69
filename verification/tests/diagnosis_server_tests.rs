use exposurelib::config::{
    ChunkPeriod, ComputationPeriod, DiagnosisServerConfig, Endpoint, RefreshPeriod, SystemParams,
};
use exposurelib::diagnosis_server_state::{Chunk, ComputationState, ListType};
use exposurelib::diagnosisserver::state::{Chunks, DiagnosisServerState};
use exposurelib::primitives::{
    ComputationId, InfectionPeriod, TekRollingPeriod, TemporaryExposureKey, Validity,
};
use exposurelib::rpcs::{BlacklistUploadParams, DownloadParams, GreylistUploadParams};
use exposurelib::tek_set::TekSet;
use exposurelib::time::{Duration, ExposureTime, TimeInterval, Timestamp};

const DAY: i64 = 86_400;
const T0: i64 = 18_700 * DAY + 10;

fn key(tag: u8) -> Validity<TemporaryExposureKey> {
    Validity::new(
        ExposureTime::from(0),
        TekRollingPeriod::default(),
        TemporaryExposureKey::from_bytes([tag; 16]),
    )
}

fn set(tags: &[u8]) -> TekSet {
    let mut set = TekSet::new();
    for tag in tags {
        set.insert(key(*tag));
    }
    set
}

fn tags(set: &TekSet) -> Vec<u8> {
    (0..set.len()).map(|i| set.get(i).keyring().to_bytes()[0]).collect()
}

fn config(tekrp: u16, infection_period: u16) -> DiagnosisServerConfig {
    DiagnosisServerConfig::new(
        Endpoint::V4 { address: 0x7f00_0001, port: 9999 },
        SystemParams {
            tek_rolling_period: TekRollingPeriod::new(tekrp).unwrap(),
            infection_period: InfectionPeriod::new(infection_period).unwrap(),
            chunk_period: ChunkPeriod::default(),
            refresh_period: RefreshPeriod::default(),
            computation_period: ComputationPeriod::default(),
        },
    )
}

fn server() -> DiagnosisServerState {
    DiagnosisServerState::new_at(&config(144, 14), Timestamp::from_unix(T0, 0))
}

fn seconds(t: &Timestamp) -> i64 {
    (t.nanos() / 1_000_000_000) as i64
}

fn seal(server: &mut DiagnosisServerState) -> Timestamp {
    let now = *server.current_chunk().covers().to_excluding();
    assert!(server.rotate(now));
    now
}

fn starts(chunks: &[Chunk]) -> Vec<i64> {
    chunks.iter().map(|c| seconds(c.covers().from_including()) - T0 + 10).collect()
}

#[test]
fn a_new_server_starts_with_the_aligned_chunk() {
    let server = server();
    assert_eq!(seconds(server.current_chunk().covers().from_including()), T0 - 10);
    assert_eq!(seconds(server.current_chunk().covers().to_excluding()), T0 + 20);
    assert_eq!(server.done_chunks().len(), 0);
    assert_eq!(server.computation_id_seed(), 0);
    assert!(server.current_chunk().data().is_empty());
    let live = DiagnosisServerState::new(&config(144, 14));
    assert_eq!(live.current_chunk().covers().duration(), Duration::seconds(30));
    assert_eq!(live.done_chunks().len(), 0);
}

#[test]
fn computation_state_collects_keys_per_list() {
    let mut state = ComputationState::new();
    state.insert(ListType::Blacklist, &set(&[1, 2]));
    state.insert(ListType::Greylist, &set(&[3]));
    state.insert(ListType::Blacklist, &set(&[2, 4]));
    assert_eq!(tags(state.blacklist()), vec![1, 2, 4]);
    assert_eq!(tags(state.greylist()), vec![3]);
    let copy = state.clone();
    let (blacklist, greylist) = copy.to_data();
    assert_eq!(tags(&blacklist), vec![1, 2, 4]);
    assert_eq!(tags(&greylist), vec![3]);
}

#[test]
fn chunk_keeps_lists_per_computation() {
    let covers = TimeInterval::with_duration(Timestamp::from_unix(0, 0), Duration::seconds(30));
    let mut chunk = Chunk::new(covers);
    chunk.insert(ListType::Blacklist, ComputationId::from(4), &set(&[1]));
    chunk.insert(ListType::Greylist, ComputationId::from(2), &set(&[2]));
    chunk.insert(ListType::Greylist, ComputationId::from(4), &set(&[3]));
    assert_eq!(chunk.data().len(), 2);
    assert_eq!(tags(chunk.get(ComputationId::from(4)).unwrap().blacklist()), vec![1]);
    assert_eq!(tags(chunk.get(ComputationId::from(4)).unwrap().greylist()), vec![3]);
    assert_eq!(tags(chunk.get(ComputationId::from(2)).unwrap().greylist()), vec![2]);
    assert!(chunk.get(ComputationId::from(3)).is_none());
    assert_eq!(*chunk.covers(), covers);
    let next = chunk.next_chunk();
    assert_eq!(next.covers().from_including(), covers.to_excluding());
    assert_eq!(next.covers().duration(), Duration::seconds(30));
    assert!(next.data().is_empty());
    let copy = chunk.clone();
    assert_eq!(copy.data().len(), 2);
    assert_eq!(tags(copy.get(ComputationId::from(4)).unwrap().blacklist()), vec![1]);
}

#[test]
fn blacklist_uploads_get_increasing_ids() {
    let mut server = server();
    let first = server.add_to_blacklist(&BlacklistUploadParams { diagnosis_keys: set(&[1, 2]) });
    let second = server.add_to_blacklist(&BlacklistUploadParams { diagnosis_keys: set(&[3]) });
    assert_eq!(first, ComputationId::from(0));
    assert_eq!(second, ComputationId::from(1));
    assert_eq!(server.computation_id_seed(), 2);
    assert_eq!(tags(server.current_chunk().get(first).unwrap().blacklist()), vec![1, 2]);
    assert_eq!(tags(server.current_chunk().get(second).unwrap().blacklist()), vec![3]);
    assert!(server.current_chunk().get(first).unwrap().greylist().is_empty());
    // an upload without keys starts a computation of which the chunk holds nothing
    let third = server.add_to_blacklist(&BlacklistUploadParams { diagnosis_keys: TekSet::new() });
    assert_eq!(third, ComputationId::from(2));
    assert!(server.current_chunk().get(third).is_none());
}

#[test]
fn greylist_uploads_skip_what_done_chunks_hold() {
    let mut server = server();
    let id = server.add_to_blacklist(&BlacklistUploadParams { diagnosis_keys: set(&[1]) });
    server.add_to_greylist(&GreylistUploadParams { computation_id: id, diagnosis_keys: set(&[5, 6]) });
    assert_eq!(tags(server.current_chunk().get(id).unwrap().greylist()), vec![5, 6]);
    seal(&mut server);
    server.add_to_greylist(&GreylistUploadParams { computation_id: id, diagnosis_keys: set(&[6, 7]) });
    assert_eq!(tags(server.current_chunk().get(id).unwrap().greylist()), vec![7]);
    // the blacklist of the same computation and other computations are other lists
    server.add_to_greylist(&GreylistUploadParams { computation_id: id, diagnosis_keys: set(&[1]) });
    assert_eq!(tags(server.current_chunk().get(id).unwrap().greylist()), vec![7, 1]);
    server.add_to_greylist(&GreylistUploadParams {
        computation_id: ComputationId::from(9),
        diagnosis_keys: set(&[5]),
    });
    assert_eq!(tags(server.current_chunk().get(ComputationId::from(9)).unwrap().greylist()), vec![5]);
    seal(&mut server);
    // all that is uploaded is held by done chunks: the current chunk stays empty
    server.add_to_greylist(&GreylistUploadParams { computation_id: id, diagnosis_keys: set(&[5, 7]) });
    assert!(server.current_chunk().get(id).is_none());
    let (fresh, duplicates) =
        server.done_chunks().deduplicate(ListType::Greylist, id, &set(&[5, 8, 7, 9]));
    assert_eq!(tags(&fresh), vec![8, 9]);
    assert_eq!(tags(&duplicates), vec![5, 7]);
}

#[test]
fn rotation_waits_for_the_deadline() {
    let mut server = server();
    server.add_to_blacklist(&BlacklistUploadParams { diagnosis_keys: set(&[1]) });
    let early = Timestamp::from_unix(T0 + 19, 999_999_999);
    assert_eq!(server.time_to_next_deadline(early), Duration::nanoseconds(1));
    assert_eq!(server.time_to_next_deadline(Timestamp::from_unix(T0 - 10, 0)), Duration::seconds(30));
    assert_eq!(server.time_to_next_deadline(Timestamp::from_unix(T0 + 20, 0)), Duration::zero());
    assert_eq!(server.time_to_next_deadline(Timestamp::from_unix(T0 + 500, 0)), Duration::zero());
    assert!(!server.rotate(early));
    assert_eq!(server.done_chunks().len(), 0);
    assert_eq!(server.current_chunk().data().len(), 1);
    assert!(server.rotate(Timestamp::from_unix(T0 + 20, 0)));
    assert_eq!(server.done_chunks().len(), 1);
    assert_eq!(server.done_chunks().get(0).data().len(), 1);
    assert!(server.current_chunk().data().is_empty());
    assert_eq!(seconds(server.current_chunk().covers().from_including()), T0 + 20);
    assert_eq!(seconds(server.current_chunk().covers().to_excluding()), T0 + 50);
    assert_eq!(server.computation_id_seed(), 1);
}

#[test]
fn download_hands_out_done_chunks_newest_first() {
    let mut server = server();
    for _ in 0..4 {
        seal(&mut server);
    }
    let at = |offset: i64| DownloadParams { from: Timestamp::from_unix(T0 - 10 + offset, 0) };
    // done chunks start at 0, 30, 60 and 90; the current one at 120
    assert_eq!(starts(&server.request_chunks(&at(-1000))), vec![90, 60, 30, 0]);
    assert_eq!(starts(&server.request_chunks(&at(-1))), vec![90, 60, 30, 0]);
    assert_eq!(starts(&server.request_chunks(&at(0))), vec![90, 60, 30]);
    assert_eq!(starts(&server.request_chunks(&at(29))), vec![90, 60, 30]);
    assert_eq!(starts(&server.request_chunks(&at(30))), vec![90, 60]);
    assert_eq!(starts(&server.request_chunks(&at(89))), vec![90]);
    assert_eq!(starts(&server.request_chunks(&at(90))), Vec::<i64>::new());
    assert_eq!(starts(&server.request_chunks(&at(130))), Vec::<i64>::new());
    // never the current chunk, and each chunk starts after the instant asked for
    for offset in [-1000, -1, 0, 15, 30, 75, 90, 119, 120, 500] {
        let params = at(offset);
        for chunk in server.request_chunks(&params) {
            assert!(params.from.is_before(chunk.covers().from_including()));
            assert!(!server.current_chunk().covers().from_including().is_before(chunk.covers().to_excluding()));
        }
    }
    assert!(DiagnosisServerState::new_at(&config(144, 14), Timestamp::from_unix(T0, 0))
        .request_chunks(&at(-1000))
        .is_empty());
}

#[test]
fn chunks_come_once_and_without_gaps() {
    let mut server = server();
    let chunk_period = 30;
    let first = server.request_chunks(&DownloadParams {
        from: Timestamp::from_unix(T0 - 5 * chunk_period, 0),
    });
    assert!(first.is_empty());
    seal(&mut server);
    seal(&mut server);
    let first = server.request_chunks(&DownloadParams {
        from: Timestamp::from_unix(T0 - 5 * chunk_period, 0),
    });
    assert_eq!(starts(&first), vec![30, 0]);
    seal(&mut server);
    seal(&mut server);
    // asked from the end of the newest chunk: only chunks that are strictly newer
    let newer = server.request_chunks(&DownloadParams { from: *first[0].covers().to_excluding() });
    for chunk in newer.iter() {
        assert!(first[0].covers().to_excluding().is_before(chunk.covers().from_including()));
    }
    // asked from the start of the newest chunk, as a participant does: every chunk that
    // was done since, once, and the union has no gap and no overlap
    let second = server.request_chunks(&DownloadParams { from: *first[0].covers().from_including() });
    assert_eq!(starts(&second), vec![90, 60]);
    let mut all: Vec<&Chunk> = second.iter().chain(first.iter()).collect();
    all.reverse();
    for pair in all.windows(2) {
        assert_eq!(pair[0].covers().to_excluding(), pair[1].covers().from_including());
    }
}

#[test]
fn done_chunks_leave_after_the_retention_period() {
    // ten minutes of retention, chunks of thirty seconds
    let mut server = DiagnosisServerState::new_at(&config(1, 1), Timestamp::from_unix(T0, 0));
    for round in 1..=40usize {
        seal(&mut server);
        assert_eq!(server.done_chunks().len(), round.min(20));
    }
    let oldest = server.done_chunks().get(19);
    let now = *server.current_chunk().covers().from_including();
    assert_eq!(now.since(oldest.covers().to_excluding()), Duration::seconds(570));
    let mut chunks = Chunks::new(Duration::seconds(60));
    let covers = TimeInterval::with_duration(Timestamp::from_unix(0, 0), Duration::seconds(30));
    chunks.add_done_chunk_at(Chunk::new(covers), Timestamp::from_unix(89, 0));
    assert_eq!(chunks.len(), 1);
    chunks.add_done_chunk_at(Chunk::new(covers.next_interval()), Timestamp::from_unix(90, 0));
    assert_eq!(chunks.len(), 1);
    assert_eq!(seconds(chunks.get(0).covers().from_including()), 30);
    assert!(chunks.get_chunks(&Timestamp::from_unix(45, 0)).is_empty());
    assert_eq!(chunks.get_chunks(&Timestamp::from_unix(0, 0)).len(), 1);
}
