use exposurelib::client_state::{BluetoothLayer, ClientState, Keys, Matches, TracedContact};
use exposurelib::config::{Endpoint, Intensity};
use exposurelib::error::ProtocolViolation;
use exposurelib::primitives::{
    ExposureKeyring, Metadata, Seed, TekKeyring, TekRollingPeriod, TemporaryExposureKey, Validity,
};
use exposurelib::time::{ExposureTime, ExposureTimeSet, Timestamp};

const N: u32 = 2_642_976;

fn at(interval: u32) -> Timestamp {
    Timestamp::from_unix(interval as i64 * 600, 0)
}

fn endpoint(port: u16) -> Endpoint {
    Endpoint::V4 { address: 0x7f00_0001, port }
}

fn keyring(tag: u8) -> TekKeyring {
    TekKeyring::try_from(TemporaryExposureKey::from_bytes([tag; 16])).unwrap()
}

fn beacon(of: &TekKeyring, interval: u32, intensity: Intensity, port: u16) -> TracedContact {
    let (rpi, aem) = of.rpi_and_aem(ExposureTime::from(interval), Metadata::new(intensity, endpoint(port)));
    TracedContact::new(at(interval), rpi, aem)
}

fn candidate(of: &TekKeyring, interval: u32) -> Validity<TekKeyring> {
    Validity::new(ExposureTime::from(interval), TekRollingPeriod::default(), *of)
}

#[test]
fn traced_contact_knows_its_interval() {
    let contact = beacon(&keyring(1), N + 3, Intensity::HighRisk, 1);
    assert_eq!(contact.exposure_time(), ExposureTime::from(N + 3));
    assert_eq!(contact.timestamp(), at(N + 3));
    assert_eq!(contact.rpi(), keyring(1).rpi(ExposureTime::from(N + 3)));
    let late = TracedContact::new(
        Timestamp::from_unix((N as i64 + 3) * 600 + 599, 999_999_999),
        contact.rpi(),
        contact.aem(),
    );
    assert_eq!(late.exposure_time(), ExposureTime::from(N + 3));
}

#[test]
fn an_empty_history_matches_nothing() {
    let layer = BluetoothLayer::new();
    assert!(matches!(layer.matches(&candidate(&keyring(1), N)), Ok(None)));
}

#[test]
fn matches_sorts_encounters_by_risk() {
    let tekrp = TekRollingPeriod::default();
    let met = keyring(1);
    let stranger = keyring(2);
    let mut layer = BluetoothLayer::new();
    layer.add(beacon(&met, N + 5, Intensity::HighRisk, 1), tekrp);
    layer.add(beacon(&met, N + 2, Intensity::LowRisk, 1), tekrp);
    layer.add(beacon(&stranger, N + 2, Intensity::HighRisk, 2), tekrp);
    layer.add(beacon(&met, N + 2, Intensity::HighRisk, 1), tekrp);
    layer.add(beacon(&met, N + 9, Intensity::LowRisk, 1), tekrp);
    // the same key in another rolling period is filed elsewhere
    layer.add(beacon(&met, N + 144, Intensity::HighRisk, 1), tekrp);
    let found: Matches = layer.matches(&candidate(&met, N)).unwrap().unwrap();
    assert_eq!(found.connection_identifier(), endpoint(1));
    assert_eq!(found.high_risk().to_vec(), vec![N + 2, N + 5]);
    assert_eq!(found.low_risk().to_vec(), vec![N + 2, N + 9]);
    assert_eq!(found.any_risk().to_vec(), vec![N + 2, N + 5, N + 9]);
    assert_eq!(
        *found.tek(),
        Validity::new(ExposureTime::from(N), tekrp, TemporaryExposureKey::from_bytes([1; 16]))
    );
    let other: Matches = layer.matches(&candidate(&stranger, N + 7)).unwrap().unwrap();
    assert_eq!(other.connection_identifier(), endpoint(2));
    assert_eq!(other.high_risk().to_vec(), vec![N + 2]);
    assert!(other.low_risk().is_empty());
    let next_period: Matches = layer.matches(&candidate(&met, N + 144)).unwrap().unwrap();
    assert_eq!(next_period.high_risk().to_vec(), vec![N + 144]);
    assert!(matches!(layer.matches(&candidate(&keyring(3), N)), Ok(None)));
    assert!(matches!(layer.matches(&candidate(&met, N - 144)), Ok(None)));
}

#[test]
fn a_beacon_of_another_interval_does_not_match() {
    let tekrp = TekRollingPeriod::default();
    let met = keyring(1);
    let (rpi, aem) = met.rpi_and_aem(ExposureTime::from(N + 1), Metadata::new(Intensity::HighRisk, endpoint(1)));
    let mut layer = BluetoothLayer::new();
    // replayed one interval later: the identifier is not the one of that interval
    layer.add(TracedContact::new(at(N + 2), rpi, aem), tekrp);
    assert!(matches!(layer.matches(&candidate(&met, N)), Ok(None)));
}

#[test]
fn different_endpoints_for_one_key_are_a_violation() {
    let tekrp = TekRollingPeriod::default();
    let met = keyring(1);
    let mut layer = BluetoothLayer::new();
    layer.add(beacon(&met, N + 1, Intensity::HighRisk, 1), tekrp);
    layer.add(beacon(&met, N + 4, Intensity::LowRisk, 2), tekrp);
    assert_eq!(
        layer.matches(&candidate(&met, N)).err(),
        Some(ProtocolViolation::InconsistentEndpoint)
    );
    let mut same_interval = BluetoothLayer::new();
    same_interval.add(beacon(&met, N + 1, Intensity::HighRisk, 1), tekrp);
    same_interval.add(beacon(&met, N + 1, Intensity::HighRisk, 2), tekrp);
    assert_eq!(
        same_interval.matches(&candidate(&met, N)).err(),
        Some(ProtocolViolation::InconsistentEndpoint)
    );
}

#[test]
fn matches_can_be_built_and_read() {
    let mut high = ExposureTimeSet::new();
    high.insert(ExposureTime::from(3));
    let mut low = ExposureTimeSet::new();
    low.insert(ExposureTime::from(4));
    let tek = Validity::new(
        ExposureTime::from(0),
        TekRollingPeriod::default(),
        TemporaryExposureKey::from_bytes([5; 16]),
    );
    let found = Matches::new(endpoint(9), tek, high, low);
    assert_eq!(found.connection_identifier(), endpoint(9));
    assert_eq!(*found.tek(), tek);
    assert_eq!(found.high_risk().to_vec(), vec![3]);
    assert_eq!(found.low_risk().to_vec(), vec![4]);
    assert_eq!(found.any_risk().to_vec(), vec![3, 4]);
    let copy = found.clone();
    assert_eq!(copy.high_risk().to_vec(), vec![3]);
}

fn exposure_keyring(tag: u8) -> ExposureKeyring {
    ExposureKeyring::from_tek_and_sd(
        TemporaryExposureKey::from_bytes([tag; 16]),
        Seed::from_bytes([tag; 10]),
    )
    .unwrap()
}

#[test]
fn keys_cover_consecutive_rolling_periods_newest_first() {
    let tekrp = TekRollingPeriod::default();
    let from = Timestamp::from_unix((N as i64 + 10) * 600 + 17, 0);
    let keys = Keys::from_keyrings(
        from,
        tekrp,
        vec![exposure_keyring(1), exposure_keyring(2), exposure_keyring(3)],
    );
    let starts: Vec<u32> = keys.all().iter().map(|v| v.valid_from().number()).collect();
    assert_eq!(starts, vec![N, N - 144, N - 288]);
    for validity in keys.all().iter() {
        assert_eq!(validity.valid_from().floor_tekrp_multiple(tekrp), validity.valid_from());
    }
    let found = keys.exposure_keyring(ExposureTime::from(N - 1), tekrp).unwrap();
    assert_eq!(*found.tek_keyring().tek(), TemporaryExposureKey::from_bytes([2; 16]));
    assert!(keys.exposure_keyring(ExposureTime::from(N + 144), tekrp).is_none());
    assert!(keys.exposure_keyring(ExposureTime::from(N - 289), tekrp).is_none());
    let teks = keys.all_teks();
    assert_eq!(teks.len(), 3);
    assert_eq!(
        teks.get(0),
        Validity::new(ExposureTime::from(N), tekrp, TemporaryExposureKey::from_bytes([1; 16]))
    );
    assert!(keys.is_own_tek(&Validity::new(
        ExposureTime::from(N - 100),
        tekrp,
        TemporaryExposureKey::from_bytes([2; 16])
    )));
    assert!(!keys.is_own_tek(&Validity::new(
        ExposureTime::from(N),
        tekrp,
        TemporaryExposureKey::from_bytes([2; 16])
    )));
}

#[test]
fn keys_are_generated_for_the_whole_infection_period() {
    let rng = ring::rand::SystemRandom::new();
    let tekrp = TekRollingPeriod::default();
    let infection_period = exposurelib::primitives::InfectionPeriod::default();
    let keys = Keys::new(at(N + 10), tekrp, infection_period, &rng).unwrap();
    assert_eq!(keys.all().len(), 14);
    for (i, validity) in keys.all().iter().enumerate() {
        assert_eq!(validity.valid_from().number(), N - 144 * i as u32);
    }
    assert_eq!(keys.all_teks().len(), 14);
    let state = ClientState::new(keys, BluetoothLayer::new());
    assert_eq!(state.keys().all().len(), 14);
    assert!(matches!(state.bluetooth_layer().matches(&candidate(&keyring(1), N)), Ok(None)));
}
