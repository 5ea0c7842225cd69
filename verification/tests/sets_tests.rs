use exposurelib::primitives::{TekRollingPeriod, TemporaryExposureKey, Validity};
use exposurelib::tek_set::TekSet;
use exposurelib::time::ExposureTime;

fn key(tag: u8, at: u32) -> Validity<TemporaryExposureKey> {
    Validity::new(
        ExposureTime::from(at),
        TekRollingPeriod::default(),
        TemporaryExposureKey::from_bytes([tag; 16]),
    )
}

fn keys_of(set: &TekSet) -> Vec<Validity<TemporaryExposureKey>> {
    (0..set.len()).map(|i| set.get(i)).collect()
}

#[test]
fn tek_set_keeps_each_key_once() {
    let mut set = TekSet::new();
    assert!(set.is_empty());
    assert!(set.insert(key(1, 0)));
    assert!(set.insert(key(2, 0)));
    assert!(!set.insert(key(1, 0)));
    // the same bytes with another validity are another key
    assert!(set.insert(key(1, 144)));
    // the same rolling period is the same validity
    assert!(!set.insert(key(1, 200)));
    assert_eq!(set.len(), 3);
    assert_eq!(keys_of(&set), vec![key(1, 0), key(2, 0), key(1, 144)]);
    assert!(set.contains(&key(2, 100)));
    assert!(!set.contains(&key(2, 144)));
    assert!(!set.contains(&key(3, 0)));
}

#[test]
fn tek_set_extend_and_difference() {
    let mut a = TekSet::new();
    a.insert(key(1, 0));
    a.insert(key(2, 0));
    a.insert(key(3, 0));
    let mut b = TekSet::new();
    b.insert(key(2, 0));
    b.insert(key(4, 0));
    assert_eq!(keys_of(&a.difference(&b)), vec![key(1, 0), key(3, 0)]);
    assert_eq!(keys_of(&b.difference(&a)), vec![key(4, 0)]);
    assert_eq!(keys_of(&a.difference(&TekSet::new())), keys_of(&a));
    assert!(a.difference(&a).is_empty());
    let mut c = a.clone();
    c.extend(&b);
    assert_eq!(keys_of(&c), vec![key(1, 0), key(2, 0), key(3, 0), key(4, 0)]);
    assert_eq!(keys_of(&a), vec![key(1, 0), key(2, 0), key(3, 0)]);
}
