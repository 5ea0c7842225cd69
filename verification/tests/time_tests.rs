use chrono::{DateTime, TimeZone, Utc};
use exposurelib::primitives::{InfectionPeriod, TekRollingPeriod};
use exposurelib::time::{
    floor_div, floor_div_mod, floor_mod, Duration, ExposureTime, ExposureTimeSet, TimeInterval,
    Timestamp,
};

fn instant(utc: DateTime<Utc>) -> Timestamp {
    Timestamp::from_unix(utc.timestamp(), utc.timestamp_subsec_nanos())
}

fn span(duration: chrono::Duration) -> Duration {
    Duration::nanoseconds(duration.num_nanoseconds().unwrap() as i128)
}

fn ymd_hms(year: i32, month: u32, day: u32, hour: u32, min: u32, sec: u32) -> Timestamp {
    instant(Utc.with_ymd_and_hms(year, month, day, hour, min, sec).unwrap())
}

#[test]
fn test_tek_rolling_period() {
    let tekrp = TekRollingPeriod::default();
    assert_eq!(span(chrono::Duration::hours(24)), Duration::from(tekrp));
    assert_eq!(Duration::hours(24), Duration::from(tekrp));
}

#[test]
fn test_infection_period() {
    let tekrp = TekRollingPeriod::default();
    let infection_period = InfectionPeriod::default();
    assert_eq!(span(chrono::Duration::days(14)), infection_period.as_duration(tekrp));
    assert_eq!(Duration::days(14), infection_period.as_duration(tekrp));
}

#[test]
fn test_exposure_time_creation() {
    let exposure_time: ExposureTime = instant(Utc.timestamp_opt(0, 0).unwrap()).into();
    assert_eq!(u32::from(exposure_time), 0);
    let exposure_time: ExposureTime = instant(Utc.timestamp_opt(10 * 60, 0).unwrap()).into();
    assert_eq!(u32::from(exposure_time), 1);
    let exposure_time: ExposureTime = instant(Utc.timestamp_opt(9 * 60, 999).unwrap()).into();
    assert_eq!(u32::from(exposure_time), 0);
    let exposure_time: ExposureTime = ymd_hms(1970, 1, 1, 0, 0, 0).into();
    assert_eq!(u32::from(exposure_time), 0);
    let exposure_time: ExposureTime = ymd_hms(1970, 1, 2, 0, 0, 0).into();
    assert_eq!(u32::from(exposure_time), 24 * 60 / 10);
    let exposure_time: ExposureTime = ymd_hms(1970, 1, 2, 0, 2, 0).into();
    assert_eq!(u32::from(exposure_time), 24 * 60 / 10);
    let exposure_time: ExposureTime = ymd_hms(1970, 1, 2, 0, 9, 59).into();
    assert_eq!(u32::from(exposure_time), 24 * 60 / 10);
    let exposure_time: ExposureTime = ymd_hms(1970, 1, 2, 0, 10, 0).into();
    assert_eq!(u32::from(exposure_time), 24 * 60 / 10 + 1);
}

#[test]
fn test_floor_tekrp_multiple() {
    let tekrp = TekRollingPeriod::default();
    let exposure_time = ExposureTime::from(instant(Utc::now()));
    let tekrp_multiple = exposure_time.floor_tekrp_multiple(tekrp);
    assert_eq!(
        tekrp_multiple,
        tekrp_multiple.floor_tekrp_multiple(tekrp),
        "floor_tekrp_multiple() is *not* idempotent"
    );
}

#[test]
fn test_exposure_time_comparison() {
    let smaller = ExposureTime::from(instant(Utc::now() - chrono::Duration::minutes(11)));
    let bigger = ExposureTime::from(instant(Utc::now()));
    assert!(smaller < bigger);

    let equal_a = ExposureTime::from(ymd_hms(2021, 02, 17, 0, 45, 0));
    let equal_b = ExposureTime::from(ymd_hms(2021, 02, 17, 0, 46, 0));
    assert!(equal_a == equal_b);
}

#[test]
fn test_time_interval() {
    let chunk_period = Duration::seconds(30);

    let interval = TimeInterval::with_duration(instant(Utc::now()), chunk_period);
    assert_eq!(chunk_period, interval.duration());

    let from_including = ymd_hms(2021, 03, 20, 12, 00, 00);
    let to_excluding = ymd_hms(2021, 03, 20, 12, 30, 00);
    let interval = TimeInterval::with_bounds(from_including, to_excluding);
    assert_eq!(Duration::minutes(30), interval.duration());
    assert!(!interval.before(&from_including));
    assert!(!interval.after(&from_including));
    assert!(!interval.before(&&to_excluding));
    assert!(interval.after(&to_excluding));
    assert!(interval.contains(&from_including));
    assert!(!interval.contains(&to_excluding));
    assert!(interval.contains(&ymd_hms(2021, 03, 20, 12, 15, 00)));
    assert!(!interval.contains(&ymd_hms(2021, 03, 20, 11, 59, 59)));

    let next_interval = interval.next_interval();
    assert_eq!(Duration::minutes(30), next_interval.duration());
    assert_eq!(
        ymd_hms(2021, 03, 20, 12, 30, 00),
        *next_interval.from_including()
    );
    assert_eq!(
        ymd_hms(2021, 03, 20, 13, 00, 00),
        *next_interval.to_excluding()
    );

    let chunk_period = Duration::minutes(30);
    let interval = TimeInterval::with_alignment(chunk_period);
    assert!(interval.contains(&instant(Utc::now())));
    let mut intervals_from_midnight = 0;
    let midnight = Timestamp::now().midnight();
    let from_including = interval.from_including();
    let to_excluding = interval.to_excluding();
    loop {
        if midnight.plus(chunk_period.times(intervals_from_midnight)) == *from_including {
            break;
        }
        intervals_from_midnight += 1;
        assert!(intervals_from_midnight <= 48);
    }
    assert_eq!(from_including.plus(chunk_period), *to_excluding);
}

#[test]
fn floor_division_rounds_towards_the_past() {
    assert_eq!(floor_div(7, 2), 3);
    assert_eq!(floor_div(-7, 2), -4);
    assert_eq!(floor_div(-8, 2), -4);
    assert_eq!(floor_div(0, 5), 0);
    assert_eq!(floor_mod(-7, 2), 1);
    assert_eq!(floor_mod(7, 2), 1);
    assert_eq!(floor_mod(-1, 600), 599);
    assert_eq!(floor_div_mod(-1, 600), (-1, 599));
    assert_eq!(floor_div_mod(i128::MIN, 1), (i128::MIN, 0));
    assert_eq!(floor_div_mod(i128::MIN, i128::MAX), (-2, i128::MAX - 1));
}

#[test]
fn timestamp_arithmetic_is_exact() {
    let t = Timestamp::from_unix(1, 500_000_000);
    assert_eq!(t.nanos(), 1_500_000_000);
    assert_eq!(t.unix_seconds(), 1);
    let before_epoch = Timestamp::from_unix(-1, 500_000_000);
    assert_eq!(before_epoch.nanos(), -500_000_000);
    assert_eq!(before_epoch.unix_seconds(), -1);
    assert_eq!(t.since(&before_epoch), Duration::seconds(2));
    assert_eq!(before_epoch.plus(Duration::seconds(2)), t);
    assert_eq!(t.minus(Duration::seconds(2)), before_epoch);
    assert!(before_epoch.is_before(&t));
    assert!(!t.is_before(&t));
    assert_eq!(Timestamp::from_nanos(86_400_000_000_000 + 5).midnight().nanos(), 86_400_000_000_000);
    assert_eq!(Timestamp::from_nanos(-5).midnight().nanos(), -86_400_000_000_000);
}

#[test]
fn durations_are_exact() {
    assert_eq!(Duration::zero().num_nanoseconds(), 0);
    assert_eq!(Duration::seconds(30).num_nanoseconds(), 30_000_000_000);
    assert_eq!(Duration::minutes(10).num_nanoseconds(), 600_000_000_000);
    assert_eq!(Duration::hours(1).num_nanoseconds(), 3_600_000_000_000);
    assert_eq!(Duration::days(1).num_nanoseconds(), 86_400_000_000_000);
    assert_eq!(Duration::seconds(-30).or_zero(), Duration::zero());
    assert_eq!(Duration::seconds(30).or_zero(), Duration::seconds(30));
    assert_eq!(Duration::seconds(30).times(3), Duration::seconds(90));
    assert!(Duration::seconds(1).is_positive());
    assert!(!Duration::zero().is_positive());
    assert!(!Duration::seconds(-1).is_positive());
}

#[test]
fn interval_number_counts_ten_minutes() {
    assert_eq!(ExposureTime::en_interval_number(Timestamp::from_unix(599, 999_999_999)), 0);
    assert_eq!(ExposureTime::en_interval_number(Timestamp::from_unix(600, 0)), 1);
    assert_eq!(ExposureTime::en_interval_number(Timestamp::from_unix(1_585_785_600, 0)), 2_642_976);
    // before the epoch the count goes on downwards and wraps to 32 bits
    assert_eq!(ExposureTime::en_interval_number(Timestamp::from_unix(-1, 0)), u32::MAX);
    assert_eq!(ExposureTime::en_interval_number(Timestamp::from_unix(-600, 0)), u32::MAX);
    assert_eq!(ExposureTime::en_interval_number(Timestamp::from_unix(-601, 0)), u32::MAX - 1);
    // far in the future it wraps as well
    assert_eq!(
        ExposureTime::en_interval_number(Timestamp::from_unix(600 * 4_294_967_296 + 600, 0)),
        1
    );
}

#[test]
fn floor_tekrp_multiple_gives_the_start_of_the_period() {
    let tekrp = TekRollingPeriod::default();
    assert_eq!(tekrp.intervals(), 144);
    assert_eq!(ExposureTime::from(1000).floor_tekrp_multiple(tekrp).number(), 864);
    assert_eq!(ExposureTime::from(864).floor_tekrp_multiple(tekrp).number(), 864);
    assert_eq!(ExposureTime::from(863).floor_tekrp_multiple(tekrp).number(), 720);
    assert_eq!(ExposureTime::from(0).floor_tekrp_multiple(tekrp).number(), 0);
    assert_eq!(
        ExposureTime::from(u32::MAX).floor_tekrp_multiple(tekrp).number(),
        u32::MAX / 144 * 144
    );
    let seven = TekRollingPeriod::new(7).unwrap();
    for j in 0..100u32 {
        let floor = ExposureTime::from(j).floor_tekrp_multiple(seven);
        assert_eq!(floor.floor_tekrp_multiple(seven), floor);
        assert_eq!(floor.number(), j / 7 * 7);
    }
}

#[test]
fn exposure_time_bytes_are_little_endian() {
    assert_eq!(ExposureTime::from(0x0403_0201).to_le_bytes(), [1, 2, 3, 4]);
    assert_eq!(ExposureTime::from(2_642_976).to_le_bytes(), 2_642_976u32.to_le_bytes());
    assert_eq!(ExposureTime::from(u32::MAX).to_le_bytes(), [255, 255, 255, 255]);
}

#[test]
fn periods_reject_zero() {
    assert!(TekRollingPeriod::new(0).is_none());
    assert!(InfectionPeriod::new(0).is_none());
    assert_eq!(TekRollingPeriod::new(1).unwrap().intervals(), 1);
    assert_eq!(InfectionPeriod::new(3).unwrap().periods(), 3);
    assert_eq!(u32::from(TekRollingPeriod::default()), 144);
    assert_eq!(i32::from(InfectionPeriod::default()), 14);
    assert_eq!(usize::from(InfectionPeriod::default()), 14);
}

#[test]
fn exposure_times_add_and_subtract() {
    let tekrp = TekRollingPeriod::default();
    assert_eq!(ExposureTime::from(5) + ExposureTime::from(7), ExposureTime::from(12));
    assert_eq!(ExposureTime::from(12) - ExposureTime::from(7), ExposureTime::from(5));
    assert_eq!(ExposureTime::from(864) + tekrp, ExposureTime::from(1008));
    assert_eq!(ExposureTime::from(1008) - tekrp, ExposureTime::from(864));
    assert_eq!(ExposureTime::from(u32::MAX - 144) + tekrp, ExposureTime::from(u32::MAX));
    assert_eq!(ExposureTime::from(144) - tekrp, ExposureTime::from(0));
}

#[test]
fn next_interval_starts_where_the_interval_ends() {
    let interval = TimeInterval::with_duration(Timestamp::from_unix(90, 0), Duration::seconds(30));
    let next = interval.next_interval();
    assert_eq!(next.from_including(), interval.to_excluding());
    assert_eq!(next.duration(), interval.duration());
    assert_eq!(next.to_excluding().nanos(), 150_000_000_000);
}

#[test]
fn aligned_interval_is_anchored_at_midnight() {
    let day: i128 = 86_400_000_000_000;
    let now = Timestamp::from_nanos(3 * day + 100_000_000_000);
    let interval = TimeInterval::aligned_at(now, Duration::seconds(30));
    assert_eq!(interval.from_including().nanos(), 3 * day + 90_000_000_000);
    assert_eq!(interval.to_excluding().nanos(), 3 * day + 120_000_000_000);
    assert!(interval.contains(&now));
    // a duration that does not divide the day is anchored at midnight all the same
    let interval = TimeInterval::aligned_at(now, Duration::seconds(7));
    assert_eq!(interval.from_including().nanos(), 3 * day + 98_000_000_000);
    // a duration longer than what passed since midnight starts at midnight
    let interval = TimeInterval::aligned_at(now, Duration::days(2));
    assert_eq!(interval.from_including().nanos(), 3 * day);
    // on the boundary the interval that starts there is taken
    let interval = TimeInterval::aligned_at(Timestamp::from_nanos(3 * day), Duration::seconds(30));
    assert_eq!(interval.from_including().nanos(), 3 * day);
}

#[test]
fn exposure_time_set_behaves_like_a_sorted_set() {
    let mut set = ExposureTimeSet::new();
    assert!(set.is_empty());
    assert!(set.insert(ExposureTime::from(5)));
    assert!(set.insert(ExposureTime::from(1)));
    assert!(set.insert(ExposureTime::from(9)));
    assert!(!set.insert(ExposureTime::from(5)));
    assert_eq!(set.to_vec(), vec![1, 5, 9]);
    assert_eq!(set.len(), 3);
    assert_eq!(set.get(1), ExposureTime::from(5));
    assert!(set.contains(&ExposureTime::from(9)));
    assert!(!set.contains(&ExposureTime::from(2)));
    let mut other = ExposureTimeSet::new();
    other.insert(ExposureTime::from(9));
    other.insert(ExposureTime::from(2));
    other.insert(ExposureTime::from(1));
    assert_eq!(set.intersection(&other).to_vec(), vec![1, 9]);
    assert_eq!(set.union(&other).to_vec(), vec![1, 2, 5, 9]);
    assert_eq!(set.intersection(&ExposureTimeSet::new()).to_vec(), Vec::<u32>::new());
    assert_eq!(set.clone().to_vec(), vec![1, 5, 9]);
}
