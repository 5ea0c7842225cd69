use crate::primitives::TekRollingPeriod;
use vstd::prelude::*;
use vstd::std_specs::convert::FromSpecImpl;
use vstd::std_specs::ops::AddSpecImpl;
use vstd::std_specs::ops::SubSpecImpl;

verus! {

/// Nanoseconds in one second.
pub const NANOS_PER_SECOND: i128 = 1_000_000_000;

/// Nanoseconds in one exposure-notification interval of ten minutes.
pub const NANOS_PER_INTERVAL: i128 = 600_000_000_000;

/// Nanoseconds in one day.
pub const NANOS_PER_DAY: i128 = 86_400_000_000_000;

/// Number of distinct exposure-notification interval numbers.
pub const INTERVAL_NUMBERS: i128 = 0x1_0000_0000;

/// The largest multiple of `unit` that does not exceed `value`, for a positive `unit`.
pub open spec fn floor_to_multiple(value: int, unit: int) -> int {
    (value / unit) * unit
}

/// Floor division of a signed value by a positive divisor, with the remainder, which is
/// never negative.
pub fn floor_div_mod(value: i128, divisor: i128) -> (r: (i128, i128))
    requires
        divisor > 0,
    ensures
        r.0 == value as int / divisor as int,
        r.1 == value as int % divisor as int,
        0 <= r.1 < divisor,
{
    if value >= 0 {
        proof {
            vstd::arithmetic::div_mod::lemma_mod_bound(value as int, divisor as int);
        }
        (value / divisor, value % divisor)
    } else {
        let magnitude: i128 = -(value + 1);
        let q: i128 = magnitude / divisor;
        let m: i128 = magnitude % divisor;
        proof {
            let v = value as int;
            let d = divisor as int;
            let mag = magnitude as int;
            vstd::arithmetic::div_mod::lemma_fundamental_div_mod(mag, d);
            vstd::arithmetic::div_mod::lemma_mod_bound(mag, d);
            assert(v == (-(q as int) - 1) * d + (d - 1 - m as int)) by (nonlinear_arith)
                requires
                    mag == d * (q as int) + m as int,
                    v == -mag - 1,
            ;
            vstd::arithmetic::div_mod::lemma_fundamental_div_mod_converse(
                v,
                d,
                -(q as int) - 1,
                d - 1 - m as int,
            );
        }
        (-q - 1, divisor - 1 - m)
    }
}

/// Floor division of a signed value by a positive divisor.
pub fn floor_div(value: i128, divisor: i128) -> (quotient: i128)
    requires
        divisor > 0,
    ensures
        quotient == value as int / divisor as int,
{
    floor_div_mod(value, divisor).0
}

/// The remainder of a signed value for a positive divisor, which is never negative.
pub fn floor_mod(value: i128, divisor: i128) -> (remainder: i128)
    requires
        divisor > 0,
    ensures
        remainder == value as int % divisor as int,
        0 <= remainder < divisor,
{
    floor_div_mod(value, divisor).1
}

/// A point in time: nanoseconds since the UNIX epoch, in UTC, without leap seconds.
#[derive(Copy, Clone, Debug, PartialEq, Eq, Structural, PartialOrd, Ord, Hash)]
pub struct Timestamp {
    pub(crate) nanos: i128,
}

impl View for Timestamp {
    type V = int;

    open(crate) spec fn view(&self) -> int {
        self.nanos as int
    }
}

/// Reads the system clock with `chrono::Utc::now` and hands back what
/// `DateTime::timestamp` and `DateTime::timestamp_subsec_nanos` report of it: whole
/// seconds since the epoch and the nanoseconds into that second. Nothing is claimed
/// about the values, which differ from call to call.
#[verifier::external_body]
fn utc_now_parts() -> (parts: (i64, u32)) {
    let now = chrono::Utc::now();
    (now.timestamp(), now.timestamp_subsec_nanos())
}

impl Timestamp {
    /// The instant `nanos` nanoseconds after the epoch.
    pub fn from_nanos(nanos: i128) -> (r: Self)
        ensures
            r@ == nanos,
    {
        Timestamp { nanos }
    }

    /// The instant `seconds` whole seconds plus `subsec_nanos` nanoseconds after the epoch.
    pub fn from_unix(seconds: i64, subsec_nanos: u32) -> (r: Self)
        ensures
            r@ == seconds * NANOS_PER_SECOND + subsec_nanos,
    {
        let whole: i128 = seconds as i128;
        let part: i128 = subsec_nanos as i128;
        Timestamp { nanos: whole * NANOS_PER_SECOND + part }
    }

    /// The current time of the system clock.
    pub fn now() -> (r: Self)
        ensures
            Self::in_clock_range(r@),
    {
        let (seconds, subsec_nanos) = utc_now_parts();
        Self::from_unix(seconds, subsec_nanos)
    }

    /// The range of instants that a clock reading can take.
    pub open spec fn in_clock_range(nanos: int) -> bool {
        i64::MIN * NANOS_PER_SECOND <= nanos <= i64::MAX * NANOS_PER_SECOND + u32::MAX
    }

    /// Nanoseconds since the epoch.
    pub fn nanos(&self) -> (n: i128)
        ensures
            n == self@,
    {
        self.nanos
    }

    /// Whole seconds since the epoch, rounded towards the past.
    pub fn unix_seconds(&self) -> (seconds: i128)
        ensures
            seconds == self@ / (NANOS_PER_SECOND as int),
    {
        floor_div(self.nanos, NANOS_PER_SECOND)
    }

    /// Midnight of the day that holds this instant.
    pub fn midnight(&self) -> (r: Self)
        requires
            self@ - NANOS_PER_DAY >= i128::MIN,
        ensures
            r@ == floor_to_multiple(self@, NANOS_PER_DAY as int),
            r@ <= self@ < r@ + NANOS_PER_DAY,
    {
        let days: i128 = floor_div(self.nanos, NANOS_PER_DAY);
        proof {
            vstd::arithmetic::div_mod::lemma_fundamental_div_mod(
                self.nanos as int,
                NANOS_PER_DAY as int,
            );
        }
        Timestamp { nanos: days * NANOS_PER_DAY }
    }

    /// This instant moved by `duration`.
    pub fn plus(&self, duration: Duration) -> (r: Self)
        requires
            i128::MIN <= self@ + duration@ <= i128::MAX,
        ensures
            r@ == self@ + duration@,
    {
        Timestamp { nanos: self.nanos + duration.nanos }
    }

    /// This instant moved back by `duration`.
    pub fn minus(&self, duration: Duration) -> (r: Self)
        requires
            i128::MIN <= self@ - duration@ <= i128::MAX,
        ensures
            r@ == self@ - duration@,
    {
        Timestamp { nanos: self.nanos - duration.nanos }
    }

    /// The time that passed from `earlier` to this instant.
    pub fn since(&self, earlier: &Timestamp) -> (r: Duration)
        requires
            i128::MIN <= self@ - earlier@ <= i128::MAX,
        ensures
            r@ == self@ - earlier@,
    {
        Duration { nanos: self.nanos - earlier.nanos }
    }

    /// Whether this instant lies strictly before `other`.
    pub fn is_before(&self, other: &Timestamp) -> (r: bool)
        ensures
            r == (self@ < other@),
    {
        self.nanos < other.nanos
    }
}

/// A signed span of time in nanoseconds.
#[derive(Copy, Clone, Debug, PartialEq, Eq, Structural, PartialOrd, Ord, Hash)]
pub struct Duration {
    pub(crate) nanos: i128,
}

impl View for Duration {
    type V = int;

    open(crate) spec fn view(&self) -> int {
        self.nanos as int
    }
}

impl Duration {
    /// A span of no time.
    pub fn zero() -> (r: Self)
        ensures
            r@ == 0,
    {
        Duration { nanos: 0 }
    }

    /// A span of `nanos` nanoseconds.
    pub fn nanoseconds(nanos: i128) -> (r: Self)
        ensures
            r@ == nanos,
    {
        Duration { nanos }
    }

    /// A span of `seconds` seconds.
    pub fn seconds(seconds: i64) -> (r: Self)
        ensures
            r@ == seconds * NANOS_PER_SECOND,
    {
        let count: i128 = seconds as i128;
        Duration { nanos: count * NANOS_PER_SECOND }
    }

    /// A span of `minutes` minutes.
    pub fn minutes(minutes: i64) -> (r: Self)
        ensures
            r@ == minutes * 60 * NANOS_PER_SECOND,
    {
        let count: i128 = minutes as i128;
        Duration { nanos: count * 60 * NANOS_PER_SECOND }
    }

    /// A span of `hours` hours.
    pub fn hours(hours: i64) -> (r: Self)
        ensures
            r@ == hours * 3600 * NANOS_PER_SECOND,
    {
        let count: i128 = hours as i128;
        Duration { nanos: count * 3600 * NANOS_PER_SECOND }
    }

    /// A span of `days` days.
    pub fn days(days: i64) -> (r: Self)
        ensures
            r@ == days * NANOS_PER_DAY,
    {
        let count: i128 = days as i128;
        Duration { nanos: count * NANOS_PER_DAY }
    }

    /// The span in nanoseconds.
    pub fn num_nanoseconds(&self) -> (n: i128)
        ensures
            n == self@,
    {
        self.nanos
    }

    /// Whether the span is longer than no time.
    pub fn is_positive(&self) -> (r: bool)
        ensures
            r == (self@ > 0),
    {
        self.nanos > 0
    }

    /// The span repeated `count` times.
    pub fn times(&self, count: i32) -> (r: Self)
        requires
            i128::MIN <= self@ * count <= i128::MAX,
        ensures
            r@ == self@ * count,
    {
        let factor: i128 = count as i128;
        Duration { nanos: self.nanos * factor }
    }

    /// The span itself where it is positive, and no time otherwise.
    pub fn or_zero(&self) -> (r: Self)
        ensures
            r@ == if self@ > 0 { self@ } else { 0 },
    {
        if self.nanos > 0 {
            *self
        } else {
            Duration { nanos: 0 }
        }
    }
}

/// An exposure time: the number of a ten-minute interval, counted from the UNIX epoch.
#[derive(Copy, Clone, Debug, PartialEq, Eq, Structural, PartialOrd, Ord, Hash)]
pub struct ExposureTime {
    pub(crate) en_interval_number: u32,
}

impl View for ExposureTime {
    type V = int;

    open(crate) spec fn view(&self) -> int {
        self.en_interval_number as int
    }
}

impl ExposureTime {
    /// The interval number that an instant `nanos` nanoseconds after the epoch falls
    /// into: the count of whole ten-minute intervals up to it, reduced to 32 bits.
    pub open spec fn interval_number_at(nanos: int) -> int {
        (nanos / (NANOS_PER_INTERVAL as int)) % (INTERVAL_NUMBERS as int)
    }

    /// The start of the rolling period of `tekrp` intervals that holds interval `number`.
    pub open spec fn floor_of(number: int, tekrp: int) -> int {
        floor_to_multiple(number, tekrp)
    }

    /// The first exposure time of the rolling period that holds this one.
    pub fn floor_tekrp_multiple(&self, tekrp: TekRollingPeriod) -> (r: Self)
        ensures
            r@ == Self::floor_of(self@, tekrp@),
            r@ <= self@ < r@ + tekrp@,
    {
        let period: u32 = tekrp.intervals() as u32;
        proof {
            vstd::arithmetic::div_mod::lemma_fundamental_div_mod(
                self.en_interval_number as int,
                period as int,
            );
            vstd::arithmetic::div_mod::lemma_mod_bound(self.en_interval_number as int, period as int);
            vstd::arithmetic::mul::lemma_mul_is_commutative(
                period as int,
                self.en_interval_number as int / period as int,
            );
        }
        ExposureTime { en_interval_number: self.en_interval_number / period * period }
    }

    /// The interval number of the instant `utc`.
    pub fn en_interval_number(utc: Timestamp) -> (n: u32)
        ensures
            n == Self::interval_number_at(utc@),
    {
        let count: i128 = floor_div(utc.nanos, NANOS_PER_INTERVAL);
        let reduced: i128 = floor_mod(count, INTERVAL_NUMBERS);
        reduced as u32
    }

    /// The interval number of this exposure time.
    pub fn number(&self) -> (n: u32)
        ensures
            n == self@,
    {
        self.en_interval_number
    }

    /// The interval number as four bytes, least significant first.
    pub fn to_le_bytes(&self) -> (bytes: [u8; 4])
        ensures
            bytes@ == le_bytes_of(self@),
    {
        let n: u32 = self.en_interval_number;
        let bytes: [u8; 4] = [
            (n % 256) as u8,
            (n / 256 % 256) as u8,
            (n / 65536 % 256) as u8,
            (n / 16777216) as u8,
        ];
        assert(bytes@ =~= le_bytes_of(self@));
        bytes
    }
}

/// The four bytes of a 32-bit number, least significant first.
pub open spec fn le_bytes_of(number: int) -> Seq<u8> {
    seq![
        (number % 256) as u8,
        (number / 256 % 256) as u8,
        (number / 65536 % 256) as u8,
        (number / 16777216 % 256) as u8,
    ]
}

impl From<u32> for ExposureTime {
    fn from(en_interval_number: u32) -> (r: Self)
        ensures
            r@ == en_interval_number,
    {
        ExposureTime { en_interval_number }
    }
}

impl FromSpecImpl<u32> for ExposureTime {
    open spec fn obeys_from_spec() -> bool {
        true
    }

    open(crate) spec fn from_spec(en_interval_number: u32) -> Self {
        ExposureTime { en_interval_number }
    }
}

impl From<ExposureTime> for u32 {
    fn from(exposure_time: ExposureTime) -> (n: u32)
        ensures
            n == exposure_time@,
    {
        exposure_time.en_interval_number
    }
}

impl FromSpecImpl<ExposureTime> for u32 {
    open spec fn obeys_from_spec() -> bool {
        true
    }

    open(crate) spec fn from_spec(exposure_time: ExposureTime) -> u32 {
        exposure_time.en_interval_number
    }
}

impl From<Timestamp> for ExposureTime {
    fn from(utc: Timestamp) -> (r: Self)
        ensures
            r@ == Self::interval_number_at(utc@),
    {
        ExposureTime { en_interval_number: Self::en_interval_number(utc) }
    }
}

impl FromSpecImpl<Timestamp> for ExposureTime {
    open spec fn obeys_from_spec() -> bool {
        true
    }

    open(crate) spec fn from_spec(utc: Timestamp) -> Self {
        ExposureTime { en_interval_number: Self::interval_number_at(utc@) as u32 }
    }
}

impl core::ops::Add for ExposureTime {
    type Output = ExposureTime;

    /// The exposure time as many intervals after this one as `other` counts.
    fn add(self, other: ExposureTime) -> (r: ExposureTime)
        ensures
            r@ == self@ + other@,
    {
        ExposureTime { en_interval_number: self.en_interval_number + other.en_interval_number }
    }
}

impl AddSpecImpl for ExposureTime {
    open spec fn obeys_add_spec() -> bool {
        true
    }

    open spec fn add_req(self, other: ExposureTime) -> bool {
        self@ + other@ <= u32::MAX
    }

    open(crate) spec fn add_spec(self, other: ExposureTime) -> ExposureTime {
        ExposureTime { en_interval_number: (self@ + other@) as u32 }
    }
}

impl core::ops::Add<TekRollingPeriod> for ExposureTime {
    type Output = ExposureTime;

    /// The exposure time one rolling period after this one.
    fn add(self, other: TekRollingPeriod) -> (r: ExposureTime)
        ensures
            r@ == self@ + other@,
    {
        ExposureTime { en_interval_number: self.en_interval_number + u32::from(other) }
    }
}

impl AddSpecImpl<TekRollingPeriod> for ExposureTime {
    open spec fn obeys_add_spec() -> bool {
        true
    }

    open spec fn add_req(self, other: TekRollingPeriod) -> bool {
        self@ + other@ <= u32::MAX
    }

    open(crate) spec fn add_spec(self, other: TekRollingPeriod) -> ExposureTime {
        ExposureTime { en_interval_number: (self@ + other@) as u32 }
    }
}

impl core::ops::Sub for ExposureTime {
    type Output = ExposureTime;

    /// The exposure time as many intervals before this one as `other` counts.
    fn sub(self, other: ExposureTime) -> (r: ExposureTime)
        ensures
            r@ == self@ - other@,
    {
        ExposureTime { en_interval_number: self.en_interval_number - other.en_interval_number }
    }
}

impl SubSpecImpl for ExposureTime {
    open spec fn obeys_sub_spec() -> bool {
        true
    }

    open spec fn sub_req(self, other: ExposureTime) -> bool {
        other@ <= self@
    }

    open(crate) spec fn sub_spec(self, other: ExposureTime) -> ExposureTime {
        ExposureTime { en_interval_number: (self@ - other@) as u32 }
    }
}

impl core::ops::Sub<TekRollingPeriod> for ExposureTime {
    type Output = ExposureTime;

    /// The exposure time one rolling period before this one.
    fn sub(self, other: TekRollingPeriod) -> (r: ExposureTime)
        ensures
            r@ == self@ - other@,
    {
        ExposureTime { en_interval_number: self.en_interval_number - u32::from(other) }
    }
}

impl SubSpecImpl<TekRollingPeriod> for ExposureTime {
    open spec fn obeys_sub_spec() -> bool {
        true
    }

    open spec fn sub_req(self, other: TekRollingPeriod) -> bool {
        other@ <= self@
    }

    open(crate) spec fn sub_spec(self, other: TekRollingPeriod) -> ExposureTime {
        ExposureTime { en_interval_number: (self@ - other@) as u32 }
    }
}

/// Flooring an exposure time to its rolling period a second time changes nothing.
pub proof fn law_floor_tekrp_multiple_idempotent(number: int, tekrp: int)
    requires
        tekrp > 0,
    ensures
        ExposureTime::floor_of(ExposureTime::floor_of(number, tekrp), tekrp)
            == ExposureTime::floor_of(number, tekrp),
{
    let q = number / tekrp;
    vstd::arithmetic::div_mod::lemma_div_multiples_vanish(q, tekrp);
    vstd::arithmetic::mul::lemma_mul_is_commutative(q, tekrp);
}

/// The longest duration that an interval aligned to the clock can have: whatever the
/// clock reads, the interval's end is still a representable instant.
pub const MAX_ALIGNED_NANOS: i128 = 0x7fff_ffff_ffff_ffff_ffff_ffff_ffff_ffff
    - 9_223_372_036_854_775_807 * 1_000_000_000 - 4_294_967_295;

/// A half-open interval of time `[from, to)` that is not empty.
#[derive(Copy, Clone, Debug, PartialEq, Eq, Structural, Hash)]
pub struct TimeInterval {
    pub(crate) from_including: Timestamp,
    pub(crate) to_excluding: Timestamp,
}

impl TimeInterval {
    /// The first instant of the interval, in nanoseconds since the epoch.
    pub open(crate) spec fn start(self) -> int {
        self.from_including@
    }

    /// The first instant after the interval, in nanoseconds since the epoch.
    pub open(crate) spec fn end(self) -> int {
        self.to_excluding@
    }

    /// The interval is not empty and its length is a representable duration.
    pub open spec fn wf(self) -> bool {
        &&& self.start() < self.end()
        &&& self.end() - self.start() <= i128::MAX
    }

    #[verifier::type_invariant]
    pub open(crate) spec fn well_formed(self) -> bool {
        self.wf()
    }

    /// Whether the instant `nanos` lies in the interval.
    pub open spec fn holds(self, nanos: int) -> bool {
        self.start() <= nanos < self.end()
    }

    /// Where the interval of length `duration` starts that holds `now`, among those that
    /// start a whole number of durations after the midnight before `now`.
    pub open spec fn aligned_start(now: int, duration: int) -> int {
        let midnight = floor_to_multiple(now, NANOS_PER_DAY as int);
        midnight + ((now - midnight) / duration) * duration
    }

    /// The interval from `from_including` up to, and without, `to_excluding`.
    pub fn with_bounds(from_including: Timestamp, to_excluding: Timestamp) -> (r: Self)
        requires
            from_including@ < to_excluding@,
            to_excluding@ - from_including@ <= i128::MAX,
        ensures
            r.wf(),
            r.start() == from_including@,
            r.end() == to_excluding@,
    {
        TimeInterval { from_including, to_excluding }
    }

    /// The interval of length `duration` that starts at `from`.
    pub fn with_duration(from: Timestamp, duration: Duration) -> (r: Self)
        requires
            duration@ > 0,
            from@ + duration@ <= i128::MAX,
        ensures
            r.wf(),
            r.start() == from@,
            r.end() == from@ + duration@,
    {
        TimeInterval { from_including: from, to_excluding: from.plus(duration) }
    }

    /// The interval of length `duration` that holds the instant `now` and starts a whole
    /// number of durations after the midnight before `now`.
    pub fn aligned_at(now: Timestamp, duration: Duration) -> (r: Self)
        requires
            duration@ > 0,
            now@ - NANOS_PER_DAY >= i128::MIN,
            now@ + duration@ <= i128::MAX,
        ensures
            r.wf(),
            r.start() == Self::aligned_start(now@, duration@),
            r.end() == r.start() + duration@,
            r.holds(now@),
    {
        let midnight: Timestamp = now.midnight();
        let elapsed: i128 = now.nanos - midnight.nanos;
        let steps: i128 = elapsed / duration.nanos;
        proof {
            vstd::arithmetic::div_mod::lemma_fundamental_div_mod(elapsed as int, duration@);
            vstd::arithmetic::div_mod::lemma_mod_bound(elapsed as int, duration@);
            vstd::arithmetic::mul::lemma_mul_is_commutative(steps as int, duration@);
        }
        let from: Timestamp = Timestamp { nanos: midnight.nanos + steps * duration.nanos };
        TimeInterval { from_including: from, to_excluding: from.plus(duration) }
    }

    /// The interval of length `duration` that holds the present moment and starts a
    /// whole number of durations after the last midnight.
    pub fn with_alignment(duration: Duration) -> (r: Self)
        requires
            0 < duration@ <= MAX_ALIGNED_NANOS,
        ensures
            r.wf(),
            r.end() - r.start() == duration@,
            (r.start() - floor_to_multiple(r.start(), NANOS_PER_DAY as int)) % duration@ == 0,
    {
        let now: Timestamp = Timestamp::now();
        let r = Self::aligned_at(now, duration);
        proof {
            let day = NANOS_PER_DAY as int;
            let midnight = floor_to_multiple(now@, day);
            let steps = (now@ - midnight) / duration@;
            vstd::arithmetic::div_mod::lemma_fundamental_div_mod(now@, day);
            vstd::arithmetic::div_mod::lemma_mod_bound(now@, day);
            vstd::arithmetic::div_mod::lemma_fundamental_div_mod(now@ - midnight, duration@);
            vstd::arithmetic::div_mod::lemma_mod_bound(now@ - midnight, duration@);
            vstd::arithmetic::mul::lemma_mul_is_commutative(steps, duration@);
            vstd::arithmetic::div_mod::lemma_div_pos_is_pos(now@ - midnight, duration@);
            vstd::arithmetic::mul::lemma_mul_nonnegative(steps, duration@);
            // the start lies on the same day as `now`
            assert(midnight <= r.start() <= now@);
            vstd::arithmetic::mul::lemma_mul_is_commutative(now@ / day, day);
            vstd::arithmetic::div_mod::lemma_fundamental_div_mod_converse(
                r.start(),
                day,
                now@ / day,
                r.start() - midnight,
            );
            assert(floor_to_multiple(r.start(), day) == midnight);
            vstd::arithmetic::div_mod::lemma_mod_multiples_basic(steps, duration@);
        }
        r
    }

    /// The interval of the same length that starts where this one ends.
    pub open(crate) spec fn following(self) -> TimeInterval {
        TimeInterval {
            from_including: self.to_excluding,
            to_excluding: Timestamp { nanos: (self.end() + (self.end() - self.start())) as i128 },
        }
    }

    /// The interval of the same length that starts where this one ends.
    pub fn next_interval(&self) -> (r: Self)
        requires
            self.end() + (self.end() - self.start()) <= i128::MAX,
        ensures
            r == self.following(),
            r.wf(),
            r.start() == self.end(),
            r.end() - r.start() == self.end() - self.start(),
    {
        proof {
            use_type_invariant(self);
        }
        let from_including: Timestamp = self.to_excluding;
        TimeInterval { from_including, to_excluding: from_including.plus(self.duration()) }
    }

    /// Whether `time` lies in the interval.
    pub fn contains(&self, time: &Timestamp) -> (r: bool)
        ensures
            r == self.holds(time@),
    {
        !self.before(time) && !self.after(time)
    }

    /// Whether `time` lies before the interval starts.
    pub fn before(&self, time: &Timestamp) -> (r: bool)
        ensures
            r == (time@ < self.start()),
    {
        time.nanos < self.from_including.nanos
    }

    /// Whether `time` lies at or after the end of the interval.
    pub fn after(&self, time: &Timestamp) -> (r: bool)
        ensures
            r == (time@ >= self.end()),
    {
        time.nanos >= self.to_excluding.nanos
    }

    /// The length of the interval.
    pub fn duration(&self) -> (d: Duration)
        ensures
            d@ == self.end() - self.start(),
            d@ > 0,
            self.wf(),
    {
        proof {
            use_type_invariant(self);
        }
        self.to_excluding.since(&self.from_including)
    }

    /// The first instant of the interval.
    pub fn from_including(&self) -> (t: &Timestamp)
        ensures
            t@ == self.start(),
    {
        &self.from_including
    }

    /// The first instant after the interval.
    pub fn to_excluding(&self) -> (t: &Timestamp)
        ensures
            t@ == self.end(),
    {
        &self.to_excluding
    }
}

/// The interval that follows an interval starts where that interval ends and is as long,
/// for every interval whose follower ends at an instant that can still be told.
pub proof fn law_next_interval_follows(interval: TimeInterval)
    requires
        interval.wf(),
        interval.end() + (interval.end() - interval.start()) <= i128::MAX,
    ensures
        interval.following().wf(),
        interval.following().start() == interval.end(),
        interval.following().end() - interval.following().start() == interval.end()
            - interval.start(),
{
}

/// Only one interval of a given length holds a given instant among those that start a
/// whole number of lengths after a given anchor.
pub proof fn law_aligned_interval_unique(anchor: int, duration: int, now: int, j: int, k: int)
    requires
        duration > 0,
        anchor + j * duration <= now < anchor + j * duration + duration,
        anchor + k * duration <= now < anchor + k * duration + duration,
    ensures
        j == k,
{
    assert(j == k) by (nonlinear_arith)
        requires
            duration > 0,
            anchor + j * duration <= now < anchor + j * duration + duration,
            anchor + k * duration <= now < anchor + k * duration + duration,
    ;
}

/// A set of exposure times, kept in ascending order.
#[derive(Debug)]
pub struct ExposureTimeSet {
    pub(crate) times: Vec<ExposureTime>,
}

impl View for ExposureTimeSet {
    type V = Set<int>;

    /// The interval numbers in the set.
    open(crate) spec fn view(&self) -> Set<int> {
        Set::new(|number: int| self.has(number))
    }
}

impl ExposureTimeSet {
    /// Whether the interval `number` is stored.
    pub open(crate) spec fn has(self, number: int) -> bool {
        exists|i: int| 0 <= i < self.times@.len() && #[trigger] self.times@[i]@ == number
    }

    /// The exposure times of the set in ascending order.
    pub open(crate) spec fn elements(self) -> Seq<ExposureTime> {
        self.times@
    }

    /// The stored exposure times ascend strictly, so none occurs twice.
    pub open(crate) spec fn wf(self) -> bool {
        forall|i: int, j: int|
            0 <= i < j < self.times@.len() ==> #[trigger] self.times@[i]@ < #[trigger] self.times@[j]@
    }

    /// The empty set.
    pub fn new() -> (r: Self)
        ensures
            r.wf(),
            r@ == Set::<int>::empty(),
            r.elements() == Seq::<ExposureTime>::empty(),
    {
        let r = ExposureTimeSet { times: Vec::new() };
        assert(r@ =~= Set::<int>::empty());
        r
    }

    /// The number of exposure times in the set.
    pub fn len(&self) -> (n: usize)
        ensures
            n == self.elements().len(),
    {
        self.times.len()
    }

    /// Whether the set holds nothing.
    pub fn is_empty(&self) -> (r: bool)
        ensures
            r == (self@ == Set::<int>::empty()),
            r == (self.elements().len() == 0),
    {
        let r = self.times.len() == 0;
        proof {
            if r {
                assert(self@ =~= Set::<int>::empty());
            } else {
                assert(self.has(self.times@[0]@));
                assert(self@.contains(self.times@[0]@));
            }
        }
        r
    }

    /// The exposure time at place `index` of the ascending order.
    pub fn get(&self, index: usize) -> (t: ExposureTime)
        requires
            index < self.elements().len(),
        ensures
            t == self.elements()[index as int],
            self@.contains(t@),
    {
        assert(self.has(self.times@[index as int]@));
        self.times[index]
    }

    /// Whether `time` is in the set.
    pub fn contains(&self, time: &ExposureTime) -> (r: bool)
        ensures
            r == self@.contains(time@),
    {
        let mut i: usize = 0;
        while i < self.times.len()
            invariant
                i <= self.times@.len(),
                forall|j: int| 0 <= j < i ==> #[trigger] self.times@[j]@ != time@,
            decreases self.times@.len() - i,
        {
            if self.times[i].en_interval_number == time.en_interval_number {
                assert(self.has(time@));
                return true;
            }
            i += 1;
        }
        false
    }

    /// Puts `time` into the set, and says whether it was new.
    #[verifier::rlimit(30)]
    pub fn insert(&mut self, time: ExposureTime) -> (added: bool)
        requires
            old(self).wf(),
        ensures
            final(self).wf(),
            final(self)@ == old(self)@.insert(time@),
            added == !old(self)@.contains(time@),
    {
        let mut i: usize = 0;
        while i < self.times.len() && self.times[i].en_interval_number < time.en_interval_number
            invariant
                i <= self.times@.len(),
                *self == *old(self),
                forall|j: int| 0 <= j < i ==> #[trigger] self.times@[j]@ < time@,
            decreases self.times@.len() - i,
        {
            i += 1;
        }
        if i < self.times.len() && self.times[i].en_interval_number == time.en_interval_number {
            proof {
                assert(self.has(time@));
                assert(self@ =~= old(self)@.insert(time@));
            }
            return false;
        }
        proof {
            assert forall|j: int| 0 <= j < self.times@.len() implies #[trigger] self.times@[j]@
                != time@ by {
                if j > i {
                    assert(self.times@[i as int]@ < self.times@[j]@);
                }
            }
        }
        let ghost before = self.times@;
        self.times.insert(i, time);
        proof {
            let after = self.times@;
            assert(after == before.insert(i as int, time));
            assert forall|a: int, b: int| 0 <= a < b < after.len() implies #[trigger] after[a]@
                < #[trigger] after[b]@ by {
                if a < i && b > i {
                    assert(before[a]@ < time@);
                    assert(before[i as int]@ <= before[b - 1]@) by {
                        if b - 1 > i {
                            assert(before[i as int]@ < before[b - 1]@);
                        }
                    }
                } else if a < i && b == i {
                } else if a < i && b < i {
                    assert(before[a]@ < before[b]@);
                } else if a == i {
                    assert(before[i as int]@ <= before[b - 1]@) by {
                        if b - 1 > i {
                            assert(before[i as int]@ < before[b - 1]@);
                        }
                    }
                } else {
                    assert(before[a - 1]@ < before[b - 1]@);
                }
            }
            assert forall|number: int| final(self)@.contains(number) == old(self)@.insert(
                time@,
            ).contains(number) by {
                if final(self).has(number) {
                    let k = choose|k: int| 0 <= k < after.len() && #[trigger] after[k]@ == number;
                    if k < i {
                        assert(before[k]@ == number);
                    } else if k > i {
                        assert(before[k - 1]@ == number);
                    }
                }
                if old(self).has(number) {
                    let k = choose|k: int| 0 <= k < before.len() && #[trigger] before[k]@ == number;
                    if k < i {
                        assert(after[k]@ == number);
                    } else {
                        assert(after[k + 1]@ == number);
                    }
                }
                if number == time@ {
                    assert(after[i as int]@ == number);
                }
            }
            assert(final(self)@ =~= old(self)@.insert(time@));
        }
        true
    }

    /// The exposure times that are in this set and in `other`.
    #[verifier::rlimit(30)]
    pub fn intersection(&self, other: &ExposureTimeSet) -> (r: Self)
        requires
            self.wf(),
        ensures
            r.wf(),
            r@ == self@.intersect(other@),
    {
        let mut r = ExposureTimeSet { times: Vec::new() };
        let mut i: usize = 0;
        while i < self.times.len()
            invariant
                i <= self.times@.len(),
                self.wf(),
                r.wf(),
                forall|k: int| 0 <= k < r.times@.len() ==> exists|j: int|
                    0 <= j < i && self.times@[j] == #[trigger] r.times@[k],
                forall|k: int| 0 <= k < r.times@.len() ==> other@.contains(#[trigger] r.times@[k]@),
                forall|j: int|
                    0 <= j < i && other@.contains(#[trigger] self.times@[j]@) ==> r.has(
                        self.times@[j]@,
                    ),
            decreases self.times@.len() - i,
        {
            let t: ExposureTime = self.times[i];
            if other.contains(&t) {
                let ghost before = r;
                proof {
                    assert forall|k: int| 0 <= k < r.times@.len() implies #[trigger] r.times@[k]@
                        < t@ by {
                        let j = choose|j: int| 0 <= j < i && self.times@[j] == r.times@[k];
                        assert(self.times@[j]@ < self.times@[i as int]@);
                    }
                }
                r.times.push(t);
                proof {
                    assert forall|j: int|
                        0 <= j < i + 1 && other@.contains(
                            #[trigger] self.times@[j]@,
                        ) implies r.has(self.times@[j]@) by {
                        if j < i {
                            assert(before.has(self.times@[j]@));
                            let k = choose|k: int|
                                0 <= k < before.times@.len() && #[trigger] before.times@[k]@
                                    == self.times@[j]@;
                            assert(r.times@[k]@ == self.times@[j]@);
                        } else {
                            assert(r.times@[r.times@.len() - 1]@ == self.times@[j]@);
                        }
                    }
                    assert forall|k: int| 0 <= k < r.times@.len() implies exists|j: int|
                        0 <= j < i + 1 && self.times@[j] == #[trigger] r.times@[k] by {
                        if k < before.times@.len() {
                            let j = choose|j: int| 0 <= j < i && self.times@[j] == before.times@[k];
                            assert(self.times@[j] == r.times@[k]);
                        } else {
                            assert(self.times@[i as int] == r.times@[k]);
                        }
                    }
                }
            }
            i += 1;
        }
        proof {
            assert forall|number: int| r@.contains(number) == self@.intersect(other@).contains(
                number,
            ) by {
                if r.has(number) {
                    let k = choose|k: int| 0 <= k < r.times@.len() && #[trigger] r.times@[k]@
                        == number;
                    let j = choose|j: int| 0 <= j < i && self.times@[j] == r.times@[k];
                    assert(self.times@[j]@ == number);
                    assert(self.has(number));
                }
                if self.has(number) && other@.contains(number) {
                    let j = choose|j: int| 0 <= j < self.times@.len() && #[trigger] self.times@[j]@
                        == number;
                    assert(r.has(self.times@[j]@));
                }
            }
            assert(r@ =~= self@.intersect(other@));
        }
        r
    }

    /// The exposure times that are in this set or in `other`.
    pub fn union(&self, other: &ExposureTimeSet) -> (r: Self)
        requires
            self.wf(),
        ensures
            r.wf(),
            r@ == self@.union(other@),
    {
        let mut r = self.clone();
        let mut i: usize = 0;
        while i < other.times.len()
            invariant
                i <= other.times@.len(),
                r.wf(),
                forall|number: int|
                    r@.contains(number) <==> (self@.contains(number) || exists|j: int|
                        0 <= j < i && #[trigger] other.times@[j]@ == number),
            decreases other.times@.len() - i,
        {
            let ghost before = r@;
            r.insert(other.times[i]);
            proof {
                assert forall|number: int|
                    r@.contains(number) <==> (self@.contains(number) || exists|j: int|
                        0 <= j < i + 1 && #[trigger] other.times@[j]@ == number) by {
                    if before.contains(number) && !self@.contains(number) {
                        let j = choose|j: int| 0 <= j < i && #[trigger] other.times@[j]@ == number;
                        assert(0 <= j < i + 1 && other.times@[j]@ == number);
                    }
                    if exists|j: int| 0 <= j < i + 1 && #[trigger] other.times@[j]@ == number {
                        let j = choose|j: int|
                            0 <= j < i + 1 && #[trigger] other.times@[j]@ == number;
                        if j < i {
                            assert(before.contains(number));
                        }
                    }
                }
            }
            i += 1;
        }
        assert(r@ =~= self@.union(other@));
        r
    }

    /// The interval numbers of the set in ascending order.
    pub fn to_vec(&self) -> (numbers: Vec<u32>)
        ensures
            numbers@.len() == self.elements().len(),
            forall|i: int| 0 <= i < numbers@.len() ==> numbers@[i] as int == self.elements()[i]@,
    {
        let mut numbers: Vec<u32> = Vec::new();
        let mut i: usize = 0;
        while i < self.times.len()
            invariant
                i <= self.times@.len(),
                numbers@.len() == i,
                forall|j: int| 0 <= j < i ==> numbers@[j] as int == self.times@[j]@,
            decreases self.times@.len() - i,
        {
            numbers.push(self.times[i].en_interval_number);
            i += 1;
        }
        numbers
    }
}

impl Clone for ExposureTimeSet {
    fn clone(&self) -> (r: Self)
        ensures
            r.elements() == self.elements(),
            r@ == self@,
            r.wf() == self.wf(),
    {
        let mut times: Vec<ExposureTime> = Vec::new();
        let mut i: usize = 0;
        while i < self.times.len()
            invariant
                i <= self.times@.len(),
                times@ == self.times@.subrange(0, i as int),
            decreases self.times@.len() - i,
        {
            times.push(self.times[i]);
            assert(times@ =~= self.times@.subrange(0, i + 1));
            i += 1;
        }
        assert(times@ =~= self.times@);
        let r = ExposureTimeSet { times };
        proof {
            assert(r.times@ == self.times@);
            assert forall|number: int| r.has(number) == self.has(number) by {
                if r.has(number) {
                    let k = choose|k: int| 0 <= k < r.times@.len() && #[trigger] r.times@[k]@
                        == number;
                    assert(self.times@[k]@ == number);
                }
                if self.has(number) {
                    let k = choose|k: int| 0 <= k < self.times@.len() && #[trigger] self.times@[k]@
                        == number;
                    assert(r.times@[k]@ == number);
                }
            }
            assert(r@ =~= self@);
        }
        r
    }
}

} // verus!
