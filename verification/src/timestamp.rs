//! Points in time, to the nanosecond, in UTC.





use vstd::prelude::*;

verus! {

/// The first second that a point in time can have, from the start of 1970.
pub const FIRST_SECOND: i64 = -8_334_601_228_800;

/// The last second that a point in time can have, from the start of 1970.
pub const LAST_SECOND: i64 = 8_210_266_876_799;

/// More seconds than lie between any two points in time.
pub const LONGEST_SPAN_SECONDS: i64 = 17_000_000_000_000;

/// Whether a second and the nanoseconds into it are a point in time: the second
/// lies within the calendar, and the nanoseconds pass one second only in a leap
/// second, at the end of a minute.
pub open spec fn valid_time(seconds: int, nanos: int) -> bool {
    &&& FIRST_SECOND <= seconds <= LAST_SECOND
    &&& 0 <= nanos < 2_000_000_000
    &&& nanos >= 1_000_000_000 ==> seconds % 60 == 59
}

/// A point in time: whole seconds from the start of 1970 and the nanoseconds
/// into the second.
#[derive(Debug, Clone, Copy, PartialEq, Eq)]
pub struct Timestamp {
    seconds: i64,
    nanos: u32,
}

/// The model of a point in time.
pub struct TimePoint {
    pub seconds: int,
    pub nanos: int,
}

impl View for Timestamp {
    type V = TimePoint;

    closed spec fn view(&self) -> TimePoint {
        TimePoint { seconds: self.seconds as int, nanos: self.nanos as int }
    }
}

/// The point in time with a second and the nanoseconds into it.
pub open spec fn time_point(t: (i64, u32)) -> TimePoint {
    TimePoint { seconds: t.0 as int, nanos: t.1 as int }
}

/// Whether `a` is earlier than `b`.
pub open spec fn time_before(a: TimePoint, b: TimePoint) -> bool {
    a.seconds < b.seconds || (a.seconds == b.seconds && a.nanos < b.nanos)
}

/// The second of the day.
pub open spec fn second_of_day(t: TimePoint) -> int {
    t.seconds % 86_400
}

/// The leap second that lies between two times of day, if one of them is in it.
pub open spec fn leap_between(later: TimePoint, earlier: TimePoint) -> int {
    if second_of_day(later) > second_of_day(earlier) && earlier.nanos >= 1_000_000_000 {
        1
    } else if second_of_day(later) < second_of_day(earlier) && later.nanos >= 1_000_000_000 {
        -1
    } else {
        0
    }
}

/// The nanoseconds from `earlier` to `later`; negative if `later` comes first.
pub open spec fn nanos_between(later: TimePoint, earlier: TimePoint) -> int {
    (later.seconds - earlier.seconds + leap_between(later, earlier)) * 1_000_000_000 + (later.nanos
        - earlier.nanos)
}

/// Division that rounds toward zero.
pub open spec fn div_to_zero(x: int, d: int) -> int {
    if x >= 0 {
        x / d
    } else {
        -((-x) / d)
    }
}

/// The milliseconds from the start of 1970.
pub open spec fn epoch_millis(t: TimePoint) -> int {
    t.seconds * 1000 + t.nanos / 1_000_000
}

/// The text of a point in time in the form of RFC 3339, as `chrono` writes it.
pub uninterp spec fn rfc3339_text(seconds: i64, nanos: u32) -> Seq<char>;

/// The point in time that `chrono` reads from an RFC 3339 text.
pub uninterp spec fn rfc3339_parsed(text: Seq<char>) -> Option<(i64, u32)>;

/// `DateTime::from_timestamp` and `DateTime::to_rfc3339`: the first accepts every
/// valid point in time, and the text that the second writes depends on it alone.
#[verifier::external_body]
fn chrono_to_rfc3339(seconds: i64, nanos: u32) -> (r: String)
    requires
        valid_time(seconds as int, nanos as int),
    ensures
        r@ == rfc3339_text(seconds, nanos),
{
    let time: Option<chrono::DateTime<chrono::Utc>> = chrono::DateTime::from_timestamp(
        seconds,
        nanos,
    );
    time.map(|value| value.to_rfc3339()).unwrap_or_default()
}

/// `DateTime::parse_from_rfc3339`, taken to UTC: what it reads depends on the
/// text alone, and is a valid point in time.
#[verifier::external_body]
fn chrono_parse_rfc3339(text: &str) -> (r: Option<(i64, u32)>)
    ensures
        r == rfc3339_parsed(text@),
        r matches Some(t) ==> valid_time(t.0 as int, t.1 as int),
{
    let time = chrono::DateTime::parse_from_rfc3339(text).ok()?;
    let utc = time.with_timezone(&chrono::Utc);
    Some((utc.timestamp(), utc.timestamp_subsec_nanos()))
}

/// `DateTime::signed_duration_since` and `TimeDelta::num_seconds`, on two valid
/// points in time: the whole seconds from `earlier` to `later`, rounded toward
/// zero, where a leap second counts between two times of day if one of them lies
/// in it.
#[verifier::external_body]
fn chrono_seconds_between(later: (i64, u32), earlier: (i64, u32)) -> (r: i64)
    requires
        valid_time(later.0 as int, later.1 as int),
        valid_time(earlier.0 as int, earlier.1 as int),
    ensures
        r == div_to_zero(nanos_between(time_point(later), time_point(earlier)), 1_000_000_000),
{
    let a: Option<chrono::DateTime<chrono::Utc>> = chrono::DateTime::from_timestamp(later.0, later.1);
    let b = chrono::DateTime::from_timestamp(earlier.0, earlier.1);
    a.zip(b).map(|t| t.0.signed_duration_since(t.1).num_seconds()).unwrap_or_default()
}

/// `DateTime::signed_duration_since` and `TimeDelta::num_milliseconds`, on two valid
/// points in time: as `chrono_seconds_between`, in milliseconds.
#[verifier::external_body]
fn chrono_millis_between(later: (i64, u32), earlier: (i64, u32)) -> (r: i64)
    requires
        valid_time(later.0 as int, later.1 as int),
        valid_time(earlier.0 as int, earlier.1 as int),
    ensures
        r == div_to_zero(nanos_between(time_point(later), time_point(earlier)), 1_000_000),
{
    let a: Option<chrono::DateTime<chrono::Utc>> = chrono::DateTime::from_timestamp(later.0, later.1);
    let b = chrono::DateTime::from_timestamp(earlier.0, earlier.1);
    a.zip(b).map(|t| t.0.signed_duration_since(t.1).num_milliseconds()).unwrap_or_default()
}

/// `Utc::now`: the machine's clock, of which only this is said: what it shows is
/// a valid point in time. A clock that is set before 1970 ends the program.
#[verifier::external_body]
fn chrono_now() -> (r: (i64, u32))
    ensures
        valid_time(r.0 as int, r.1 as int),
{
    let now = chrono::Utc::now();
    (now.timestamp(), now.timestamp_subsec_nanos())
}

/// The model of an optional point in time.
pub open spec fn opt_time(value: Option<Timestamp>) -> Option<TimePoint> {
    match value {
        Some(t) => Some(t@),
        None => None,
    }
}

/// The point in time that `chrono` reads from an RFC 3339 text, as a model.
pub open spec fn parsed_time(text: Seq<char>) -> Option<TimePoint> {
    match rfc3339_parsed(text) {
        Some(t) => Some(time_point(t)),
        None => None,
    }
}

impl Timestamp {
    #[verifier::type_invariant]
    closed spec fn in_calendar(self) -> bool {
        valid_time(self.seconds as int, self.nanos as int)
    }

    /// The point in time with the given second and nanoseconds into it.
    pub fn new(seconds: i64, nanos: u32) -> (r: Option<Timestamp>)
        ensures
            match r {
                Some(t) => valid_time(seconds as int, nanos as int) && t@ == (TimePoint {
                    seconds: seconds as int,
                    nanos: nanos as int,
                }),
                None => !valid_time(seconds as int, nanos as int),
            },
    {
        if seconds < FIRST_SECOND || seconds > LAST_SECOND || nanos >= 2_000_000_000 {
            return None;
        }
        if nanos >= 1_000_000_000 {
            let shifted: u64 = (seconds + 8_334_601_228_800) as u64;
            assert(8_334_601_228_800int % 60 == 0);
            assert(shifted as int % 60 == seconds as int % 60);
            if shifted % 60 != 59 {
                return None;
            }
        }
        Some(Timestamp { seconds, nanos })
    }

    /// The point in time that the machine's clock shows.
    pub fn now() -> (r: Timestamp)
        ensures
            valid_time(r@.seconds, r@.nanos),
    {
        let (seconds, nanos) = chrono_now();
        Timestamp { seconds, nanos }
    }

    /// The whole seconds from the start of 1970.
    pub fn seconds(&self) -> (r: i64)
        ensures
            r == self@.seconds,
    {
        self.seconds
    }

    /// The nanoseconds into the second.
    pub fn nanos(&self) -> (r: u32)
        ensures
            r == self@.nanos,
    {
        self.nanos
    }

    /// The point in time that an RFC 3339 text stands for.
    pub fn parse_rfc3339(text: &str) -> (r: Option<Timestamp>)
        ensures
            opt_time(r) == parsed_time(text@),
    {
        match chrono_parse_rfc3339(text) {
            Some(t) => Some(Timestamp { seconds: t.0, nanos: t.1 }),
            None => None,
        }
    }

    /// The text in the form of RFC 3339.
    pub fn to_rfc3339(&self) -> (r: String)
        ensures
            r@ == rfc3339_text(self@.seconds as i64, self@.nanos as u32),
    {
        proof {
            use_type_invariant(self);
        }
        chrono_to_rfc3339(self.seconds, self.nanos)
    }

    /// Whether this point in time is earlier than the other.
    pub fn is_before(&self, other: &Timestamp) -> (r: bool)
        ensures
            r == time_before(self@, other@),
    {
        self.seconds < other.seconds || (self.seconds == other.seconds && self.nanos < other.nanos)
    }

    /// The whole seconds from the other point in time to this one, rounded toward zero.
    pub fn seconds_since(&self, earlier: &Timestamp) -> (r: i64)
        ensures
            r == div_to_zero(nanos_between(self@, earlier@), 1_000_000_000),
            -LONGEST_SPAN_SECONDS <= r <= LONGEST_SPAN_SECONDS,
    {
        proof {
            use_type_invariant(self);
            use_type_invariant(earlier);
        }
        chrono_seconds_between((self.seconds, self.nanos), (earlier.seconds, earlier.nanos))
    }

    /// The milliseconds from the other point in time to this one, rounded toward zero.
    pub fn millis_since(&self, earlier: &Timestamp) -> (r: i64)
        ensures
            r == div_to_zero(nanos_between(self@, earlier@), 1_000_000),
    {
        proof {
            use_type_invariant(self);
            use_type_invariant(earlier);
        }
        chrono_millis_between((self.seconds, self.nanos), (earlier.seconds, earlier.nanos))
    }

    /// The milliseconds from the start of 1970; zero for earlier points in time.
    pub fn epoch_millis(&self) -> (r: u64)
        ensures
            r == if epoch_millis(self@) < 0 {
                0
            } else {
                epoch_millis(self@)
            },
            r <= 9_000_000_000_000_000,
    {
        proof {
            use_type_invariant(self);
        }
        let millis: i64 = self.seconds * 1000 + (self.nanos / 1_000_000) as i64;
        if millis < 0 {
            0
        } else {
            millis as u64
        }
    }
}

// ---------------------------------------------------------------------------
// Laws
// ---------------------------------------------------------------------------

/// Of two points in time exactly one is before the other, or they are the same; the
/// seconds decide, and then the nanoseconds.
pub proof fn lemma_order_of_times(a: TimePoint, b: TimePoint)
    ensures
        a.seconds < b.seconds ==> time_before(a, b),
        a.seconds == b.seconds ==> (time_before(a, b) <==> a.nanos < b.nanos),
        !(time_before(a, b) && time_before(b, a)),
        time_before(a, b) || time_before(b, a) || a == b,
{
}

/// What has passed between two points in time, apart from leap seconds, is the
/// difference of their seconds and of their nanoseconds; none has passed since the
/// same time, and time that goes back counts against it.
pub proof fn lemma_time_between(later: TimePoint, earlier: TimePoint)
    requires
        0 <= later.nanos < 1_000_000_000,
        0 <= earlier.nanos < 1_000_000_000,
    ensures
        nanos_between(later, earlier) == (later.seconds - earlier.seconds) * 1_000_000_000
            + later.nanos - earlier.nanos,
        nanos_between(earlier, later) == -nanos_between(later, earlier),
        nanos_between(later, later) == 0,
        time_before(earlier, later) ==> nanos_between(later, earlier) > 0,
{
}

/// A division towards zero leaves out what is over, on both sides of zero.
pub proof fn lemma_division_towards_zero(x: int, d: int)
    requires
        d > 0,
    ensures
        x >= 0 ==> div_to_zero(x, d) * d <= x < (div_to_zero(x, d) + 1) * d,
        div_to_zero(-x, d) == -div_to_zero(x, d),
{
    if x >= 0 {
        assert((x / d) * d <= x < (x / d + 1) * d) by (nonlinear_arith)
            requires
                d > 0,
                x >= 0,
        ;
    }
    if x == 0 {
        assert(0int / d == 0) by (nonlinear_arith)
            requires
                d > 0,
        ;
    }
}

/// The milliseconds since the epoch are a thousand for each second, and those within
/// the second.
pub proof fn lemma_millis_since_the_epoch(t: TimePoint)
    requires
        0 <= t.nanos < 1_000_000_000,
    ensures
        1_000 * t.seconds <= epoch_millis(t) < 1_000 * (t.seconds + 1),
        (epoch_millis(t) - 1_000 * t.seconds) * 1_000_000 <= t.nanos,
        t.nanos < (epoch_millis(t) - 1_000 * t.seconds + 1) * 1_000_000,
{
}

} // verus!
