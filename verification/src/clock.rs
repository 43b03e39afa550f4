//! Points in time.

use vstd::prelude::*;

verus! {

/// A point in time, in seconds since the start of 1970 and nanoseconds after
/// the second. Within a leap second there are a thousand million nanoseconds
/// more.
#[derive(Debug, Clone, Copy, PartialEq, Eq, Structural)]
pub struct Timestamp {
    secs: i64,
    nanos: u32,
}

/// The first second of the year -262143.
pub const MIN_SECS: i64 = -8_334_601_228_800;

/// The last second of the year 262142.
pub const MAX_SECS: i64 = 8_210_266_876_799;

/// The calendar reaches this point in time.
pub open spec fn valid_time(secs: int, nanos: int) -> bool {
    &&& MIN_SECS <= secs <= MAX_SECS
    &&& 0 <= nanos < 1_000_000_000 || (nanos < 2_000_000_000 && secs % 60 == 59)
}

/// `a` is later than `b`.
pub open spec fn later(a: (int, int), b: (int, int)) -> bool {
    a.0 > b.0 || (a.0 == b.0 && a.1 > b.1)
}

impl View for Timestamp {
    type V = (int, int);

    /// Seconds and nanoseconds.
    closed spec fn view(&self) -> (int, int) {
        (self.secs as int, self.nanos as int)
    }
}

impl Timestamp {
    #[verifier::type_invariant]
    spec fn type_inv(self) -> bool {
        valid_time(self.secs as int, self.nanos as int)
    }

    /// The point in time with these seconds and nanoseconds.
    pub fn new(secs: i64, nanos: u32) -> (res: Option<Timestamp>)
        ensures
            res is Some == valid_time(secs as int, nanos as int),
            res matches Some(t) ==> t@ == (secs as int, nanos as int),
    {
        match chrono_from_timestamp(secs, nanos) {
            Some((secs, nanos)) => Some(Timestamp { secs, nanos }),
            None => None,
        }
    }

    /// The present: a time since the start of 1970, and never one within a leap
    /// second. Which one, the system's clock decides.
    pub fn now() -> (res: Timestamp)
        ensures
            0 <= res@.0 <= MAX_SECS,
            0 <= res@.1 < 1_000_000_000,
    {
        let (secs, nanos) = chrono_now();
        Timestamp { secs, nanos }
    }

    pub fn secs(&self) -> (res: i64)
        ensures
            res == self@.0,
    {
        self.secs
    }

    pub fn nanos(&self) -> (res: u32)
        ensures
            res == self@.1,
    {
        self.nanos
    }

    /// Whether this point in time is later than `other`.
    pub fn is_after(&self, other: &Timestamp) -> (res: bool)
        ensures
            res == later(self@, other@),
    {
        self.secs > other.secs || (self.secs == other.secs && self.nanos > other.nanos)
    }

    /// Whether this point in time is `other`.
    pub fn same(&self, other: &Timestamp) -> (res: bool)
        ensures
            res == (self@ == other@),
    {
        self.secs == other.secs && self.nanos == other.nanos
    }

    /// The point in time as RFC 3339 writes it, in UTC. Reading the text gives
    /// it back.
    pub fn text(&self) -> (res: String)
        ensures
            valid_time(self@.0, self@.1),
            res@ == time_text(self@.0, self@.1),
            text_time(res@) == Some(self@),
    {
        proof {
            use_type_invariant(self);
        }
        chrono_text(self.secs, self.nanos)
    }

    /// The point in time that a text in the manner of RFC 3339 writes.
    pub fn parse(s: &str) -> (res: Option<Timestamp>)
        ensures
            res matches Some(t) ==> text_time(s@) == Some(t@) && valid_time(t@.0, t@.1),
            res is None ==> text_time(s@) is None,
    {
        match chrono_parse(s) {
            Some((secs, nanos)) => Some(Timestamp { secs, nanos }),
            None => None,
        }
    }
}

/// `chrono::DateTime::from_timestamp`: it takes exactly the points in time that
/// its calendar reaches, and keeps their seconds and nanoseconds.
#[verifier::external_body]
fn chrono_from_timestamp(secs: i64, nanos: u32) -> (res: Option<(i64, u32)>)
    ensures
        res == if valid_time(secs as int, nanos as int) {
            Some((secs, nanos))
        } else {
            None
        },
{
    let time = chrono::DateTime::from_timestamp(secs, nanos)?;
    Some((time.timestamp(), time.timestamp_subsec_nanos()))
}

/// `chrono::Utc::now`: the time that the system's clock shows, as the seconds
/// since the start of 1970 and the nanoseconds after the second, which are less
/// than a second. It panics where the clock stands before 1970 or after the end
/// of the calendar. Which time it is remains open.
#[verifier::external_body]
fn chrono_now() -> (res: (i64, u32))
    ensures
        0 <= res.0 <= MAX_SECS,
        res.1 < 1_000_000_000,
{
    let time = chrono::Utc::now();
    (time.timestamp(), time.timestamp_subsec_nanos())
}

/// The notation of a point in time after RFC 3339, in UTC, with as many digits
/// of a second as it takes.
pub uninterp spec fn time_text(secs: int, nanos: int) -> Seq<char>;

/// The point in time that a text writes, if it writes one.
pub uninterp spec fn text_time(s: Seq<char>) -> Option<(int, int)>;

/// `chrono::DateTime::to_rfc3339_opts` for UTC, the notation that chrono's
/// serde impl writes. What it writes is read back as the same point in time.
#[verifier::external_body]
fn chrono_text(secs: i64, nanos: u32) -> (res: String)
    requires
        valid_time(secs as int, nanos as int),
    ensures
        res@ == time_text(secs as int, nanos as int),
        text_time(res@) == Some((secs as int, nanos as int)),
{
    let time = chrono::DateTime::from_timestamp(secs, nanos).unwrap();
    time.to_rfc3339_opts(chrono::SecondsFormat::AutoSi, true)
}

/// `chrono`'s `FromStr` of `DateTime<FixedOffset>`, taken to UTC, as its serde
/// impl does. What it reads is a point in time that its calendar reaches.
#[verifier::external_body]
fn chrono_parse(s: &str) -> (res: Option<(i64, u32)>)
    ensures
        res matches Some(t) ==> text_time(s@) == Some((t.0 as int, t.1 as int)) && valid_time(
            t.0 as int,
            t.1 as int,
        ),
        res is None ==> text_time(s@) is None,
{
    let parsed: chrono::DateTime<chrono::FixedOffset> = s.parse().ok()?;
    let time = parsed.with_timezone(&chrono::Utc);
    Some((time.timestamp(), time.timestamp_subsec_nanos()))
}

/// A point in time is later than another if its second is, or, in the same
/// second, its nanosecond; and it is the other if both agree.
pub proof fn seconds_come_before_nanoseconds(
    a: (i64, u32),
    b: (i64, u32),
    x: Timestamp,
    y: Timestamp,
    after: bool,
    same: bool,
)
    requires
        call_ensures(Timestamp::new, a, Some(x)),
        call_ensures(Timestamp::new, b, Some(y)),
        call_ensures(Timestamp::is_after, (&x, &y), after),
        call_ensures(Timestamp::same, (&x, &y), same),
    ensures
        after == if a.0 == b.0 {
            a.1 > b.1
        } else {
            a.0 > b.0
        },
        same == (a == b),
{
}

/// A point in time keeps its seconds and nanoseconds.
pub proof fn times_keep_their_parts(
    secs: i64,
    nanos: u32,
    t: Timestamp,
    s: i64,
    n: u32,
)
    requires
        call_ensures(Timestamp::new, (secs, nanos), Some(t)),
        call_ensures(Timestamp::secs, (&t,), s),
        call_ensures(Timestamp::nanos, (&t,), n),
    ensures
        s == secs,
        n == nanos,
{
}

/// A point in time that is written and read is the same.
pub proof fn written_times_read_back(
    t: Timestamp,
    written: String,
    s: &str,
    res: Option<Timestamp>,
)
    requires
        call_ensures(Timestamp::text, (&t,), written),
        s@ == written@,
        call_ensures(Timestamp::parse, (s,), res),
    ensures
        res matches Some(u) && u@ == t@,
{
}

} // verus!
