//! Points in time: seconds since the Unix epoch, and nanoseconds.

use vstd::prelude::*;

verus! {

/// A point in time in UTC that the calendar holds.
#[derive(Clone, Copy, Debug, PartialEq, Eq, Structural, PartialOrd, Ord, Hash)]
pub struct Timestamp {
    secs: i64,
    nanos: u32,
}

/// The first second that the calendar holds: the start of the year -262143.
pub const MIN_SECS: i64 = -8334601228800;

/// The last second that the calendar holds: the end of the year 262142.
pub const MAX_SECS: i64 = 8210266876799;

/// The first second of the year 0.
pub const FOUR_DIGIT_MIN: i64 = -62167219200;

/// The last second of the year 9999.
pub const FOUR_DIGIT_MAX: i64 = 253402300799;

/// The point in time that an RFC 3339 text stands for, or what is wrong with the text.
pub uninterp spec fn rfc3339_parsed(text: Seq<char>) -> Result<(i64, u32), Seq<char>>;

/// The point in time that an RFC 2822 date stands for.
pub uninterp spec fn rfc2822_parsed(text: Seq<char>) -> Option<(i64, u32)>;

/// The RFC 3339 text with the offset `+00:00`.
pub uninterp spec fn rfc3339_offset(secs: i64, nanos: u32) -> Seq<char>;

/// The RFC 3339 text with the offset `Z`.
pub uninterp spec fn rfc3339_zulu(secs: i64, nanos: u32) -> Seq<char>;

/// The calendar date in the form `YYYY-MM-DD`.
pub uninterp spec fn calendar_date(secs: i64, nanos: u32) -> Seq<char>;

/// A parse result over views.
pub open spec fn rfc3339_result(r: Result<Timestamp, String>) -> Result<(i64, u32), Seq<char>> {
    match r {
        Ok(at) => Ok((at.secs(), at.nanos())),
        Err(message) => Err(message@),
    }
}

/// `chrono::DateTime::parse_from_rfc3339`, converted to UTC, the error as its text.
///
/// Both depend on the text alone.
#[verifier::external_body]
fn call_parse_rfc3339(text: &str) -> (r: Result<Timestamp, String>)
    ensures
        rfc3339_result(r) == rfc3339_parsed(text@),
{
    match chrono::DateTime::parse_from_rfc3339(text) {
        Ok(at) => Ok(Timestamp { secs: at.timestamp(), nanos: at.timestamp_subsec_nanos() }),
        Err(error) => Err(error.to_string()),
    }
}

/// `chrono::DateTime::parse_from_rfc2822`, converted to UTC.
///
/// Whether a text is such a date, and which point it names, depends on the text alone.
#[verifier::external_body]
fn call_parse_rfc2822(text: &str) -> (r: Option<Timestamp>)
    ensures
        r matches Some(at) ==> rfc2822_parsed(text@) == Some((at.secs(), at.nanos())),
        r is None ==> rfc2822_parsed(text@) is None,
{
    let parsed = chrono::DateTime::parse_from_rfc2822(text).ok();
    parsed.map(|at| Timestamp { secs: at.timestamp(), nanos: at.timestamp_subsec_nanos() })
}

/// `chrono::DateTime::from_timestamp` with no nanoseconds: a point in time for each second from
/// the start of the year -262143 to the end of the year 262142, and for no other.
#[verifier::external_body]
fn call_from_timestamp(secs: i64) -> (r: Option<Timestamp>)
    ensures
        r == (if MIN_SECS <= secs <= MAX_SECS {
            Some(Timestamp::at(secs, 0))
        } else {
            None
        }),
{
    let point = chrono::DateTime::from_timestamp(secs, 0);
    point.map(|at| Timestamp { secs: at.timestamp(), nanos: at.timestamp_subsec_nanos() })
}

/// `chrono::DateTime::from_timestamp_millis`: the second is the quotient by 1000 rounded down, the
/// rest are milliseconds; a point in time where the calendar holds that second.
#[verifier::external_body]
fn call_from_timestamp_millis(millis: i64) -> (r: Option<Timestamp>)
    ensures
        r == (if MIN_SECS <= millis / 1000 <= MAX_SECS {
            Some(Timestamp::at((millis / 1000) as i64, ((millis % 1000) * 1_000_000) as u32))
        } else {
            None
        }),
{
    let point = chrono::DateTime::from_timestamp_millis(millis);
    point.map(|at| Timestamp { secs: at.timestamp(), nanos: at.timestamp_subsec_nanos() })
}

/// `chrono::DateTime::to_rfc3339` in UTC.
///
/// The text depends on the point alone. In the years 0 to 9999, outside leap seconds, the text
/// parses back to the point. It holds digits, `-`, `+`, `:`, `.` and `T`.
#[verifier::external_body]
fn call_to_rfc3339(at: Timestamp) -> (r: String)
    ensures
        r@ == rfc3339_offset(at.secs(), at.nanos()),
        FOUR_DIGIT_MIN <= at.secs() <= FOUR_DIGIT_MAX && at.nanos() < 1_000_000_000 ==> rfc3339_parsed(
            r@,
        ) is Ok && rfc3339_parsed(r@)->Ok_0 == (at.secs(), at.nanos()),
        !r@.contains('|'),
{
    let point = chrono::DateTime::from_timestamp(at.secs, at.nanos);
    point.map(|at| at.to_rfc3339()).unwrap_or_default()
}

/// `chrono::DateTime::to_rfc3339_opts` in UTC with `Z` and as many sub-second digits as needed,
/// which is also how `chrono` serialises a date.
#[verifier::external_body]
fn call_to_rfc3339_opts(at: Timestamp) -> (r: String)
    ensures
        r@ == rfc3339_zulu(at.secs(), at.nanos()),
{
    let point = chrono::DateTime::from_timestamp(at.secs, at.nanos);
    point.map(|at| at.to_rfc3339_opts(chrono::SecondsFormat::AutoSi, true)).unwrap_or_default()
}

/// `chrono::DateTime::format` with `%Y-%m-%d`: the calendar date in UTC.
#[verifier::external_body]
fn call_format_date(at: Timestamp) -> (r: String)
    ensures
        r@ == calendar_date(at.secs(), at.nanos()),
{
    let point = chrono::DateTime::from_timestamp(at.secs, at.nanos);
    point.map(|at| at.format("%Y-%m-%d").to_string()).unwrap_or_default()
}

/// Whether the calendar holds a point: the second is in range, and only the last second of a minute
/// is a leap second.
pub open spec fn in_calendar(secs: i64, nanos: u32) -> bool {
    &&& MIN_SECS <= secs <= MAX_SECS
    &&& nanos < 1_000_000_000 || (nanos < 2_000_000_000 && secs % 60 == 59)
}

/// A point is the one of its seconds and nanoseconds.
pub proof fn lemma_timestamp_whole(at: Timestamp)
    ensures
        at == Timestamp::at(at.secs(), at.nanos()),
{
}

/// A point is made of its seconds and nanoseconds.
pub proof fn law_a_point_is_made_of_its_parts(secs: i64, nanos: u32)
    ensures
        Timestamp::at(secs, nanos).secs() == secs,
        Timestamp::at(secs, nanos).nanos() == nanos,
{
}

/// Time passes: a point is earlier than another exactly where it has fewer whole seconds, or as
/// many and fewer nanoseconds behind them, so that of two points one is earlier unless they are the
/// same.
pub proof fn law_earlier_points_come_first(a: Timestamp, b: Timestamp)
    ensures
        a.earlier(b) <==> a.ticks() < b.ticks(),
        a.ticks() == b.ticks() <==> a == b,
        a.secs() < b.secs() ==> a.earlier(b),
        a.secs() == b.secs() ==> (a.earlier(b) <==> a.nanos() < b.nanos()),
{
    lemma_timestamp_whole(a);
    lemma_timestamp_whole(b);
}

/// The milliseconds of a point lie in its second: their count grows by a thousand a second and by
/// one for each million nanoseconds.
pub proof fn law_milliseconds_lie_in_their_second(at: Timestamp)
    ensures
        (at.millis() - at.secs() * 1000) * 1_000_000 <= at.nanos(),
        at.nanos() < (at.millis() - at.secs() * 1000 + 1) * 1_000_000,
{
}

impl Timestamp {
    /// The place of the point in time, as a number.
    pub open spec fn ticks(self) -> int {
        self.secs() * 0x1_0000_0000 + self.nanos()
    }

    #[verifier::type_invariant]
    spec fn valid(self) -> bool {
        in_calendar(self.secs, self.nanos)
    }

    /// Whole seconds since 1970-01-01T00:00:00Z.
    pub closed spec fn secs(self) -> i64 {
        self.secs
    }

    /// Nanoseconds since the last whole second, a billion and more during a leap second.
    pub closed spec fn nanos(self) -> u32 {
        self.nanos
    }

    /// The point of the given seconds and nanoseconds.
    pub closed spec fn at(secs: i64, nanos: u32) -> Timestamp {
        Timestamp { secs, nanos }
    }

    /// Whether this point is earlier than the other.
    pub open spec fn earlier(self, other: Timestamp) -> bool {
        self.secs() < other.secs() || (self.secs() == other.secs() && self.nanos()
            < other.nanos())
    }

    /// Whole milliseconds since the Unix epoch.
    pub open spec fn millis(self) -> int {
        self.secs() * 1000 + self.nanos() / 1_000_000
    }

    /// The point of the given seconds and nanoseconds, if the calendar holds it.
    pub fn new(secs: i64, nanos: u32) -> (r: Option<Timestamp>)
        ensures
            r == (if in_calendar(secs, nanos) {
                Some(Timestamp::at(secs, nanos))
            } else {
                None
            }),
    {
        if secs < MIN_SECS || secs > MAX_SECS || nanos >= 2_000_000_000 {
            return None;
        }
        if nanos >= 1_000_000_000 {
            let rest: i64 = (secs - MIN_SECS) % 60;
            assert(rest == secs % 60);
            if rest != 59 {
                return None;
            }
        }
        Some(Timestamp { secs, nanos })
    }

    /// Whole seconds since 1970-01-01T00:00:00Z.
    pub fn seconds(&self) -> (r: i64)
        ensures
            r == self.secs(),
    {
        self.secs
    }

    /// Nanoseconds since the last whole second.
    pub fn subsec_nanos(&self) -> (r: u32)
        ensures
            r == self.nanos(),
    {
        self.nanos
    }

    /// Whether this point is earlier than the other.
    pub fn is_earlier(&self, other: &Timestamp) -> (r: bool)
        ensures
            r == self.earlier(*other),
    {
        self.secs < other.secs || (self.secs == other.secs && self.nanos < other.nanos)
    }

    /// Whether two points are the same.
    pub fn same_as(&self, other: &Timestamp) -> (r: bool)
        ensures
            r == (*self == *other),
    {
        self.secs == other.secs && self.nanos == other.nanos
    }

    /// The Unix epoch.
    pub fn epoch() -> (r: Timestamp)
        ensures
            r == Timestamp::at(0, 0),
    {
        Timestamp { secs: 0, nanos: 0 }
    }

    /// The point so many seconds after the epoch, if the calendar holds it.
    pub fn from_seconds(secs: i64) -> (r: Option<Timestamp>)
        ensures
            r == (if MIN_SECS <= secs <= MAX_SECS {
                Some(Timestamp::at(secs, 0))
            } else {
                None
            }),
    {
        call_from_timestamp(secs)
    }

    /// The point so many milliseconds after the epoch, if the calendar holds it.
    pub fn from_millis(millis: i64) -> (r: Option<Timestamp>)
        ensures
            r == (if MIN_SECS <= millis / 1000 <= MAX_SECS {
                Some(Timestamp::at((millis / 1000) as i64, ((millis % 1000) * 1_000_000) as u32))
            } else {
                None
            }),
            r matches Some(at) ==> at.millis() == millis,
    {
        let r = call_from_timestamp_millis(millis);
        proof {
            let n = (millis % 1000) * 1_000_000;
            assert(0 <= n < 1_000_000_000);
            assert((n as u32) / 1_000_000 == millis % 1000);
        }
        r
    }

    /// Whole milliseconds since the Unix epoch.
    pub fn timestamp_millis(&self) -> (r: i64)
        ensures
            r == self.millis(),
    {
        proof {
            use_type_invariant(self);
        }
        self.secs * 1000 + (self.nanos / 1_000_000) as i64
    }

    /// The point that an RFC 3339 text stands for.
    pub fn parse_rfc3339(text: &str) -> (r: Result<Timestamp, String>)
        ensures
            rfc3339_result(r) == rfc3339_parsed(text@),
    {
        call_parse_rfc3339(text)
    }

    /// The point that an RFC 2822 date stands for.
    pub fn parse_rfc2822(text: &str) -> (r: Option<Timestamp>)
        ensures
            r matches Some(at) ==> rfc2822_parsed(text@) == Some((at.secs(), at.nanos())),
            r is None ==> rfc2822_parsed(text@) is None,
    {
        call_parse_rfc2822(text)
    }

    /// The RFC 3339 text with the offset `+00:00`.
    pub fn rfc3339(&self) -> (r: String)
        ensures
            r@ == rfc3339_offset(self.secs(), self.nanos()),
            FOUR_DIGIT_MIN <= self.secs() <= FOUR_DIGIT_MAX && self.nanos() < 1_000_000_000
                ==> rfc3339_parsed(r@) is Ok && rfc3339_parsed(r@)->Ok_0 == (self.secs(), self.nanos()),
            !r@.contains('|'),
    {
        call_to_rfc3339(*self)
    }

    /// The text in which dates stand in JSON: RFC 3339 with the offset `Z`.
    pub fn json_form(&self) -> (r: String)
        ensures
            r@ == rfc3339_zulu(self.secs(), self.nanos()),
    {
        call_to_rfc3339_opts(*self)
    }

    /// The calendar date in the form `YYYY-MM-DD`.
    pub fn date(&self) -> (r: String)
        ensures
            r@ == calendar_date(self.secs(), self.nanos()),
    {
        call_format_date(*self)
    }
}

} // verus!
