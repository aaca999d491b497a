//! Moments in time: acquisition times and the wall clock.

use vstd::prelude::*;
use crate::text::Text;
use crate::{number, text};

verus! {

/// A moment: seconds since 1970-01-01T00:00:00Z and nanoseconds past them.
/// Within a leap second the nanoseconds go on past a thousand million.
#[derive(Clone, Copy, Debug, PartialEq, Eq, Structural)]
pub struct Moment {
    pub secs: i64,
    pub nanos: u32,
}

/// Is `a` at or before `b`?
pub open spec fn at_or_before(a: Moment, b: Moment) -> bool {
    a.secs < b.secs || (a.secs == b.secs && a.nanos <= b.nanos)
}

impl Moment {
    pub fn not_after(&self, other: &Moment) -> (r: bool)
        ensures
            r == at_or_before(*self, *other),
    {
        self.secs < other.secs || (self.secs == other.secs && self.nanos <= other.nanos)
    }
}

/// The seconds and nanoseconds of the moment `minutes` before `t`. A moment
/// within a leap second counts as the second after it.
pub open spec fn minutes_before(t: Moment, minutes: nat) -> (int, int) {
    if minutes > 0 && t.nanos >= 1_000_000_000 {
        (t.secs + 1 - 60 * minutes, t.nanos - 1_000_000_000)
    } else {
        (t.secs - 60 * minutes, t.nanos as int)
    }
}

/// Is `t` no earlier than `minutes` before the anchor?
pub open spec fn within(t: Moment, anchor: Moment, minutes: nat) -> bool {
    let (secs, nanos) = minutes_before(anchor, minutes);
    secs < t.secs || (secs == t.secs && nanos <= t.nanos)
}

pub fn is_within(t: &Moment, anchor: &Moment, minutes: u32) -> (r: bool)
    ensures
        r == within(*t, *anchor, minutes as nat),
{
    let back: i128 = 60 * (minutes as i128);
    let leap = minutes > 0 && anchor.nanos >= 1_000_000_000;
    let secs: i128 = anchor.secs as i128 - back + (if leap {
        1
    } else {
        0
    });
    let nanos: u32 = if leap {
        anchor.nanos - 1_000_000_000
    } else {
        anchor.nanos
    };
    let at: i128 = t.secs as i128;
    secs < at || (secs == at && nanos <= t.nanos)
}

/// The nanoseconds from one moment to another. A leap second counts in full
/// where one of the two lies within it and the other at a later time of day;
/// days in between count without theirs.
pub open spec fn nanos_between(from: Moment, to: Moment) -> int {
    let a = from.secs % 86_400;
    let b = to.secs % 86_400;
    let leap = if b > a && from.nanos >= 1_000_000_000 {
        1int
    } else if b < a && to.nanos >= 1_000_000_000 {
        -1int
    } else {
        0int
    };
    (to.secs - from.secs + leap) * 1_000_000_000 + to.nanos - from.nanos
}

/// The second of its day that a moment lies in.
fn second_of_day(m: &Moment) -> (r: i64)
    ensures
        r == m.secs % 86_400,
{
    let past: i64 = m.secs % 86_400;
    if past < 0 {
        past + 86_400
    } else {
        past
    }
}

/// The nanoseconds from one moment to another.
pub fn elapsed(from: &Moment, to: &Moment) -> (r: i128)
    ensures
        r == nanos_between(*from, *to),
{
    let a = second_of_day(from);
    let b = second_of_day(to);
    let leap: i128 = if b > a && from.nanos >= 1_000_000_000 {
        1
    } else if b < a && to.nanos >= 1_000_000_000 {
        -1
    } else {
        0
    };
    let secs: i128 = to.secs as i128 - from.secs as i128 + leap;
    secs * 1_000_000_000 + to.nanos as i128 - from.nanos as i128
}

/// The moment an RFC 3339 text stands for, as seconds and nanoseconds since
/// 1970-01-01T00:00:00Z, and the seconds its clock is ahead of UTC; `None`
/// for any other text.
pub uninterp spec fn rfc3339(s: Text) -> Option<(i64, u32, i32)>;

/// `chrono::DateTime::parse_from_rfc3339`, its result taken as the
/// timestamp (`timestamp`), the nanoseconds past it
/// (`timestamp_subsec_nanos`) and the offset (`offset`,
/// `local_minus_utc`); a text it refuses gives `None`. What it accepts
/// depends on the text alone and is named [`rfc3339`].
#[verifier::external_body]
fn parse_rfc3339(s: &str) -> (r: Option<(i64, u32, i32)>)
    ensures
        r == rfc3339(s@),
{
    match chrono::DateTime::parse_from_rfc3339(s) {
        Ok(t) => Some((t.timestamp(), t.timestamp_subsec_nanos(), t.offset().local_minus_utc())),
        Err(_) => None,
    }
}

/// The moment a text stands for, with whitespace around it allowed.
pub open spec fn moment(s: Text) -> Option<Moment> {
    match rfc3339(text::trimmed(s)) {
        Some((secs, nanos, _)) => Some(Moment { secs, nanos }),
        None => None,
    }
}

/// The seconds that the clock of a recorded time is ahead of UTC.
pub open spec fn zone(s: Text) -> Option<i32> {
    match rfc3339(text::trimmed(s)) {
        Some((_, _, ahead)) => Some(ahead),
        None => None,
    }
}

/// Read an RFC 3339 time such as `2026-06-13T13:49:50.064875667-04:00`.
pub fn parse_moment(s: &str) -> (r: Option<Moment>)
    ensures
        r == moment(s@),
{
    let t = text::trim(s);
    match parse_rfc3339(t.as_str()) {
        Some((secs, nanos, _)) => Some(Moment { secs, nanos }),
        None => None,
    }
}

/// Read how far the clock of an RFC 3339 time is ahead of UTC, in seconds.
pub fn parse_zone(s: &str) -> (r: Option<i32>)
    ensures
        r == zone(s@),
{
    let t = text::trim(s);
    match parse_rfc3339(t.as_str()) {
        Some((_, _, ahead)) => Some(ahead),
        None => None,
    }
}

/// `HH:MM:SS` of a moment on a clock `ahead` seconds ahead of UTC; the second
/// within a leap second is the sixtieth.
pub open spec fn time_of_day(m: Moment, ahead: int) -> Text {
    let second = (m.secs + ahead) % 86_400;
    let leap = if m.nanos >= 1_000_000_000 {
        1int
    } else {
        0int
    };
    number::two_digits((second / 3600) as nat) + ":"@ + number::two_digits(
        (second / 60 % 60) as nat,
    ) + ":"@ + number::two_digits((second % 60 + leap) as nat)
}

pub fn clock_time(m: &Moment, ahead: i32) -> (r: String)
    ensures
        r@ == time_of_day(*m, ahead as int),
{
    let day: i128 = 86_400;
    let at: i128 = m.secs as i128 + ahead as i128;
    let past: i128 = at % day;
    let second: u64 = if past < 0 {
        (past + day) as u64
    } else {
        past as u64
    };
    assert(second == (m.secs + ahead) % 86_400);
    let leap: u64 = if m.nanos >= 1_000_000_000 {
        1
    } else {
        0
    };
    let h = number::two_digit_text(second / 3600);
    let min = number::two_digit_text(second / 60 % 60);
    let sec = number::two_digit_text(second % 60 + leap);
    text::cat5(h.as_str(), ":", min.as_str(), ":", sec.as_str())
}

// ---------------------------------------------------------------------
// The wall clock

/// How the wall clock is written: `YYYY-MM-DD HH:MM:SS`.
pub const CLOCK_FORMAT: &'static str = "%Y-%m-%d %H:%M:%S";

/// A moment, given as the seconds since 1970-01-01T00:00:00Z and the
/// nanoseconds past them, on a clock `offset` seconds ahead of UTC, as the
/// format has it; `None` beyond the calendar.
pub uninterp spec fn clock_of(secs: i64, nanos: u32, offset: i32, format: Text) -> Option<Text>;

/// `format` of chrono's time of a moment (`DateTime::from_timestamp`) on a
/// clock with a fixed offset (`FixedOffset::east_opt`, `with_timezone`): the
/// calendar text, named [`clock_of`]; `None` where the calendar does not
/// reach. The nanoseconds go past a thousand million within a leap second
/// alone, which is the last second of its minute, and the offset is less
/// than a day. A format that chrono does not know would panic, so it is
/// [`CLOCK_FORMAT`].
#[verifier::external_body]
fn format_clock(secs: i64, nanos: u32, offset: i32, format: &str) -> (r: Option<String>)
    requires
        format@ == CLOCK_FORMAT@,
    ensures
        text::opt_text(r) == clock_of(secs, nanos, offset, format@),
        r is Some ==> nanos < 2_000_000_000 && (nanos >= 1_000_000_000 ==> secs % 60 == 59)
            && -86_400 < offset < 86_400,
{
    let zone = chrono::FixedOffset::east_opt(offset)?;
    let t = chrono::DateTime::from_timestamp(secs, nanos)?;
    Some(t.with_timezone(&zone).format(format).to_string())
}

/// A reading of the local wall clock.
pub struct LocalTime {
    at: Moment,
    text: String,
}

/// The last second, either way from 1970, a wall clock can show.
pub const LAST_SECOND: i64 = 9_000_000_000_000;

impl LocalTime {
    /// When it was taken.
    pub closed spec fn moment(&self) -> Moment {
        self.at
    }

    /// Its calendar text.
    pub closed spec fn clock(&self) -> Text {
        self.text@
    }

    #[verifier::type_invariant]
    closed spec fn in_range(&self) -> bool {
        &&& -LAST_SECOND <= self.at.secs <= LAST_SECOND
        &&& self.at.nanos < 2_000_000_000
        &&& self.at.nanos >= 1_000_000_000 ==> self.at.secs % 60 == 59
    }

    /// The reading at `secs` seconds and `nanos` nanoseconds since
    /// 1970-01-01T00:00:00Z, on a clock `offset` seconds ahead of UTC.
    pub fn new(secs: i64, nanos: u32, offset: i32) -> (r: Option<LocalTime>)
        ensures
            r is Some <==> -LAST_SECOND <= secs <= LAST_SECOND && clock_of(
                secs,
                nanos,
                offset,
                CLOCK_FORMAT@,
            ) is Some,
            r matches Some(t) ==> {
                &&& t.moment() == (Moment { secs, nanos })
                &&& Some(t.clock()) == clock_of(secs, nanos, offset, CLOCK_FORMAT@)
                &&& nanos < 2_000_000_000
                &&& nanos >= 1_000_000_000 ==> secs % 60 == 59
            },
    {
        if secs < -LAST_SECOND || secs > LAST_SECOND {
            return None;
        }
        match format_clock(secs, nanos, offset, CLOCK_FORMAT) {
            Some(text) => Some(LocalTime { at: Moment { secs, nanos }, text }),
            None => None,
        }
    }

    /// Local wall-clock time, as the summary log prints it.
    pub fn clock_text(&self) -> (r: &str)
        ensures
            r@ == self.clock(),
    {
        self.text.as_str()
    }
}

/// The whole seconds between two readings, towards zero.
pub open spec fn whole_seconds(started: LocalTime, ended: LocalTime) -> int {
    let nanos = nanos_between(started.moment(), ended.moment());
    if nanos >= 0 {
        nanos / 1_000_000_000
    } else {
        -((-nanos) / 1_000_000_000)
    }
}

pub fn seconds_between(started: &LocalTime, ended: &LocalTime) -> (r: i64)
    ensures
        r == whole_seconds(*started, *ended),
{
    proof {
        use_type_invariant(started);
        use_type_invariant(ended);
    }
    let nanos = elapsed(&started.at, &ended.at);
    if nanos >= 0 {
        (nanos / 1_000_000_000) as i64
    } else {
        -(((-nanos) / 1_000_000_000) as i64)
    }
}

} // verus!
