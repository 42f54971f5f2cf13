//! Instants as UNIX seconds and nanoseconds, and their XMLTV rendering.
use chrono::{DateTime, FixedOffset};

use vstd::prelude::*;

verus! {

/// Whether `DateTime::from_timestamp(secs, nanos)` gives a date and time:
/// the day lies between January 1 of year -262143 and December 31 of year
/// 262142 (chrono's date range), and the fraction is below a second, or
/// below two seconds in the last second of a minute (a leap second).
pub open spec fn chrono_instant_exists(secs: int, nanos: int) -> bool {
    &&& -8_334_601_228_800 <= secs <= 8_210_266_876_799
    &&& 0 <= nanos
    &&& (nanos < 1_000_000_000 || (nanos < 2_000_000_000 && secs % 60 == 59))
}

/// What the XMLTV time of an instant reads at a UTC offset in seconds:
/// chrono's `%Y%m%d%H%M%S %z` rendering of the instant in that offset.
pub uninterp spec fn xmltv_time_text(secs: int, nanos: int, offset_secs: int) -> Seq<char>;

/// What `DateTime::parse_from_rfc3339` reads from a text, as UNIX seconds
/// and nanoseconds of the instant it denotes.
pub uninterp spec fn rfc3339_instant(text: Seq<char>) -> Option<(int, int)>;

/// What chrono's `to_rfc3339` writes for the instant in UTC.
pub uninterp spec fn rfc3339_text(secs: int, nanos: int) -> Seq<char>;

/// `DateTime::<Utc>::from_timestamp(secs, nanos).is_some()`: chrono
/// checks the day against its date range and the second of the day and the
/// fraction against the time of day, as `chrono_instant_exists` states.
#[verifier::external_body]
fn instant_exists(secs: i64, nanos: u32) -> (res: bool)
    ensures
        res == chrono_instant_exists(secs as int, nanos as int),
{
    DateTime::from_timestamp(secs, nanos).is_some()
}

/// `FixedOffset::east_opt(secs).is_some()`: chrono accepts offsets strictly
/// between minus and plus one day.
#[verifier::external_body]
fn fixed_offset_exists(secs: i32) -> (res: bool)
    ensures
        res == (-86_400 < secs && secs < 86_400),
{
    FixedOffset::east_opt(secs).is_some()
}

/// The instant in `FixedOffset::east_opt(offset_secs)`, formatted by chrono
/// with `%Y%m%d%H%M%S %z`.
#[verifier::external_body]
fn format_in_offset(secs: i64, nanos: u32, offset_secs: i32) -> (res: String)
    requires
        chrono_instant_exists(secs as int, nanos as int),
        -86_400 < offset_secs < 86_400,
    ensures
        res@ == xmltv_time_text(secs as int, nanos as int, offset_secs as int),
{
    let utc = DateTime::from_timestamp(secs, nanos).unwrap();
    let offset = FixedOffset::east_opt(offset_secs).unwrap();
    utc.with_timezone(&offset).format("%Y%m%d%H%M%S %z").to_string()
}

/// `DateTime::parse_from_rfc3339`, taken to UTC seconds and nanoseconds.
/// An instant that chrono parses is one that chrono can represent.
#[verifier::external_body]
fn parse_rfc3339_parts(text: &str) -> (res: Option<(i64, u32)>)
    ensures
        res matches Some(p) ==> rfc3339_instant(text@) == Some((p.0 as int, p.1 as int))
            && chrono_instant_exists(p.0 as int, p.1 as int),
        res is None ==> rfc3339_instant(text@) is None,
{
    match DateTime::parse_from_rfc3339(text) {
        Ok(dt) => Some((dt.timestamp(), dt.timestamp_subsec_nanos())),
        Err(_) => None,
    }
}

/// `DateTime::<Utc>::to_rfc3339` of the instant.
#[verifier::external_body]
fn format_rfc3339(secs: i64, nanos: u32) -> (res: String)
    requires
        chrono_instant_exists(secs as int, nanos as int),
    ensures
        res@ == rfc3339_text(secs as int, nanos as int),
{
    DateTime::from_timestamp(secs, nanos).unwrap().to_rfc3339()
}

/// An instant: seconds since the UNIX epoch and nanoseconds within that
/// second (at or above one second during a leap second), always one that
/// chrono can represent.
#[derive(Clone, Copy)]
pub struct Timestamp {
    secs: i64,
    nanos: u32,
}

impl View for Timestamp {
    type V = (int, int);

    closed spec fn view(&self) -> (int, int) {
        (self.secs as int, self.nanos as int)
    }
}

/// The order of instants: by seconds, then by the fraction.
pub open spec fn ts_lt(a: (int, int), b: (int, int)) -> bool {
    a.0 < b.0 || (a.0 == b.0 && a.1 < b.1)
}

pub open spec fn ts_le(a: (int, int), b: (int, int)) -> bool {
    !ts_lt(b, a)
}

/// `millis` split as chrono's `from_timestamp_millis` splits it.
pub open spec fn millis_parts(millis: int) -> (int, int) {
    (millis / 1000, (millis % 1000) * 1_000_000)
}

impl Timestamp {
    #[verifier::type_invariant]
    spec fn inv(self) -> bool {
        chrono_instant_exists(self.secs as int, self.nanos as int)
    }

    /// The instant `secs` seconds and `nanos` nanoseconds after the epoch,
    /// if chrono can represent it.
    pub fn from_parts(secs: i64, nanos: u32) -> (res: Option<Timestamp>)
        ensures
            res is Some <==> chrono_instant_exists(secs as int, nanos as int),
            res matches Some(t) ==> t@ == (secs as int, nanos as int),
    {
        if instant_exists(secs, nanos) {
            Some(Timestamp { secs, nanos })
        } else {
            None
        }
    }

    /// The instant `millis` milliseconds after the epoch, as
    /// `Utc.timestamp_millis_opt(millis).single()` gives it.
    pub fn from_millis(millis: i64) -> (res: Option<Timestamp>)
        ensures
            res is Some <==> chrono_instant_exists(millis_parts(millis as int).0, millis_parts(
                millis as int,
            ).1),
            res matches Some(t) ==> t@ == millis_parts(millis as int),
    {
        let secs = match millis.checked_div_euclid(1000) {
            Some(q) => q,
            None => 0,
        };
        let rem = match millis.checked_rem_euclid(1000) {
            Some(r) => r,
            None => 0,
        };
        let nanos = (rem as u32) * 1_000_000;
        Timestamp::from_parts(secs, nanos)
    }

    /// The instant that an RFC 3339 text denotes, as
    /// `DateTime::parse_from_rfc3339(text)` reads it.
    pub fn parse_rfc3339(text: &str) -> (res: Option<Timestamp>)
        ensures
            res is Some <==> rfc3339_instant(text@) is Some,
            res matches Some(t) ==> rfc3339_instant(text@) == Some(t@),
    {
        match parse_rfc3339_parts(text) {
            Some((secs, nanos)) => Some(Timestamp { secs, nanos }),
            None => None,
        }
    }

    pub fn secs(&self) -> (res: i64)
        ensures
            res as int == self@.0,
    {
        self.secs
    }

    pub fn nanos(&self) -> (res: u32)
        ensures
            res as int == self@.1,
    {
        self.nanos
    }

    /// The instant in RFC 3339, in UTC.
    pub fn to_rfc3339(&self) -> (res: String)
        ensures
            res@ == rfc3339_text(self@.0, self@.1),
    {
        proof {
            use_type_invariant(self);
        }
        format_rfc3339(self.secs, self.nanos)
    }

    /// Whether `self` is strictly before `other`.
    pub fn before(&self, other: &Timestamp) -> (res: bool)
        ensures
            res == ts_lt(self@, other@),
    {
        self.secs < other.secs || (self.secs == other.secs && self.nanos < other.nanos)
    }

    /// Whether two instants are the same.
    pub fn same(&self, other: &Timestamp) -> (res: bool)
        ensures
            res == (self@ == other@),
    {
        self.secs == other.secs && self.nanos == other.nanos
    }

    /// Whole seconds from `self` to `later`, rounded toward zero, as
    /// chrono's `num_seconds` of their difference.
    pub fn seconds_until(&self, later: &Timestamp) -> (res: i64)
        ensures
            res == duration_seconds_spec(self@, later@),
    {
        proof {
            use_type_invariant(self);
            use_type_invariant(later);
        }
        let total: i128 = (later.secs as i128 - self.secs as i128) * 1_000_000_000 + (later.nanos as i128
            - self.nanos as i128);
        let q: i128 = if total >= 0 {
            total / 1_000_000_000
        } else {
            -((-total) / 1_000_000_000)
        };
        q as i64
    }
}

/// Whole seconds between two instants, rounded toward zero.
pub open spec fn duration_seconds_spec(a: (int, int), b: (int, int)) -> int {
    let total = (b.0 - a.0) * 1_000_000_000 + (b.1 - a.1);
    if total >= 0 {
        total / 1_000_000_000
    } else {
        -((-total) / 1_000_000_000)
    }
}

/// The offset that `format_xmltv_time` applies: the given minutes in
/// seconds, or UTC where chrono refuses that offset.
pub open spec fn effective_offset(offset_minutes: int) -> int {
    let s = offset_minutes * 60;
    if -86_400 < s && s < 86_400 {
        s
    } else {
        0
    }
}

/// What `format_xmltv_time` returns.
pub open spec fn xmltv_time_spec(t: (int, int), offset_minutes: int) -> Seq<char> {
    xmltv_time_text(t.0, t.1, effective_offset(offset_minutes))
}

/// The instant as XMLTV writes it, `YYYYMMDDhhmmss +hhmm`, in the offset
/// of `offset_minutes` (UTC where that offset is out of range).
pub fn format_xmltv_time(value: &Timestamp, offset_minutes: i32) -> (res: String)
    requires
        i32::MIN <= offset_minutes * 60 <= i32::MAX,
    ensures
        res@ == xmltv_time_spec(value@, offset_minutes as int),
{
    proof {
        use_type_invariant(value);
    }
    let offset_seconds = offset_minutes * 60;
    let offset = if fixed_offset_exists(offset_seconds) {
        offset_seconds
    } else {
        0
    };
    format_in_offset(value.secs, value.nanos, offset)
}

} // verus!
