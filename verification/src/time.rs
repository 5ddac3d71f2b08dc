//! Points in time, as the records hold them, and the calendar.

use crate::codec::{
    i64_layout, lands, lemma_i64_is_canonical, lemma_i64_round_trip, lemma_u32_is_canonical,
    lemma_u32_round_trip, parse_i64, parse_u32, put_i64, put_u32, take_i64, take_u32, u32_layout,
};
use vstd::prelude::*;

verus! {

/// A point on the UTC time line: whole seconds since 1970-01-01T00:00:00Z
/// and the nanoseconds into that second. Two timestamps are ordered by
/// seconds first, then by nanoseconds.
#[derive(Clone, Copy, Debug, PartialEq, Eq, Structural, PartialOrd, Ord, Hash)]
pub struct Timestamp {
    pub secs: i64,
    pub nanos: u32,
}

/// A day of the calendar: the year of the common era, the month from 1 to
/// 12 and the day of the month from 1 to 31.
#[derive(Clone, Copy, Debug, PartialEq, Eq, Structural, Hash)]
pub struct Date {
    pub year: u32,
    pub month: u32,
    pub day: u32,
}

/// Seconds in a day.
pub const DAY: i64 = 86_400;

/// The calendar day, as year, month and day of the month, on which the
/// second `secs` of the time line falls, or nothing where the calendar does
/// not reach that far.
pub uninterp spec fn calendar_day(secs: i64) -> Option<(u32, u32, u32)>;

/// The day that `chrono` gives for a number of seconds since the epoch:
/// `DateTime::from_timestamp`, then `year_ce`, `month` and `day` of the
/// result. The month lies between 1 and 12 and the day between 1 and 31.
#[verifier::external_body]
fn chrono_day(secs: i64) -> (r: Option<(u32, u32, u32)>)
    ensures
        r == calendar_day(secs),
        r matches Some((_, month, day)) ==> 1 <= month <= 12 && 1 <= day <= 31,
{
    match chrono::DateTime::from_timestamp(secs, 0) {
        Some(t) => Some(
            (
                chrono::Datelike::year_ce(&t).1,
                chrono::Datelike::month(&t),
                chrono::Datelike::day(&t),
            ),
        ),
        None => None,
    }
}

/// The calendar day of `t` on a clock that is `offset` seconds ahead of
/// UTC, or nothing where the calendar does not reach that far.
pub open spec fn day_of(t: Timestamp, offset: i32) -> Option<Date> {
    if i64::MIN <= t.secs + offset <= i64::MAX {
        match calendar_day((t.secs + offset) as i64) {
            Some((year, month, day)) => Some(Date { year, month, day }),
            None => None,
        }
    } else {
        None
    }
}

/// The second of the day, from 0 to 86399, that a clock shows which is
/// `offset` seconds ahead of UTC.
pub open spec fn second_of_day(t: Timestamp, offset: i32) -> int {
    (t.secs + offset) % 86_400
}

/// Seconds from `t` to the next time that such a clock shows 23:59:59.
pub open spec fn seconds_to_day_end(t: Timestamp, offset: i32) -> int {
    86_399 - second_of_day(t, offset)
}

/// The second of the day on which the second `v` of the time line falls.
fn second_in_day(v: i64) -> (s: i64)
    ensures
        s == v % 86_400,
        0 <= s < 86_400,
{
    if v >= 0 {
        v % DAY
    } else {
        DAY - 1 - (-(v + 1)) % DAY
    }
}

impl Timestamp {
    /// Strictly later on the time line.
    pub open spec fn later_than(self, other: Timestamp) -> bool {
        self.secs > other.secs || (self.secs == other.secs && self.nanos > other.nanos)
    }

    /// At the same point or later.
    pub open spec fn not_before(self, other: Timestamp) -> bool {
        self == other || self.later_than(other)
    }

    pub fn new(secs: i64, nanos: u32) -> (t: Timestamp)
        ensures
            t.secs == secs,
            t.nanos == nanos,
    {
        Timestamp { secs, nanos }
    }

    pub fn is_after(&self, other: &Timestamp) -> (r: bool)
        ensures
            r == self.later_than(*other),
    {
        self.secs > other.secs || (self.secs == other.secs && self.nanos > other.nanos)
    }

    /// The calendar day of this time on a clock that is `offset` seconds
    /// ahead of UTC, or nothing where the calendar does not reach that far.
    pub fn day(&self, offset: i32) -> (r: Option<Date>)
        ensures
            r == day_of(*self, offset),
            r matches Some(date) ==> 1 <= date.month <= 12 && 1 <= date.day <= 31,
    {
        let local: i64 = match self.secs.checked_add(offset as i64) {
            Some(v) => v,
            None => { return None; },
        };
        match chrono_day(local) {
            Some((year, month, day)) => Some(Date { year, month, day }),
            None => None,
        }
    }

    /// Seconds from this time to the next 23:59:59 on a clock that is
    /// `offset` seconds ahead of UTC: none at 23:59:59 itself, 86399 one
    /// second later.
    pub fn until_day_end(&self, offset: i32) -> (wait: u32)
        ensures
            wait == seconds_to_day_end(*self, offset),
            wait < 86_400,
    {
        let shown: i64 = (second_in_day(self.secs) + second_in_day(offset as i64)) % DAY;
        assert(shown == (self.secs + offset) % 86_400);
        (DAY - 1 - shown) as u32
    }
}

/// Twelve bytes: the seconds, then the nanoseconds.
pub open spec fn timestamp_layout(t: Timestamp) -> Seq<u8> {
    i64_layout(t.secs) + u32_layout(t.nanos)
}

pub open spec fn parse_timestamp(s: Seq<u8>) -> Option<(Timestamp, int)> {
    match parse_i64(s) {
        Some((secs, _)) => match parse_u32(s.skip(8)) {
            Some((nanos, _)) => Some((Timestamp { secs, nanos }, 12)),
            None => None,
        },
        None => None,
    }
}

/// One tag byte, 0 for an absent time and 1 for a present one, which the
/// timestamp then follows.
pub open spec fn opt_timestamp_layout(t: Option<Timestamp>) -> Seq<u8> {
    match t {
        Some(t) => seq![1u8] + timestamp_layout(t),
        None => seq![0u8],
    }
}

pub open spec fn parse_opt_timestamp(s: Seq<u8>) -> Option<(Option<Timestamp>, int)> {
    if s.len() == 0 {
        None
    } else if s[0] == 0 {
        Some((None, 1))
    } else if s[0] == 1 {
        match parse_timestamp(s.skip(1)) {
            Some((t, _)) => Some((Some(t), 13)),
            None => None,
        }
    } else {
        None
    }
}

pub proof fn lemma_timestamp_round_trip(t: Timestamp, rest: Seq<u8>)
    ensures
        timestamp_layout(t).len() == 12,
        parse_timestamp(timestamp_layout(t) + rest) == Some((t, 12int)),
{
    let s = timestamp_layout(t) + rest;
    lemma_i64_round_trip(t.secs, u32_layout(t.nanos) + rest);
    lemma_u32_round_trip(t.nanos, rest);
    assert(s =~= i64_layout(t.secs) + (u32_layout(t.nanos) + rest));
    assert(s.skip(8) =~= u32_layout(t.nanos) + rest);
}

pub proof fn lemma_opt_timestamp_round_trip(t: Option<Timestamp>, rest: Seq<u8>)
    ensures
        opt_timestamp_layout(t).len() == (if t is Some { 13int } else { 1int }),
        parse_opt_timestamp(opt_timestamp_layout(t) + rest) == Some(
            (t, opt_timestamp_layout(t).len() as int),
        ),
{
    let s = opt_timestamp_layout(t) + rest;
    match t {
        Some(v) => {
            lemma_timestamp_round_trip(v, rest);
            assert(s.skip(1) =~= timestamp_layout(v) + rest);
            assert(s[0] == 1);
        },
        None => {
            assert(s[0] == 0);
        },
    }
}

/// A timestamp is read from its own layout and from no other bytes.
pub proof fn lemma_timestamp_is_canonical(s: Seq<u8>)
    ensures
        parse_timestamp(s) matches Some((t, n)) ==> n == 12 <= s.len() && timestamp_layout(t)
            == s.subrange(0, 12),
{
    lemma_i64_is_canonical(s);
    lemma_u32_is_canonical(s.skip(8));
    match parse_timestamp(s) {
        Some((t, n)) => {
            assert(s.skip(8).subrange(0, 4) =~= s.subrange(8, 12));
            assert(s.subrange(0, 12) =~= s.subrange(0, 8) + s.subrange(8, 12));
        },
        None => {},
    }
}

/// An optional timestamp is read from its own layout and from no other
/// bytes.
pub proof fn lemma_opt_timestamp_is_canonical(s: Seq<u8>)
    ensures
        parse_opt_timestamp(s) matches Some((t, n)) ==> 1 <= n <= s.len() && n
            == opt_timestamp_layout(t).len() && opt_timestamp_layout(t) == s.subrange(0, n),
{
    match parse_opt_timestamp(s) {
        Some((Some(t), n)) => {
            lemma_timestamp_is_canonical(s.skip(1));
            assert(s.skip(1).subrange(0, 12) =~= s.subrange(1, 13));
            assert(s.subrange(0, 13) =~= seq![1u8] + s.subrange(1, 13));
        },
        Some((None, n)) => {
            assert(s.subrange(0, 1) =~= seq![0u8]);
        },
        None => {},
    }
}

pub fn put_timestamp(out: &mut Vec<u8>, t: &Timestamp)
    ensures
        final(out)@ == old(out)@ + timestamp_layout(*t),
{
    put_i64(out, t.secs);
    put_u32(out, t.nanos);
    assert(out@ =~= old(out)@ + timestamp_layout(*t));
}

pub fn put_opt_timestamp(out: &mut Vec<u8>, t: &Option<Timestamp>)
    ensures
        final(out)@ == old(out)@ + opt_timestamp_layout(*t),
{
    match t {
        Some(v) => {
            out.push(1u8);
            put_timestamp(out, v);
        },
        None => {
            out.push(0u8);
        },
    }
    assert(out@ =~= old(out)@ + opt_timestamp_layout(*t));
}

pub fn take_timestamp(bytes: &[u8], pos: usize) -> (r: Option<(Timestamp, usize)>)
    ensures
        pos <= bytes@.len() ==> lands(r, parse_timestamp(bytes@.skip(pos as int)), pos),
        pos > bytes@.len() ==> r is None,
        r matches Some((_, next)) ==> pos < next <= bytes@.len(),
{
    let (secs, mid) = match take_i64(bytes, pos) {
        Some(p) => p,
        None => { return None; },
    };
    assert(bytes@.skip(pos as int).skip(8) =~= bytes@.skip(mid as int));
    match take_u32(bytes, mid) {
        Some((nanos, next)) => Some((Timestamp { secs, nanos }, next)),
        None => None,
    }
}

pub fn take_opt_timestamp(bytes: &[u8], pos: usize) -> (r: Option<(Option<Timestamp>, usize)>)
    ensures
        pos <= bytes@.len() ==> lands(r, parse_opt_timestamp(bytes@.skip(pos as int)), pos),
        pos > bytes@.len() ==> r is None,
        r matches Some((_, next)) ==> pos < next <= bytes@.len(),
{
    if pos >= bytes.len() {
        return None;
    }
    let tag: u8 = bytes[pos];
    if tag == 0 {
        Some((None, pos + 1))
    } else if tag == 1 {
        assert(bytes@.skip(pos as int).skip(1) =~= bytes@.skip(pos + 1));
        match take_timestamp(bytes, pos + 1) {
            Some((t, next)) => Some((Some(t), next)),
            None => None,
        }
    } else {
        None
    }
}

} // verus!
