//! The boundary to civil time: the system clock and the local time zone,
//! and the one policy applied to what they hand back. The wrappers cross
//! into chrono; the rest of the crate works on the plain seconds and
//! calendar fields they return, chosen through `pick_bound`.

use chrono::{Datelike, TimeZone, Timelike};
use vstd::prelude::*;

use crate::dates::{valid_date, Date};

verus! {

/// A bound on every timestamp chrono can represent: its date types span
/// about ±262,000 years around the epoch, below 2^45 seconds.
pub const TS_LIMIT: i64 = 0x2000_0000_0000;

/// Relies on std's `SystemTime::now` and `duration_since`: the system
/// clock's whole-second offset from the Unix epoch, negative for a clock
/// before it. Both sides of `duration_since` are taken, so a pre-epoch
/// clock comes back as a value, never a panic; an offset beyond `i64`
/// seconds saturates. Nothing is assumed of where the clock points.
#[verifier::external_body]
fn raw_now_ts() -> (r: i64) {
    match std::time::SystemTime::now().duration_since(std::time::UNIX_EPOCH) {
        Ok(d) => i64::try_from(d.as_secs()).unwrap_or(i64::MAX),
        Err(e) => i64::try_from(e.duration().as_secs()).map_or(i64::MIN, |s| -s),
    }
}

/// The current instant, as whole seconds since the Unix epoch, brought
/// within the span civil-time conversion can represent. A clock pointing
/// more than a million millennia from the epoch saturates at the span's
/// edge instead.
pub fn now_ts() -> (r: i64)
    ensures
        -TS_LIMIT < r < TS_LIMIT,
{
    let r = raw_now_ts();
    if r >= TS_LIMIT {
        TS_LIMIT - 1
    } else if r <= -TS_LIMIT {
        -TS_LIMIT + 1
    } else {
        r
    }
}

/// Relies on chrono's `TimeZone::from_local_datetime` for the local zone:
/// the instants a local civil time names, earliest first. `None` stands for
/// a local time skipped over by a clock transition; one instant comes back
/// doubled when the mapping is unique. Which instants they are depends on
/// the machine's time zone, so nothing more is stated.
#[verifier::external_body]
pub fn local_civil_to_ts(d: Date, hour: u8, minute: u8, second: u8) -> (r: Option<(i64, i64)>)
    requires
        valid_date(d),
        -262143 <= d.year <= 262142,
        hour < 24,
        minute < 60,
        second < 60,
    ensures
        match r {
            Some(p) => -TS_LIMIT < p.0 <= p.1 < TS_LIMIT,
            None => true,
        },
{
    let nd = chrono::NaiveDate::from_ymd_opt(d.year, d.month as u32, d.day as u32)?;
    let ndt = nd.and_hms_opt(hour as u32, minute as u32, second as u32)?;
    match chrono::Local.from_local_datetime(&ndt) {
        chrono::LocalResult::Single(t) => Some((t.timestamp(), t.timestamp())),
        chrono::LocalResult::Ambiguous(earliest, latest) => {
            Some((earliest.timestamp(), latest.timestamp()))
        },
        chrono::LocalResult::None => None,
    }
}

/// The instant a resolved local time stands for: the earliest candidate
/// unless the latest is asked for, and the current instant when the local
/// time does not exist — the degrade-gracefully policy of civil-time
/// resolution.
pub fn pick_bound(p: Option<(i64, i64)>, now: i64, latest: bool) -> (r: i64)
    ensures
        r == (match p {
            Some(q) => if latest {
                q.1
            } else {
                q.0
            },
            None => now,
        }),
{
    match p {
        Some(q) => if latest {
            q.1
        } else {
            q.0
        },
        None => now,
    }
}

/// Relies on chrono's `TimeZone::timestamp_opt` for the local zone: the
/// local calendar date and wall-clock time of an instant. `None` only for
/// an instant outside chrono's span. The date and time fields are those of
/// a real local date, so they lie in their calendar ranges; the year may
/// reach one beyond chrono's documented span, the buffer it allows a
/// zone-shifted local date at the extremes.
#[verifier::external_body]
pub fn ts_to_local_civil(ts: i64) -> (r: Option<(Date, u8, u8, u8)>)
    ensures
        match r {
            Some(c) => valid_date(c.0) && -262144 <= c.0.year <= 262143 && c.1 < 24 && c.2 < 60
                && c.3 < 60,
            None => true,
        },
{
    let t = chrono::Local.timestamp_opt(ts, 0).single()?;
    let d = Date { year: t.year(), month: t.month() as u8, day: t.day() as u8 };
    Some((d, t.hour() as u8, t.minute() as u8, t.second() as u8))
}

} // verus!
