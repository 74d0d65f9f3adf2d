//! Records of the rebuild queue and the timestamps that they carry.
use vstd::prelude::*;
use vstd::string::StringExecFns;

use crate::text::{decimal, decimal_string};

verus! {

/// A package in the rebuild queue.
#[derive(Debug, Clone, PartialEq, Eq)]
pub struct QueueEntry {
    /// Package name.
    pub package: String,
    /// When the package was first marked (ISO 8601).
    pub first_marked_at: String,
}

/// A trigger event in the history.
#[derive(Debug, Clone, PartialEq, Eq)]
pub struct TriggerEvent {
    /// Event id.
    pub id: i64,
    /// Package that was marked.
    pub package: String,
    /// Trigger package that caused the mark; `None` for a mark by hand.
    pub trigger_package: Option<String>,
    /// Version of the trigger package at the time of the mark.
    pub trigger_version: Option<String>,
    /// When the package was marked (ISO 8601).
    pub marked_at: String,
}

/// Within a 400-year era that starts on March 1st, the year of the era and the
/// day of that year computed from the day of the era stay in range.
#[verifier::spinoff_prover]
#[verifier::rlimit(60)]
pub proof fn lemma_day_of_era_bounds(doe: int)
    requires
        0 <= doe < 146097,
    ensures
        ({
            let yoe = (doe - doe / 1460 + doe / 36524 - doe / 146096) / 365;
            let doy = doe - (365 * yoe + yoe / 4 - yoe / 100);
            0 <= yoe < 400 && 0 <= doy < 366
        }),
{
    let q1 = doe / 1460;
    let q2 = doe / 36524;
    let q3 = doe / 146096;
    assert(1460 * q1 <= doe < 1460 * q1 + 1460);
    assert(36524 * q2 <= doe < 36524 * q2 + 36524);
    assert(146096 * q3 <= doe < 146096 * q3 + 146096);
    let t = doe - q1 + q2 - q3;
    let yoe = t / 365;
    assert(365 * yoe <= t < 365 * yoe + 365);
    let y4 = yoe / 4;
    let y100 = yoe / 100;
    assert(4 * y4 <= yoe < 4 * y4 + 4);
    assert(100 * y100 <= yoe < 100 * y100 + 100);
}

/// The proleptic Gregorian date `(year, month, day)` of the day `days` after
/// 1970-01-01, by splitting the count into 400-year eras that start on March 1st.
pub open spec fn civil_from_days(days: nat) -> (int, int, int) {
    let z = days + 719468;
    let era = z / 146097;
    let doe = z - era * 146097;
    let yoe = (doe - doe / 1460 + doe / 36524 - doe / 146096) / 365;
    let y = yoe + era * 400;
    let doy = doe - (365 * yoe + yoe / 4 - yoe / 100);
    let mp = (5 * doy + 2) / 153;
    let d = doy - (153 * mp + 2) / 5 + 1;
    let m = if mp < 10 {
        mp + 3
    } else {
        mp - 9
    };
    (if m <= 2 {
        y + 1
    } else {
        y
    }, m, d)
}

/// Converts a count of days since 1970-01-01 to `(year, month, day)`.
pub fn days_to_date(days: u64) -> (r: (i64, u32, u32))
    ensures
        (r.0 as int, r.1 as int, r.2 as int) == civil_from_days(days as nat),
        1970 <= r.0,
        1 <= r.1 <= 12,
        1 <= r.2 <= 31,
{
    let z: u128 = days as u128 + 719468;
    let era: u128 = z / 146097;
    let doe: u64 = (z - era * 146097) as u64;
    proof {
        lemma_day_of_era_bounds(doe as int);
    }
    let yoe: u64 = (doe - doe / 1460 + doe / 36524 - doe / 146096) / 365;
    let doy: u64 = doe - (365 * yoe + yoe / 4 - yoe / 100);
    let mp: u64 = (5 * doy + 2) / 153;
    let d: u64 = doy - (153 * mp + 2) / 5 + 1;
    let m: u64 = if mp < 10 {
        mp + 3
    } else {
        mp - 9
    };
    let base: u128 = yoe as u128 + era * 400;
    let y: u128 = if m <= 2 {
        base + 1
    } else {
        base
    };
    (y as i64, m as u32, d as u32)
}

/// `n` in decimal, with zeros in front up to `width` characters.
pub open spec fn padded(n: nat, width: nat) -> Seq<char> {
    let d = decimal(n);
    Seq::new((if width > d.len() {
        width - d.len()
    } else {
        0
    }) as nat, |i: int| '0') + d
}

/// Writes `n` in decimal, with zeros in front up to `width` characters.
pub fn padded_string(n: u64, width: usize) -> (r: String)
    ensures
        r@ == padded(n as nat, width as nat),
{
    let d = decimal_string(n);
    let len = d.as_str().unicode_len();
    let fill: usize = if width > len {
        width - len
    } else {
        0
    };
    let mut s = String::new();
    let mut i: usize = 0;
    proof {
        reveal_strlit("0");
    }
    while i < fill
        invariant
            i <= fill,
            s@ == Seq::new(i as nat, |k: int| '0'),
        decreases fill - i,
    {
        proof {
            reveal_strlit("0");
        }
        s.append("0");
        assert(s@ =~= Seq::new((i + 1) as nat, |k: int| '0'));
        i = i + 1;
    }
    s.append(d.as_str());
    assert(s@ =~= padded(n as nat, width as nat));
    s
}

/// `YYYY-MM-DD` for the day `days` after 1970-01-01.
pub open spec fn date_text(days: nat) -> Seq<char> {
    let (y, m, d) = civil_from_days(days);
    padded(y as nat, 4) + "-"@ + padded(m as nat, 2) + "-"@ + padded(d as nat, 2)
}

/// `YYYY-MM-DDTHH:MM:SS.mmmZ` for `secs` seconds and `millis` milliseconds
/// after the Unix epoch.
pub open spec fn timestamp_text(secs: nat, millis: nat) -> Seq<char> {
    let t = secs % 86400;
    date_text(secs / 86400) + "T"@ + padded(t / 3600, 2) + ":"@ + padded((t % 3600) / 60, 2)
        + ":"@ + padded(t % 60, 2) + "."@ + padded(millis, 3) + "Z"@
}

fn date_string(days: u64) -> (r: String)
    ensures
        r@ == date_text(days as nat),
{
    let (y, m, d) = days_to_date(days);
    let mut s = padded_string(y as u64, 4);
    s.append("-");
    let ms = padded_string(m as u64, 2);
    s.append(ms.as_str());
    s.append("-");
    let ds = padded_string(d as u64, 2);
    s.append(ds.as_str());
    s
}

/// Formats an instant as `YYYY-MM-DDTHH:MM:SS.mmmZ`.
pub fn format_timestamp(secs: u64, millis: u32) -> (r: String)
    ensures
        r@ == timestamp_text(secs as nat, millis as nat),
{
    let t = secs % 86400;
    let mut s = date_string(secs / 86400);
    s.append("T");
    let h = padded_string(t / 3600, 2);
    s.append(h.as_str());
    s.append(":");
    let mi = padded_string((t % 3600) / 60, 2);
    s.append(mi.as_str());
    s.append(":");
    let sec = padded_string(t % 60, 2);
    s.append(sec.as_str());
    s.append(".");
    let ms = padded_string(millis as u64, 3);
    s.append(ms.as_str());
    s.append("Z");
    s
}

/// The start (`T00:00:00Z`) of the day `retention_days` days before `now_secs`,
/// counted from the epoch when there are fewer days than that.
pub open spec fn cutoff_text(now_secs: nat, retention_days: nat) -> Seq<char> {
    let back = retention_days * 86400;
    let cutoff = if now_secs > back {
        now_secs - back
    } else {
        0
    };
    date_text((cutoff / 86400) as nat) + "T00:00:00Z"@
}

/// The start of the day `retention_days` days before `now_secs`.
pub fn cutoff_date_from(now_secs: u64, retention_days: u32) -> (r: String)
    ensures
        r@ == cutoff_text(now_secs as nat, retention_days as nat),
{
    let cutoff = now_secs.saturating_sub(retention_days as u64 * 86400);
    let mut s = date_string(cutoff / 86400);
    s.append("T00:00:00Z");
    s
}

/// Relies on `SystemTime::now` and `Duration::subsec_millis`: whole seconds
/// since the Unix epoch (0 for a clock set before it) and the milliseconds of
/// the second under way, which `subsec_millis` keeps below one thousand.
#[verifier::external_body]
fn unix_time() -> (r: (u64, u32))
    ensures
        r.1 < 1000,
{
    let d = std::time::SystemTime::now().duration_since(std::time::UNIX_EPOCH).unwrap_or_default();
    (d.as_secs(), d.subsec_millis())
}

/// The current time as `YYYY-MM-DDTHH:MM:SS.mmmZ`.
pub fn now_iso8601() -> (r: String)
    ensures
        exists|secs: nat, millis: nat| millis < 1000 && r@ == timestamp_text(secs, millis),
{
    let (secs, millis) = unix_time();
    format_timestamp(secs, millis)
}

/// The start of the day `retention_days` days before now.
pub fn cutoff_date(retention_days: u32) -> (r: String)
    ensures
        exists|secs: nat| r@ == cutoff_text(secs, retention_days as nat),
{
    let (secs, _) = unix_time();
    cutoff_date_from(secs, retention_days)
}

} // verus!
