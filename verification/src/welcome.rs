//! The status that greets: how full the disk is and how old the last scan.

use crate::model::elapsed_seconds;
#[allow(unused_imports)]
use crate::model::seconds_between;
use crate::text::to_decimal_int;
#[allow(unused_imports)]
use crate::text::decimal_int;
use vstd::prelude::*;

verus! {

/// A span of seconds as people read it. What lies in the future reads as just now.
pub open spec fn relative_age(secs: int) -> Seq<char> {
    if secs < 60 {
        "just now"@
    } else if secs < 3600 {
        decimal_int(secs / 60) + "m ago"@
    } else if secs < 86_400 {
        decimal_int(secs / 3600) + "h ago"@
    } else {
        decimal_int(secs / 86_400) + "d ago"@
    }
}

pub fn humanize_age(secs: i64) -> (r: String)
    ensures
        r@ == relative_age(secs as int),
{
    if secs < 60 {
        "just now".to_owned()
    } else if secs < 3600 {
        let mut out: String = to_decimal_int(secs / 60);
        out.append("m ago");
        out
    } else if secs < 86_400 {
        let mut out: String = to_decimal_int(secs / 3600);
        out.append("h ago");
        out
    } else {
        let mut out: String = to_decimal_int(secs / 86_400);
        out.append("d ago");
        out
    }
}

/// How old the scan is, where there is one.
pub fn scan_age_label(scanned_at: Option<i64>, now: i64) -> (r: Option<String>)
    ensures
        match scanned_at {
            Some(t) => r is Some && r->0@ == "scanned "@ + relative_age(seconds_between(now, t)),
            None => r is None,
        },
{
    match scanned_at {
        Some(t) => {
            let mut out: String = "scanned ".to_owned();
            let age: String = humanize_age(elapsed_seconds(now, t));
            out.append(age.as_str());
            Some(out)
        },
        None => None,
    }
}

/// How loud the free space is shown.
#[derive(Debug, Clone, Copy, PartialEq, Eq, Structural)]
pub enum DiskMarker {
    Full,
    Low,
    Fine,
}

/// Below 5 % of free space the disk is full, below 10 % it is low. A volume without a size is
/// full.
pub open spec fn marker_of(free: u64, total: u64) -> DiskMarker {
    if total == 0 || free * 20 < total {
        DiskMarker::Full
    } else if free * 10 < total {
        DiskMarker::Low
    } else {
        DiskMarker::Fine
    }
}

pub fn disk_marker(free: u64, total: u64) -> (r: DiskMarker)
    ensures
        r == marker_of(free, total),
{
    let f: u128 = free as u128;
    let t: u128 = total as u128;
    if t == 0 || f * 20 < t {
        DiskMarker::Full
    } else if f * 10 < t {
        DiskMarker::Low
    } else {
        DiskMarker::Fine
    }
}

/// The free share in whole percent, rounded to the nearest, a tie to the even one.
pub open spec fn whole_percent(free: u64, total: u64) -> int {
    if total == 0 {
        0
    } else {
        let q = free * 100 / total as int;
        let r = free * 100 % total as int;
        if 2 * r > total || (2 * r == total && q % 2 == 1) {
            q + 1
        } else {
            q
        }
    }
}

pub fn percent_free(free: u64, total: u64) -> (r: u128)
    ensures
        r == whole_percent(free, total),
{
    if total == 0 {
        return 0;
    }
    let t: u128 = total as u128;
    let scaled: u128 = free as u128 * 100;
    let q: u128 = scaled / t;
    let rest: u128 = scaled % t;
    assert(q <= scaled) by (nonlinear_arith)
        requires
            q == scaled / t,
            t > 0,
    ;
    if 2 * rest > t || (2 * rest == t && q % 2 == 1) {
        q + 1
    } else {
        q
    }
}

} // verus!
