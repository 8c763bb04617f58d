//! Ages of objects.
use crate::text::{cat2, cat4, copy_text, dec, u64_text};
use vstd::prelude::*;

verus! {

/// The age of an object created at `creation` as seen at `now`, both in seconds since
/// the epoch: the two largest units, or a dash where the creation is unknown.
pub open spec fn age_text(creation: int, now: int) -> Seq<char> {
    if creation <= 0 {
        "-"@
    } else {
        let secs: nat = if now > creation {
            (now - creation) as nat
        } else {
            0
        };
        let days = secs / 86_400;
        let hours = secs % 86_400 / 3600;
        let mins = secs % 3600 / 60;
        if days > 0 {
            dec(days) + "d"@ + dec(hours) + "h"@
        } else if hours > 0 {
            dec(hours) + "h"@ + dec(mins) + "m"@
        } else if mins > 0 {
            dec(mins) + "m"@
        } else {
            dec(secs % 60) + "s"@
        }
    }
}

/// The age of an object.
pub fn render_age(creation_ts: i64, now: i64) -> (r: String)
    ensures
        r@ == age_text(creation_ts as int, now as int),
{
    if creation_ts <= 0 {
        return copy_text("-");
    }
    let total: u64 = if now > creation_ts {
        (now - creation_ts) as u64
    } else {
        0
    };
    let days: u64 = total / 86_400;
    let rest: u64 = total % 86_400;
    let hours: u64 = rest / 3600;
    let below: u64 = rest % 3600;
    let mins: u64 = below / 60;
    let secs: u64 = below % 60;
    assert(below == total % 3600) by (nonlinear_arith)
        requires
            rest == total % 86_400,
            below == rest % 3600,
    ;
    assert(secs == total % 60) by (nonlinear_arith)
        requires
            below == total % 3600,
            secs == below % 60,
    ;
    if days > 0 {
        let d = u64_text(days);
        let h = u64_text(hours);
        cat4(d.as_str(), "d", h.as_str(), "h")
    } else if hours > 0 {
        let h = u64_text(hours);
        let m = u64_text(mins);
        cat4(h.as_str(), "h", m.as_str(), "m")
    } else if mins > 0 {
        let m = u64_text(mins);
        cat2(m.as_str(), "m")
    } else {
        let s = u64_text(secs);
        cat2(s.as_str(), "s")
    }
}

/// An age is told in days and hours, or in hours and minutes, or in minutes, or in seconds, by
/// its largest unit. An object without a time of creation has none, and one that is created in
/// the future is as old as one that is created now.
pub proof fn law_age(creation: int, d: nat, h: nat, m: nat, s: nat, before: nat)
    requires
        creation > 0,
        h < 24,
        m < 60,
        s < 60,
    ensures
        ({
            let age = age_text(creation, creation + d * 86_400 + h * 3600 + m * 60 + s);
            &&& d > 0 ==> age == dec(d) + "d"@ + dec(h) + "h"@
            &&& d == 0 && h > 0 ==> age == dec(h) + "h"@ + dec(m) + "m"@
            &&& d == 0 && h == 0 && m > 0 ==> age == dec(m) + "m"@
            &&& d == 0 && h == 0 && m == 0 ==> age == dec(s) + "s"@
        }),
        age_text(creation, creation - before) == dec(0) + "s"@,
        age_text(0, creation) == "-"@,
{
}

} // verus!
