//! The budget cycle's texts shared by every page's top bar and KPI band.

use vstd::prelude::*;
use crate::text::{decimal, push_str, push_chars, string_of, u64_text};

verus! {

/// The top bar's date text: `LABEL · DAY d/n`, empty until the cycle has
/// loaded (zero days).
pub open spec fn topbar_date_of(label: Seq<char>, day: nat, days: nat) -> Seq<char> {
    if days == 0 {
        Seq::empty()
    } else {
        label + " · DAY "@ + decimal(day) + "/"@ + decimal(days)
    }
}

/// The top bar's date text for a cycle `label`, on `day` of `days`.
pub fn topbar_date(label: &str, day: u32, days: u32) -> (r: String)
    ensures
        r@ == topbar_date_of(label@, day as nat, days as nat),
{
    let mut v: Vec<char> = Vec::new();
    if days != 0 {
        push_str(&mut v, label);
        push_str(&mut v, " · DAY ");
        let d = u64_text(day as u64);
        push_chars(&mut v, &d);
        push_str(&mut v, "/");
        let n = u64_text(days as u64);
        push_chars(&mut v, &n);
    }
    assert(v@ =~= topbar_date_of(label@, day as nat, days as nat));
    string_of(&v)
}

/// The budget KPI's cycle line: `N-day cycle · ` (when the cycle has loaded)
/// then `D days left`.
pub open spec fn cycle_days_left_of(days: nat, days_left: nat) -> Seq<char> {
    (if days != 0 { decimal(days) + "-day cycle · "@ } else { Seq::empty() })
        + decimal(days_left) + " days left"@
}

/// The budget KPI's cycle line.
pub fn cycle_days_left(days: u32, days_left: u32) -> (r: String)
    ensures
        r@ == cycle_days_left_of(days as nat, days_left as nat),
{
    let mut v: Vec<char> = Vec::new();
    if days != 0 {
        let n = u64_text(days as u64);
        push_chars(&mut v, &n);
        push_str(&mut v, "-day cycle · ");
    }
    let l = u64_text(days_left as u64);
    push_chars(&mut v, &l);
    push_str(&mut v, " days left");
    assert(v@ =~= cycle_days_left_of(days as nat, days_left as nat));
    string_of(&v)
}

/// The cycle length the subscription meters use: the cycle's days, or 30
/// until it has loaded.
pub fn cycle_days_or_default(days: u32) -> (r: u32)
    ensures
        r == (if days == 0 { 30 } else { days }),
{
    if days == 0 { 30 } else { days }
}

} // verus!
