//! The Analytics page's derivations: the spend-trend window, the item-signal
//! and category-momentum orderings, the tones and delta texts of the signal,
//! mover and momentum cards, and the trend's header and foot notes.

use vstd::prelude::*;
use crate::text::{decimal, signed_decimal, push_str, push_chars, string_of, string_from, u64_text, i64_text};
use crate::sorting::{stably_ordered, stable_order, text_ordered, text_order};
use crate::grouping::texts;

verus! {

/// The trend window: the positions `start..len` of the last `window`
/// cycles (all of them when there are fewer).
pub fn trend_start(len: usize, window: usize) -> (start: usize)
    ensures
        start == (if len > window { len - window } else { 0 }),
{
    len.saturating_sub(window)
}

/// An item-signal or category ordering.
#[derive(Debug, Clone, Copy, PartialEq, Eq, Structural)]
pub enum SortBy {
    /// Strongest movement first.
    Momentum,
    /// Highest spend first.
    Spend,
    /// Name order.
    Az,
}

/// The order key of a category's momentum: fixed charges sink (-999),
/// every other category by the size of its movement.
pub open spec fn momentum_key(fixed: bool, delta_pct: int) -> int {
    if fixed { -999 } else if delta_pct < 0 { -delta_pct } else { delta_pct }
}

/// The momentum keys of a list of categories.
pub open spec fn momentum_keys(fixed: Seq<bool>, deltas: Seq<i32>) -> Seq<i64> {
    Seq::new(deltas.len(), |i: int| momentum_key(fixed[i], deltas[i] as int) as i64)
}

/// Widens a list of `i32`.
pub open spec fn widen(v: Seq<i32>) -> Seq<i64> {
    Seq::new(v.len(), |i: int| v[i] as i64)
}

fn widen_vec(v: &Vec<i32>) -> (r: Vec<i64>)
    ensures
        r@ == widen(v@),
{
    let mut r: Vec<i64> = Vec::new();
    let mut i: usize = 0;
    while i < v.len()
        invariant
            i <= v.len(),
            r.len() == i,
            forall|j: int| 0 <= j < i ==> #[trigger] r@[j] == v@[j] as i64,
        decreases v.len() - i,
    {
        r.push(v[i] as i64);
        i = i + 1;
    }
    assert(r@ =~= widen(v@));
    r
}

/// The item signals' display order: by descending delta, by descending
/// cycle spend, or by label; ties keep the fetched order.
pub fn signal_order(deltas: &Vec<i32>, spends: &Vec<i64>, labels: &Vec<String>, by: SortBy) -> (r: Vec<usize>)
    requires
        deltas.len() == spends.len(),
        deltas.len() == labels.len(),
    ensures
        by == SortBy::Momentum ==> stably_ordered(widen(deltas@), true, r@),
        by == SortBy::Spend ==> stably_ordered(spends@, true, r@),
        by == SortBy::Az ==> text_ordered(texts(labels@), r@),
{
    match by {
        SortBy::Momentum => {
            let k = widen_vec(deltas);
            stable_order(&k, true)
        },
        SortBy::Spend => stable_order(spends, true),
        SortBy::Az => text_order(labels),
    }
}

/// The category momentum cards' display order: by [`momentum_key`], by
/// descending spend now, or by name; ties keep the fetched order.
pub fn momentum_order(fixed: &Vec<bool>, deltas: &Vec<i32>, now: &Vec<i64>, names: &Vec<String>, by: SortBy) -> (r: Vec<usize>)
    requires
        fixed.len() == deltas.len(),
        now.len() == deltas.len(),
        names.len() == deltas.len(),
    ensures
        by == SortBy::Momentum ==> stably_ordered(momentum_keys(fixed@, deltas@), true, r@),
        by == SortBy::Spend ==> stably_ordered(now@, true, r@),
        by == SortBy::Az ==> text_ordered(texts(names@), r@),
{
    match by {
        SortBy::Momentum => {
            let mut k: Vec<i64> = Vec::new();
            let mut i: usize = 0;
            while i < deltas.len()
                invariant
                    i <= deltas.len(),
                    fixed.len() == deltas.len(),
                    k.len() == i,
                    forall|j: int| 0 <= j < i ==> #[trigger] k@[j] == momentum_key(fixed@[j], deltas@[j] as int) as i64,
                decreases deltas.len() - i,
            {
                let d = deltas[i] as i64;
                let v: i64 = if fixed[i] { -999 } else if d < 0 { -d } else { d };
                k.push(v);
                i = i + 1;
            }
            assert(k@ =~= momentum_keys(fixed@, deltas@));
            stable_order(&k, true)
        },
        SortBy::Spend => stable_order(now, true),
        SortBy::Az => text_order(names),
    }
}

/// `|d|` of a percent.
pub open spec fn pct_abs(d: int) -> nat {
    (if d < 0 { -d } else { d }) as nat
}

/// An arrow and the size of a movement: `↑N%` for no fall, `↓N%` for a fall.
pub open spec fn arrow_pct(d: int) -> Seq<char> {
    (if d >= 0 { "↑"@ } else { "↓"@ }) + decimal(pct_abs(d)) + "%"@
}

fn arrow_pct_text(d: i32) -> (r: Vec<char>)
    requires
        d != i32::MIN,
    ensures
        r@ == arrow_pct(d as int),
{
    let mut v: Vec<char> = Vec::new();
    if d >= 0 {
        push_str(&mut v, "↑");
    } else {
        push_str(&mut v, "↓");
    }
    let m: i32 = if d < 0 { -d } else { d };
    let t = u64_text(m as u64);
    push_chars(&mut v, &t);
    v.push('%');
    proof {
        reveal_strlit("%");
    }
    assert(v@ =~= arrow_pct(d as int));
    v
}

/// An item-signal row's texts: `(delta, rank, delta class, go)`. An AI
/// candidate shows `NEW`, no rank and `TRACK ▸`; a tracked signal its
/// arrowed delta and its rank.
pub fn signal_row_texts(candidate: bool, delta_pct: i32, rank: usize) -> (r: (String, String, &'static str, &'static str))
    requires
        delta_pct != i32::MIN,
    ensures
        r.0@ == (if candidate { "NEW"@ } else { arrow_pct(delta_pct as int) }),
        r.1@ == (if candidate { "—"@ } else { decimal(rank as nat) }),
        r.2@ == (if candidate { "isig-dl cand"@ } else if delta_pct >= 0 { "isig-dl up"@ } else { "isig-dl down"@ }),
        r.3@ == (if candidate { "TRACK ▸"@ } else { "▸"@ }),
{
    if candidate {
        (string_from("NEW"), string_from("—"), "isig-dl cand", "TRACK ▸")
    } else {
        let d = arrow_pct_text(delta_pct);
        let k = u64_text(rank as u64);
        (string_of(&d), string_of(&k), if delta_pct >= 0 { "isig-dl up" } else { "isig-dl down" }, "▸")
    }
}

/// What clicking an item-signal row does.
#[derive(Debug, Clone, Copy, PartialEq, Eq, Structural)]
pub enum RowClick {
    /// Start tracking an AI candidate.
    Track,
    /// Inspect a tracked signal.
    Select,
}

/// A candidate row tracks, a tracked row selects.
pub fn row_click(candidate: bool) -> (r: RowClick)
    ensures
        r == (if candidate { RowClick::Track } else { RowClick::Select }),
{
    if candidate { RowClick::Track } else { RowClick::Select }
}

/// A mover card's delta: `+N%` for a rise, `N%` (with its sign) otherwise.
pub open spec fn mover_delta_of(d: int) -> Seq<char> {
    (if d > 0 { "+"@ } else { ""@ }) + signed_decimal(d) + "%"@
}

/// A mover card's `(class, label, delta class, delta)`.
pub fn mover_texts(riser: bool, delta_pct: i32) -> (r: (&'static str, &'static str, &'static str, String))
    ensures
        r.0@ == (if riser { "mover up"@ } else { "mover down"@ }),
        r.1@ == (if riser { "↑ FASTEST RISER"@ } else { "↓ FASTEST FALLER"@ }),
        r.2@ == (if riser { "dl up"@ } else { "dl down"@ }),
        r.3@ == mover_delta_of(delta_pct as int),
{
    let mut v: Vec<char> = Vec::new();
    if delta_pct > 0 {
        v.push('+');
    }
    let t = i64_text(delta_pct as i64);
    push_chars(&mut v, &t);
    v.push('%');
    proof {
        reveal_strlit("+");
        reveal_strlit("");
        reveal_strlit("%");
    }
    assert(v@ =~= mover_delta_of(delta_pct as int));
    (
        if riser { "mover up" } else { "mover down" },
        if riser { "↑ FASTEST RISER" } else { "↓ FASTEST FALLER" },
        if riser { "dl up" } else { "dl down" },
        string_of(&v),
    )
}

/// A momentum card's tone: flat for a fixed charge, hot for a rise of 15%
/// or more, up for a smaller rise (or none), down for a fall.
pub open spec fn momentum_tone_of(fixed: bool, d: int) -> Seq<char> {
    if fixed {
        "flat"@
    } else if d >= 0 {
        if pct_abs(d) >= 15 { "hot"@ } else { "up"@ }
    } else {
        "down"@
    }
}

/// A momentum card's `(tone, delta, spark tone)`: `FIXED` or the arrowed
/// delta, and a neon spark only for a hot card.
pub fn momentum_texts(fixed: bool, delta_pct: i32) -> (r: (&'static str, String, &'static str))
    requires
        delta_pct != i32::MIN,
    ensures
        r.0@ == momentum_tone_of(fixed, delta_pct as int),
        r.1@ == (if fixed { "FIXED"@ } else { arrow_pct(delta_pct as int) }),
        r.2@ == (if !fixed && delta_pct >= 0 && pct_abs(delta_pct as int) >= 15 { "neon"@ } else { "indigo"@ }),
{
    let up = delta_pct >= 0;
    let m: i32 = if delta_pct < 0 { -delta_pct } else { delta_pct };
    let strong = m >= 15;
    let tone = if fixed {
        "flat"
    } else if up {
        if strong { "hot" } else { "up" }
    } else {
        "down"
    };
    let dl = if fixed {
        string_from("FIXED")
    } else {
        let d = arrow_pct_text(delta_pct);
        string_of(&d)
    };
    let spark = if !fixed && up && strong { "neon" } else { "indigo" };
    (tone, dl, spark)
}

/// Law: a hot momentum card is exactly one with a neon spark.
pub proof fn law_hot_is_neon(fixed: bool, d: int)
    ensures
        (momentum_tone_of(fixed, d) == "hot"@) <==> (!fixed && d >= 0 && pct_abs(d) >= 15),
{
    reveal_strlit("hot");
    reveal_strlit("flat");
    reveal_strlit("up");
    reveal_strlit("down");
    assert("hot"@.len() == 3 && "up"@.len() == 2);
    assert("hot"@[0] != "flat"@[0] && "hot"@[0] != "down"@[0]);
}

/// The trend's foot note: this cycle against the 6-month average, with the
/// move against the previous cycle when known.
pub open spec fn foot_note_of(vs_avg: int, vs_prev: Option<int>, prev_m: Seq<char>) -> Seq<char> {
    "THIS CYCLE TRACKING "@ + (if vs_avg > 0 { "+"@ } else { "−"@ }) + decimal(pct_abs(vs_avg))
        + "% vs 6-MO AVG"@
        + match vs_prev {
            Some(vp) => " · "@ + (if vp > 0 { "↑"@ } else { "↓"@ }) + " "@ + decimal(pct_abs(vp)) + "% vs "@ + prev_m,
            None => Seq::empty(),
        }
}

fn abs_text(d: i64) -> (r: Vec<char>)
    requires
        d != i64::MIN,
    ensures
        r@ == decimal(pct_abs(d as int)),
{
    let m: i64 = if d < 0 { -d } else { d };
    u64_text(m as u64)
}

/// The trend's foot note and its tone (`alert` when above average).
pub fn foot_note(vs_avg: Option<i64>, vs_prev: Option<i64>, prev_m: &str) -> (r: (Option<String>, &'static str))
    requires
        vs_avg != Some(i64::MIN),
        vs_prev != Some(i64::MIN),
    ensures
        r.0 matches Some(t) ==> vs_avg is Some && t@ == foot_note_of(vs_avg.unwrap() as int, match vs_prev {
            Some(p) => Some(p as int),
            None => None,
        }, prev_m@),
        r.0 is None <==> vs_avg is None,
        r.1@ == (if vs_avg matches Some(v) && v > 0 { "alert"@ } else { "ok"@ }),
{
    let tone = match vs_avg {
        Some(v) => if v > 0 { "alert" } else { "ok" },
        None => "ok",
    };
    match vs_avg {
        None => (None, tone),
        Some(va) => {
            let mut v: Vec<char> = Vec::new();
            push_str(&mut v, "THIS CYCLE TRACKING ");
            if va > 0 {
                push_str(&mut v, "+");
            } else {
                push_str(&mut v, "−");
            }
            let a = abs_text(va);
            push_chars(&mut v, &a);
            push_str(&mut v, "% vs 6-MO AVG");
            let ghost head = v@;
            match vs_prev {
                Some(vp) => {
                    push_str(&mut v, " · ");
                    if vp > 0 {
                        push_str(&mut v, "↑");
                    } else {
                        push_str(&mut v, "↓");
                    }
                    push_str(&mut v, " ");
                    let p = abs_text(vp);
                    push_chars(&mut v, &p);
                    push_str(&mut v, "% vs ");
                    push_str(&mut v, prev_m);
                },
                None => {},
            }
            assert(v@ =~= foot_note_of(va as int, match vs_prev {
                Some(p) => Some(p as int),
                None => None,
            }, prev_m@));
            (Some(string_of(&v)), tone)
        },
    }
}

/// The KPI's `vs average` figure and class: `↑ N%` / `up` above average,
/// `↓ N%` / `dn` otherwise.
pub fn vs_avg_text(v: Option<i64>) -> (r: (Option<String>, &'static str))
    requires
        v != Some(i64::MIN),
    ensures
        r.0 matches Some(t) ==> v is Some && t@ == (if v.unwrap() > 0 { "↑ "@ } else { "↓ "@ })
            + decimal(pct_abs(v.unwrap() as int)) + "%"@,
        r.0 is None <==> v is None,
        r.1@ == (if v matches Some(x) && x > 0 { "up"@ } else { "dn"@ }),
{
    match v {
        None => (None, "dn"),
        Some(x) => {
            let mut t: Vec<char> = Vec::new();
            if x > 0 {
                push_str(&mut t, "↑ ");
            } else {
                push_str(&mut t, "↓ ");
            }
            let a = abs_text(x);
            push_chars(&mut t, &a);
            t.push('%');
            proof {
                reveal_strlit("%");
            }
            assert(t@ =~= (if x > 0 { "↑ "@ } else { "↓ "@ }) + decimal(pct_abs(x as int)) + "%"@);
            (Some(string_of(&t)), if x > 0 { "up" } else { "dn" })
        },
    }
}

/// The trend's HUD line: `⌁ WORD · LAST n CYCLES`, then the range
/// ` · FIRST → CURRENT` when there are cycles.
pub open spec fn hud_of(is_rate: bool, n: nat, first: Seq<char>, cur: Seq<char>) -> Seq<char> {
    "⌁ "@ + (if is_rate { "CASHFLOW SAVED"@ } else { "SPEND"@ }) + " · LAST "@ + decimal(n) + " CYCLES"@
        + (if n > 0 { " · "@ + first + " → "@ + cur } else { Seq::empty() })
}

/// The trend's HUD line; `first` and `cur` are the month-and-year texts of
/// the first cycle shown and of the current one.
pub fn hud_text(is_rate: bool, n: usize, first: &str, cur: &str) -> (r: String)
    ensures
        r@ == hud_of(is_rate, n as nat, first@, cur@),
{
    let mut v: Vec<char> = Vec::new();
    push_str(&mut v, "⌁ ");
    if is_rate {
        push_str(&mut v, "CASHFLOW SAVED");
    } else {
        push_str(&mut v, "SPEND");
    }
    push_str(&mut v, " · LAST ");
    let t = u64_text(n as u64);
    push_chars(&mut v, &t);
    push_str(&mut v, " CYCLES");
    if n > 0 {
        push_str(&mut v, " · ");
        push_str(&mut v, first);
        push_str(&mut v, " → ");
        push_str(&mut v, cur);
    }
    assert(v@ =~= hud_of(is_rate, n as nat, first@, cur@));
    string_of(&v)
}

/// The KPI's tracked-signal count (an em dash for none) and the candidate
/// prefix `+n candidate · ` (empty for none).
pub fn signal_counts(n_tracked: usize, candidates: usize) -> (r: (String, String))
    ensures
        r.0@ == (if n_tracked > 0 { decimal(n_tracked as nat) } else { "—"@ }),
        r.1@ == (if candidates > 0 { "+"@ + decimal(candidates as nat) + " candidate · "@ } else { ""@ }),
{
    let a = if n_tracked > 0 {
        let t = u64_text(n_tracked as u64);
        string_of(&t)
    } else {
        string_from("—")
    };
    let b = if candidates > 0 {
        let mut v: Vec<char> = Vec::new();
        v.push('+');
        let t = u64_text(candidates as u64);
        push_chars(&mut v, &t);
        push_str(&mut v, " candidate · ");
        proof {
            reveal_strlit("+");
        }
        assert(v@ =~= "+"@ + decimal(candidates as nat) + " candidate · "@);
        string_of(&v)
    } else {
        String::new()
    };
    proof {
        reveal_strlit("");
    }
    (a, b)
}

/// The cycle label: `THIS CYCLE` until the cycle has one.
pub fn cycle_label(label: &str) -> (r: String)
    ensures
        r@ == (if label@.len() == 0 { "THIS CYCLE"@ } else { label@ }),
{
    if label.unicode_len() == 0 { string_from("THIS CYCLE") } else { string_from(label) }
}

/// The movers' lead line: `LABEL ↑N% leads` for the fastest riser.
pub fn riser_lead(label: &str, delta_pct: i32) -> (r: String)
    ensures
        r@ == label@ + " ↑"@ + signed_decimal(delta_pct as int) + "% leads"@,
{
    let mut v: Vec<char> = Vec::new();
    push_str(&mut v, label);
    push_str(&mut v, " ↑");
    let t = i64_text(delta_pct as i64);
    push_chars(&mut v, &t);
    push_str(&mut v, "% leads");
    string_of(&v)
}

} // verus!
