//! The Dashboard's derivations: the recurring rows' status from their days
//! until due, the NEXT dock's soonest charges, the alert tone mapping, the
//! signal rows' deltas, and the KPI texts.

use vstd::prelude::*;
use crate::text::{decimal, signed_decimal, push_str, push_chars, string_of, string_from, str_eq, u64_text, i64_text};
use crate::sorting::{before, law_order_is_permutation, stable_order};

verus! {

/// A recurring charge as the dashboard reads it (centimes).
#[derive(Debug, Clone, PartialEq, Eq)]
pub struct Recurring {
    pub name: String,
    pub amount: i64,
    pub days_until: i64,
    pub next: String,
}

/// A recurring row as the dashboard renders it.
#[derive(Debug, Clone, PartialEq, Eq)]
pub struct Rec {
    pub name: String,
    pub cycle: String,
    pub amount: i64,
    pub status: String,
    pub next: String,
    pub src: String,
}

/// A recurring charge's status: due (today or overdue), soon (within a
/// week) or clean.
pub open spec fn rec_status_of(days_until: int) -> Seq<char> {
    if days_until <= 0 { "due"@ } else if days_until <= 7 { "soon"@ } else { "clean"@ }
}

/// A recurring charge's status (see [`rec_status_of`]).
pub fn rec_status(days_until: i64) -> (r: &'static str)
    ensures
        r@ == rec_status_of(days_until as int),
{
    if days_until <= 0 {
        "due"
    } else if days_until <= 7 {
        "soon"
    } else {
        "clean"
    }
}

/// The recurring row of a charge: a monthly, user-made row with the status
/// its days until due give.
pub fn rec_of(r: &Recurring) -> (row: Rec)
    ensures
        row.name@ == r.name@,
        row.cycle@ == "MONTHLY"@,
        row.amount == r.amount,
        row.status@ == rec_status_of(r.days_until as int),
        row.next@ == r.next@,
        row.src@ == "user"@,
{
    let status = rec_status(r.days_until);
    Rec {
        name: r.name.clone(),
        cycle: string_from("MONTHLY"),
        amount: r.amount,
        status: string_from(status),
        next: r.next.clone(),
        src: string_from("user"),
    }
}

/// Law: the recurring status only moves toward `due` as the charge nears:
/// fewer days until it never gives a calmer status.
pub proof fn law_rec_status_monotone(a: int, b: int)
    requires
        a <= b,
    ensures
        rec_status_of(b) == "due"@ ==> rec_status_of(a) == "due"@,
        rec_status_of(b) == "soon"@ ==> rec_status_of(a) == "due"@ || rec_status_of(a) == "soon"@,
{
    reveal_strlit("due");
    reveal_strlit("soon");
    reveal_strlit("clean");
}

/// The NEXT dock: the positions of the (at most) three soonest recurring
/// charges, soonest first, ties in list order.
pub fn next_due(days_until: &Vec<i64>) -> (r: Vec<usize>)
    ensures
        r@.len() == (if days_until.len() < 3 { days_until.len() as int } else { 3 }),
        forall|a: int| 0 <= a < r@.len() ==> #[trigger] r@[a] < days_until.len(),
        forall|a: int, b: int| 0 <= a < b < r@.len() ==> before(days_until@, false, r@[a] as int, r@[b] as int),
        forall|j: usize, a: int| (j as int) < days_until.len() && !r@.contains(j) && 0 <= a < r@.len()
            ==> before(days_until@, false, r@[a] as int, j as int),
{
    let all = stable_order(days_until, false);
    proof {
        assert(days_until@.len() == days_until.len());
        law_order_is_permutation(days_until@, false, all@);
    }
    let mut r: Vec<usize> = Vec::new();
    let mut i: usize = 0;
    while i < all.len() && i < 3
        invariant
            i <= all.len(),
            i <= 3,
            all.len() == days_until.len(),
            r@ == all@.take(i as int),
        decreases 3 - i,
    {
        r.push(all[i]);
        i = i + 1;
        assert(r@ =~= all@.take(i as int));
    }
    proof {
        let m = r@.len() as int;
        assert forall|j: usize, a: int| (j as int) < days_until.len() && !r@.contains(j) && 0 <= a < r@.len()
            implies before(days_until@, false, r@[a] as int, j as int) by {
            assert(all@.contains(j));
            let p = choose|p: int| 0 <= p < all@.len() && all@[p] == j;
            if p < m {
                assert(r@[p] == j);
            }
            assert(r@[a] == all@[a]);
        }
    }
    r
}

/// An alert's tone as the alert rows take it: the model's `info` tone shows
/// as `llm`, every other tone as it is.
pub fn alert_tone(tone: &str) -> (r: String)
    ensures
        r@ == (if tone@ == "info"@ { "llm"@ } else { tone@ }),
{
    if str_eq(tone, "info") { string_from("llm") } else { string_from(tone) }
}

/// A signal row's delta: none for an AI candidate, the tracked delta
/// otherwise.
pub fn signal_delta(candidate: bool, delta_pct: i32) -> (r: Option<i64>)
    ensures
        r == (if candidate { None } else { Some(delta_pct as i64) }),
{
    if candidate { None } else { Some(delta_pct as i64) }
}

/// A transaction row's review flag: some line has low confidence.
pub fn txn_flag(low_conf_count: u32) -> (r: bool)
    ensures
        r == (low_conf_count > 0),
{
    low_conf_count > 0
}

/// `+N%` for a rise, `N%` (with its sign) otherwise.
pub open spec fn vs_last_of(p: int) -> Seq<char> {
    (if p > 0 { "+"@ } else { ""@ }) + signed_decimal(p) + "%"@
}

/// The `vs last cycle` figure.
pub fn vs_last_text(p: i64) -> (r: String)
    ensures
        r@ == vs_last_of(p as int),
{
    let mut v: Vec<char> = Vec::new();
    if p > 0 {
        v.push('+');
    }
    let t = i64_text(p);
    push_chars(&mut v, &t);
    v.push('%');
    proof {
        reveal_strlit("+");
        reveal_strlit("");
        reveal_strlit("%");
    }
    assert(v@ =~= vs_last_of(p as int));
    string_of(&v)
}

/// A whole percent as text: `N%`.
pub fn pct_text(p: i64) -> (r: String)
    ensures
        r@ == signed_decimal(p as int) + "%"@,
{
    let mut v = i64_text(p);
    v.push('%');
    proof {
        reveal_strlit("%");
    }
    assert(v@ =~= signed_decimal(p as int) + "%"@);
    string_of(&v)
}

/// The budget KPI's sub-line: `N-day cycle · day D`, or an em dash until
/// the cycle has loaded.
pub open spec fn budget_sub_of(days: nat, day: nat) -> Seq<char> {
    if days == 0 { "—"@ } else { decimal(days) + "-day cycle · day "@ + decimal(day) }
}

/// The budget KPI's sub-line.
pub fn budget_sub(days: u32, day: u32) -> (r: String)
    ensures
        r@ == budget_sub_of(days as nat, day as nat),
{
    if days == 0 {
        return string_from("—");
    }
    let mut v = u64_text(days as u64);
    push_str(&mut v, "-day cycle · day ");
    let d = u64_text(day as u64);
    push_chars(&mut v, &d);
    string_of(&v)
}

/// A header count: the count once loaded, else the placeholder.
pub fn count_text(n: Option<usize>, missing: &str) -> (r: String)
    ensures
        r@ == match n {
            Some(k) => decimal(k as nat),
            None => missing@,
        },
{
    match n {
        Some(k) => {
            let t = u64_text(k as u64);
            string_of(&t)
        },
        None => string_from(missing),
    }
}

/// The NEXT dock's due tail: `TODAY` (or overdue), `1 DAY`, `n DAYS`.
pub open spec fn due_tail_of(days_until: int) -> Seq<char> {
    if days_until <= 0 {
        "TODAY"@
    } else if days_until == 1 {
        "1 DAY"@
    } else {
        decimal(days_until as nat) + " DAYS"@
    }
}

/// The NEXT dock's due tail.
pub fn due_tail(days_until: i64) -> (r: String)
    ensures
        r@ == due_tail_of(days_until as int),
{
    if days_until <= 0 {
        string_from("TODAY")
    } else if days_until == 1 {
        string_from("1 DAY")
    } else {
        let mut v = u64_text(days_until as u64);
        push_str(&mut v, " DAYS");
        string_of(&v)
    }
}

/// A WATCH strip mark by alert tone: `(colour, glyph)`.
pub fn watch_mark(tone: &str) -> (r: (&'static str, &'static str))
    ensures
        tone@ == "alert"@ ==> r == ("var(--neon)", "⚠"),
        tone@ == "warn"@ ==> r == ("var(--warn)", "◷"),
        tone@ != "alert"@ && tone@ != "warn"@ ==> r == ("var(--indigo-neon)", "⌁"),
{
    proof {
        reveal_strlit("alert");
        reveal_strlit("warn");
        assert("alert"@.len() == 5 && "warn"@.len() == 4);
    }
    if str_eq(tone, "alert") {
        ("var(--neon)", "⚠")
    } else if str_eq(tone, "warn") {
        ("var(--warn)", "◷")
    } else {
        ("var(--indigo-neon)", "⌁")
    }
}

/// A WATCH strip tag: the alert's tag and a space, nothing without a tag.
pub fn watch_tag(tag: &str) -> (r: String)
    ensures
        r@ == (if tag@.len() == 0 { Seq::<char>::empty() } else { tag@ + " "@ }),
{
    if tag.unicode_len() == 0 {
        String::new()
    } else {
        let mut v = crate::text::chars_of(tag);
        push_str(&mut v, " ");
        string_of(&v)
    }
}

/// An alert button's kind: `navigate` opens the transactions; every other
/// kind is sent to the server.
pub fn alert_navigates(kind: &str) -> (r: bool)
    ensures
        r == (kind@ == "navigate"@),
{
    str_eq(kind, "navigate")
}

/// The insight's savings estimate, shown only when it is not zero.
pub fn insight_estimate(estimated: i64) -> (r: Option<i64>)
    ensures
        r == (if estimated != 0 { Some(estimated) } else { None }),
{
    if estimated != 0 { Some(estimated) } else { None }
}

/// The signal panel's selection and its last track / dismiss failure.
#[derive(Debug, Clone, PartialEq, Eq)]
pub struct SignalUi {
    pub sel: Option<String>,
    pub drawer: bool,
    pub error: Option<String>,
}

impl SignalUi {
    /// Nothing selected.
    pub fn new() -> (s: SignalUi)
        ensures
            s.sel is None,
            !s.drawer,
            s.error is None,
    {
        SignalUi { sel: None, drawer: false, error: None }
    }

    /// A signal is picked for tracking from the AI panel: it is selected and,
    /// without a dock, the drawer opens.
    pub fn pick(&mut self, id: String, dockable: bool)
        ensures
            final(self).sel == Some(id),
            final(self).drawer == (old(self).drawer || !dockable),
            final(self).error == old(self).error,
    {
        self.sel = Some(id);
        if !dockable {
            self.drawer = true;
        }
    }

    /// A track or dismiss was answered: success clears the failure and
    /// closes the panel (the lists refetch); a failure shows its text.
    /// Returns whether to refetch.
    pub fn finish_action(&mut self, result: Result<(), crate::calls::CallError>) -> (refresh: bool)
        ensures
            refresh == (result is Ok),
            result is Ok ==> final(self).error is None && final(self).sel is None && !final(self).drawer,
            result matches Err(e) ==> (final(self).error matches Some(m) && m@ == crate::calls::signal_error_of(e))
                && final(self).sel == old(self).sel && final(self).drawer == old(self).drawer,
    {
        match result {
            Ok(()) => {
                self.error = None;
                self.sel = None;
                self.drawer = false;
                true
            },
            Err(e) => {
                self.error = Some(crate::calls::signal_action_error_text(&e));
                false
            },
        }
    }
}

/// The smaller of two counts.
pub open spec fn min_of(a: int, b: int) -> int {
    if a < b { a } else { b }
}

/// How many rows each dashboard block shows of what was fetched.
#[derive(Debug, Clone, Copy, PartialEq, Eq)]
pub struct DashCounts {
    /// The NEXT dock's soonest recurring charges (see [`next_due`]).
    pub next_due: usize,
    /// The WATCH strip's alerts.
    pub watch: usize,
    /// The console's budget channels.
    pub channels: usize,
    /// The recent transaction rows.
    pub txn_rows: usize,
    /// The NEEDS ATTENTION alerts.
    pub attention: usize,
    /// The RECURRING rows.
    pub recurring: usize,
    /// The top shops.
    pub shops: usize,
}

/// The dashboard shows the first 3 recurring charges by due date, the
/// first 3 alerts on the WATCH strip and under NEEDS ATTENTION, the first 5
/// categories as channels, the first 9 transactions, the first 4
/// recurring rows and the first 4 shops, in the order fetched.
pub fn dash_counts(recurring: usize, alerts: usize, categories: usize, txns: usize, shops: usize) -> (r: DashCounts)
    ensures
        r.next_due == min_of(recurring as int, 3),
        r.watch == min_of(alerts as int, 3),
        r.channels == min_of(categories as int, 5),
        r.txn_rows == min_of(txns as int, 9),
        r.attention == min_of(alerts as int, 3),
        r.recurring == min_of(recurring as int, 4),
        r.shops == min_of(shops as int, 4),
{
    DashCounts {
        next_due: if recurring < 3 { recurring } else { 3 },
        watch: if alerts < 3 { alerts } else { 3 },
        channels: if categories < 5 { categories } else { 5 },
        txn_rows: if txns < 9 { txns } else { 9 },
        attention: if alerts < 3 { alerts } else { 3 },
        recurring: if recurring < 4 { recurring } else { 4 },
        shops: if shops < 4 { shops } else { 4 },
    }
}

/// The signal strip: every tracked signal, then every AI candidate, each in
/// fetched order, as `(is candidate, position in its list)`.
pub fn signal_strip(n_tracked: usize, candidates: usize) -> (r: Vec<(bool, usize)>)
    requires
        n_tracked + candidates <= usize::MAX,
    ensures
        r@.len() == n_tracked + candidates,
        forall|i: int| 0 <= i < n_tracked ==> #[trigger] r@[i] == (false, i as usize),
        forall|j: int| 0 <= j < candidates ==> #[trigger] r@[n_tracked + j] == (true, j as usize),
{
    let mut r: Vec<(bool, usize)> = Vec::new();
    let mut i: usize = 0;
    while i < n_tracked
        invariant
            i <= n_tracked,
            r@.len() == i,
            forall|a: int| 0 <= a < i ==> #[trigger] r@[a] == (false, a as usize),
        decreases n_tracked - i,
    {
        r.push((false, i));
        i = i + 1;
    }
    let mut j: usize = 0;
    while j < candidates
        invariant
            j <= candidates,
            n_tracked + candidates <= usize::MAX,
            r@.len() == n_tracked + j,
            forall|a: int| 0 <= a < n_tracked ==> #[trigger] r@[a] == (false, a as usize),
            forall|b: int| 0 <= b < j ==> #[trigger] r@[n_tracked + b] == (true, b as usize),
        decreases candidates - j,
    {
        r.push((true, j));
        j = j + 1;
    }
    r
}

/// The alert panel's failure line.
#[derive(Debug, Clone, PartialEq, Eq)]
pub struct AlertUi {
    pub error: Option<String>,
}

impl AlertUi {
    /// No failure shown.
    pub fn new() -> (s: AlertUi)
        ensures
            s.error is None,
    {
        AlertUi { error: None }
    }

    /// An alert action (any button kind but `navigate`) was answered:
    /// success clears the failure and refetches the alerts; a failure shows
    /// the fixed page-safe `failed_text` (never the server's own words) and
    /// does not refetch. Returns whether to refetch.
    pub fn finish_action(&mut self, result: Result<(), crate::calls::CallError>, failed_text: String) -> (refresh: bool)
        ensures
            refresh == (result is Ok),
            result is Ok ==> final(self).error is None,
            result is Err ==> final(self).error == Some(failed_text),
    {
        match result {
            Ok(()) => {
                self.error = None;
                true
            },
            Err(_) => {
                self.error = Some(failed_text);
                false
            },
        }
    }
}

} // verus!
