//! The Budgets page's decisions: an envelope's channel status against its
//! (possibly stepped) cap, the stepper's unsaved cap deltas, the envelope
//! orderings, and the KPI band's figures. Money is in centimes.

use vstd::prelude::*;
use crate::text::{signed_decimal, push_str, string_of, string_from, str_eq, i64_text};
use crate::sorting::{rr_ordered, ranked_ratio_order};

verus! {

/// The status key of a channel: its tone / label class.
#[derive(Debug, Clone, Copy, PartialEq, Eq, Structural)]
pub enum StKey {
    NoCap,
    Fixed,
    Unused,
    Over,
    WillExceed,
    Tight,
    OnTrack,
}

/// `|x|`.
pub open spec fn abs(x: int) -> int {
    if x < 0 { -x } else { x }
}

/// `a / b > 1` for a nonzero `b`.
pub open spec fn exceeds(a: int, b: int) -> bool {
    if b > 0 { a > b } else { a < b }
}

/// `a / b >= 0.85` for a nonzero `b`.
pub open spec fn tight_at(a: int, b: int) -> bool {
    if b > 0 { 100 * a >= 85 * b } else { 100 * a <= 85 * b }
}

/// `n / d` rounded half away from zero (`d != 0`).
pub open spec fn round_div(n: int, d: int) -> int {
    let q = (2 * abs(n) + abs(d)) / (2 * abs(d));
    if (n < 0) != (d < 0) { -q } else { q }
}

/// `x` held to the `i64` range (what a float-to-`i64` cast does).
pub open spec fn clamp_i64(x: int) -> int {
    if x > i64::MAX { i64::MAX as int } else if x < i64::MIN { i64::MIN as int } else { x }
}

/// How far over its cap a channel is, in whole percent.
pub open spec fn over_pct(spent: int, cap: int) -> int {
    clamp_i64(round_div(100 * (spent - cap), cap))
}

/// A channel's `(key, label, tone)` from what it spent, its projection, its
/// cap and whether it is a fixed charge: fixed first, then no cap, unused,
/// over (`N% OVER`), on pace over, tight (85% or more used) and on track.
pub open spec fn status_of(spent: int, proj: int, cap: int, fixed: bool) -> (StKey, Seq<char>, Seq<char>) {
    if fixed {
        (StKey::Fixed, "FIXED"@, "blue"@)
    } else if cap == 0 {
        (StKey::NoCap, "NO CAP"@, "blue"@)
    } else if spent == 0 {
        (StKey::Unused, "UNUSED"@, "blue"@)
    } else if exceeds(spent, cap) {
        (StKey::Over, signed_decimal(over_pct(spent, cap)) + "% OVER"@, "coral"@)
    } else if exceeds(proj, cap) {
        (StKey::WillExceed, "ON PACE OVER"@, "coral"@)
    } else if tight_at(spent, cap) {
        (StKey::Tight, "TIGHT"@, "blue"@)
    } else {
        (StKey::OnTrack, "ON TRACK"@, "blue"@)
    }
}

/// `round_div` on machine integers well inside the `i128` range.
fn round_div_i128(n: i128, d: i128) -> (r: i128)
    requires
        d != 0,
        -0x1_0000_0000_0000_0000_0000_0000 <= n <= 0x1_0000_0000_0000_0000_0000_0000,
        -0x1_0000_0000_0000_0000_0000_0000 <= d <= 0x1_0000_0000_0000_0000_0000_0000,
    ensures
        r == round_div(n as int, d as int),
{
    let an: i128 = if n < 0 { -n } else { n };
    let ad: i128 = if d < 0 { -d } else { d };
    let q: i128 = (2 * an + ad) / (2 * ad);
    if (n < 0) != (d < 0) { -q } else { q }
}

/// A channel's status (see [`status_of`]).
pub fn budget_status(spent: i64, proj: i64, cap: i64, fixed: bool) -> (r: (StKey, String, &'static str))
    ensures
        (r.0, r.1@, r.2@) == status_of(spent as int, proj as int, cap as int, fixed),
{
    if fixed {
        return (StKey::Fixed, string_from("FIXED"), "blue");
    }
    if cap == 0 {
        return (StKey::NoCap, string_from("NO CAP"), "blue");
    }
    if spent == 0 {
        return (StKey::Unused, string_from("UNUSED"), "blue");
    }
    let over = if cap > 0 { spent > cap } else { spent < cap };
    if over {
        let num: i128 = 100 * ((spent as i128) - (cap as i128));
        let v = round_div_i128(num, cap as i128);
        let pct: i64 = if v > i64::MAX as i128 {
            i64::MAX
        } else if v < i64::MIN as i128 {
            i64::MIN
        } else {
            v as i64
        };
        let mut t = i64_text(pct);
        push_str(&mut t, "% OVER");
        return (StKey::Over, string_of(&t), "coral");
    }
    let will = if cap > 0 { proj > cap } else { proj < cap };
    if will {
        return (StKey::WillExceed, string_from("ON PACE OVER"), "coral");
    }
    let s = spent as i128;
    let c = cap as i128;
    let tight = if cap > 0 { 100 * s >= 85 * c } else { 100 * s <= 85 * c };
    if tight {
        return (StKey::Tight, string_from("TIGHT"), "blue");
    }
    (StKey::OnTrack, string_from("ON TRACK"), "blue")
}

/// The percent figure's CSS modifier for a status key.
pub fn pct_cls(key: StKey) -> (r: &'static str)
    ensures
        r@ == match key {
            StKey::Over => "alert"@,
            StKey::WillExceed | StKey::Tight => "warn"@,
            _ => "ok"@,
        },
{
    match key {
        StKey::Over => "alert",
        StKey::WillExceed | StKey::Tight => "warn",
        _ => "ok",
    }
}

/// The stepped cap of a category: its fetched cap plus the local delta,
/// never below zero.
pub fn cap_of(base: i64, delta: i64) -> (r: i64)
    requires
        i64::MIN <= base + delta <= i64::MAX,
    ensures
        r == (if base + delta > 0 { base + delta } else { 0 }),
{
    let v = base + delta;
    if v > 0 { v } else { 0 }
}

/// `|m|` as money (the magnitude of the under-pace figure).
pub fn abs_money(m: i64) -> (r: i64)
    requires
        m != i64::MIN,
    ensures
        r == abs(m as int),
{
    if m < 0 { -m } else { m }
}

/// The backend-offline message and hint shown when a read failed.
pub fn offline_message(errored: bool) -> (r: (Option<String>, Option<String>))
    ensures
        !errored ==> r.0 is None && r.1 is None,
        errored ==> (r.0 matches Some(m) && m@ == "Backend offline"@),
        errored ==> (r.1 matches Some(h) && h@ == "start it: cargo run -p phosk_api"@),
{
    if errored {
        (Some(string_from("Backend offline")), Some(string_from("start it: cargo run -p phosk_api")))
    } else {
        (None, None)
    }
}

/// The inline cap editor of an envelope: whether it is open, the typed
/// CHF text, whether a save is in flight, and the last rejection.
#[derive(Debug, Clone, PartialEq, Eq)]
pub struct CapEdit {
    pub editing: bool,
    pub draft: String,
    pub pending: bool,
    pub error: Option<String>,
}

impl CapEdit {
    /// A closed editor.
    pub fn new() -> (s: CapEdit)
        ensures
            !s.editing,
            !s.pending,
            s.draft@.len() == 0,
            s.error is None,
    {
        CapEdit { editing: false, draft: String::new(), pending: false, error: None }
    }

    /// Clicking the cap value opens the editor on the cap's input text.
    pub fn open(&mut self, cap_text: String)
        ensures
            final(self).editing,
            final(self).draft == cap_text,
            final(self).error is None,
            final(self).pending == old(self).pending,
    {
        self.draft = cap_text;
        self.error = None;
        self.editing = true;
    }

    /// New text in the field: a stale rejection clears.
    pub fn input(&mut self, text: String)
        ensures
            final(self).draft == text,
            final(self).error is None,
            final(self).editing == old(self).editing,
            final(self).pending == old(self).pending,
    {
        self.draft = text;
        self.error = None;
    }

    /// SAVE (or Enter): unless a save is in flight, the typed text is sent
    /// as is (the server parses and validates it). Returns the text to send.
    pub fn save(&mut self) -> (r: Option<String>)
        ensures
            old(self).pending ==> r is None && *final(self) == *old(self),
            !old(self).pending ==> r == Some(old(self).draft) && final(self).pending
                && final(self).error is None && final(self).editing == old(self).editing
                && final(self).draft == old(self).draft,
    {
        if self.pending {
            return None;
        }
        self.pending = true;
        self.error = None;
        Some(self.draft.clone())
    }

    /// The save was answered: success closes the editor (the page then
    /// refetches), a rejection keeps it open with the server's message.
    /// Returns whether the cap was saved.
    pub fn finish(&mut self, result: Result<(), String>) -> (saved: bool)
        ensures
            saved == (result is Ok),
            !final(self).pending,
            final(self).draft == old(self).draft,
            result is Ok ==> !final(self).editing && final(self).error == old(self).error,
            result matches Err(e) ==> final(self).editing == old(self).editing && final(self).error == Some(e),
    {
        self.pending = false;
        match result {
            Ok(()) => {
                self.editing = false;
                true
            },
            Err(e) => {
                self.error = Some(e);
                false
            },
        }
    }

    /// CANCEL (or Escape): closes the editor unless a save is in flight.
    pub fn cancel(&mut self)
        ensures
            old(self).pending ==> *final(self) == *old(self),
            !old(self).pending ==> !final(self).editing && final(self).error is None
                && final(self).draft == old(self).draft && !final(self).pending,
    {
        if !self.pending {
            self.editing = false;
            self.error = None;
        }
    }
}

/// The stepper's unsaved cap deltas (centimes), one per category name.
#[derive(Debug, Clone)]
pub struct CapOverrides {
    entries: Vec<(String, i64)>,
}

impl CapOverrides {
    /// No two entries name the same category.
    pub closed spec fn wf(self) -> bool {
        forall|i: int, j: int| 0 <= i < j < self.entries@.len()
            ==> #[trigger] self.entries@[i].0@ != #[trigger] self.entries@[j].0@
    }

    /// Some entry names `k`.
    pub closed spec fn has(self, k: Seq<char>) -> bool {
        exists|i: int| 0 <= i < self.entries@.len() && self.entries@[i].0@ == k
    }

    /// The deltas by category name.
    pub closed spec fn view(self) -> Map<Seq<char>, i64> {
        Map::new(
            |k: Seq<char>| self.has(k),
            |k: Seq<char>| self.entries@[choose|i: int| 0 <= i < self.entries@.len() && self.entries@[i].0@ == k].1,
        )
    }

    /// The entry at `i` is the one naming `k`.
    proof fn lemma_at(self, i: int, k: Seq<char>)
        requires
            self.wf(),
            0 <= i < self.entries@.len(),
            self.entries@[i].0@ == k,
        ensures
            self@.contains_key(k),
            self@[k] == self.entries@[i].1,
    {
        let j = choose|j: int| 0 <= j < self.entries@.len() && self.entries@[j].0@ == k;
        assert(self.has(k));
        if j != i {
            if j < i {
                assert(self.entries@[j].0@ != self.entries@[i].0@);
            } else {
                assert(self.entries@[i].0@ != self.entries@[j].0@);
            }
        }
    }

    /// No deltas.
    pub fn new() -> (s: CapOverrides)
        ensures
            s.wf(),
            s@ == Map::<Seq<char>, i64>::empty(),
    {
        let s = CapOverrides { entries: Vec::new() };
        assert(s@ =~= Map::<Seq<char>, i64>::empty());
        s
    }

    /// The position of the entry naming `name`.
    fn find(&self, name: &str) -> (r: Option<usize>)
        requires
            self.wf(),
        ensures
            r matches Some(i) ==> i < self.entries@.len() && self.entries@[i as int].0@ == name@,
            r is None ==> !self.has(name@),
    {
        let mut i: usize = 0;
        while i < self.entries.len()
            invariant
                i <= self.entries@.len(),
                forall|j: int| 0 <= j < i ==> self.entries@[j].0@ != name@,
            decreases self.entries.len() - i,
        {
            if str_eq(self.entries[i].0.as_str(), name) {
                return Some(i);
            }
            i = i + 1;
        }
        None
    }

    /// The delta of `name` (0 when it has none).
    pub fn get(&self, name: &str) -> (r: i64)
        requires
            self.wf(),
        ensures
            r == (if self@.contains_key(name@) { self@[name@] } else { 0 }),
    {
        match self.find(name) {
            Some(i) => {
                proof { self.lemma_at(i as int, name@); }
                self.entries[i].1
            },
            None => 0,
        }
    }

    /// A `d` whole-CHF step of `name`'s cap: its delta grows by `100 * d`.
    pub fn step(&mut self, name: &str, d: i64)
        requires
            old(self).wf(),
            i64::MIN <= 100 * d <= i64::MAX,
            i64::MIN <= 100 * d + (if old(self)@.contains_key(name@) { old(self)@[name@] as int } else { 0 }) <= i64::MAX,
        ensures
            final(self).wf(),
            final(self)@ == old(self)@.insert(
                name@,
                (100 * d + (if old(self)@.contains_key(name@) { old(self)@[name@] as int } else { 0 })) as i64,
            ),
    {
        let ghost before = *self;
        match self.find(name) {
            Some(i) => {
                proof { before.lemma_at(i as int, name@); }
                let v = self.entries[i].1 + 100 * d;
                let nm = self.entries[i].0.clone();
                self.entries.set(i, (nm, v));
                proof {
                    assert(self.entries@[i as int].0@ == before.entries@[i as int].0@);
                    assert forall|a: int, b: int| 0 <= a < b < self.entries@.len()
                        implies #[trigger] self.entries@[a].0@ != #[trigger] self.entries@[b].0@ by {
                        assert(before.entries@[a].0@ != before.entries@[b].0@);
                    }
                    self.lemma_update(before, i as int, name@);
                }
            },
            None => {
                let v = 100 * d;
                let nm = string_from(name);
                self.entries.push((nm, v));
                proof {
                    assert forall|a: int, b: int| 0 <= a < b < self.entries@.len()
                        implies #[trigger] self.entries@[a].0@ != #[trigger] self.entries@[b].0@ by {
                        if b == before.entries@.len() {
                            assert(before.entries@[a].0@ != name@);
                        } else {
                            assert(before.entries@[a].0@ != before.entries@[b].0@);
                        }
                    }
                    self.lemma_pushed(before, name@);
                }
            },
        }
    }

    /// After overwriting the value at `i` (whose name is `k`), the view is
    /// the old one with `k` rebound.
    proof fn lemma_update(self, before: CapOverrides, i: int, k: Seq<char>)
        requires
            before.wf(),
            self.wf(),
            0 <= i < before.entries@.len(),
            self.entries@.len() == before.entries@.len(),
            before.entries@[i].0@ == k,
            forall|j: int| 0 <= j < self.entries@.len() ==> #[trigger] self.entries@[j].0@ == before.entries@[j].0@,
            forall|j: int| 0 <= j < self.entries@.len() && j != i ==> #[trigger] self.entries@[j].1 == before.entries@[j].1,
        ensures
            self@ == before@.insert(k, self.entries@[i].1),
    {
        assert forall|x: Seq<char>| self.has(x) <==> before@.insert(k, self.entries@[i].1).contains_key(x) by {
            if self.has(x) {
                let j = choose|j: int| 0 <= j < self.entries@.len() && self.entries@[j].0@ == x;
                assert(before.entries@[j].0@ == x);
                assert(before.has(x));
            }
            if before.has(x) {
                let j = choose|j: int| 0 <= j < before.entries@.len() && before.entries@[j].0@ == x;
                assert(self.entries@[j].0@ == x);
            }
            if x == k {
                assert(self.entries@[i].0@ == x);
            }
        }
        assert forall|x: Seq<char>| #[trigger] self.has(x) implies self@[x] == before@.insert(k, self.entries@[i].1)[x] by {
            let j = choose|j: int| 0 <= j < self.entries@.len() && self.entries@[j].0@ == x;
            self.lemma_at(j, x);
            if x != k {
                assert(before.entries@[j].0@ == x);
                before.lemma_at(j, x);
            } else {
                self.lemma_at(i, x);
            }
        }
        assert(self@ =~= before@.insert(k, self.entries@[i].1));
    }

    /// After pushing a new entry for `k`, the view is the old one with `k`
    /// bound to the new value.
    proof fn lemma_pushed(self, before: CapOverrides, k: Seq<char>)
        requires
            before.wf(),
            self.wf(),
            self.entries@.len() == before.entries@.len() + 1,
            self.entries@.last().0@ == k,
            forall|j: int| 0 <= j < before.entries@.len() ==> #[trigger] self.entries@[j] == before.entries@[j],
        ensures
            self@ == before@.insert(k, self.entries@.last().1),
    {
        let n = before.entries@.len() as int;
        assert forall|x: Seq<char>| self.has(x) <==> before@.insert(k, self.entries@.last().1).contains_key(x) by {
            if self.has(x) {
                let j = choose|j: int| 0 <= j < self.entries@.len() && self.entries@[j].0@ == x;
                if j < n {
                    assert(before.entries@[j].0@ == x);
                    assert(before.has(x));
                }
            }
            if before.has(x) {
                let j = choose|j: int| 0 <= j < before.entries@.len() && before.entries@[j].0@ == x;
                assert(self.entries@[j].0@ == x);
            }
            if x == k {
                assert(self.entries@[n].0@ == x);
            }
        }
        assert forall|x: Seq<char>| #[trigger] self.has(x) implies self@[x] == before@.insert(k, self.entries@.last().1)[x] by {
            let j = choose|j: int| 0 <= j < self.entries@.len() && self.entries@[j].0@ == x;
            self.lemma_at(j, x);
            if x != k {
                assert(j < n);
                assert(before.entries@[j].0@ == x);
                before.lemma_at(j, x);
            } else {
                self.lemma_at(n, x);
            }
        }
        assert(self@ =~= before@.insert(k, self.entries@.last().1));
    }

    /// A saved cap drops that category's unsaved delta.
    pub fn remove(&mut self, name: &str)
        requires
            old(self).wf(),
        ensures
            final(self).wf(),
            final(self)@ == old(self)@.remove(name@),
    {
        let ghost before = *self;
        match self.find(name) {
            Some(i) => {
                self.entries.remove(i);
                proof {
                    let n = before.entries@.len() as int;
                    assert forall|j: int| 0 <= j < self.entries@.len() implies #[trigger] self.entries@[j]
                        == before.entries@[if j < i { j } else { j + 1 }] by {
                    }
                    assert forall|a: int, b: int| 0 <= a < b < self.entries@.len()
                        implies #[trigger] self.entries@[a].0@ != #[trigger] self.entries@[b].0@ by {
                        let a2 = if a < i { a } else { a + 1 };
                        let b2 = if b < i { b } else { b + 1 };
                        assert(self.entries@[a] == before.entries@[a2]);
                        assert(self.entries@[b] == before.entries@[b2]);
                        assert(before.entries@[a2].0@ != before.entries@[b2].0@);
                    }
                    assert forall|x: Seq<char>| self.has(x) <==> before@.remove(name@).contains_key(x) by {
                        if self.has(x) {
                            let j = choose|j: int| 0 <= j < self.entries@.len() && self.entries@[j].0@ == x;
                            let j2 = if j < i { j } else { j + 1 };
                            assert(self.entries@[j] == before.entries@[j2]);
                            assert(before.has(x));
                            if x == name@ {
                                if j2 < i {
                                    assert(before.entries@[j2].0@ != before.entries@[i as int].0@);
                                } else {
                                    assert(before.entries@[i as int].0@ != before.entries@[j2].0@);
                                }
                            }
                        }
                        if before.has(x) && x != name@ {
                            let j = choose|j: int| 0 <= j < before.entries@.len() && before.entries@[j].0@ == x;
                            assert(j != i);
                            let j3 = if j < i { j } else { j - 1 };
                            assert(self.entries@[j3] == before.entries@[j]);
                        }
                    }
                    assert forall|x: Seq<char>| #[trigger] self.has(x) implies self@[x] == before@.remove(name@)[x] by {
                        let j = choose|j: int| 0 <= j < self.entries@.len() && self.entries@[j].0@ == x;
                        let j2 = if j < i { j } else { j + 1 };
                        assert(self.entries@[j] == before.entries@[j2]);
                        self.lemma_at(j, x);
                        before.lemma_at(j2, x);
                    }
                    assert(self@ =~= before@.remove(name@));
                }
            },
            None => {
                assert(self@ =~= before@.remove(name@));
            },
        }
    }
}

/// The delta a map of deltas gives `k` (0 when none).
pub open spec fn delta_in(m: Map<Seq<char>, i64>, k: Seq<char>) -> int {
    if m.contains_key(k) { m[k] as int } else { 0 }
}

/// The deltas after a `d` whole-CHF step of `k`.
pub open spec fn stepped(m: Map<Seq<char>, i64>, k: Seq<char>, d: int) -> Map<Seq<char>, i64> {
    m.insert(k, (100 * d + delta_in(m, k)) as i64)
}

/// Law: a `+d` step undone by a `-d` step leaves every category's delta as
/// it was; other categories are never touched by a step.
pub proof fn law_step_undo(m: Map<Seq<char>, i64>, k: Seq<char>, d: int, j: Seq<char>)
    requires
        i64::MIN <= 100 * d + delta_in(m, k) <= i64::MAX,
    ensures
        delta_in(stepped(stepped(m, k, d), k, -d), j) == delta_in(m, j),
        j != k ==> delta_in(stepped(m, k, d), j) == delta_in(m, j),
{
}

/// Law: after a saved cap drops the delta, the stepped cap is the fetched
/// cap again.
pub proof fn law_saved_cap_unstepped(m: Map<Seq<char>, i64>, k: Seq<char>)
    ensures
        delta_in(m.remove(k), k) == 0,
{
}

/// An envelope as the orderings read it: spent, projection and stepped cap
/// (centimes), and whether it is a fixed charge.
#[derive(Debug, Clone, Copy, PartialEq, Eq)]
pub struct Envelope {
    pub spent: i64,
    pub proj: i64,
    pub cap: i64,
    pub fixed: bool,
}

/// The envelope orderings.
#[derive(Debug, Clone, Copy, PartialEq, Eq, Structural)]
pub enum EnvSort {
    /// As fetched.
    Order,
    /// Most used first (spent / cap; 0 without a cap).
    Used,
    /// Over first, then on pace over, then the rest; within each, highest
    /// projection / cap first (the cap taken as at least CHF 1).
    Over,
}

/// The sort rank of a status: over, on pace over, everything else.
pub open spec fn over_rank(key: StKey) -> u8 {
    match key {
        StKey::Over => 0,
        StKey::WillExceed => 1,
        _ => 2,
    }
}

/// The ranked ratio key of an envelope under a sort.
pub open spec fn sort_key(e: Envelope, mode: EnvSort) -> (u8, i64, i64) {
    match mode {
        EnvSort::Over => (
            over_rank(status_of(e.spent as int, e.proj as int, e.cap as int, e.fixed).0),
            e.proj,
            if e.cap > 100 { e.cap } else { 100 },
        ),
        _ => if e.cap > 0 { (0, e.spent, e.cap) } else { (0, 0, 1) },
    }
}

/// The sort keys of every envelope.
pub open spec fn sort_keys(es: Seq<Envelope>, mode: EnvSort) -> Seq<(u8, i64, i64)> {
    Seq::new(es.len(), |i: int| sort_key(es[i], mode))
}

/// The positions of the envelopes in display order: as fetched for
/// `Order`, otherwise stably sorted by [`sort_key`].
pub fn envelope_order(es: &Vec<Envelope>, mode: EnvSort) -> (r: Vec<usize>)
    ensures
        mode == EnvSort::Order ==> r@.len() == es.len() && forall|i: int| 0 <= i < es.len() ==> r@[i] == i,
        mode != EnvSort::Order ==> rr_ordered(sort_keys(es@, mode), r@),
{
    if mode == EnvSort::Order {
        let mut r: Vec<usize> = Vec::new();
        let mut i: usize = 0;
        while i < es.len()
            invariant
                i <= es.len(),
                r.len() == i,
                forall|j: int| 0 <= j < i ==> r@[j] == j,
            decreases es.len() - i,
        {
            r.push(i);
            i = i + 1;
        }
        return r;
    }
    let mut keys: Vec<(u8, i64, i64)> = Vec::new();
    let mut i: usize = 0;
    while i < es.len()
        invariant
            i <= es.len(),
            mode != EnvSort::Order,
            keys.len() == i,
            forall|j: int| 0 <= j < i ==> #[trigger] keys@[j] == sort_key(es@[j], mode),
        decreases es.len() - i,
    {
        let e = es[i];
        let k: (u8, i64, i64) = if mode == EnvSort::Over {
            let (key, _, _) = budget_status(e.spent, e.proj, e.cap, e.fixed);
            let rank: u8 = match key {
                StKey::Over => 0,
                StKey::WillExceed => 1,
                _ => 2,
            };
            (rank, e.proj, if e.cap > 100 { e.cap } else { 100 })
        } else if e.cap > 0 {
            (0, e.spent, e.cap)
        } else {
            (0, 0, 1)
        };
        keys.push(k);
        i = i + 1;
    }
    assert(keys@ =~= sort_keys(es@, mode));
    ranked_ratio_order(&keys)
}

/// Spent as a whole percent of the budget, when there is a budget.
pub open spec fn spent_pct_of(spent: int, budget: int) -> Option<int> {
    if budget != 0 { Some(clamp_i64(round_div(100 * spent, budget))) } else { None }
}

/// The KPI band's spent percent.
pub fn spent_pct(spent: Option<i64>, budget: Option<i64>) -> (r: Option<i64>)
    ensures
        r == match (spent, budget) {
            (Some(s), Some(b)) => match spent_pct_of(s as int, b as int) {
                Some(p) => Some(p as i64),
                None => None,
            },
            _ => None,
        },
{
    match (spent, budget) {
        (Some(s), Some(b)) => {
            if b == 0 {
                None
            } else {
                let v = round_div_i128(100 * (s as i128), b as i128);
                let p: i64 = if v > i64::MAX as i128 {
                    i64::MAX
                } else if v < i64::MIN as i128 {
                    i64::MIN
                } else {
                    v as i64
                };
                Some(p)
            }
        },
        _ => None,
    }
}

/// The header's spent text: `N% spent`, or an em dash.
pub fn spent_pct_text(p: Option<i64>) -> (r: String)
    ensures
        r@ == match p {
            Some(v) => signed_decimal(v as int) + "% spent"@,
            None => "—"@,
        },
{
    match p {
        Some(v) => {
            let mut t = i64_text(v);
            push_str(&mut t, "% spent");
            string_of(&t)
        },
        None => string_from("—"),
    }
}

/// How far the projection runs over the budget (`None` when either is
/// missing or the difference does not fit).
pub fn proj_over(projected: Option<i64>, budget: Option<i64>) -> (r: Option<i64>)
    ensures
        r == match (projected, budget) {
            (Some(p), Some(b)) => if i64::MIN <= p - b <= i64::MAX { Some((p - b) as i64) } else { None },
            _ => None,
        },
{
    match (projected, budget) {
        (Some(p), Some(b)) => p.checked_sub(b),
        _ => None,
    }
}

/// The projection KPI's pace line: over (with the amount) or under (with
/// its magnitude); nothing without a projection.
pub fn pace(proj_over: Option<i64>) -> (r: Option<(bool, i64)>)
    requires
        proj_over != Some(i64::MIN),
    ensures
        r == match proj_over {
            Some(po) => if po > 0 { Some((true, po)) } else { Some((false, (-po) as i64)) },
            None => None,
        },
{
    match proj_over {
        Some(po) => if po > 0 { Some((true, po)) } else { Some((false, abs_money(po))) },
        None => None,
    }
}

/// The allocation line under the ALLOCATED KPI.
#[derive(Debug, Clone, Copy, PartialEq, Eq)]
pub enum AllocLine {
    /// `CHF x over budget`.
    OverBudget(i64),
    /// `CHF x unallocated`.
    Unallocated(i64),
    /// An em dash.
    Unknown,
}

/// The ALLOCATED KPI's flag (over-allocated) and line.
pub fn alloc_kpi(over_allocated: Option<i64>, unallocated: Option<i64>) -> (r: (bool, AllocLine))
    ensures
        r.0 == (over_allocated matches Some(o) && o > 0),
        r.1 == (if over_allocated matches Some(o) && o > 0 {
            AllocLine::OverBudget(over_allocated.unwrap())
        } else if unallocated is Some {
            AllocLine::Unallocated(unallocated.unwrap())
        } else {
            AllocLine::Unknown
        }),
{
    match over_allocated {
        Some(o) if o > 0 => (true, AllocLine::OverBudget(o)),
        _ => match unallocated {
            Some(u) => (false, AllocLine::Unallocated(u)),
            None => (false, AllocLine::Unknown),
        },
    }
}

/// The envelope count of the header: the totals' count, else the number of
/// loaded categories (0 when it does not fit a `u32`), else unknown.
pub fn envelope_count(from_totals: Option<u32>, cats_ready: bool, n: usize) -> (r: Option<u32>)
    ensures
        r == (if from_totals is Some {
            from_totals
        } else if cats_ready {
            Some(if n <= u32::MAX { n as u32 } else { 0 })
        } else {
            None
        }),
{
    match from_totals {
        Some(c) => Some(c),
        None => if cats_ready {
            Some(if n <= u32::MAX as usize { n as u32 } else { 0 })
        } else {
            None
        },
    }
}

/// An envelope's daily allowance: what is left spread over the days left
/// (whole centimes, rounded down), nothing when nothing is left.
pub fn per_day(remaining: i64, days_left: u32) -> (r: i64)
    ensures
        r == (if remaining > 0 && days_left > 0 { remaining as int / days_left as int } else { 0 }),
{
    if remaining > 0 && days_left > 0 {
        remaining / (days_left as i64)
    } else {
        0
    }
}

/// The share of its cap an envelope has used, in whole percent (none
/// without a cap).
pub fn used_pct(spent: i64, cap: i64) -> (r: Option<i64>)
    ensures
        r == (if cap > 0 { Some(clamp_i64(round_div(100 * spent, cap as int)) as i64) } else { None }),
{
    if cap > 0 {
        let v = round_div_i128(100 * (spent as i128), cap as i128);
        let p: i64 = if v > i64::MAX as i128 {
            i64::MAX
        } else if v < i64::MIN as i128 {
            i64::MIN
        } else {
            v as i64
        };
        Some(p)
    } else {
        None
    }
}

/// An envelope card's fixed / variable tag: `(class, text)`.
pub fn env_tag(fixed: bool) -> (r: (&'static str, &'static str))
    ensures
        r == (if fixed { ("env-tag fix", "FIXED") } else { ("env-tag", "VARIABLE") }),
{
    if fixed { ("env-tag fix", "FIXED") } else { ("env-tag", "VARIABLE") }
}

/// What is left of an envelope is `LEFT`; a negative remainder is `OVER`.
pub fn rem_label(remaining: i64) -> (r: &'static str)
    ensures
        r@ == (if remaining >= 0 { "LEFT"@ } else { "OVER"@ }),
{
    if remaining >= 0 { "LEFT" } else { "OVER" }
}

/// `ENTRY` for one, `ENTRIES` otherwise.
pub fn entries_label(items: u32) -> (r: &'static str)
    ensures
        r@ == (if items == 1 { "ENTRY"@ } else { "ENTRIES"@ }),
{
    if items == 1 { "ENTRY" } else { "ENTRIES" }
}

/// The inspector's guidance: the detail's guidance when it has some, else
/// the category's own note.
pub fn guidance(detail: Option<&str>, note: &str) -> (r: String)
    ensures
        r@ == match detail {
            Some(g) => if g@.len() > 0 { g@ } else { note@ },
            None => note@,
        },
{
    match detail {
        Some(g) => if g.unicode_len() > 0 { string_from(g) } else { string_from(note) },
        None => string_from(note),
    }
}

/// Law (a channel's status): a fixed charge is FIXED; otherwise a channel
/// without a cap has NO CAP and one that spent nothing is UNUSED. A channel
/// that spent past its cap (ratio above 1) is over, in coral. Below that,
/// the projection decides first: the channel is ON PACE OVER, in coral,
/// exactly when its projection passes the cap; only when it does not is the
/// channel TIGHT (blue) for a spend of at least 85% of the cap, and ON TRACK
/// (blue) otherwise. Ratios to a negative cap read with the sign flipped.
pub proof fn law_status_classes(spent: int, proj: int, cap: int, fixed: bool)
    ensures
        fixed ==> status_of(spent, proj, cap, fixed) == (StKey::Fixed, "FIXED"@, "blue"@),
        !fixed && cap == 0 ==> status_of(spent, proj, cap, fixed) == (StKey::NoCap, "NO CAP"@, "blue"@),
        !fixed && cap != 0 && spent == 0 ==> status_of(spent, proj, cap, fixed) == (StKey::Unused, "UNUSED"@, "blue"@),
        !fixed && cap != 0 && spent != 0 && ((cap > 0 && spent > cap) || (cap < 0 && spent < cap)) ==> {
            &&& status_of(spent, proj, cap, fixed).0 == StKey::Over
            &&& status_of(spent, proj, cap, fixed).2 == "coral"@
        },
        !fixed && cap != 0 && spent != 0 && !((cap > 0 && spent > cap) || (cap < 0 && spent < cap)) ==> {
            let r = status_of(spent, proj, cap, fixed);
            let pace_over = (cap > 0 && proj > cap) || (cap < 0 && proj < cap);
            let tight = (cap > 0 && 100 * spent >= 85 * cap) || (cap < 0 && 100 * spent <= 85 * cap);
            &&& (r.0 == StKey::WillExceed <==> pace_over)
            &&& (r.0 == StKey::Tight <==> (!pace_over && tight))
            &&& (r.0 == StKey::OnTrack <==> (!pace_over && !tight))
            &&& (r.0 == StKey::WillExceed ==> r.1 == "ON PACE OVER"@ && r.2 == "coral"@)
            &&& (r.0 == StKey::Tight ==> r.1 == "TIGHT"@ && r.2 == "blue"@)
            &&& (r.0 == StKey::OnTrack ==> r.1 == "ON TRACK"@ && r.2 == "blue"@)
        },
{
}

/// Law (the envelope orderings): in the "most used" order every envelope
/// has used at least as large a share of its cap (spend over cap, taken as
/// nothing without a cap) as every envelope after it; in the "over first"
/// order every over-cap envelope comes before the rest, on-pace-over ones
/// come next, and within a group the projection over the cap (taken as at
/// least CHF 1) never rises. Envelopes that tie keep their fetched order.
pub proof fn law_envelope_orders(es: Seq<Envelope>, mode: EnvSort, r: Seq<usize>, a: int, b: int)
    requires
        mode != EnvSort::Order,
        rr_ordered(sort_keys(es, mode), r),
        0 <= a < b < r.len(),
    ensures
        ({
            let x = es[r[a] as int];
            let y = es[r[b] as int];
            let sx = status_of(x.spent as int, x.proj as int, x.cap as int, x.fixed).0;
            let sy = status_of(y.spent as int, y.proj as int, y.cap as int, y.fixed).0;
            let cx: int = if x.cap > 100 { x.cap as int } else { 100 };
            let cy: int = if y.cap > 100 { y.cap as int } else { 100 };
            &&& mode == EnvSort::Used ==> {
                &&& (x.cap > 0 && y.cap > 0 ==> x.spent * y.cap >= y.spent * x.cap)
                &&& (x.cap <= 0 && y.cap > 0 ==> y.spent <= 0)
                &&& (x.cap > 0 && y.cap <= 0 ==> x.spent >= 0)
                &&& (x.cap > 0 && y.cap > 0 && x.spent * y.cap == y.spent * x.cap ==> r[a] < r[b])
                &&& (x.cap <= 0 && y.cap <= 0 ==> r[a] < r[b])
            }
            &&& mode == EnvSort::Over ==> {
                &&& (sy == StKey::Over ==> sx == StKey::Over)
                &&& (sy == StKey::WillExceed ==> sx == StKey::Over || sx == StKey::WillExceed)
                &&& ((sx == StKey::Over) == (sy == StKey::Over) && (sx == StKey::WillExceed) == (sy == StKey::WillExceed)
                    ==> x.proj * cy >= y.proj * cx)
            }
        }),
{
    let k = sort_keys(es, mode);
    let i = r[a] as int;
    let j = r[b] as int;
    assert(i < k.len() && j < k.len());
    assert(crate::sorting::rr_before(k, i, j));
    let x = es[i];
    let y = es[j];
    let kx = sort_key(x, mode);
    let ky = sort_key(y, mode);
    assert(k[i] == kx);
    assert(k[j] == ky);
    assert(crate::sorting::rr_better(kx, ky) || (crate::sorting::rr_equiv(kx, ky) && i < j));
    if mode == EnvSort::Used {
        if x.cap > 0 && y.cap > 0 {
            assert(kx == (0u8, x.spent, x.cap));
            assert(ky == (0u8, y.spent, y.cap));
        } else if x.cap <= 0 && y.cap > 0 {
            assert(kx == (0u8, 0i64, 1i64));
            assert(ky == (0u8, y.spent, y.cap));
            assert(kx.1 * ky.2 == 0 && ky.1 * kx.2 == y.spent) by (nonlinear_arith)
                requires kx.1 == 0, kx.2 == 1, ky.1 == y.spent;
        } else if x.cap > 0 && y.cap <= 0 {
            assert(kx == (0u8, x.spent, x.cap));
            assert(ky == (0u8, 0i64, 1i64));
            assert(kx.1 * ky.2 == x.spent && ky.1 * kx.2 == 0) by (nonlinear_arith)
                requires ky.1 == 0, ky.2 == 1, kx.1 == x.spent;
        } else {
            assert(kx == ky);
        }
        assert(x.cap > 0 && y.cap > 0 ==> x.spent * y.cap >= y.spent * x.cap);
        assert(x.cap <= 0 && y.cap > 0 ==> y.spent <= 0);
        assert(x.cap > 0 && y.cap <= 0 ==> x.spent >= 0);
        assert(x.cap > 0 && y.cap > 0 && x.spent * y.cap == y.spent * x.cap ==> r[a] < r[b]);
        assert(x.cap <= 0 && y.cap <= 0 ==> r[a] < r[b]);
    } else {
        let sx = status_of(x.spent as int, x.proj as int, x.cap as int, x.fixed).0;
        let sy = status_of(y.spent as int, y.proj as int, y.cap as int, y.fixed).0;
        let cx: int = if x.cap > 100 { x.cap as int } else { 100 };
        let cy: int = if y.cap > 100 { y.cap as int } else { 100 };
        assert(kx.0 == over_rank(sx) && kx.1 == x.proj && kx.2 == cx);
        assert(ky.0 == over_rank(sy) && ky.1 == y.proj && ky.2 == cy);
        assert(sy == StKey::Over ==> sx == StKey::Over);
        assert(sy == StKey::WillExceed ==> sx == StKey::Over || sx == StKey::WillExceed);
        assert((sx == StKey::Over) == (sy == StKey::Over) && (sx == StKey::WillExceed) == (sy == StKey::WillExceed)
                    ==> x.proj * cy >= y.proj * cx);
    }
}

} // verus!
