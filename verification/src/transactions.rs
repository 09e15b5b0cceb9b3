//! The Transactions page's decisions: tracked-signal pill labels, the
//! horizon filter, grouping rows by day, the open-row set, which line is
//! picked for correction, and the receipt screen's derived figures.

use vstd::prelude::*;
use crate::text::{str_eq, string_from, chars_of, string_of, first_pos, lemma_first_pos, uppercase, to_uppercase, push_str, push_chars, u64_text, decimal};
use crate::grouping::{adjacent_groups, runs, texts, ints};

verus! {

/// Short pill label for a tracked item-signal id.
pub open spec fn sig_short_of(id: Seq<char>) -> Option<Seq<char>> {
    if id == "coffee"@ {
        Some("COFFEE"@)
    } else if id == "pain"@ {
        Some("PAIN AU CHOC."@)
    } else if id == "beer"@ {
        Some("BEER"@)
    } else if id == "gruyere"@ {
        Some("GRUYÈRE"@)
    } else {
        None
    }
}

/// Short pill label for a tracked item-signal id.
pub fn sig_short(id: &str) -> (r: Option<&'static str>)
    ensures
        match r { Some(s) => Some(s@), None => None } == sig_short_of(id@),
{
    if str_eq(id, "coffee") {
        Some("COFFEE")
    } else if str_eq(id, "pain") {
        Some("PAIN AU CHOC.")
    } else if str_eq(id, "beer") {
        Some("BEER")
    } else if str_eq(id, "gruyere") {
        Some("GRUYÈRE")
    } else {
        None
    }
}

/// The text a signal pill shows: the short label of a known signal, else
/// the line's label, else the signal id.
pub fn pill_text(sig_id: &str, label: &str) -> (r: String)
    ensures
        r@ == match sig_short_of(sig_id@) {
            Some(s) => s,
            None => if label@.len() == 0 { sig_id@ } else { label@ },
        },
{
    match sig_short(sig_id) {
        Some(s) => string_from(s),
        None => if label.unicode_len() == 0 { string_from(sig_id) } else { string_from(label) },
    }
}

/// The backend `period` of a horizon chip (`ALL` and anything else: none).
pub open spec fn hz_period_of(h: Seq<char>) -> Seq<char> {
    if h == "TODAY"@ {
        "day"@
    } else if h == "7D"@ {
        "week"@
    } else if h == "MONTH"@ {
        "month"@
    } else if h == "QUARTER"@ {
        "quarter"@
    } else if h == "YEAR"@ {
        "year"@
    } else {
        ""@
    }
}

/// Map a horizon chip to the backend `period` query param.
pub fn hz_period(h: &str) -> (r: &'static str)
    ensures
        r@ == hz_period_of(h@),
{
    if str_eq(h, "TODAY") {
        "day"
    } else if str_eq(h, "7D") {
        "week"
    } else if str_eq(h, "MONTH") {
        "month"
    } else if str_eq(h, "QUARTER") {
        "quarter"
    } else if str_eq(h, "YEAR") {
        "year"
    } else {
        ""
    }
}

/// Group fetched rows by their day label, preserving order: the day of each
/// run of rows with the same day, and the positions of its rows.
#[verifier::spinoff_prover]
pub fn group_by_day(dates: &Vec<String>) -> (r: (Vec<String>, Vec<Vec<usize>>))
    ensures
        r.0.len() == r.1.len(),
        r.0.len() == runs(texts(dates@)).len(),
        forall|g: int| 0 <= g < r.0.len() ==> (#[trigger] r.0@[g])@ == runs(texts(dates@))[g].0
            && ints(r.1@[g]@) == runs(texts(dates@))[g].1,
{
    adjacent_groups(dates)
}

/// The open-row set after clicking row `id`: its first occurrence is
/// removed if it is open, else it is appended.
pub open spec fn toggled(open: Seq<Seq<char>>, id: Seq<char>) -> Seq<Seq<char>> {
    match first_pos(open, id, 0) {
        Some(p) => open.remove(p),
        None => open.push(id),
    }
}

/// Toggle row `id` in the open-row set.
pub fn toggle_open(open: &mut Vec<String>, id: &str)
    ensures
        texts(final(open)@) == toggled(texts(old(open)@), id@),
{
    let ghost o = texts(open@);
    let mut p: usize = 0;
    while p < open.len()
        invariant
            p <= open.len(),
            o == texts(open@),
            first_pos(o, id@, 0) == first_pos(o, id@, p as int),
            forall|j: int| 0 <= j < p ==> open@[j]@ != id@,
        ensures
            first_pos(o, id@, 0) == first_pos(o, id@, p as int),
            p <= open.len(),
            p < open.len() ==> open@[p as int]@ == id@,
            forall|j: int| 0 <= j < p ==> open@[j]@ != id@,
        decreases open.len() - p,
    {
        if str_eq(open[p].as_str(), id) {
            break;
        }
        p = p + 1;
    }
    if p < open.len() {
        proof {
            assert(o[p as int] == id@);
            assert(first_pos(o, id@, p as int) == Some(p as int));
        }
        open.remove(p);
        assert(texts(open@) =~= o.remove(p as int));
    } else {
        open.push(string_from(id));
        assert(texts(open@) =~= o.push(id@));
    }
}

/// Law (a row opens and closes with the same click): in an open-row set
/// without duplicates, toggling a row flips whether it is open and keeps the
/// set free of duplicates.
pub proof fn law_toggle_flips(open: Seq<Seq<char>>, id: Seq<char>)
    requires
        open.no_duplicates(),
    ensures
        toggled(open, id).contains(id) == !open.contains(id),
        toggled(open, id).no_duplicates(),
        forall|x: Seq<char>| x != id ==> (toggled(open, id).contains(x) == open.contains(x)),
{
    lemma_first_pos(open, id, 0);
    if first_pos(open, id, 0) is Some {
        let p = first_pos(open, id, 0)->0;
        let r = open.remove(p);
        assert(r =~= open.subrange(0, p).add(open.subrange(p + 1, open.len() as int)));
        assert(!r.contains(id)) by {
            if r.contains(id) {
                let j = choose|j: int| 0 <= j < r.len() && r[j] == id;
                if j < p {
                    assert(r[j] == open[j]);
                } else {
                    assert(r[j] == open[j + 1]);
                }
            }
        }
        assert forall|a: int, b: int| 0 <= a < b < r.len() implies r[a] != r[b] by {
            let oa = if a < p { a } else { a + 1 };
            let ob = if b < p { b } else { b + 1 };
            assert(r[a] == open[oa]);
            assert(r[b] == open[ob]);
        }
        assert forall|x: Seq<char>| x != id implies (r.contains(x) == open.contains(x)) by {
            if open.contains(x) {
                let j = choose|j: int| 0 <= j < open.len() && open[j] == x;
                assert(j != p);
                if j < p {
                    assert(r[j] == x);
                } else {
                    assert(r[j - 1] == x);
                }
            }
            if r.contains(x) {
                let j = choose|j: int| 0 <= j < r.len() && r[j] == x;
                if j < p {
                    assert(open[j] == x);
                } else {
                    assert(open[j + 1] == x);
                }
            }
        }
    } else {
        let r = open.push(id);
        assert(!open.contains(id));
        assert(r[open.len() as int] == id);
        assert forall|a: int, b: int| 0 <= a < b < r.len() implies r[a] != r[b] by {
            if b == open.len() {
                assert(r[a] == open[a]);
            } else {
                assert(r[a] == open[a] && r[b] == open[b]);
            }
        }
        assert forall|x: Seq<char>| x != id implies (r.contains(x) == open.contains(x)) by {
            if open.contains(x) {
                let j = choose|j: int| 0 <= j < open.len() && open[j] == x;
                assert(r[j] == x);
            }
            if r.contains(x) {
                let j = choose|j: int| 0 <= j < r.len() && r[j] == x;
                assert(j < open.len());
                assert(open[j] == x);
            }
        }
    }
}

/// A deleted transaction leaves the open-row set (every occurrence).
pub fn forget_open(open: &mut Vec<String>, id: &str)
    ensures
        texts(final(open)@) == texts(old(open)@).filter(|x: Seq<char>| x != id@),
{
    let ghost o = texts(open@);
    let mut kept: Vec<String> = Vec::new();
    let mut i: usize = 0;
    while i < open.len()
        invariant
            i <= open.len(),
            o == texts(open@),
            texts(kept@) == o.take(i as int).filter(|x: Seq<char>| x != id@),
        decreases open.len() - i,
    {
        proof {
            assert(o.take(i + 1).drop_last() =~= o.take(i as int));
            reveal_with_fuel(Seq::filter, 1);
        }
        if !str_eq(open[i].as_str(), id) {
            let ghost k0 = texts(kept@);
            kept.push(open[i].clone());
            assert(texts(kept@) =~= k0.push(o[i as int]));
        }
        i = i + 1;
    }
    assert(o.take(open.len() as int) =~= o);
    *open = kept;
}

/// The line picked for correction after a click on line `pick`: clicking the
/// picked line closes its editor, any other line opens instead; while the
/// transaction's own edit panel is open (`locked`) nothing changes.
pub open spec fn picked_of(editing: Option<usize>, pick: usize, locked: bool) -> Option<usize> {
    if locked {
        editing
    } else if editing == Some(pick) {
        None
    } else {
        Some(pick)
    }
}

/// The line picked for correction after a click on line `pick`.
pub fn pick_line(editing: Option<usize>, pick: usize, locked: bool) -> (r: Option<usize>)
    ensures
        r == picked_of(editing, pick, locked),
{
    if locked {
        editing
    } else if editing == Some(pick) {
        None
    } else {
        Some(pick)
    }
}

/// The first space-separated part of `date` and the rest after that space.
pub open spec fn split_first_space(date: Seq<char>) -> (Seq<char>, Seq<char>) {
    match first_pos(date, ' ', 0) {
        Some(p) => (date.subrange(0, p), date.subrange(p + 1, date.len() as int)),
        None => (date, Seq::empty()),
    }
}

/// The row's date column: the day (the date's first part, or the whole date
/// when that part is empty) and the month (the rest after the first space).
pub open spec fn day_parts_of(date: Seq<char>) -> (Seq<char>, Seq<char>) {
    let (d, mo) = split_first_space(date);
    (if d.len() == 0 { date } else { d }, mo)
}

/// The row's date column: `(day, month)`.
pub fn day_parts(date: &str) -> (r: (String, String))
    ensures
        (r.0@, r.1@) == day_parts_of(date@),
{
    let c = chars_of(date);
    let mut p: usize = 0;
    while p < c.len()
        invariant
            c@ == date@,
            p <= c.len(),
            first_pos(date@, ' ', 0) == first_pos(date@, ' ', p as int),
            forall|j: int| 0 <= j < p ==> c@[j] != ' ',
        ensures
            first_pos(date@, ' ', 0) == first_pos(date@, ' ', p as int),
            p <= c.len(),
            p < c.len() ==> c@[p as int] == ' ',
            forall|j: int| 0 <= j < p ==> c@[j] != ' ',
        decreases c.len() - p,
    {
        if c[p] == ' ' {
            break;
        }
        p = p + 1;
    }
    let mut d: Vec<char> = Vec::new();
    let mut i: usize = 0;
    while i < p
        invariant
            p <= c.len(),
            i <= p,
            d@ == c@.subrange(0, i as int),
        decreases p - i,
    {
        d.push(c[i]);
        i = i + 1;
        assert(d@ =~= c@.subrange(0, i as int));
    }
    let mut mo: Vec<char> = Vec::new();
    if p < c.len() {
        let mut j: usize = p + 1;
        while j < c.len()
            invariant
                p < c.len(),
                p + 1 <= j <= c.len(),
                mo@ == c@.subrange(p + 1, j as int),
            decreases c.len() - j,
        {
            mo.push(c[j]);
            j = j + 1;
            assert(mo@ =~= c@.subrange(p + 1, j as int));
        }
    }
    proof {
        let s = date@;
        if p < c.len() {
            assert(first_pos(s, ' ', p as int) == Some(p as int));
        } else {
            assert(d@ =~= s);
            assert(mo@ =~= Seq::<char>::empty());
        }
    }
    let day = if d.len() == 0 { string_from(date) } else { string_of(&d) };
    (day, string_of(&mo))
}

/// The number of OCR regions shown: the detail's count when positive, else
/// the number of lines.
pub fn region_count(ocr_regions: Option<u64>, lines: usize) -> (r: u64)
    requires
        lines <= u64::MAX,
    ensures
        r == match ocr_regions {
            Some(n) => if n > 0 { n } else { lines as u64 },
            None => lines as u64,
        },
{
    match ocr_regions {
        Some(n) => if n > 0 { n } else { lines as u64 },
        None => lines as u64,
    }
}

/// `items` for more than one, `item` otherwise.
pub fn item_word(n: u64) -> (r: &'static str)
    ensures
        r@ == (if n > 1 { "items"@ } else { "item"@ }),
{
    if n > 1 { "items" } else { "item" }
}

/// `signals` for more than one, `signal` otherwise.
pub fn signal_word(n: usize) -> (r: &'static str)
    ensures
        r@ == (if n > 1 { "signals"@ } else { "signal"@ }),
{
    if n > 1 { "signals" } else { "signal" }
}

/// The editable text of one receipt line.
#[derive(Debug, Clone, PartialEq, Eq)]
pub struct LineDraft {
    pub name: String,
    pub category: String,
    pub qty: String,
    pub unit_price: String,
}

/// A line draft as text.
pub open spec fn draft_v(d: LineDraft) -> (Seq<char>, Seq<char>, Seq<char>, Seq<char>) {
    (d.name@, d.category@, d.qty@, d.unit_price@)
}

/// Whether two drafts hold the same text.
pub fn same_draft(a: &LineDraft, b: &LineDraft) -> (r: bool)
    ensures
        r == (draft_v(*a) == draft_v(*b)),
{
    str_eq(a.name.as_str(), b.name.as_str()) && str_eq(a.category.as_str(), b.category.as_str())
        && str_eq(a.qty.as_str(), b.qty.as_str()) && str_eq(a.unit_price.as_str(), b.unit_price.as_str())
}

/// A copy of a draft.
fn copy_draft(d: &LineDraft) -> (r: LineDraft)
    ensures
        draft_v(r) == draft_v(*d),
{
    LineDraft {
        name: d.name.clone(),
        category: d.category.clone(),
        qty: d.qty.clone(),
        unit_price: d.unit_price.clone(),
    }
}

/// How a correction or confirmation was answered.
#[derive(Debug, Clone, Copy, PartialEq, Eq, Structural)]
pub enum LineAnswer {
    /// Saved: the editor closes and the page refetches.
    Saved,
    /// Refused: the message shows; `true` when the refusal says the page is
    /// out of date and the lines refetch.
    Refused(bool),
}

/// The inline correction form of one picked line: the line as the form
/// opened it (the server's stale-read guard), the typed draft, whether a
/// save is in flight, and the last refusal.
#[derive(Debug, Clone, PartialEq, Eq)]
pub struct LineEdit {
    pub seen: LineDraft,
    pub draft: LineDraft,
    pub pending: bool,
    pub error: Option<String>,
}

/// What the correction form shows under its fields.
#[derive(Debug, Clone, PartialEq, Eq)]
pub enum LineState {
    Saving,
    /// The stored line changed since the form opened: RELOAD replaces SAVE.
    Changed,
    NotSaved(String),
    Idle,
}

impl LineEdit {
    /// The form opens on the stored line.
    pub fn open(line: &LineDraft) -> (e: LineEdit)
        ensures
            draft_v(e.seen) == draft_v(*line),
            draft_v(e.draft) == draft_v(*line),
            !e.pending,
            e.error is None,
    {
        LineEdit { seen: copy_draft(line), draft: copy_draft(line), pending: false, error: None }
    }

    /// The stored line (`current`) differs from the one the form opened on.
    pub fn moved(&self, current: &LineDraft) -> (r: bool)
        ensures
            r == (draft_v(*current) != draft_v(self.seen)),
    {
        !same_draft(current, &self.seen)
    }

    /// The typed fields changed.
    pub fn edit(&mut self, d: LineDraft)
        ensures
            final(self).draft == d,
            final(self).seen == old(self).seen,
            final(self).pending == old(self).pending,
            final(self).error == old(self).error,
    {
        self.draft = d;
    }

    /// SAVE: runs unless a save is in flight or the stored line moved.
    /// Returns the `(seen, draft)` pair the correction is built from.
    pub fn save(&mut self, current: &LineDraft) -> (r: Option<(LineDraft, LineDraft)>)
        ensures
            (old(self).pending || draft_v(*current) != draft_v(old(self).seen)) ==> r is None && *final(self) == *old(self),
            !(old(self).pending || draft_v(*current) != draft_v(old(self).seen)) ==> {
                &&& r matches Some((a, b)) && draft_v(a) == draft_v(old(self).seen) && draft_v(b) == draft_v(old(self).draft)
                &&& final(self).pending
                &&& final(self).error is None
                &&& final(self).seen == old(self).seen
                &&& final(self).draft == old(self).draft
            },
    {
        if self.pending || self.moved(current) {
            return None;
        }
        self.pending = true;
        self.error = None;
        Some((copy_draft(&self.seen), copy_draft(&self.draft)))
    }

    /// The correction was answered: `Err` carries the page-safe message and
    /// whether the page must refetch.
    pub fn finish(&mut self, result: Result<(), (String, bool)>) -> (a: LineAnswer)
        ensures
            !final(self).pending,
            final(self).seen == old(self).seen,
            final(self).draft == old(self).draft,
            result is Ok ==> a == LineAnswer::Saved && final(self).error == old(self).error,
            result matches Err((m, reload)) ==> a == LineAnswer::Refused(reload) && final(self).error == Some(m),
    {
        self.pending = false;
        match result {
            Ok(()) => LineAnswer::Saved,
            Err((m, reload)) => {
                self.error = Some(m);
                LineAnswer::Refused(reload)
            },
        }
    }

    /// RELOAD: the form takes the stored line's values, dropping the edits.
    pub fn reload(&mut self, current: &LineDraft)
        ensures
            draft_v(final(self).seen) == draft_v(*current),
            draft_v(final(self).draft) == draft_v(*current),
            final(self).error is None,
            final(self).pending == old(self).pending,
    {
        self.draft = copy_draft(current);
        self.seen = copy_draft(current);
        self.error = None;
    }

    /// What shows under the fields: saving first, then a moved line, then
    /// the last refusal.
    pub fn state(&self, current: &LineDraft) -> (r: LineState)
        ensures
            self.pending ==> r == LineState::Saving,
            !self.pending && draft_v(*current) != draft_v(self.seen) ==> r == LineState::Changed,
            !self.pending && draft_v(*current) == draft_v(self.seen) ==> r == match self.error {
                Some(m) => LineState::NotSaved(m),
                None => LineState::Idle,
            },
    {
        if self.pending {
            LineState::Saving
        } else if self.moved(current) {
            LineState::Changed
        } else {
            match &self.error {
                Some(m) => LineState::NotSaved(m.clone()),
                None => LineState::Idle,
            }
        }
    }
}

/// The CONFIRM button of a flagged line: accepts the reading as it is.
#[derive(Debug, Clone, PartialEq, Eq)]
pub struct LineConfirm {
    pub pending: bool,
    pub error: Option<String>,
}

impl LineConfirm {
    /// Nothing in flight.
    pub fn new() -> (c: LineConfirm)
        ensures
            !c.pending,
            c.error is None,
    {
        LineConfirm { pending: false, error: None }
    }

    /// CONFIRM: runs unless one is in flight. Returns whether it runs.
    pub fn confirm(&mut self) -> (start: bool)
        ensures
            start == !old(self).pending,
            start ==> final(self).pending && final(self).error is None,
            !start ==> *final(self) == *old(self),
    {
        if self.pending {
            return false;
        }
        self.pending = true;
        self.error = None;
        true
    }

    /// The confirmation was answered: success refetches (only), a refusal
    /// shows its message and refetches when it says the page is stale.
    /// Returns whether to refetch.
    pub fn finish(&mut self, result: Result<(), (String, bool)>) -> (refresh: bool)
        ensures
            !final(self).pending,
            result is Ok ==> refresh && final(self).error == old(self).error,
            result matches Err((m, reload)) ==> refresh == reload && final(self).error == Some(m),
    {
        self.pending = false;
        match result {
            Ok(()) => true,
            Err((m, reload)) => {
                self.error = Some(m);
                reload
            },
        }
    }
}

/// The open receipt detail follows the refetched list: the position of the
/// row with the open id, if the list still holds it.
pub fn detail_follow(open_id: Option<&str>, ids: &Vec<String>) -> (r: Option<usize>)
    ensures
        open_id is None ==> r is None,
        open_id matches Some(id) ==> match r {
            Some(p) => p < ids.len() && ids@[p as int]@ == id@ && forall|j: int| 0 <= j < p ==> ids@[j]@ != id@,
            None => forall|j: int| 0 <= j < ids.len() ==> ids@[j]@ != id@,
        },
{
    match open_id {
        None => None,
        Some(id) => {
            let mut i: usize = 0;
            while i < ids.len()
                invariant
                    i <= ids.len(),
                    open_id == Some(id),
                    forall|j: int| 0 <= j < i ==> ids@[j]@ != id@,
                decreases ids.len() - i,
            {
                if str_eq(ids[i].as_str(), id) {
                    return Some(i);
                }
                i = i + 1;
            }
            None
        },
    }
}

/// The receipt screen's OCR header: `ENGINE · n REGIONS`, the engine name
/// upper-cased (`PADDLEOCR` until the detail has loaded).
pub fn ocr_meta(engine: Option<&str>, regions: u64) -> (r: String)
    ensures
        r@ == (match engine {
            Some(e) => uppercase(e@),
            None => "PADDLEOCR"@,
        }) + " · "@ + decimal(regions as nat) + " REGIONS"@,
{
    let mut v: Vec<char> = match engine {
        Some(e) => {
            let u = to_uppercase(e);
            chars_of(u.as_str())
        },
        None => chars_of("PADDLEOCR"),
    };
    push_str(&mut v, " · ");
    let n = u64_text(regions);
    push_chars(&mut v, &n);
    push_str(&mut v, " REGIONS");
    string_of(&v)
}

/// The receipt's source type, upper-cased (`PHOTO` until the detail has
/// loaded).
pub fn source_kind(kind: Option<&str>) -> (r: String)
    ensures
        r@ == match kind {
            Some(k) => uppercase(k@),
            None => "PHOTO"@,
        },
{
    match kind {
        Some(k) => to_uppercase(k),
        None => string_from("PHOTO"),
    }
}

/// COLLAPSE ALL shows only while more than one row is open.
pub fn collapse_all_shown(open: &Vec<String>) -> (r: bool)
    ensures
        r == (open.len() > 1),
{
    open.len() > 1
}

/// COLLAPSE ALL closes every open row.
pub fn collapse_all(open: &mut Vec<String>)
    ensures
        final(open)@.len() == 0,
{
    open.clear();
}

/// Law (a line moved when any field changed): two drafts count as the same
/// exactly when their name, category, quantity and unit price texts are all
/// equal; a change in any one of the four (the price included) makes them
/// differ.
pub proof fn law_same_draft_fields(a: LineDraft, b: LineDraft)
    ensures
        (draft_v(a) == draft_v(b)) <==> (a.name@ == b.name@ && a.category@ == b.category@
            && a.qty@ == b.qty@ && a.unit_price@ == b.unit_price@),
{
}

} // verus!
