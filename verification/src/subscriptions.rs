//! The Subscriptions page's decisions: status labels and tones, the edit
//! form's starting values, the one-write-at-a-time flow and what each answer
//! closes, the AI-candidate decisions, and the cadence grouping.

use vstd::prelude::*;
use crate::text::{str_eq, string_from, string_of, push_str, push_chars, u64_text, decimal};

verus! {

/// The label and tone of a subscription status; the record's own status
/// label wins over the default one when it is not empty.
pub open spec fn sub_status_of(status: Seq<char>, label: Seq<char>) -> (Seq<char>, Seq<char>) {
    let (default, tone) = if status == "due"@ {
        ("NOT SEEN"@, "coral"@)
    } else if status == "soon"@ {
        ("DUE SOON"@, "warn"@)
    } else if status == "watch"@ {
        ("REVIEW"@, "warn"@)
    } else {
        ("ACTIVE"@, "blue"@)
    };
    (if label.len() == 0 { default } else { label }, tone)
}

/// Status → `(label, tone)`.
pub fn sub_status(status: &str, status_label: &str) -> (r: (String, &'static str))
    ensures
        (r.0@, r.1@) == sub_status_of(status@, status_label@),
{
    let (default, tone): (&str, &'static str) = if str_eq(status, "due") {
        ("NOT SEEN", "coral")
    } else if str_eq(status, "soon") {
        ("DUE SOON", "warn")
    } else if str_eq(status, "watch") {
        ("REVIEW", "warn")
    } else {
        ("ACTIVE", "blue")
    };
    let label = if status_label.unicode_len() == 0 { string_from(default) } else { string_from(status_label) };
    (label, tone)
}

/// `"/ YR"` for a yearly cadence, `"/ MO"` otherwise.
pub fn cad_unit(cadence: &str) -> (r: &'static str)
    ensures
        r@ == (if cadence@ == "yearly"@ { "/ YR"@ } else { "/ MO"@ }),
{
    if str_eq(cadence, "yearly") { "/ YR" } else { "/ MO" }
}

/// The cadence text of a card: `YEARLY`, `MONTHLY · d` (billing day known)
/// or `MONTHLY`.
pub open spec fn cad_text_of(yearly: bool, day: nat) -> Seq<char> {
    if yearly {
        "YEARLY"@
    } else if day != 0 {
        "MONTHLY · "@ + decimal(day)
    } else {
        "MONTHLY"@
    }
}

/// The cadence text of a card.
pub fn cad_text(yearly: bool, day: u32) -> (r: String)
    ensures
        r@ == cad_text_of(yearly, day as nat),
{
    if yearly {
        string_from("YEARLY")
    } else if day != 0 {
        let mut v: Vec<char> = Vec::new();
        push_str(&mut v, "MONTHLY · ");
        let d = u64_text(day as u64);
        push_chars(&mut v, &d);
        string_of(&v)
    } else {
        string_from("MONTHLY")
    }
}

/// The decimals an amount shows with: none for a whole-franc amount, `dp`
/// otherwise.
pub fn chf_places(centimes: i64, dp: usize) -> (r: usize)
    ensures
        r == (if centimes as int % 100 == 0 { 0 } else { dp }),
{
    let whole = (centimes as i128) % 100 == 0;
    if whole { 0 } else { dp }
}

/// The create / edit form's typed values.
#[derive(Debug, Clone, PartialEq)]
pub struct SubscriptionForm {
    pub name: String,
    pub amount: String,
    pub cadence: String,
    pub day: String,
    pub month: String,
    pub category: String,
    pub glyph: String,
    pub note: String,
}

/// What the edit form starts from: the listed subscription's fields.
#[derive(Debug, Clone, PartialEq)]
pub struct SubText {
    pub name: String,
    pub cadence: String,
    /// Billing day (0 = none).
    pub day: u32,
    pub month: String,
    pub category: String,
    pub glyph: String,
    pub note: String,
}

/// The edit form pre-filled from a listed subscription, with `amount` the
/// input text of its amount: no day text when the day is 0, and `JAN` when
/// the record has no month (a yearly charge must start on a real one).
pub fn form_from_sub(s: &SubText, amount: String) -> (f: SubscriptionForm)
    ensures
        f.name@ == s.name@,
        f.amount@ == amount@,
        f.cadence@ == s.cadence@,
        f.day@ == (if s.day == 0 { Seq::<char>::empty() } else { decimal(s.day as nat) }),
        f.month@ == (if s.month@.len() == 0 { "JAN"@ } else { s.month@ }),
        f.category@ == s.category@,
        f.glyph@ == s.glyph@,
        f.note@ == s.note@,
{
    let day = if s.day == 0 {
        String::new()
    } else {
        let d = u64_text(s.day as u64);
        string_of(&d)
    };
    let month = if s.month.as_str().unicode_len() == 0 { string_from("JAN") } else { s.month.clone() };
    SubscriptionForm {
        name: s.name.clone(),
        amount,
        cadence: s.cadence.clone(),
        day,
        month,
        category: s.category.clone(),
        glyph: s.glyph.clone(),
        note: s.note.clone(),
    }
}

/// A blank create form: monthly, starting in January, everything else empty.
pub fn blank_form() -> (f: SubscriptionForm)
    ensures
        f.cadence@ == "monthly"@,
        f.month@ == "JAN"@,
        f.name@.len() == 0,
        f.amount@.len() == 0,
        f.day@.len() == 0,
        f.category@.len() == 0,
        f.glyph@.len() == 0,
        f.note@.len() == 0,
{
    SubscriptionForm {
        name: String::new(),
        amount: String::new(),
        cadence: string_from("monthly"),
        day: String::new(),
        month: string_from("JAN"),
        category: String::new(),
        glyph: String::new(),
        note: String::new(),
    }
}

/// A lifecycle action on a subscription.
#[derive(Debug, Clone, Copy, PartialEq, Eq)]
pub enum SubAction {
    MarkPaid,
    Pause,
    Resume,
    Cancel,
}

/// The RECORD CHARGE draft: CHF text and `YYYY-MM-DD` date (empty = today).
#[derive(Debug, Clone, PartialEq)]
pub struct ChargeDraft {
    pub id: String,
    pub amount: String,
    pub date: String,
}

/// One write the page can run.
#[derive(Debug, Clone, PartialEq)]
pub enum SubWrite {
    Create(SubscriptionForm),
    Edit(String, SubscriptionForm),
    Delete(String),
    Action(String, SubAction),
    Charge(ChargeDraft),
}

impl SubWrite {
    /// `true` for a write from the create / edit form (its errors show
    /// there); every other write comes from the inspector.
    pub fn is_form_write(&self) -> (r: bool)
        ensures
            r == (self is Create || self is Edit),
    {
        match self {
            SubWrite::Create(_) | SubWrite::Edit(..) => true,
            _ => false,
        }
    }
}

/// The human decision a candidate button carries.
#[derive(Debug, Clone, Copy, PartialEq, Eq)]
pub enum CandidateAction {
    Confirm,
    Dismiss,
}

/// `(confirm, dismiss)` button labels, showing which decision is in flight.
pub fn candidate_button_labels(pending: Option<CandidateAction>) -> (r: (&'static str, &'static str))
    ensures
        (r.0@, r.1@) == match pending {
            Some(CandidateAction::Confirm) => ("CONFIRMING…"@, "DISMISS"@),
            Some(CandidateAction::Dismiss) => ("CONFIRM"@, "DISMISSING…"@),
            None => ("CONFIRM"@, "DISMISS"@),
        },
{
    match pending {
        Some(CandidateAction::Confirm) => ("CONFIRMING…", "DISMISS"),
        Some(CandidateAction::Dismiss) => ("CONFIRM", "DISMISSING…"),
        None => ("CONFIRM", "DISMISS"),
    }
}

/// The text of an optional string.
pub open spec fn opt_text(o: Option<String>) -> Option<Seq<char>> {
    match o {
        Some(s) => Some(s@),
        None => None,
    }
}

/// The Subscriptions page's own state around its writes.
#[derive(Debug, Clone)]
pub struct SubsUi {
    /// A write is in flight.
    pub write_pending: bool,
    /// The last failed write: whether it came from the form, and its message.
    pub write_error: Option<(bool, String)>,
    /// The open form: its edit target (`None` creates) and starting values.
    pub form: Option<(Option<String>, SubscriptionForm)>,
    /// The subscription whose DELETE awaits confirmation.
    pub confirm_del: Option<String>,
    /// The open RECORD CHARGE draft.
    pub charge: Option<ChargeDraft>,
    /// The selected subscription.
    pub sel: Option<String>,
    /// The candidate decision in flight.
    pub cand_pending: Option<(String, CandidateAction)>,
    /// The last failed candidate decision: its id and message.
    pub cand_error: Option<(String, String)>,
}

/// The form's edit target as text.
pub open spec fn form_target(f: Option<(Option<String>, SubscriptionForm)>) -> Option<Seq<char>> {
    match f {
        Some((Some(t), _)) => Some(t@),
        _ => None,
    }
}

/// Two page states agree on everything around the writes: the write in
/// flight and its error, the open form, the DELETE confirmation and the
/// charge draft.
pub open spec fn writes_kept(a: SubsUi, b: SubsUi) -> bool {
    &&& a.write_pending == b.write_pending
    &&& a.write_error == b.write_error
    &&& a.form == b.form
    &&& a.confirm_del == b.confirm_del
    &&& a.charge == b.charge
}

impl SubsUi {
    /// The page's starting state.
    pub fn new() -> (s: SubsUi)
        ensures
            !s.write_pending,
            s.write_error is None,
            s.form is None,
            s.confirm_del is None,
            s.charge is None,
            s.sel is None,
            s.cand_pending is None,
            s.cand_error is None,
    {
        SubsUi {
            write_pending: false,
            write_error: None,
            form: None,
            confirm_del: None,
            charge: None,
            sel: None,
            cand_pending: None,
            cand_error: None,
        }
    }

    /// A write is requested: it runs only when no write is in flight and the
    /// list is not refreshing; the old error clears. Returns whether it runs.
    pub fn begin_write(&mut self, list_refreshing: bool) -> (start: bool)
        ensures
            start == (!old(self).write_pending && !list_refreshing),
            start ==> final(self).write_pending && final(self).write_error is None
                && final(self).form == old(self).form && final(self).sel == old(self).sel
                && final(self).charge == old(self).charge && final(self).confirm_del == old(self).confirm_del,
            !start ==> *final(self) == *old(self),
    {
        if self.write_pending || list_refreshing {
            return false;
        }
        self.write_pending = true;
        self.write_error = None;
        true
    }

    /// The write `w` was answered (`Ok` carries a created record's id). Only
    /// the UI state of that write closes: a create closes the form and
    /// selects the new record, an edit closes the form, a charge closes its
    /// draft, a delete drops its confirmation, the form and charge draft open
    /// on that record, and the selection; a lifecycle action closes nothing.
    /// A failure keeps everything and records whether it came from the form.
    pub fn finish_write(&mut self, w: &SubWrite, result: Result<Option<String>, String>)
        ensures
            !final(self).write_pending,
            result matches Err(e) ==> {
                &&& final(self).write_error == Some(((w is Create || w is Edit), e))
                &&& final(self).form == old(self).form
                &&& final(self).sel == old(self).sel
                &&& final(self).charge == old(self).charge
                &&& final(self).confirm_del == old(self).confirm_del
            },
            result matches Ok(created) ==> {
                &&& final(self).write_error == old(self).write_error
                &&& match w {
                    SubWrite::Create(_) => final(self).form is None && final(self).sel == created
                        && final(self).charge == old(self).charge && final(self).confirm_del == old(self).confirm_del,
                    SubWrite::Edit(..) => final(self).form is None && final(self).sel == old(self).sel
                        && final(self).charge == old(self).charge && final(self).confirm_del == old(self).confirm_del,
                    SubWrite::Charge(_) => final(self).charge is None && final(self).form == old(self).form
                        && final(self).sel == old(self).sel && final(self).confirm_del == old(self).confirm_del,
                    SubWrite::Delete(id) => {
                        &&& final(self).confirm_del is None
                        &&& final(self).sel is None
                        &&& (form_target(old(self).form) == Some(id@) ==> final(self).form is None)
                        &&& (form_target(old(self).form) != Some(id@) ==> final(self).form == old(self).form)
                        &&& (match old(self).charge { Some(c) => c.id@ == id@, None => false } ==> final(self).charge is None)
                        &&& (!(match old(self).charge { Some(c) => c.id@ == id@, None => false }) ==> final(self).charge == old(self).charge)
                    },
                    SubWrite::Action(..) => final(self).form == old(self).form && final(self).sel == old(self).sel
                        && final(self).charge == old(self).charge && final(self).confirm_del == old(self).confirm_del,
                }
            },
    {
        let from_form = w.is_form_write();
        match result {
            Err(e) => {
                self.write_error = Some((from_form, e));
            },
            Ok(created) => match w {
                SubWrite::Create(_) => {
                    self.form = None;
                    self.sel = created;
                },
                SubWrite::Edit(..) => {
                    self.form = None;
                },
                SubWrite::Charge(_) => {
                    self.charge = None;
                },
                SubWrite::Delete(id) => {
                    self.confirm_del = None;
                    let form_on = match &self.form {
                        Some((Some(t), _)) => str_eq(t.as_str(), id.as_str()),
                        _ => false,
                    };
                    if form_on {
                        self.form = None;
                    }
                    let charge_on = match &self.charge {
                        Some(c) => str_eq(c.id.as_str(), id.as_str()),
                        None => false,
                    };
                    if charge_on {
                        self.charge = None;
                    }
                    self.sel = None;
                },
                SubWrite::Action(..) => {},
            },
        }
        self.write_pending = false;
    }

    /// The form's error: the last failure when it came from the form and the
    /// form is still open.
    pub fn form_error(&self) -> (r: Option<String>)
        ensures
            r == match self.write_error {
                Some((true, m)) => if self.form is Some { Some(m) } else { None },
                _ => None,
            },
    {
        match &self.write_error {
            Some((true, m)) => if self.form.is_some() { Some(m.clone()) } else { None },
            _ => None,
        }
    }

    /// The inspector's error: the last failure when it did not come from the
    /// form.
    pub fn insp_error(&self) -> (r: Option<String>)
        ensures
            r == match self.write_error {
                Some((false, m)) => Some(m),
                _ => None,
            },
    {
        match &self.write_error {
            Some((false, m)) => Some(m.clone()),
            _ => None,
        }
    }

    /// A candidate decision is requested: it runs only when none is in
    /// flight and the candidate list is not refreshing. Returns whether it
    /// runs.
    pub fn begin_candidate(&mut self, id: String, action: CandidateAction, list_refreshing: bool) -> (start: bool)
        ensures
            start == (old(self).cand_pending is None && !list_refreshing),
            start ==> final(self).cand_pending == Some((id, action)) && final(self).cand_error is None,
            start ==> writes_kept(*old(self), *final(self)) && final(self).sel == old(self).sel,
            !start ==> *final(self) == *old(self),
    {
        if self.cand_pending.is_some() || list_refreshing {
            return false;
        }
        self.cand_pending = Some((id, action));
        self.cand_error = None;
        true
    }

    /// The candidate decision was answered: a failure is recorded against
    /// the candidate; either way nothing is pending afterwards.
    pub fn finish_candidate(&mut self, result: Result<(), String>)
        requires
            old(self).cand_pending is Some,
        ensures
            final(self).cand_pending is None,
            result matches Err(e) ==> final(self).cand_error == Some((old(self).cand_pending.unwrap().0, e)),
            result is Ok ==> final(self).cand_error == old(self).cand_error,
            writes_kept(*old(self), *final(self)),
            final(self).sel == old(self).sel,
    {
        let id = match &self.cand_pending {
            Some((id, _)) => id.clone(),
            None => String::new(),
        };
        if let Err(e) = result {
            self.cand_error = Some((id, e));
        }
        self.cand_pending = None;
    }

    /// Clicking a subscription toggles its selection.
    pub fn click(&mut self, id: String)
        ensures
            opt_text(final(self).sel) == (if opt_text(old(self).sel) == Some(id@) { None } else { Some(id@) }),
            writes_kept(*old(self), *final(self)),
            final(self).cand_pending == old(self).cand_pending,
            final(self).cand_error == old(self).cand_error,
    {
        let same = match &self.sel {
            Some(s) => str_eq(s.as_str(), id.as_str()),
            None => false,
        };
        self.sel = if same { None } else { Some(id) };
    }
}

/// The cadence groups of the list when grouping is on: the monthly
/// subscriptions, then the yearly ones (each only when present, labelled
/// with its count); with grouping off, one unlabelled group of every row.
pub open spec fn cadence_positions(c: Seq<Seq<char>>, cad: Seq<char>) -> Seq<int>
    decreases c.len(),
{
    if c.len() == 0 {
        Seq::empty()
    } else {
        let m = cadence_positions(c.drop_last(), cad);
        if c.last() == cad { m.push(c.len() - 1) } else { m }
    }
}

/// The positions of the rows with cadence `cad`, ascending.
pub fn positions_of(cadences: &Vec<String>, cad: &str) -> (r: Vec<usize>)
    ensures
        crate::grouping::ints(r@) == cadence_positions(crate::grouping::texts(cadences@), cad@),
{
    let ghost c = crate::grouping::texts(cadences@);
    let mut r: Vec<usize> = Vec::new();
    let mut i: usize = 0;
    while i < cadences.len()
        invariant
            i <= cadences.len(),
            c == crate::grouping::texts(cadences@),
            crate::grouping::ints(r@) == cadence_positions(c.take(i as int), cad@),
        decreases cadences.len() - i,
    {
        proof {
            assert(c.take(i + 1).drop_last() =~= c.take(i as int));
        }
        let ghost r0 = r@;
        if str_eq(cadences[i].as_str(), cad) {
            r.push(i);
            assert(crate::grouping::ints(r@) =~= crate::grouping::ints(r0).push(i as int));
        }
        i = i + 1;
    }
    assert(c.take(cadences.len() as int) =~= c);
    r
}

/// One display group: its label (none when ungrouped) and row positions.
pub type SubGroup = (Option<String>, Vec<usize>);

/// The group label `NAME · n`.
pub open spec fn group_label_text(name: Seq<char>, n: nat) -> Seq<char> {
    name + " · "@ + decimal(n)
}

fn group_label(name: &str, n: usize) -> (r: String)
    ensures
        r@ == group_label_text(name@, n as nat),
{
    let mut v: Vec<char> = Vec::new();
    push_str(&mut v, name);
    push_str(&mut v, " · ");
    let d = u64_text(n as u64);
    push_chars(&mut v, &d);
    string_of(&v)
}

/// The display groups of the list (see [`cadence_positions`]).
pub fn cadence_groups(cadences: &Vec<String>, grouped: bool) -> (r: Vec<SubGroup>)
    ensures
        !grouped ==> r.len() == 1 && r@[0].0 is None && r@[0].1@.len() == cadences.len()
            && forall|i: int| 0 <= i < cadences.len() ==> r@[0].1@[i] == i,
        grouped ==> {
            let c = crate::grouping::texts(cadences@);
            let m = cadence_positions(c, "monthly"@);
            let y = cadence_positions(c, "yearly"@);
            let groups = (if m.len() > 0 { seq![(group_label_text("MONTHLY"@, m.len()), m)] } else { Seq::empty() })
                + (if y.len() > 0 { seq![(group_label_text("YEARLY"@, y.len()), y)] } else { Seq::empty() });
            &&& r.len() == groups.len()
            &&& forall|g: int| 0 <= g < r.len() ==> opt_text(#[trigger] r@[g].0) == Some(groups[g].0)
                && crate::grouping::ints(r@[g].1@) == groups[g].1
        },
{
    let mut out: Vec<SubGroup> = Vec::new();
    if !grouped {
        let mut all: Vec<usize> = Vec::new();
        let mut i: usize = 0;
        while i < cadences.len()
            invariant
                i <= cadences.len(),
                all.len() == i,
                forall|j: int| 0 <= j < i ==> all@[j] == j,
            decreases cadences.len() - i,
        {
            all.push(i);
            i = i + 1;
        }
        out.push((None, all));
        return out;
    }
    let m = positions_of(cadences, "monthly");
    let y = positions_of(cadences, "yearly");
    let ghost c = crate::grouping::texts(cadences@);
    if m.len() > 0 {
        let l = group_label("MONTHLY", m.len());
        out.push((Some(l), m));
    }
    if y.len() > 0 {
        let l = group_label("YEARLY", y.len());
        out.push((Some(l), y));
    }
    out
}

impl SubsUi {
    /// The candidate decision in flight on the selected subscription.
    pub fn sel_cand_pending(&self) -> (r: Option<CandidateAction>)
        ensures
            r == match (self.cand_pending, opt_text(self.sel)) {
                (Some((id, a)), Some(sel)) => if id@ == sel { Some(a) } else { None },
                _ => None,
            },
    {
        match (&self.cand_pending, &self.sel) {
            (Some((id, a)), Some(sel)) => if str_eq(id.as_str(), sel.as_str()) { Some(*a) } else { None },
            _ => None,
        }
    }

    /// The failed candidate decision on the selected subscription.
    pub fn sel_cand_error(&self) -> (r: Option<String>)
        ensures
            r == match (self.cand_error, opt_text(self.sel)) {
                (Some((id, m)), Some(sel)) => if id@ == sel { Some(m) } else { None },
                _ => None,
            },
    {
        match (&self.cand_error, &self.sel) {
            (Some((id, m)), Some(sel)) => if str_eq(id.as_str(), sel.as_str()) { Some(m.clone()) } else { None },
            _ => None,
        }
    }
}

/// The monthly KPI's sub-line: `n active`, then ` · a auto-detected by
/// GEMMA4` when any were; a dash until the stats have loaded.
pub open spec fn mo_sub_of(counts: Option<(u32, u32)>) -> Seq<char> {
    match counts {
        Some((n, a)) => decimal(n as nat) + " active"@
            + (if a > 0 { " · "@ + decimal(a as nat) + " auto-detected by GEMMA4"@ } else { Seq::empty() }),
        None => "—"@,
    }
}

/// The monthly KPI's sub-line.
pub fn mo_sub(counts: Option<(u32, u32)>) -> (r: String)
    ensures
        r@ == mo_sub_of(counts),
{
    match counts {
        Some((n, a)) => {
            let mut v = u64_text(n as u64);
            push_str(&mut v, " active");
            if a > 0 {
                push_str(&mut v, " · ");
                let t = u64_text(a as u64);
                push_chars(&mut v, &t);
                push_str(&mut v, " auto-detected by GEMMA4");
            }
            proof {
                if a == 0 {
                    assert(v@ =~= mo_sub_of(counts));
                }
            }
            string_of(&v)
        },
        None => string_from("—"),
    }
}

/// The next-30-days KPI's sub-line: the first scheduled charge and its days
/// until due, or `Nothing scheduled`.
pub fn next30_sub(first: Option<(&str, i64)>) -> (r: String)
    ensures
        r@ == match first {
            Some((name, d)) => "Next · "@ + name@ + " in "@ + crate::text::signed_decimal(d as int) + "d"@,
            None => "Nothing scheduled"@,
        },
{
    match first {
        Some((name, d)) => {
            let mut v: Vec<char> = Vec::new();
            push_str(&mut v, "Next · ");
            push_str(&mut v, name);
            push_str(&mut v, " in ");
            let t = crate::text::i64_text(d);
            push_chars(&mut v, &t);
            push_str(&mut v, "d");
            string_of(&v)
        },
        None => string_from("Nothing scheduled"),
    }
}

/// The needs-attention KPI's note: the stats' own note, a default line
/// when it has none, or `Awaiting backend` until the stats have loaded.
pub fn flagged_note(note: Option<&str>) -> (r: String)
    ensures
        r@ == match note {
            Some(n) => if n@.len() == 0 { "Flagged by GEMMA4 for review"@ } else { n@ },
            None => "Awaiting backend"@,
        },
{
    match note {
        Some(n) => if n.unicode_len() == 0 { string_from("Flagged by GEMMA4 for review") } else { string_from(n) },
        None => string_from("Awaiting backend"),
    }
}

/// The header's cycle tail: ` · LABEL`, empty without a label.
pub fn cycle_tail(label: &str) -> (r: String)
    ensures
        r@ == (if label@.len() == 0 { Seq::<char>::empty() } else { " · "@ + label@ }),
{
    if label.unicode_len() == 0 {
        String::new()
    } else {
        let mut v: Vec<char> = Vec::new();
        push_str(&mut v, " · ");
        push_str(&mut v, label);
        string_of(&v)
    }
}

/// A card's big figure: `(amount, unit, decimals)`. The annual view shows
/// the annual cost per year; otherwise the charge per its cadence. Whole
/// francs drop the decimals in the annual view and for a yearly charge.
pub open spec fn card_figure_of(amount: int, annual: int, show_annual: bool, cadence: Seq<char>) -> (int, Seq<char>, int) {
    let big = if show_annual { annual } else { amount };
    let unit = if show_annual { "/ YR"@ } else if cadence == "yearly"@ { "/ YR"@ } else { "/ MO"@ };
    let places = if big % 100 != 0 { 2 } else if show_annual || cadence == "yearly"@ { 0 } else { 2 };
    (big, unit, places)
}

/// A card's big figure (see [`card_figure_of`]).
pub fn card_figure(amount: i64, annual: i64, show_annual: bool, cadence: &str) -> (r: (i64, &'static str, usize))
    ensures
        (r.0 as int, r.1@, r.2 as int) == card_figure_of(amount as int, annual as int, show_annual, cadence@),
{
    let big = if show_annual { annual } else { amount };
    let unit = if show_annual { "/ YR" } else { cad_unit(cadence) };
    let yearly = str_eq(cadence, "yearly");
    let places: usize = if (big as i128) % 100 != 0 { 2 } else if show_annual || yearly { 0 } else { 2 };
    (big, unit, places)
}

/// A card's NEXT line: whether it warns (a monthly charge due within four
/// days) and its ` · IN nD` tail (monthly charges only).
pub fn next_tail(monthly: bool, days_until: i64) -> (r: (bool, String))
    ensures
        r.0 == (monthly && days_until <= 4),
        r.1@ == (if monthly { " · IN "@ + crate::text::signed_decimal(days_until as int) + "D"@ } else { Seq::<char>::empty() }),
{
    if !monthly {
        return (false, String::new());
    }
    let mut v: Vec<char> = Vec::new();
    push_str(&mut v, " · IN ");
    let t = crate::text::i64_text(days_until);
    push_chars(&mut v, &t);
    push_str(&mut v, "D");
    (days_until <= 4, string_of(&v))
}

/// A card's source mark: `(dot tone, class, text)` for an AI-detected or a
/// user-made subscription.
pub fn source_mark(source: &str) -> (r: (&'static str, &'static str, &'static str))
    ensures
        source@ == "llm"@ ==> r == ("blue", "sub-src auto", "AUTO"),
        source@ != "llm"@ ==> r == ("ok", "sub-src", "USER"),
{
    if str_eq(source, "llm") { ("blue", "sub-src auto", "AUTO") } else { ("ok", "sub-src", "USER") }
}

/// The inspector's guidance and its severity: the detail's guidance (else
/// the subscription's note), and the guidance's severity, else coral for a
/// subscription not seen or under review, else none.
pub fn insp_guidance(text: &str, severity: &str, note: &str, status: &str) -> (r: (String, String))
    ensures
        r.0@ == (if text@.len() > 0 { text@ } else { note@ }),
        r.1@ == (if severity@.len() > 0 {
            severity@
        } else if status@ == "due"@ || status@ == "watch"@ {
            "coral"@
        } else {
            Seq::<char>::empty()
        }),
{
    let g = if text.unicode_len() > 0 { string_from(text) } else { string_from(note) };
    let sev = if severity.unicode_len() > 0 {
        string_from(severity)
    } else if str_eq(status, "due") || str_eq(status, "watch") {
        string_from("coral")
    } else {
        String::new()
    };
    (g, sev)
}

/// The inspector's cadence line: `YEARLY · MON` (or `YEARLY` without a
/// month), `MONTHLY · d`, or `MONTHLY`.
pub open spec fn insp_cadence_of(yearly: bool, month: Seq<char>, day: nat) -> Seq<char> {
    if yearly {
        if month.len() == 0 { "YEARLY"@ } else { "YEARLY · "@ + month }
    } else {
        cad_text_of(false, day)
    }
}

/// The inspector's cadence line.
pub fn insp_cadence(yearly: bool, month: &str, day: u32) -> (r: String)
    ensures
        r@ == insp_cadence_of(yearly, month@, day as nat),
{
    if yearly {
        if month.unicode_len() == 0 {
            string_from("YEARLY")
        } else {
            let mut v: Vec<char> = Vec::new();
            push_str(&mut v, "YEARLY · ");
            push_str(&mut v, month);
            string_of(&v)
        }
    } else {
        cad_text(false, day)
    }
}

/// The price chart's axis: `(span, trend)` — three years of a yearly charge
/// or the last six charges, and whether the price rose.
pub fn insp_axis(yearly: bool, price_rose: bool) -> (r: (&'static str, &'static str))
    ensures
        r.0@ == (if yearly { "3 YEARS"@ } else { "6 CHARGES"@ }),
        r.1@ == (if price_rose { "PRICE ROSE"@ } else { "FLAT"@ }),
{
    (if yearly { "3 YEARS" } else { "6 CHARGES" }, if price_rose { "PRICE ROSE" } else { "FLAT" })
}

/// What the inspector's body shows.
#[derive(Debug, Clone, Copy, PartialEq, Eq, Structural)]
pub enum InspBody {
    /// No subscription selected.
    Empty,
    /// A subscription is selected but its detail has not arrived (or is
    /// another subscription's).
    Awaiting,
    /// The selected subscription's detail; `true` when its candidate
    /// decision buttons show.
    Detail(bool),
}

/// An optional text as a value.
pub open spec fn opt_str(o: Option<&str>) -> Option<Seq<char>> {
    match o {
        Some(s) => Some(s@),
        None => None,
    }
}

/// The inspector's body: empty without a selection; the detail only when
/// the loaded detail is the selected subscription's, with the candidate
/// buttons when the detail is a candidate and candidates are shown;
/// awaiting otherwise.
pub open spec fn insp_body_of(sel: Option<Seq<char>>, detail_id: Option<Seq<char>>, detail_candidate: bool, candidate_open: bool) -> InspBody {
    match sel {
        None => InspBody::Empty,
        Some(s) => if detail_id == Some(s) {
            InspBody::Detail(detail_candidate && candidate_open)
        } else {
            InspBody::Awaiting
        },
    }
}

/// The inspector's body (see [`insp_body_of`]).
pub fn insp_body(sel: Option<&str>, detail_id: Option<&str>, detail_candidate: bool, candidate_open: bool) -> (r: InspBody)
    ensures
        r == insp_body_of(opt_str(sel), opt_str(detail_id), detail_candidate, candidate_open),
{
    match sel {
        None => InspBody::Empty,
        Some(s) => {
            let same = match detail_id {
                Some(d) => str_eq(d, s),
                None => false,
            };
            if same {
                InspBody::Detail(detail_candidate && candidate_open)
            } else {
                InspBody::Awaiting
            }
        },
    }
}

impl SubsUi {
    /// The DELETE confirmation is open on subscription `id`.
    pub fn deleting(&self, id: &str) -> (r: bool)
        ensures
            r == (opt_text(self.confirm_del) == Some(id@)),
    {
        match &self.confirm_del {
            Some(d) => str_eq(d.as_str(), id),
            None => false,
        }
    }

    /// The RECORD CHARGE draft, when it is open on subscription `id`.
    pub fn charge_on(&self, id: &str) -> (r: Option<ChargeDraft>)
        ensures
            r == (if self.charge matches Some(c) && c.id@ == id@ { self.charge } else { None }),
    {
        match &self.charge {
            Some(c) => if str_eq(c.id.as_str(), id) {
                Some(ChargeDraft { id: c.id.clone(), amount: c.amount.clone(), date: c.date.clone() })
            } else {
                None
            },
            None => None,
        }
    }
}

/// The sweep's sort pairs: the day negated (earliest first) and the amount
/// (largest first).
pub open spec fn sweep_pairs(days: Seq<u32>, amounts: Seq<i64>) -> Seq<(i64, i64)> {
    Seq::new(days.len(), |i: int| ((-(days[i] as int)) as i64, amounts[i]))
}

/// The billing sweep's plot order: charges by billing day, earliest first,
/// and within a day the largest amount first; ties keep the fetched order.
pub fn sweep_order(days: &Vec<u32>, amounts: &Vec<i64>) -> (r: Vec<usize>)
    requires
        days.len() == amounts.len(),
    ensures
        crate::sorting::pair_ordered(sweep_pairs(days@, amounts@), r@),
{
    let mut k: Vec<(i64, i64)> = Vec::new();
    let mut i: usize = 0;
    while i < days.len()
        invariant
            i <= days.len(),
            days.len() == amounts.len(),
            k.len() == i,
            forall|j: int| 0 <= j < i ==> #[trigger] k@[j] == ((-(days@[j] as int)) as i64, amounts@[j]),
        decreases days.len() - i,
    {
        k.push((-(days[i] as i64), amounts[i]));
        i = i + 1;
    }
    assert(k@ =~= sweep_pairs(days@, amounts@));
    crate::sorting::pair_order(&k)
}

} // verus!
