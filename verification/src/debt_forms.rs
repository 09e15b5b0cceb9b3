//! The Debts page's write panels: the debt and IOU create/edit forms, the
//! inline payment fields and the confirm-before-delete step.
//!
//! Every panel keeps its own state, so a save in one panel never closes or
//! resets another panel's open form. The decisions of a save are split in two
//! steps: [`Panel::begin_save`] when the user submits, and
//! [`Panel::finish_save`] with the server's answer.

use vstd::prelude::*;
use crate::text::{str_eq, string_from};

verus! {

/// One write panel: what it is open for, the draft, and the save state.
///
/// `open` is `Some("")` for a new record, `Some(id)` for that record, `None`
/// when closed. While a save is in flight the panel can neither be reopened
/// nor closed, so the draft being saved is never swapped out from under it.
#[derive(Debug, Clone, Default, PartialEq)]
pub struct Panel<T> {
    /// Target: `""` = new, otherwise the record id.
    pub open: Option<String>,
    /// The typed values.
    pub draft: T,
    /// A save is in flight.
    pub saving: bool,
    /// The last save's error text.
    pub error: Option<String>,
}

/// The target a panel is open for, as text.
pub open spec fn open_text(o: Option<String>) -> Option<Seq<char>> {
    match o {
        Some(s) => Some(s@),
        None => None,
    }
}

/// The panel after a submit: saving starts unless a save is in flight or the
/// panel is closed.
pub open spec fn begin_spec<T>(p: Panel<T>) -> Panel<T> {
    if p.saving || p.open is None {
        p
    } else {
        Panel { saving: true, error: None, ..p }
    }
}

/// The panel after a refused save with error text `e`.
pub open spec fn fail_spec<T>(p: Panel<T>, e: String) -> Panel<T> {
    Panel { saving: false, error: Some(e), ..p }
}

impl<T: Default> Panel<T> {
    /// A closed panel with a default draft.
    pub fn closed() -> (p: Panel<T>)
        ensures
            p.open is None,
            !p.saving,
            p.error is None,
            call_ensures(T::default, (), p.draft),
    {
        Panel { open: None, draft: T::default(), saving: false, error: None }
    }

    /// Open for `target` with `draft`. Ignored while saving.
    pub fn open(&mut self, target: &str, draft: T)
        ensures
            old(self).saving ==> *final(self) == *old(self),
            !old(self).saving ==> {
                &&& open_text(final(self).open) == Some(target@)
                &&& final(self).draft == draft
                &&& !final(self).saving
                &&& final(self).error is None
            },
    {
        if !self.saving {
            *self = Panel { open: Some(string_from(target)), draft, saving: false, error: None };
        }
    }

    /// Is the panel open for `target`?
    pub fn is_open_for(&self, target: &str) -> (r: bool)
        ensures
            r == (open_text(self.open) == Some(target@)),
    {
        match &self.open {
            Some(o) => str_eq(o.as_str(), target),
            None => false,
        }
    }

    /// Close and drop the draft. Ignored while saving.
    pub fn close(&mut self)
        ensures
            old(self).saving ==> *final(self) == *old(self),
            !old(self).saving ==> {
                &&& final(self).open is None
                &&& !final(self).saving
                &&& final(self).error is None
                &&& call_ensures(T::default, (), final(self).draft)
            },
    {
        if !self.saving {
            *self = Panel::closed();
        }
    }

    /// The user submits: a save starts unless one is already in flight or the
    /// panel is closed (then the submit is dropped). Returns whether the
    /// save's server call is to be made.
    pub fn begin_save(&mut self) -> (start: bool)
        ensures
            start == (!old(self).saving && old(self).open is Some),
            *final(self) == begin_spec(*old(self)),
    {
        if self.saving || self.open.is_none() {
            return false;
        }
        self.saving = true;
        self.error = None;
        true
    }

    /// The save's answer arrived: success closes the panel (dropping the
    /// draft), failure keeps the draft and shows `Err`'s text. Returns
    /// whether the page is to refetch (on success).
    pub fn finish_save(&mut self, result: Result<(), String>) -> (refresh: bool)
        ensures
            refresh == (result is Ok),
            !final(self).saving,
            result is Ok ==> {
                &&& final(self).open is None
                &&& final(self).error is None
                &&& call_ensures(T::default, (), final(self).draft)
            },
            result matches Err(e) ==> *final(self) == fail_spec(*old(self), e),
    {
        self.saving = false;
        match result {
            Ok(()) => {
                *self = Panel::closed();
                true
            },
            Err(e) => {
                self.error = Some(e);
                false
            },
        }
    }

    /// A record is gone: a panel still open on it closes (unless it is
    /// saving).
    pub fn close_if_open_for(&mut self, id: &str)
        ensures
            (open_text(old(self).open) == Some(id@) && !old(self).saving) ==> {
                &&& final(self).open is None
                &&& !final(self).saving
                &&& final(self).error is None
                &&& call_ensures(T::default, (), final(self).draft)
            },
            !(open_text(old(self).open) == Some(id@) && !old(self).saving) ==> *final(self) == *old(self),
    {
        if self.is_open_for(id) {
            self.close();
        }
    }
}

/// The draft of an inline payment field.
#[derive(Debug, Clone, Default, PartialEq, Eq)]
pub struct PayDraft {
    /// The typed CHF amount.
    pub amount: String,
    /// An extra (principal-only) debt payment rather than the instalment.
    pub extra: bool,
}

/// The debt create/edit form's typed values.
#[derive(Debug, Clone, PartialEq)]
pub struct DebtForm {
    pub name: String,
    pub lender: String,
    pub kind: String,
    pub balance: String,
    pub orig: String,
    pub monthly: String,
    pub apr: String,
    pub day: String,
    pub term: String,
    pub note: String,
}

/// A debt form with every field empty.
pub open spec fn blank_debt_form(f: DebtForm) -> bool {
    &&& f.name@.len() == 0
    &&& f.lender@.len() == 0
    &&& f.kind@.len() == 0
    &&& f.balance@.len() == 0
    &&& f.orig@.len() == 0
    &&& f.monthly@.len() == 0
    &&& f.apr@.len() == 0
    &&& f.day@.len() == 0
    &&& f.term@.len() == 0
    &&& f.note@.len() == 0
}

impl Default for DebtForm {
    fn default() -> (f: DebtForm)
        ensures
            blank_debt_form(f),
    {
        DebtForm {
            name: String::new(),
            lender: String::new(),
            kind: String::new(),
            balance: String::new(),
            orig: String::new(),
            monthly: String::new(),
            apr: String::new(),
            day: String::new(),
            term: String::new(),
            note: String::new(),
        }
    }
}

/// The personal-IOU create/edit form's typed values.
#[derive(Debug, Clone, PartialEq)]
pub struct IouForm {
    pub dir: String,
    pub person: String,
    pub amount: String,
    pub reason: String,
}

impl Default for IouForm {
    fn default() -> (f: IouForm)
        ensures
            f.dir@.len() == 0,
            f.person@.len() == 0,
            f.amount@.len() == 0,
            f.reason@.len() == 0,
    {
        IouForm { dir: String::new(), person: String::new(), amount: String::new(), reason: String::new() }
    }
}

/// What the debt edit form starts from: the listed debt's texts.
#[derive(Debug, Clone, PartialEq)]
pub struct DebtText {
    pub name: String,
    pub lender: String,
    pub kind: String,
    pub note: String,
}

/// The edit form's starting values for `d`, with the original amount as
/// `orig` (the cap input text of the debt's original). Balance, plan and APR
/// are create-only, so the edit draft leaves them blank.
pub fn debt_draft(d: &DebtText, orig: String) -> (f: DebtForm)
    ensures
        f.name@ == d.name@,
        f.lender@ == d.lender@,
        f.kind@ == d.kind@,
        f.orig@ == orig@,
        f.note@ == d.note@,
        f.balance@.len() == 0,
        f.monthly@.len() == 0,
        f.apr@.len() == 0,
        f.day@.len() == 0,
        f.term@.len() == 0,
{
    DebtForm {
        name: d.name.clone(),
        lender: d.lender.clone(),
        kind: d.kind.clone(),
        orig,
        note: d.note.clone(),
        balance: String::new(),
        monthly: String::new(),
        apr: String::new(),
        day: String::new(),
        term: String::new(),
    }
}

/// The create form's starting values: a loan at 0 % APR, paid on day 1,
/// with no term; every other field blank.
pub fn new_debt_draft() -> (f: DebtForm)
    ensures
        f.kind@ == "LOAN"@,
        f.apr@ == "0"@,
        f.day@ == "1"@,
        f.term@ == "0"@,
        f.name@.len() == 0,
        f.lender@.len() == 0,
        f.balance@.len() == 0,
        f.orig@.len() == 0,
        f.monthly@.len() == 0,
        f.note@.len() == 0,
{
    DebtForm {
        kind: string_from("LOAN"),
        apr: string_from("0"),
        day: string_from("1"),
        term: string_from("0"),
        name: String::new(),
        lender: String::new(),
        balance: String::new(),
        orig: String::new(),
        monthly: String::new(),
        note: String::new(),
    }
}

/// What the IOU edit form starts from: the listed IOU's texts.
#[derive(Debug, Clone, PartialEq)]
pub struct IouText {
    pub dir: String,
    pub person: String,
    pub reason: String,
}

/// The edit form's starting values for `p`; the amount is the ORIGINAL
/// amount's input text `of`.
pub fn iou_draft(p: &IouText, of: String) -> (f: IouForm)
    ensures
        f.dir@ == p.dir@,
        f.person@ == p.person@,
        f.amount@ == of@,
        f.reason@ == p.reason@,
{
    IouForm { dir: p.dir.clone(), person: p.person.clone(), amount: of, reason: p.reason.clone() }
}

/// The create form's starting values: money owed to you, everything else
/// blank.
pub fn new_iou_draft() -> (f: IouForm)
    ensures
        f.dir@ == "in"@,
        f.person@.len() == 0,
        f.amount@.len() == 0,
        f.reason@.len() == 0,
{
    IouForm { dir: string_from("in"), person: String::new(), amount: String::new(), reason: String::new() }
}

/// Law (a second submit while saving is dropped): submitting twice is the
/// same as submitting once.
pub proof fn law_submit_once<T>(p: Panel<T>)
    ensures
        begin_spec(begin_spec(p)) == begin_spec(p),
{
}

/// Law (a refused save keeps the draft): a save that starts and is refused
/// leaves the panel open on the same target with the same draft, not saving,
/// and showing the error.
pub proof fn law_refused_save_keeps_draft<T>(p: Panel<T>, e: String)
    requires
        !p.saving,
        p.open is Some,
    ensures
        fail_spec(begin_spec(p), e).open == p.open,
        fail_spec(begin_spec(p), e).draft == p.draft,
        !fail_spec(begin_spec(p), e).saving,
        fail_spec(begin_spec(p), e).error == Some(e),
{
}

/// A read the Debts page refetches after a write.
#[derive(Debug, Clone, Copy, PartialEq, Eq, Structural)]
pub enum DebtRead {
    Debts,
    Stats,
    Trajectory,
    Detail,
    Payments,
}

/// Every debt-side read, refetched after a debt write succeeds.
pub open spec fn debt_reads() -> Seq<DebtRead> {
    seq![DebtRead::Debts, DebtRead::Stats, DebtRead::Trajectory, DebtRead::Detail, DebtRead::Payments]
}

fn all_debt_reads() -> (r: Vec<DebtRead>)
    ensures
        r@ == debt_reads(),
{
    let mut r: Vec<DebtRead> = Vec::new();
    r.push(DebtRead::Debts);
    r.push(DebtRead::Stats);
    r.push(DebtRead::Trajectory);
    r.push(DebtRead::Detail);
    r.push(DebtRead::Payments);
    assert(r@ =~= debt_reads());
    r
}

/// The Debts page's selected record and whether its drawer is open.
#[derive(Debug, Clone, PartialEq, Eq)]
pub struct DebtSelection {
    pub sel: Option<String>,
    pub drawer: bool,
}

impl DebtSelection {
    /// Nothing selected, drawer closed.
    pub fn new() -> (s: DebtSelection)
        ensures
            s.sel is None,
            !s.drawer,
    {
        DebtSelection { sel: None, drawer: false }
    }

    /// A click on record `id`: the selected record deselects, any other is
    /// selected and, without a dock, opens the drawer.
    pub fn click(&mut self, id: String, dockable: bool)
        ensures
            open_text(final(self).sel) == (if open_text(old(self).sel) == Some(id@) { None } else { Some(id@) }),
            final(self).drawer == (if open_text(old(self).sel) == Some(id@) {
                old(self).drawer
            } else {
                old(self).drawer || !dockable
            }),
    {
        let same = match &self.sel {
            Some(s) => str_eq(s.as_str(), id.as_str()),
            None => false,
        };
        if same {
            self.sel = None;
        } else {
            self.sel = Some(id);
            if !dockable {
                self.drawer = true;
            }
        }
    }
}

/// `b` is panel `a` after record `id` is gone: closed (draft back to its
/// default) when it was open on `id` and not saving, untouched otherwise.
pub open spec fn closed_for<T: Default>(a: Panel<T>, b: Panel<T>, id: Seq<char>) -> bool {
    if open_text(a.open) == Some(id) && !a.saving {
        &&& b.open is None
        &&& !b.saving
        &&& b.error is None
        &&& call_ensures(T::default, (), b.draft)
    } else {
        b == a
    }
}

/// The delete of debt `id` (armed on its row panel) was answered. Success
/// closes the row panel, closes the edit and payment panels only where they
/// were open on `id` (a panel open on another record keeps its draft),
/// clears the selection and the drawer, and refetches every debt-side read;
/// the returned list says which. A refusal changes only the row panel,
/// which keeps its draft and shows the message, and refetches nothing.
pub fn finish_debt_delete(
    row: &mut Panel<bool>,
    edit: &mut Panel<DebtForm>,
    pay: &mut Panel<PayDraft>,
    selection: &mut DebtSelection,
    id: &str,
    result: Result<(), String>,
) -> (reads: Vec<DebtRead>)
    ensures
        !final(row).saving,
        result is Ok ==> {
            &&& final(row).open is None
            &&& final(row).error is None
            &&& closed_for(*old(edit), *final(edit), id@)
            &&& closed_for(*old(pay), *final(pay), id@)
            &&& final(selection).sel is None
            &&& !final(selection).drawer
            &&& reads@ == debt_reads()
        },
        result matches Err(e) ==> {
            &&& *final(row) == fail_spec(*old(row), e)
            &&& *final(edit) == *old(edit)
            &&& *final(pay) == *old(pay)
            &&& *final(selection) == *old(selection)
            &&& reads@.len() == 0
        },
{
    let ok = result.is_ok();
    row.finish_save(result);
    if ok {
        edit.close_if_open_for(id);
        pay.close_if_open_for(id);
        selection.sel = None;
        selection.drawer = false;
        all_debt_reads()
    } else {
        Vec::new()
    }
}

} // verus!
