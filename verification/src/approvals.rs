//! The Approvals page's decisions: one human decision at a time on the
//! queue of AI receipt proposals, what its answer means (did the ledger
//! change?), which receipt cards can be bulk-approved, and the texts of the
//! buttons and counts.

use vstd::prelude::*;
use crate::text::{str_eq, string_from, string_of, u64_text};
use crate::calls::{CallError, error_text, error_text_of};

verus! {

/// A decision the user can take on the queue.
#[derive(Debug, Clone, PartialEq, Eq)]
pub enum Decision {
    /// Book one proposal (by suggestion id).
    Approve(String),
    /// Drop one proposal (by suggestion id).
    Reject(String),
    /// Book the open proposal of one receipt (by receipt slug), confirmed.
    ApproveAll(String),
}

/// The kind of a decision.
#[derive(Debug, Clone, Copy, PartialEq, Eq, Structural)]
pub enum DecisionKind {
    Approve,
    Reject,
    ApproveAll,
}

/// The suggestion id or receipt slug a decision targets.
pub open spec fn target_of(d: Decision) -> Seq<char> {
    match d {
        Decision::Approve(t) => t@,
        Decision::Reject(t) => t@,
        Decision::ApproveAll(t) => t@,
    }
}

/// The kind of a decision.
pub open spec fn kind_of(d: Decision) -> DecisionKind {
    match d {
        Decision::Approve(_) => DecisionKind::Approve,
        Decision::Reject(_) => DecisionKind::Reject,
        Decision::ApproveAll(_) => DecisionKind::ApproveAll,
    }
}

impl Decision {
    /// The suggestion id or receipt slug the decision targets.
    pub fn target(&self) -> (r: &str)
        ensures
            r@ == target_of(*self),
    {
        match self {
            Decision::Approve(t) | Decision::Reject(t) | Decision::ApproveAll(t) => t.as_str(),
        }
    }

    /// A copy of the decision.
    pub fn copy(&self) -> (r: Decision)
        ensures
            kind_of(r) == kind_of(*self),
            target_of(r) == target_of(*self),
    {
        match self {
            Decision::Approve(t) => Decision::Approve(t.clone()),
            Decision::Reject(t) => Decision::Reject(t.clone()),
            Decision::ApproveAll(t) => Decision::ApproveAll(t.clone()),
        }
    }
}

/// What the server answered to a decision.
#[derive(Debug, Clone, PartialEq, Eq)]
pub enum Reply {
    /// One proposal was approved; `true` when it wrote to the ledger.
    Approved(bool),
    /// One proposal was rejected.
    Rejected,
    /// A receipt's proposals were approved; for each, whether it wrote.
    ApprovedAll(Vec<bool>),
}

/// The answer wrote nothing new to the ledger (everything was already
/// booked): an approval that applied nothing, or a bulk approval with at
/// least one outcome and none applied. A rejection never counts.
pub open spec fn nothing_new_of(r: Reply) -> bool {
    match r {
        Reply::Approved(applied) => !applied,
        Reply::Rejected => false,
        Reply::ApprovedAll(v) => v@.len() > 0 && forall|i: int| 0 <= i < v@.len() ==> !v@[i],
    }
}

/// Whether the answer wrote nothing new (see [`nothing_new_of`]).
pub fn nothing_new(r: &Reply) -> (b: bool)
    ensures
        b == nothing_new_of(*r),
{
    match r {
        Reply::Approved(applied) => !*applied,
        Reply::Rejected => false,
        Reply::ApprovedAll(v) => none_applied(v),
    }
}

/// At least one outcome, and none applied.
fn none_applied(v: &Vec<bool>) -> (b: bool)
    ensures
        b == (v@.len() > 0 && forall|i: int| 0 <= i < v@.len() ==> !v@[i]),
{
    if v.len() == 0 {
        return false;
    }
    let mut i: usize = 0;
    while i < v.len()
        invariant
            i <= v.len(),
            forall|j: int| 0 <= j < i ==> !v@[j],
        decreases v.len() - i,
    {
        if v[i] {
            assert(v@[i as int]);
            return false;
        }
        i = i + 1;
    }
    true
}

/// The queue page's own state.
#[derive(Debug, Clone)]
pub struct ApprovalsUi {
    /// The decision in flight.
    pub pending: Option<Decision>,
    /// `(target, message)` of the last failed decision.
    pub failed: Option<(String, String)>,
    /// The receipt slug whose APPROVE ALL awaits confirmation.
    pub confirming: Option<String>,
    /// The last approval wrote nothing new.
    pub unchanged: bool,
}

/// The failure as text.
pub open spec fn failed_v(f: Option<(String, String)>) -> Option<(Seq<char>, Seq<char>)> {
    match f {
        Some((t, m)) => Some((t@, m@)),
        None => None,
    }
}

impl ApprovalsUi {
    /// Nothing in flight, no failure, no confirmation open.
    pub fn new() -> (s: ApprovalsUi)
        ensures
            s.pending is None,
            s.failed is None,
            s.confirming is None,
            !s.unchanged,
    {
        ApprovalsUi { pending: None, failed: None, confirming: None, unchanged: false }
    }

    /// Every button is disabled while a decision is in flight or the list is
    /// refreshing.
    pub fn busy(&self, refreshing: bool) -> (r: bool)
        ensures
            r == (self.pending is Some || refreshing),
    {
        self.pending.is_some() || refreshing
    }

    /// A decision is taken: it runs only when none is in flight and the list
    /// is not refreshing (never against a stale list); it clears the last
    /// failure, the open confirmation and the already-booked note. Returns
    /// whether it runs.
    pub fn decide(&mut self, d: Decision, refreshing: bool) -> (start: bool)
        ensures
            start == (old(self).pending is None && !refreshing),
            start ==> final(self).pending == Some(d) && final(self).failed is None
                && final(self).confirming is None && !final(self).unchanged,
            !start ==> *final(self) == *old(self),
    {
        if self.pending.is_some() || refreshing {
            return false;
        }
        self.pending = Some(d);
        self.failed = None;
        self.confirming = None;
        self.unchanged = false;
        true
    }

    /// The decision in flight was answered: a reply sets the already-booked
    /// note to whether it wrote nothing new; a failure is recorded against
    /// the decision's target. Nothing is in flight afterwards, and whatever
    /// the answer the queue is read again (`refetch`), so the next decision
    /// waits for the fresh list.
    pub fn finish(&mut self, result: Result<Reply, CallError>) -> (refetch: bool)
        requires
            old(self).pending is Some,
        ensures
            refetch,
            final(self).pending is None,
            final(self).confirming == old(self).confirming,
            result matches Ok(r) ==> final(self).unchanged == nothing_new_of(r)
                && final(self).failed == old(self).failed,
            result matches Err(e) ==> failed_v(final(self).failed)
                == Some((target_of(old(self).pending.unwrap()), error_text_of(e)))
                && final(self).unchanged == old(self).unchanged,
    {
        match result {
            Ok(r) => {
                self.unchanged = nothing_new(&r);
            },
            Err(e) => {
                let t = match &self.pending {
                    Some(d) => string_from(d.target()),
                    None => String::new(),
                };
                let m = error_text(&e);
                self.failed = Some((t, m));
            },
        }
        self.pending = None;
        true
    }

    /// Opens (`Some(slug)`) or closes (`None`) the APPROVE ALL confirmation.
    pub fn confirm(&mut self, slug: Option<String>)
        ensures
            final(self).confirming == slug,
            final(self).pending == old(self).pending,
            final(self).failed == old(self).failed,
            final(self).unchanged == old(self).unchanged,
    {
        self.confirming = slug;
    }

    /// The confirmation is open on `slug`.
    pub fn confirming_on(&self, slug: &str) -> (r: bool)
        ensures
            r == (self.confirming matches Some(s) && s@ == slug@),
    {
        match &self.confirming {
            Some(s) => str_eq(s.as_str(), slug),
            None => false,
        }
    }

    /// The failure message shown on `target` (a proposal or a receipt).
    pub fn error_for(&self, target: &str) -> (r: Option<String>)
        ensures
            r matches Some(m) ==> (self.failed matches Some((t, fm)) && t@ == target@ && m@ == fm@),
            r is None ==> !(self.failed matches Some((t, _)) && t@ == target@),
    {
        match &self.failed {
            Some((t, m)) => if str_eq(t.as_str(), target) { Some(m.clone()) } else { None },
            None => None,
        }
    }

    /// The decision in flight is of `kind` on `target`.
    pub fn pending_is(&self, kind: DecisionKind, target: &str) -> (r: bool)
        ensures
            r == (self.pending matches Some(d) && kind_of(d) == kind && target_of(d) == target@),
    {
        match &self.pending {
            Some(d) => {
                let k = match d {
                    Decision::Approve(_) => DecisionKind::Approve,
                    Decision::Reject(_) => DecisionKind::Reject,
                    Decision::ApproveAll(_) => DecisionKind::ApproveAll,
                };
                k == kind && str_eq(d.target(), target)
            },
            None => false,
        }
    }
}

/// A receipt card's flags: more than one open proposal conflicts (at most
/// one may be open at approval time), and APPROVE ALL needs no conflict and
/// every proposal bookable.
pub fn card_flags(bookable: &Vec<bool>) -> (r: (bool, bool))
    ensures
        r.0 == (bookable.len() > 1),
        r.1 == (bookable.len() <= 1 && forall|i: int| 0 <= i < bookable.len() ==> bookable@[i]),
{
    let conflicting = bookable.len() > 1;
    let mut all = true;
    let mut i: usize = 0;
    while i < bookable.len()
        invariant
            i <= bookable.len(),
            all == forall|j: int| 0 <= j < i ==> bookable@[j],
        decreases bookable.len() - i,
    {
        all = all && bookable[i];
        i = i + 1;
    }
    (conflicting, !conflicting && all)
}

/// The sum of the line counts of the proposals whose receipt could be read.
pub open spec fn lines_sum(c: Seq<Option<usize>>) -> int
    decreases c.len(),
{
    if c.len() == 0 {
        0
    } else {
        lines_sum(c.drop_last()) + match c.last() {
            Some(n) => n as int,
            None => 0,
        }
    }
}

/// A prefix never sums to more than the whole.
proof fn lemma_lines_sum_prefix(c: Seq<Option<usize>>, i: int)
    requires
        0 <= i <= c.len(),
    ensures
        0 <= lines_sum(c.take(i)) <= lines_sum(c),
    decreases c.len() - i,
{
    if i < c.len() {
        lemma_lines_sum_prefix(c, i + 1);
        assert(c.take(i + 1).drop_last() =~= c.take(i));
    } else {
        assert(c.take(i) =~= c);
    }
    lemma_lines_sum_nonneg(c.take(i));
}

/// A sum of counts is never negative.
proof fn lemma_lines_sum_nonneg(c: Seq<Option<usize>>)
    ensures
        lines_sum(c) >= 0,
    decreases c.len(),
{
    if c.len() > 0 {
        lemma_lines_sum_nonneg(c.drop_last());
    }
}

/// How many lines APPROVE ALL would book.
pub fn receipt_lines(counts: &Vec<Option<usize>>) -> (r: usize)
    requires
        lines_sum(counts@) <= usize::MAX,
    ensures
        r == lines_sum(counts@),
{
    let mut total: usize = 0;
    let mut i: usize = 0;
    while i < counts.len()
        invariant
            i <= counts.len(),
            lines_sum(counts@) <= usize::MAX,
            total == lines_sum(counts@.take(i as int)),
        decreases counts.len() - i,
    {
        proof {
            assert(counts@.take(i + 1).drop_last() =~= counts@.take(i as int));
            lemma_lines_sum_prefix(counts@, i + 1);
        }
        match counts[i] {
            Some(n) => {
                total = total + n;
            },
            None => {},
        }
        i = i + 1;
    }
    assert(counts@.take(counts.len() as int) =~= counts@);
    total
}

/// The proposal count of the queue: the number of proposals over every
/// receipt, or an em dash until the queue has loaded.
pub open spec fn count_sum(c: Seq<usize>) -> int
    decreases c.len(),
{
    if c.len() == 0 { 0 } else { count_sum(c.drop_last()) + c.last() }
}

/// A prefix never sums to more than the whole.
proof fn lemma_count_sum_prefix(c: Seq<usize>, i: int)
    requires
        0 <= i <= c.len(),
    ensures
        0 <= count_sum(c.take(i)) <= count_sum(c),
    decreases c.len() - i,
{
    if i < c.len() {
        lemma_count_sum_prefix(c, i + 1);
        assert(c.take(i + 1).drop_last() =~= c.take(i));
    } else {
        assert(c.take(i) =~= c);
    }
    lemma_count_sum_nonneg(c.take(i));
}

/// A sum of counts is never negative.
proof fn lemma_count_sum_nonneg(c: Seq<usize>)
    ensures
        count_sum(c) >= 0,
    decreases c.len(),
{
    if c.len() > 0 {
        lemma_count_sum_nonneg(c.drop_last());
    }
}

/// The header's proposal count.
pub fn queue_count(sizes: Option<&Vec<usize>>) -> (r: String)
    requires
        sizes matches Some(v) ==> count_sum(v@) <= u64::MAX,
    ensures
        r@ == match sizes {
            Some(v) => crate::text::decimal(count_sum(v@) as nat),
            None => "—"@,
        },
{
    match sizes {
        None => string_from("—"),
        Some(v) => {
            let mut total: u64 = 0;
            let mut i: usize = 0;
            while i < v.len()
                invariant
                    i <= v.len(),
                    count_sum(v@) <= u64::MAX,
                    total == count_sum(v@.take(i as int)),
                decreases v.len() - i,
            {
                proof {
                    assert(v@.take(i + 1).drop_last() =~= v@.take(i as int));
                    lemma_count_sum_prefix(v@, i + 1);
                }
                total = total + v[i] as u64;
                i = i + 1;
            }
            assert(v@.take(v.len() as int) =~= v@);
            let t = u64_text(total);
            string_of(&t)
        },
    }
}

/// The APPROVE button's title: why it is disabled.
pub fn approve_title(bookable: bool, conflicting: bool) -> (r: &'static str)
    ensures
        r@ == (if !bookable {
            "This proposal failed validation · reject it"@
        } else if conflicting {
            "Another open proposal targets this receipt · reject all but one"@
        } else {
            ""@
        }),
{
    if !bookable {
        "This proposal failed validation · reject it"
    } else if conflicting {
        "Another open proposal targets this receipt · reject all but one"
    } else {
        ""
    }
}

/// A proposal can be approved only when nothing is busy, it is bookable
/// and no other proposal targets its receipt.
pub fn approve_enabled(busy: bool, bookable: bool, conflicting: bool) -> (r: bool)
    ensures
        r == (!busy && bookable && !conflicting),
{
    !busy && bookable && !conflicting
}

/// The `(approve, reject)` button labels of a proposal.
pub fn proposal_labels(approving: bool, rejecting: bool) -> (r: (&'static str, &'static str))
    ensures
        r.0@ == (if approving { "BOOKING…"@ } else { "APPROVE"@ }),
        r.1@ == (if rejecting { "REJECTING…"@ } else { "REJECT"@ }),
{
    (if approving { "BOOKING…" } else { "APPROVE" }, if rejecting { "REJECTING…" } else { "REJECT" })
}

} // verus!
