//! The Receipt page's flow: one photo upload at a time (refused over the
//! size limit before anything is sent), then one decision on the staged
//! proposal; nothing is booked without the user's approval.

use vstd::prelude::*;
use crate::text::string_from;
use crate::calls::{CallError, error_text, error_text_of};

verus! {

/// Where the review stands after the user's decision.
#[derive(Debug, Clone, Copy, PartialEq, Eq, Structural)]
pub enum Decided {
    Booked,
    Rejected,
}

/// What the upload answered: the staged suggestion, whether the photo was
/// submitted before, and whether a proposal is still pending for it.
#[derive(Debug, Clone, PartialEq, Eq)]
pub struct Intake {
    pub suggestion_id: String,
    pub duplicate: bool,
    pub pending: bool,
    pub bookable: bool,
}

/// The page's own state.
#[derive(Debug, Clone)]
pub struct ReceiptUi {
    pub uploading: bool,
    pub upload_error: Option<String>,
    pub intake: Option<Intake>,
    /// `Some(true)` while approving, `Some(false)` while rejecting.
    pub deciding: Option<bool>,
    pub decide_error: Option<String>,
    pub decided: Option<Decided>,
}

/// What a file pick led to.
#[derive(Debug, Clone, Copy, PartialEq, Eq, Structural)]
pub enum Pick {
    /// Nothing happened (busy, or no file).
    Ignored,
    /// The photo is over the limit; nothing was sent.
    TooLarge,
    /// The upload starts.
    Upload,
}

/// The message for a photo over the limit.
pub open spec fn too_large_text() -> Seq<char> {
    "This photo is larger than 12 MB. Take a smaller photo and try again."@
}

impl ReceiptUi {
    /// Nothing uploaded, nothing decided.
    pub fn new() -> (s: ReceiptUi)
        ensures
            !s.uploading,
            s.upload_error is None,
            s.intake is None,
            s.deciding is None,
            s.decide_error is None,
            s.decided is None,
    {
        ReceiptUi {
            uploading: false,
            upload_error: None,
            intake: None,
            deciding: None,
            decide_error: None,
            decided: None,
        }
    }

    /// An upload or a decision is in flight.
    pub fn busy(&self) -> (r: bool)
        ensures
            r == (self.uploading || self.deciding is Some),
    {
        self.uploading || self.deciding.is_some()
    }

    /// A file was picked (`size` in bytes, `None` when none was): ignored
    /// while an upload or a decision is in flight; otherwise both errors
    /// clear, a photo over `max_bytes` is refused with a message, and any
    /// other starts the upload, dropping the previous review.
    pub fn pick(&mut self, size: Option<u64>, max_bytes: usize) -> (r: Pick)
        ensures
            (old(self).uploading || old(self).deciding is Some || size is None) ==> r == Pick::Ignored
                && *final(self) == *old(self),
            !(old(self).uploading || old(self).deciding is Some || size is None) ==> {
                &&& final(self).decide_error is None
                &&& final(self).deciding == old(self).deciding
                &&& (size.unwrap() > max_bytes ==> r == Pick::TooLarge
                    && (final(self).upload_error matches Some(m) && m@ == too_large_text())
                    && final(self).uploading == old(self).uploading
                    && final(self).intake == old(self).intake
                    && final(self).decided == old(self).decided)
                &&& (size.unwrap() <= max_bytes ==> r == Pick::Upload
                    && final(self).uploading
                    && final(self).upload_error is None
                    && final(self).intake is None
                    && final(self).decided is None)
            },
    {
        if self.uploading || self.deciding.is_some() {
            return Pick::Ignored;
        }
        let n = match size {
            Some(n) => n,
            None => {
                return Pick::Ignored;
            },
        };
        self.upload_error = None;
        self.decide_error = None;
        if n > max_bytes as u64 {
            self.upload_error = Some(string_from("This photo is larger than 12 MB. Take a smaller photo and try again."));
            return Pick::TooLarge;
        }
        self.uploading = true;
        self.intake = None;
        self.decided = None;
        Pick::Upload
    }

    /// The upload was answered: the intake to review, or the failure text.
    pub fn finish_upload(&mut self, result: Result<Intake, CallError>)
        requires
            old(self).uploading,
        ensures
            !final(self).uploading,
            final(self).deciding == old(self).deciding,
            final(self).decided == old(self).decided,
            result matches Ok(i) ==> final(self).intake == Some(i) && final(self).upload_error == old(self).upload_error,
            result matches Err(e) ==> (final(self).upload_error matches Some(m) && m@ == error_text_of(e))
                && final(self).intake == old(self).intake,
    {
        match result {
            Ok(i) => {
                self.intake = Some(i);
            },
            Err(e) => {
                self.upload_error = Some(error_text(&e));
            },
        }
        self.uploading = false;
    }

    /// APPROVE (`true`) or REJECT (`false`) is pressed: it runs only with an
    /// intake to decide, nothing in flight and no decision taken yet.
    /// Returns the suggestion id to send it for.
    pub fn decide(&mut self, approve: bool) -> (r: Option<String>)
        ensures
            (old(self).deciding is Some || old(self).decided is Some || old(self).uploading || old(self).intake is None)
                ==> r is None && *final(self) == *old(self),
            !(old(self).deciding is Some || old(self).decided is Some || old(self).uploading || old(self).intake is None)
                ==> (r matches Some(id) && id@ == old(self).intake.unwrap().suggestion_id@)
                && final(self).deciding == Some(approve)
                && final(self).decide_error is None
                && final(self).intake == old(self).intake
                && final(self).decided == old(self).decided
                && final(self).uploading == old(self).uploading,
    {
        if self.deciding.is_some() || self.decided.is_some() || self.uploading {
            return None;
        }
        let id = match &self.intake {
            Some(i) => i.suggestion_id.clone(),
            None => {
                return None;
            },
        };
        self.deciding = Some(approve);
        self.decide_error = None;
        Some(id)
    }

    /// The decision was answered: booked or rejected as pressed, or the
    /// failure text (the review stays open to try again).
    pub fn finish_decide(&mut self, result: Result<(), CallError>)
        requires
            old(self).deciding is Some,
        ensures
            final(self).deciding is None,
            final(self).intake == old(self).intake,
            result is Ok ==> final(self).decided == Some(if old(self).deciding.unwrap() { Decided::Booked } else { Decided::Rejected }),
            result matches Err(e) ==> (final(self).decide_error matches Some(m) && m@ == error_text_of(e))
                && final(self).decided == old(self).decided,
    {
        let approve = match self.deciding {
            Some(a) => a,
            None => true,
        };
        match result {
            Ok(()) => {
                self.decided = Some(if approve { Decided::Booked } else { Decided::Rejected });
            },
            Err(e) => {
                self.decide_error = Some(error_text(&e));
            },
        }
        self.deciding = None;
    }

    /// The `(approve, reject)` labels while a decision is in flight.
    pub fn decide_labels(&self) -> (r: (&'static str, &'static str))
        ensures
            r.0@ == (if self.deciding == Some(true) { "BOOKING…"@ } else { "APPROVE"@ }),
            r.1@ == (if self.deciding == Some(false) { "REJECTING…"@ } else { "REJECT"@ }),
    {
        let approving = match self.deciding {
            Some(a) => a,
            None => false,
        };
        let rejecting = match self.deciding {
            Some(a) => !a,
            None => false,
        };
        (if approving { "BOOKING…" } else { "APPROVE" }, if rejecting { "REJECTING…" } else { "REJECT" })
    }
}

} // verus!
