use phosk_pages::approvals::{
    approve_enabled, approve_title, card_flags, nothing_new, proposal_labels, queue_count,
    receipt_lines, ApprovalsUi, Decision, DecisionKind, Reply,
};
use phosk_pages::calls::CallError;

#[test]
fn a_decision_targets_its_id_or_slug() {
    assert_eq!(Decision::Approve("s1".to_string()).target(), "s1");
    assert_eq!(Decision::Reject("s2".to_string()).target(), "s2");
    assert_eq!(Decision::ApproveAll("r-9".to_string()).target(), "r-9");
}

#[test]
fn nothing_new_only_when_the_ledger_did_not_change() {
    assert!(nothing_new(&Reply::Approved(false)));
    assert!(!nothing_new(&Reply::Approved(true)));
    assert!(!nothing_new(&Reply::Rejected));
    assert!(!nothing_new(&Reply::ApprovedAll(vec![])));
    assert!(nothing_new(&Reply::ApprovedAll(vec![false, false])));
    assert!(!nothing_new(&Reply::ApprovedAll(vec![false, true])));
}

#[test]
fn one_decision_at_a_time_and_never_on_a_stale_list() {
    let mut ui = ApprovalsUi::new();
    assert!(!ui.decide(Decision::Approve("s1".to_string()), true));
    assert!(ui.pending.is_none());
    assert!(ui.decide(Decision::Approve("s1".to_string()), false));
    assert!(ui.busy(false));
    assert!(ui.pending_is(DecisionKind::Approve, "s1"));
    assert!(!ui.pending_is(DecisionKind::Reject, "s1"));
    assert!(!ui.decide(Decision::Reject("s2".to_string()), false));
    assert!(ui.pending_is(DecisionKind::Approve, "s1"));
}

#[test]
fn a_failed_decision_shows_on_its_target() {
    let mut ui = ApprovalsUi::new();
    ui.confirm(Some("r-1".to_string()));
    assert!(ui.confirming_on("r-1"));
    assert!(ui.decide(Decision::Reject("s2".to_string()), false));
    assert!(!ui.confirming_on("r-1"));
    assert!(ui.finish(Err(CallError::Server("Proposal already decided".to_string()))));
    assert!(ui.pending.is_none());
    assert_eq!(ui.error_for("s2"), Some("Proposal already decided".to_string()));
    assert_eq!(ui.error_for("s1"), None);
    assert!(ui.decide(Decision::Approve("s3".to_string()), false));
    assert_eq!(ui.error_for("s2"), None);
    assert!(ui.finish(Err(CallError::Transport)));
    assert_eq!(
        ui.error_for("s3"),
        Some("Could not reach the server. Refresh to see the current state.".to_string())
    );
}

#[test]
fn an_already_booked_approval_sets_the_note() {
    let mut ui = ApprovalsUi::new();
    assert!(ui.decide(Decision::ApproveAll("r-1".to_string()), false));
    assert!(ui.finish(Ok(Reply::ApprovedAll(vec![false]))));
    assert!(ui.unchanged);
    assert!(ui.decide(Decision::Approve("s1".to_string()), false));
    assert!(!ui.unchanged);
    assert!(ui.finish(Ok(Reply::Approved(true))));
    assert!(!ui.unchanged);
    assert!(!ui.busy(false));
    assert!(ui.busy(true));
}

#[test]
fn card_flags_conflict_and_bulk() {
    assert_eq!(card_flags(&vec![true]), (false, true));
    assert_eq!(card_flags(&vec![false]), (false, false));
    assert_eq!(card_flags(&vec![true, true]), (true, false));
    assert_eq!(card_flags(&vec![]), (false, true));
}

#[test]
fn lines_and_queue_counts() {
    assert_eq!(receipt_lines(&vec![Some(3), None, Some(2)]), 5);
    assert_eq!(receipt_lines(&vec![]), 0);
    assert_eq!(queue_count(None), "—");
    assert_eq!(queue_count(Some(&vec![2, 3])), "5");
    assert_eq!(queue_count(Some(&vec![])), "0");
}

#[test]
fn proposal_buttons() {
    assert_eq!(approve_title(false, true), "This proposal failed validation · reject it");
    assert_eq!(
        approve_title(true, true),
        "Another open proposal targets this receipt · reject all but one"
    );
    assert_eq!(approve_title(true, false), "");
    assert!(approve_enabled(false, true, false));
    assert!(!approve_enabled(true, true, false));
    assert!(!approve_enabled(false, false, false));
    assert!(!approve_enabled(false, true, true));
    assert_eq!(proposal_labels(true, false), ("BOOKING…", "REJECT"));
    assert_eq!(proposal_labels(false, true), ("APPROVE", "REJECTING…"));
}
