use phosk_pages::calls::CallError;
use phosk_pages::receipt::{Decided, Intake, Pick, ReceiptUi};

const MAX: usize = 12 * 1024 * 1024;

fn intake(id: &str) -> Intake {
    Intake { suggestion_id: id.to_string(), duplicate: false, pending: true, bookable: true }
}

#[test]
fn a_photo_over_the_limit_is_refused_before_upload() {
    let mut ui = ReceiptUi::new();
    assert_eq!(ui.pick(None, MAX), Pick::Ignored);
    assert_eq!(ui.pick(Some(MAX as u64 + 1), MAX), Pick::TooLarge);
    assert!(!ui.uploading);
    assert_eq!(
        ui.upload_error.as_deref(),
        Some("This photo is larger than 12 MB. Take a smaller photo and try again.")
    );
    assert_eq!(ui.pick(Some(MAX as u64), MAX), Pick::Upload);
    assert!(ui.uploading);
    assert!(ui.upload_error.is_none());
    assert_eq!(ui.pick(Some(10), MAX), Pick::Ignored);
}

#[test]
fn one_decision_books_or_rejects_once() {
    let mut ui = ReceiptUi::new();
    assert_eq!(ui.decide(true), None);
    assert_eq!(ui.pick(Some(2048), MAX), Pick::Upload);
    assert_eq!(ui.decide(true), None);
    ui.finish_upload(Ok(intake("sg-7")));
    assert!(!ui.busy());
    assert_eq!(ui.decide(true), Some("sg-7".to_string()));
    assert_eq!(ui.decide_labels(), ("BOOKING…", "REJECT"));
    assert_eq!(ui.decide(false), None);
    assert_eq!(ui.pick(Some(10), MAX), Pick::Ignored);
    ui.finish_decide(Ok(()));
    assert_eq!(ui.decided, Some(Decided::Booked));
    assert_eq!(ui.decide(false), None);
    assert_eq!(ui.decide_labels(), ("APPROVE", "REJECT"));
}

#[test]
fn a_failed_decision_can_be_retried() {
    let mut ui = ReceiptUi::new();
    assert_eq!(ui.pick(Some(2048), MAX), Pick::Upload);
    ui.finish_upload(Ok(intake("sg-8")));
    assert_eq!(ui.decide(false), Some("sg-8".to_string()));
    assert_eq!(ui.decide_labels(), ("APPROVE", "REJECTING…"));
    ui.finish_decide(Err(CallError::Transport));
    assert_eq!(
        ui.decide_error.as_deref(),
        Some("Could not reach the server. Refresh to see the current state.")
    );
    assert_eq!(ui.decided, None);
    assert_eq!(ui.decide(false), Some("sg-8".to_string()));
    assert!(ui.decide_error.is_none());
    ui.finish_decide(Ok(()));
    assert_eq!(ui.decided, Some(Decided::Rejected));
}

#[test]
fn a_failed_upload_keeps_the_message() {
    let mut ui = ReceiptUi::new();
    assert_eq!(ui.pick(Some(1), MAX), Pick::Upload);
    ui.finish_upload(Err(CallError::Server("Not a JPEG or PNG".to_string())));
    assert!(!ui.uploading);
    assert_eq!(ui.upload_error.as_deref(), Some("Not a JPEG or PNG"));
    assert!(ui.intake.is_none());
    assert_eq!(ui.pick(Some(1), MAX), Pick::Upload);
    assert!(ui.upload_error.is_none());
}
