use phosk_pages::debt_forms::{
    debt_draft, iou_draft, new_debt_draft, new_iou_draft, DebtForm, DebtText, IouText, Panel,
    PayDraft,
};

#[test]
fn a_second_submit_while_saving_is_dropped() {
    let mut p: Panel<PayDraft> = Panel::closed();
    assert!(!p.begin_save());
    p.open("d1", PayDraft { amount: "120".to_string(), extra: true });
    assert!(p.is_open_for("d1"));
    assert!(!p.is_open_for("d2"));
    assert!(p.begin_save());
    assert!(!p.begin_save());
    assert!(p.saving);
    p.open("d2", PayDraft::default());
    assert!(p.is_open_for("d1"));
    p.close();
    assert!(p.is_open_for("d1"));
    assert!(p.finish_save(Ok(())));
    assert!(p.open.is_none());
    assert_eq!(p.draft, PayDraft::default());
}

#[test]
fn a_refused_save_keeps_the_draft_and_shows_the_error() {
    let mut p: Panel<PayDraft> = Panel::closed();
    let d = PayDraft { amount: "abc".to_string(), extra: false };
    p.open("", d.clone());
    assert!(p.begin_save());
    assert!(!p.finish_save(Err("Amount must be a CHF value".to_string())));
    assert!(!p.saving);
    assert!(p.is_open_for(""));
    assert_eq!(p.draft, d);
    assert_eq!(p.error.as_deref(), Some("Amount must be a CHF value"));
    assert!(p.begin_save());
    assert!(p.error.is_none());
}

#[test]
fn a_deleted_record_closes_its_panel() {
    let mut p: Panel<PayDraft> = Panel::closed();
    p.open("d1", PayDraft::default());
    p.close_if_open_for("d2");
    assert!(p.is_open_for("d1"));
    p.close_if_open_for("d1");
    assert!(p.open.is_none());
}

#[test]
fn drafts_start_from_the_record_or_blank() {
    let d = DebtText {
        name: "Car".to_string(),
        lender: "Bank".to_string(),
        kind: "LEASE".to_string(),
        note: "n".to_string(),
    };
    let f: DebtForm = debt_draft(&d, "24000.00".to_string());
    assert_eq!(f.name, "Car");
    assert_eq!(f.kind, "LEASE");
    assert_eq!(f.orig, "24000.00");
    assert_eq!(f.balance, "");
    assert_eq!(f.apr, "");
    let n = new_debt_draft();
    assert_eq!((n.kind.as_str(), n.apr.as_str(), n.day.as_str(), n.term.as_str()), ("LOAN", "0", "1", "0"));
    assert_eq!(DebtForm::default().kind, "");
    let i = iou_draft(
        &IouText { dir: "out".to_string(), person: "Ana".to_string(), reason: "dinner".to_string() },
        "45.50".to_string(),
    );
    assert_eq!((i.dir.as_str(), i.person.as_str(), i.amount.as_str(), i.reason.as_str()), ("out", "Ana", "45.50", "dinner"));
    let ni = new_iou_draft();
    assert_eq!((ni.dir.as_str(), ni.person.as_str()), ("in", ""));
}

use phosk_pages::debt_forms::{finish_debt_delete, DebtRead, DebtSelection};

#[test]
fn a_click_selects_or_deselects_and_opens_the_drawer_without_a_dock() {
    let mut s = DebtSelection::new();
    assert!(s.sel.is_none());
    assert!(!s.drawer);
    s.click("d1".to_string(), true);
    assert_eq!(s.sel.as_deref(), Some("d1"));
    assert!(!s.drawer);
    s.click("d2".to_string(), false);
    assert_eq!(s.sel.as_deref(), Some("d2"));
    assert!(s.drawer);
    s.click("d2".to_string(), false);
    assert!(s.sel.is_none());
    assert!(s.drawer);
}

#[test]
fn a_delete_closes_only_the_panels_on_its_record_and_refetches_every_read() {
    let mut row: Panel<bool> = Panel::closed();
    row.open("d1", true);
    assert!(row.begin_save());
    let mut edit: Panel<DebtForm> = Panel::closed();
    edit.open("d1", DebtForm { name: "Car".to_string(), ..DebtForm::default() });
    let mut pay: Panel<PayDraft> = Panel::closed();
    pay.open("d2", PayDraft { amount: "50".to_string(), extra: false });
    let mut sel = DebtSelection::new();
    sel.click("d1".to_string(), false);
    let reads = finish_debt_delete(&mut row, &mut edit, &mut pay, &mut sel, "d1", Ok(()));
    assert_eq!(
        reads,
        vec![DebtRead::Debts, DebtRead::Stats, DebtRead::Trajectory, DebtRead::Detail, DebtRead::Payments]
    );
    assert!(row.open.is_none());
    assert!(!row.saving);
    assert!(edit.open.is_none());
    assert_eq!(edit.draft, DebtForm::default());
    assert!(pay.is_open_for("d2"));
    assert_eq!(pay.draft.amount, "50");
    assert!(sel.sel.is_none());
    assert!(!sel.drawer);
}

#[test]
fn a_refused_delete_changes_only_its_row() {
    let mut row: Panel<bool> = Panel::closed();
    row.open("d1", true);
    assert!(row.begin_save());
    let mut edit: Panel<DebtForm> = Panel::closed();
    edit.open("d1", DebtForm::default());
    let mut pay: Panel<PayDraft> = Panel::closed();
    let mut sel = DebtSelection::new();
    sel.click("d1".to_string(), false);
    let reads = finish_debt_delete(&mut row, &mut edit, &mut pay, &mut sel, "d1", Err("Debt has payments".to_string()));
    assert!(reads.is_empty());
    assert!(row.is_open_for("d1"));
    assert!(!row.saving);
    assert_eq!(row.error.as_deref(), Some("Debt has payments"));
    assert!(edit.is_open_for("d1"));
    assert_eq!(sel.sel.as_deref(), Some("d1"));
    assert!(sel.drawer);
}
