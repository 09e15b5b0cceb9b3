use phosk_pages::dashboard::{
    alert_tone, budget_sub, count_text, next_due, pct_text, rec_of, rec_status, signal_delta,
    txn_flag, vs_last_text, Recurring,
};

#[test]
fn recurring_status_by_days_until() {
    assert_eq!(rec_status(-3), "due");
    assert_eq!(rec_status(0), "due");
    assert_eq!(rec_status(1), "soon");
    assert_eq!(rec_status(7), "soon");
    assert_eq!(rec_status(8), "clean");
}

#[test]
fn a_recurring_row_is_monthly_and_user_made() {
    let r = Recurring {
        name: "Netflix".to_string(),
        amount: 1890,
        days_until: 4,
        next: "JUN 18".to_string(),
    };
    let row = rec_of(&r);
    assert_eq!(row.name, "Netflix");
    assert_eq!(row.cycle, "MONTHLY");
    assert_eq!(row.amount, 1890);
    assert_eq!(row.status, "soon");
    assert_eq!(row.next, "JUN 18");
    assert_eq!(row.src, "user");
}

#[test]
fn next_due_lists_the_three_soonest_in_list_order_on_ties() {
    assert_eq!(next_due(&vec![10, 2, 7, 2, 30]), vec![1, 3, 2]);
    assert_eq!(next_due(&vec![5]), vec![0]);
    assert_eq!(next_due(&vec![]), Vec::<usize>::new());
    assert_eq!(next_due(&vec![-1, 0, -1]), vec![0, 2, 1]);
}

#[test]
fn alert_tone_maps_info_to_llm() {
    assert_eq!(alert_tone("info"), "llm");
    assert_eq!(alert_tone("warn"), "warn");
    assert_eq!(alert_tone(""), "");
}

#[test]
fn candidate_signals_have_no_delta() {
    assert_eq!(signal_delta(true, 12), None);
    assert_eq!(signal_delta(false, -4), Some(-4));
    assert!(txn_flag(2));
    assert!(!txn_flag(0));
}

#[test]
fn kpi_texts() {
    assert_eq!(vs_last_text(5), "+5%");
    assert_eq!(vs_last_text(-3), "-3%");
    assert_eq!(vs_last_text(0), "0%");
    assert_eq!(pct_text(42), "42%");
    assert_eq!(budget_sub(30, 12), "30-day cycle · day 12");
    assert_eq!(budget_sub(0, 12), "—");
    assert_eq!(count_text(Some(14), "—"), "14");
    assert_eq!(count_text(None, "—"), "—");
    assert_eq!(count_text(None, ""), "");
}

use phosk_pages::calls::CallError;
use phosk_pages::dashboard::{alert_navigates, due_tail, insight_estimate, watch_mark, watch_tag, SignalUi};

#[test]
fn next_dock_and_watch_strip() {
    assert_eq!(due_tail(0), "TODAY");
    assert_eq!(due_tail(-2), "TODAY");
    assert_eq!(due_tail(1), "1 DAY");
    assert_eq!(due_tail(12), "12 DAYS");
    assert_eq!(watch_mark("alert"), ("var(--neon)", "⚠"));
    assert_eq!(watch_mark("warn"), ("var(--warn)", "◷"));
    assert_eq!(watch_mark("info"), ("var(--indigo-neon)", "⌁"));
    assert_eq!(watch_tag(""), "");
    assert_eq!(watch_tag("CAP"), "CAP ");
    assert!(alert_navigates("navigate"));
    assert!(!alert_navigates("dismiss"));
    assert_eq!(insight_estimate(0), None);
    assert_eq!(insight_estimate(4200), Some(4200));
}

#[test]
fn a_signal_action_closes_the_panel_or_shows_why_not() {
    let mut ui = SignalUi::new();
    ui.pick("coffee".to_string(), false);
    assert_eq!(ui.sel.as_deref(), Some("coffee"));
    assert!(ui.drawer);
    assert!(!ui.finish_action(Err(CallError::Server("Already tracked".to_string()))));
    assert_eq!(ui.error.as_deref(), Some("Already tracked"));
    assert_eq!(ui.sel.as_deref(), Some("coffee"));
    assert!(ui.finish_action(Ok(())));
    assert!(ui.sel.is_none() && !ui.drawer && ui.error.is_none());
    ui.pick("beer".to_string(), true);
    assert!(!ui.drawer);
}

use phosk_pages::dashboard::{dash_counts, signal_strip, AlertUi};

#[test]
fn dashboard_blocks_show_their_first_rows() {
    let c = dash_counts(10, 2, 7, 30, 3);
    assert_eq!((c.next_due, c.watch, c.channels, c.txn_rows, c.attention, c.recurring, c.shops), (3, 2, 5, 9, 2, 4, 3));
    let z = dash_counts(0, 0, 0, 0, 0);
    assert_eq!((z.next_due, z.channels, z.txn_rows), (0, 0, 0));
    assert_eq!(signal_strip(2, 1), vec![(false, 0), (false, 1), (true, 0)]);
    assert_eq!(signal_strip(0, 0), vec![]);
}

#[test]
fn an_alert_action_clears_or_shows_the_fixed_failure() {
    let mut ui = AlertUi::new();
    assert!(!ui.finish_action(Err(CallError::Server("db down".to_string())), "Action failed".to_string()));
    assert_eq!(ui.error.as_deref(), Some("Action failed"));
    assert!(ui.finish_action(Ok(()), "Action failed".to_string()));
    assert!(ui.error.is_none());
}
