use phosk_pages::budgets::{
    abs_money, alloc_kpi, budget_status, cap_of, envelope_count, envelope_order, offline_message,
    pace, pct_cls, proj_over, spent_pct, spent_pct_text, AllocLine, CapOverrides, EnvSort,
    Envelope, StKey,
};

#[test]
fn status_follows_fixed_cap_use_and_pace() {
    let (k, l, t) = budget_status(5000, 9000, 10000, true);
    assert_eq!((k, l.as_str(), t), (StKey::Fixed, "FIXED", "blue"));
    let (k, l, t) = budget_status(5000, 9000, 0, false);
    assert_eq!((k, l.as_str(), t), (StKey::NoCap, "NO CAP", "blue"));
    let (k, l, t) = budget_status(0, 9000, 10000, false);
    assert_eq!((k, l.as_str(), t), (StKey::Unused, "UNUSED", "blue"));
    let (k, l, t) = budget_status(12345, 15000, 10000, false);
    assert_eq!((k, l.as_str(), t), (StKey::Over, "23% OVER", "coral"));
    let (k, l, t) = budget_status(5000, 12000, 10000, false);
    assert_eq!((k, l.as_str(), t), (StKey::WillExceed, "ON PACE OVER", "coral"));
    let (k, l, t) = budget_status(8500, 9500, 10000, false);
    assert_eq!((k, l.as_str(), t), (StKey::Tight, "TIGHT", "blue"));
    let (k, l, t) = budget_status(5000, 6000, 10000, false);
    assert_eq!((k, l.as_str(), t), (StKey::OnTrack, "ON TRACK", "blue"));
}

#[test]
fn over_percent_rounds_to_the_nearest_whole() {
    assert_eq!(budget_status(20000, 0, 10000, false).1, "100% OVER");
    assert_eq!(budget_status(10070, 0, 10000, false).1, "1% OVER");
    assert_eq!(budget_status(10020, 0, 10000, false).1, "0% OVER");
}

#[test]
fn pct_class_by_status() {
    assert_eq!(pct_cls(StKey::Over), "alert");
    assert_eq!(pct_cls(StKey::WillExceed), "warn");
    assert_eq!(pct_cls(StKey::Tight), "warn");
    assert_eq!(pct_cls(StKey::OnTrack), "ok");
    assert_eq!(pct_cls(StKey::Fixed), "ok");
}

#[test]
fn stepped_cap_never_goes_below_zero() {
    assert_eq!(cap_of(10000, 500), 10500);
    assert_eq!(cap_of(10000, -20000), 0);
    assert_eq!(cap_of(0, 0), 0);
    assert_eq!(abs_money(-750), 750);
    assert_eq!(abs_money(750), 750);
}

#[test]
fn stepper_deltas_add_per_category_and_clear_on_save() {
    let mut o = CapOverrides::new();
    assert_eq!(o.get("Food"), 0);
    o.step("Food", 10);
    assert_eq!(o.get("Food"), 1000);
    o.step("Food", -3);
    assert_eq!(o.get("Food"), 700);
    o.step("Rent", 1);
    assert_eq!(o.get("Rent"), 100);
    assert_eq!(o.get("Food"), 700);
    o.remove("Food");
    assert_eq!(o.get("Food"), 0);
    assert_eq!(o.get("Rent"), 100);
    o.remove("Nothing");
    assert_eq!(o.get("Rent"), 100);
}

#[test]
fn a_step_undone_restores_the_delta() {
    let mut o = CapOverrides::new();
    o.step("Travel", 2);
    let before = o.get("Travel");
    o.step("Travel", 5);
    o.step("Travel", -5);
    assert_eq!(o.get("Travel"), before);
    assert_eq!(cap_of(30000, o.get("Travel")), 30200);
}

fn env(spent: i64, proj: i64, cap: i64, fixed: bool) -> Envelope {
    Envelope { spent, proj, cap, fixed }
}

#[test]
fn envelopes_sort_by_use_stably() {
    let es = vec![
        env(5000, 6000, 10000, false),
        env(9000, 9500, 10000, false),
        env(0, 0, 0, false),
        env(3000, 3100, 6000, false),
    ];
    assert_eq!(envelope_order(&es, EnvSort::Order), vec![0, 1, 2, 3]);
    assert_eq!(envelope_order(&es, EnvSort::Used), vec![1, 0, 3, 2]);
}

#[test]
fn envelopes_sort_over_first_then_by_projection() {
    let es = vec![
        env(5000, 6000, 10000, false),
        env(12000, 13000, 10000, false),
        env(4000, 12000, 10000, false),
        env(1000, 9000, 10000, false),
        env(500, 800, 0, false),
    ];
    // over, then on pace over, then the rest by projection / cap (cap at least CHF 1)
    assert_eq!(envelope_order(&es, EnvSort::Over), vec![1, 2, 4, 3, 0]);
}

#[test]
fn kpi_spent_percent_and_pace() {
    assert_eq!(spent_pct(Some(2500), Some(10000)), Some(25));
    assert_eq!(spent_pct(Some(1), Some(3)), Some(33));
    assert_eq!(spent_pct(Some(2), Some(3)), Some(67));
    assert_eq!(spent_pct(Some(2500), Some(0)), None);
    assert_eq!(spent_pct(None, Some(10000)), None);
    assert_eq!(spent_pct_text(Some(25)), "25% spent");
    assert_eq!(spent_pct_text(None), "—");
    assert_eq!(proj_over(Some(12000), Some(10000)), Some(2000));
    assert_eq!(proj_over(Some(i64::MIN), Some(1)), None);
    assert_eq!(proj_over(None, Some(1)), None);
    assert_eq!(pace(Some(2000)), Some((true, 2000)));
    assert_eq!(pace(Some(-500)), Some((false, 500)));
    assert_eq!(pace(Some(0)), Some((false, 0)));
    assert_eq!(pace(None), None);
}

#[test]
fn allocation_kpi_and_counts() {
    assert_eq!(alloc_kpi(Some(100), Some(5)), (true, AllocLine::OverBudget(100)));
    assert_eq!(alloc_kpi(Some(0), Some(300)), (false, AllocLine::Unallocated(300)));
    assert_eq!(alloc_kpi(None, None), (false, AllocLine::Unknown));
    assert_eq!(envelope_count(Some(7), true, 3), Some(7));
    assert_eq!(envelope_count(None, true, 3), Some(3));
    assert_eq!(envelope_count(None, false, 3), None);
}

#[test]
fn offline_hint_only_when_errored() {
    assert_eq!(offline_message(false), (None, None));
    assert_eq!(
        offline_message(true),
        (
            Some("Backend offline".to_string()),
            Some("start it: cargo run -p phosk_api".to_string())
        )
    );
}

use phosk_pages::budgets::CapEdit;

#[test]
fn the_cap_editor_saves_once_and_keeps_a_rejection() {
    let mut e = CapEdit::new();
    e.open("450".to_string());
    assert!(e.editing);
    e.input("4x0".to_string());
    assert_eq!(e.save(), Some("4x0".to_string()));
    assert_eq!(e.save(), None);
    e.cancel();
    assert!(e.editing);
    assert!(!e.finish(Err("Cap must be a CHF amount".to_string())));
    assert!(e.editing);
    assert_eq!(e.error.as_deref(), Some("Cap must be a CHF amount"));
    e.input("480".to_string());
    assert!(e.error.is_none());
    assert_eq!(e.save(), Some("480".to_string()));
    assert!(e.finish(Ok(())));
    assert!(!e.editing);
    e.open("480".to_string());
    e.cancel();
    assert!(!e.editing);
}

use phosk_pages::budgets::{entries_label, env_tag, guidance, per_day, rem_label, used_pct};

#[test]
fn envelope_card_figures() {
    assert_eq!(per_day(10000, 3), 3333);
    assert_eq!(per_day(-500, 3), 0);
    assert_eq!(per_day(500, 0), 0);
    assert_eq!(used_pct(4567, 10000), Some(46));
    assert_eq!(used_pct(4567, 0), None);
    assert_eq!(used_pct(-100, 10000), Some(-1));
    assert_eq!(env_tag(true), ("env-tag fix", "FIXED"));
    assert_eq!(env_tag(false), ("env-tag", "VARIABLE"));
    assert_eq!(rem_label(0), "LEFT");
    assert_eq!(rem_label(-1), "OVER");
    assert_eq!(entries_label(1), "ENTRY");
    assert_eq!(entries_label(0), "ENTRIES");
    assert_eq!(guidance(Some("Lower it"), "note"), "Lower it");
    assert_eq!(guidance(Some(""), "note"), "note");
    assert_eq!(guidance(None, "note"), "note");
}
