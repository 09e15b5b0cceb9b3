use phosk_pages::analytics::{
    cycle_label, foot_note, hud_text, momentum_order, momentum_texts, mover_texts, row_click,
    signal_counts, signal_order, signal_row_texts, trend_start, vs_avg_text, RowClick, SortBy,
};

fn s(v: &[&str]) -> Vec<String> {
    v.iter().map(|x| x.to_string()).collect()
}

#[test]
fn the_trend_window_keeps_the_last_cycles() {
    assert_eq!(trend_start(20, 12), 8);
    assert_eq!(trend_start(12, 12), 0);
    assert_eq!(trend_start(5, 12), 0);
    assert_eq!(trend_start(20, 6), 14);
}

#[test]
fn signals_sort_by_delta_spend_or_label() {
    let deltas = vec![5, -2, 9, 5];
    let spends = vec![300, 900, 100, 900];
    let labels = s(&["beta", "Alpha", "alpha", "Alpha"]);
    assert_eq!(signal_order(&deltas, &spends, &labels, SortBy::Momentum), vec![2, 0, 3, 1]);
    assert_eq!(signal_order(&deltas, &spends, &labels, SortBy::Spend), vec![1, 3, 0, 2]);
    assert_eq!(signal_order(&deltas, &spends, &labels, SortBy::Az), vec![1, 3, 2, 0]);
}

#[test]
fn fixed_categories_sink_in_the_momentum_order() {
    let fixed = vec![true, false, false, false];
    let deltas = vec![50, -20, 5, 20];
    let now = vec![100, 200, 300, 400];
    let names = s(&["Rent", "Food", "Fun", "Bars"]);
    assert_eq!(momentum_order(&fixed, &deltas, &now, &names, SortBy::Momentum), vec![1, 3, 2, 0]);
    assert_eq!(momentum_order(&fixed, &deltas, &now, &names, SortBy::Spend), vec![3, 2, 1, 0]);
    assert_eq!(momentum_order(&fixed, &deltas, &now, &names, SortBy::Az), vec![3, 1, 2, 0]);
}

#[test]
fn signal_row_texts_for_tracked_and_candidate() {
    let (d, rk, cls, go) = signal_row_texts(false, -12, 3);
    assert_eq!((d.as_str(), rk.as_str(), cls, go), ("↓12%", "3", "isig-dl down", "▸"));
    let (d, rk, cls, go) = signal_row_texts(false, 0, 1);
    assert_eq!((d.as_str(), rk.as_str(), cls, go), ("↑0%", "1", "isig-dl up", "▸"));
    let (d, rk, cls, go) = signal_row_texts(true, 40, 2);
    assert_eq!((d.as_str(), rk.as_str(), cls, go), ("NEW", "—", "isig-dl cand", "TRACK ▸"));
    assert_eq!(row_click(true), RowClick::Track);
    assert_eq!(row_click(false), RowClick::Select);
}

#[test]
fn mover_and_momentum_cards() {
    let (c, l, dc, d) = mover_texts(true, 15);
    assert_eq!((c, l, dc, d.as_str()), ("mover up", "↑ FASTEST RISER", "dl up", "+15%"));
    let (c, l, dc, d) = mover_texts(false, -8);
    assert_eq!((c, l, dc, d.as_str()), ("mover down", "↓ FASTEST FALLER", "dl down", "-8%"));
    let (t, d, sp) = momentum_texts(false, 20);
    assert_eq!((t, d.as_str(), sp), ("hot", "↑20%", "neon"));
    let (t, d, sp) = momentum_texts(false, 15);
    assert_eq!((t, d.as_str(), sp), ("hot", "↑15%", "neon"));
    let (t, d, sp) = momentum_texts(false, 10);
    assert_eq!((t, d.as_str(), sp), ("up", "↑10%", "indigo"));
    let (t, d, sp) = momentum_texts(false, -20);
    assert_eq!((t, d.as_str(), sp), ("down", "↓20%", "indigo"));
    let (t, d, sp) = momentum_texts(true, 30);
    assert_eq!((t, d.as_str(), sp), ("flat", "FIXED", "indigo"));
}

#[test]
fn trend_foot_note_and_kpi() {
    let (n, tone) = foot_note(Some(12), Some(-4), "MAY");
    assert_eq!(n.as_deref(), Some("THIS CYCLE TRACKING +12% vs 6-MO AVG · ↓ 4% vs MAY"));
    assert_eq!(tone, "alert");
    let (n, tone) = foot_note(Some(-5), None, "");
    assert_eq!(n.as_deref(), Some("THIS CYCLE TRACKING −5% vs 6-MO AVG"));
    assert_eq!(tone, "ok");
    let (n, tone) = foot_note(None, Some(3), "APR");
    assert_eq!(n, None);
    assert_eq!(tone, "ok");
    assert_eq!(vs_avg_text(Some(7)), (Some("↑ 7%".to_string()), "up"));
    assert_eq!(vs_avg_text(Some(-7)), (Some("↓ 7%".to_string()), "dn"));
    assert_eq!(vs_avg_text(None), (None, "dn"));
}

#[test]
fn trend_hud_and_counts() {
    assert_eq!(hud_text(false, 12, "JUL25", "JUN26"), "⌁ SPEND · LAST 12 CYCLES · JUL25 → JUN26");
    assert_eq!(hud_text(true, 0, "", ""), "⌁ CASHFLOW SAVED · LAST 0 CYCLES");
    assert_eq!(signal_counts(0, 2), ("—".to_string(), "+2 candidate · ".to_string()));
    assert_eq!(signal_counts(4, 0), ("4".to_string(), String::new()));
    assert_eq!(cycle_label(""), "THIS CYCLE");
    assert_eq!(cycle_label("JUN 2026"), "JUN 2026");
}

use phosk_pages::analytics::riser_lead;

#[test]
fn the_riser_leads_the_movers() {
    assert_eq!(riser_lead("Coffee", 18), "Coffee ↑18% leads");
    assert_eq!(riser_lead("Beer", -3), "Beer ↑-3% leads");
}
