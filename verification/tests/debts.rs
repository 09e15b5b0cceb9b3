use phosk_pages::debts::{
    cycle_anchor, debt_group_label, debt_status, month_label, month_label_at, month_str,
    months_label, select_toggle, strategy_target, traj_strategy,
};

#[test]
fn the_anchor_reads_month_and_year_from_the_label_in_any_case() {
    assert_eq!(cycle_anchor("jun 2026"), (5, 2026));
    assert_eq!(cycle_anchor("Cycle nov 2027"), (10, 2027));
    assert_eq!(cycle_anchor("2031 · Mar"), (2, 2031));
    assert_eq!(cycle_anchor(""), (5, 2026));
    assert_eq!(cycle_anchor("DECEMBER 26"), (5, 2026));
    assert_eq!(cycle_anchor("feb"), (1, 2026));
}

#[test]
fn month_labels_step_from_the_anchor() {
    assert_eq!(month_label(5, "JUN 2026"), "NOV 26");
    assert_eq!(month_label(0, "jun 2026"), "JUN 26");
    assert_eq!(month_label(-7, "feb 2026"), "JUL 25");
    assert_eq!(month_label(29, "JUN 2026"), "NOV 28");
    assert_eq!(month_label(12, "JAN 2099"), "JAN 00");
    assert_eq!(month_label_at(11, 2026, 1), "JAN 27");
    assert_eq!(month_str(0), "JAN");
}

#[test]
fn twelve_months_on_is_the_same_month_a_year_later() {
    for off in [-30, -1, 0, 7, 40] {
        let a = month_label(off, "APR 2030");
        let b = month_label(off + 12, "APR 2030");
        assert_eq!(a[..3], b[..3]);
        let ya: i32 = a[4..].parse().unwrap();
        let yb: i32 = b[4..].parse().unwrap();
        assert_eq!((ya + 1) % 100, yb);
    }
}

#[test]
fn status_selection_and_strategy() {
    assert_eq!(debt_status("high"), ("HIGH INTEREST", "coral"));
    assert_eq!(debt_status("due"), ("DUE SOON", "warn"));
    assert_eq!(debt_status("watch"), ("REVIEW", "warn"));
    assert_eq!(debt_status("x"), ("ON TRACK", "blue"));
    let (sel, drawer) = select_toggle(&None, "d1".to_string(), false);
    assert_eq!((sel.as_deref(), drawer), (Some("d1"), true));
    let (sel2, drawer2) = select_toggle(&sel, "d1".to_string(), false);
    assert_eq!((sel2, drawer2), (None, false));
    let (sel3, drawer3) = select_toggle(&Some("d1".to_string()), "d2".to_string(), true);
    assert_eq!((sel3.as_deref(), drawer3), (Some("d2"), false));
    assert_eq!(strategy_target("avalanche", "d1", "d2").as_deref(), Some("d1"));
    assert_eq!(strategy_target("snowball", "d1", "d2").as_deref(), Some("d2"));
    assert_eq!(strategy_target("snowball", "d1", ""), None);
    assert_eq!(strategy_target("none", "d1", "d2"), None);
    assert_eq!(traj_strategy("snowball"), "snowball");
    assert_eq!(traj_strategy("none"), "none");
    assert_eq!(traj_strategy("whatever"), "avalanche");
}

#[test]
fn group_and_horizon_labels() {
    assert_eq!(debt_group_label("CAR", "LOAN"), "CAR");
    assert_eq!(debt_group_label("", "LEASE"), "LEASES & LOANS");
    assert_eq!(debt_group_label("", "LOAN"), "LEASES & LOANS");
    assert_eq!(debt_group_label("", "CARD"), "REVOLVING CREDIT");
    assert_eq!(debt_group_label("", "TAX"), "OBLIGATIONS");
    assert_eq!(months_label(24), "24 MO");
    assert_eq!(months_label(599), "599 MO");
    assert_eq!(months_label(600), "—");
}

use phosk_pages::debts::{debt_legend, iou_hud, net_texts, or_dash, paid_so_far, payoff_label, payoff_word, person_dir};

#[test]
fn card_texts_of_a_debt() {
    assert_eq!(debt_legend(true, "LATE", "ON TRACK"), "◎ TARGET");
    assert_eq!(debt_legend(false, "LATE", "ON TRACK"), "LATE");
    assert_eq!(debt_legend(false, "", "ON TRACK"), "ON TRACK");
    assert_eq!(or_dash(""), "—");
    assert_eq!(or_dash("JUL 1"), "JUL 1");
    assert_eq!(payoff_label(5, "JUN 2026"), "NOV 26");
    assert_eq!(payoff_label(600, "JUN 2026"), "—");
    assert_eq!(payoff_word("CARD", 12, "JUN 2026"), "REVOLVING");
    assert_eq!(payoff_word("LOAN", 12, "JUN 2026"), "PAYOFF JUN 27");
    assert_eq!(payoff_word("LOAN", 700, "JUN 2026"), "PAYOFF —");
    assert_eq!(paid_so_far(2400000, 1800000), 600000);
}

#[test]
fn iou_texts() {
    assert_eq!(person_dir("in"), ("person in", "person-dir in", "← OWED TO YOU"));
    assert_eq!(person_dir("out"), ("person out", "person-dir out", "YOU OWE →"));
    assert_eq!(net_texts(0), ("beam-net pos", "+", "IN YOUR FAVOUR"));
    assert_eq!(net_texts(-1), ("beam-net neg", "−", "YOU'RE BEHIND"));
    assert_eq!(iou_hud(Some(3)), "⟷ PERSONAL · IOU LEDGER · 3 OPEN");
    assert_eq!(iou_hud(None), "⟷ PERSONAL · IOU LEDGER · — OPEN");
}

use phosk_pages::debts::{debt_groups, debt_order, DebtSort};

#[test]
fn debts_sort_and_group() {
    let balances = vec![500000, 120000, 500000, 90000];
    let months = vec![40, 12, 700, 12];
    let apr = vec![590, 1990, 590, 0];
    let names: Vec<String> = ["Car", "Visa", "Bike", "Tax"].iter().map(|x| x.to_string()).collect();
    assert_eq!(debt_order(&balances, &apr, &months, &names, DebtSort::Balance), vec![0, 2, 1, 3]);
    assert_eq!(debt_order(&balances, &apr, &months, &names, DebtSort::Apr), vec![1, 0, 2, 3]);
    assert_eq!(debt_order(&vec![100, 300, 200], &vec![5, 5, 5], &vec![0, 0, 0], &vec![String::new(), String::new(), String::new()], DebtSort::Apr), vec![1, 2, 0]);
    assert_eq!(debt_order(&balances, &apr, &months, &names, DebtSort::Payoff), vec![1, 3, 0, 2]);
    assert_eq!(debt_order(&balances, &apr, &months, &names, DebtSort::Name), vec![2, 0, 3, 1]);
    let labels: Vec<String> = ["LEASES & LOANS", "REVOLVING CREDIT", "LEASES & LOANS", "OBLIGATIONS"]
        .iter()
        .map(|x| x.to_string())
        .collect();
    let g = debt_groups(&labels, true);
    assert_eq!(
        g,
        vec![
            (Some("LEASES & LOANS · 2".to_string()), vec![0, 2]),
            (Some("REVOLVING CREDIT · 1".to_string()), vec![1]),
            (Some("OBLIGATIONS · 1".to_string()), vec![3]),
        ]
    );
    assert_eq!(debt_groups(&labels, false), vec![(None, vec![0, 1, 2, 3])]);
}

use phosk_pages::debts::{debt_free_sub, iou_count, monthly_sub, section_count, strategy_word};

#[test]
fn kpi_lines_of_the_debts_page() {
    assert_eq!(monthly_sub(Some((4, 1))), "4 payments · 1 auto-detected by GEMMA4");
    assert_eq!(monthly_sub(None), "— payments · — auto-detected by GEMMA4");
    assert_eq!(debt_free_sub(Some(31)), "31 months at the current pace");
    assert_eq!(debt_free_sub(None), "—");
    assert_eq!(strategy_word("snowball"), "SNOWBALL");
    assert_eq!(strategy_word("none"), "AVALANCHE");
    assert_eq!(section_count(Some(5), false, 2), "5");
    assert_eq!(section_count(None, true, 2), "2");
    assert_eq!(section_count(None, false, 2), "—");
    assert_eq!(iou_count(2, 3), 5);
}

use phosk_pages::debts::{debt_free_label, horizon_label, traj_hud, traj_ticks, trajectory_split};

#[test]
fn payoff_chart_texts_ticks_and_split() {
    assert_eq!(debt_free_label("MAR 29", Some("APR 29")), "MAR 29");
    assert_eq!(debt_free_label("", Some("APR 29")), "APR 29");
    assert_eq!(debt_free_label("", Some("")), "—");
    assert_eq!(debt_free_label("", None), "—");
    assert_eq!(traj_hud("JUN 2026", "MAR 29"), "∿ COMBINED BALANCE DECAY · JUN 2026 → MAR 29");
    assert_eq!(traj_hud("", "—"), "∿ COMBINED BALANCE DECAY · — → —");
    assert_eq!(traj_ticks(&vec![0, 6, 18], 18), vec![0, 6, 18]);
    assert_eq!(traj_ticks(&vec![], 33), vec![0, 12, 24, 33]);
    assert_eq!(traj_ticks(&vec![], 14), vec![0, 12, 14]);
    assert_eq!(traj_ticks(&vec![], 5), vec![0, 5]);
    assert_eq!(trajectory_split(&vec![-2, -1, 0, 1, 2]), (vec![0, 1, 2], vec![2, 3, 4]));
    assert_eq!(horizon_label(Some(31)), "31 MO");
    assert_eq!(horizon_label(None), "—");
}

use phosk_pages::debts::month_label_checked;

#[test]
fn month_labels_refuse_an_overflowing_month_count() {
    assert_eq!(month_label_checked(i32::MAX, "DEC 2026"), None);
    assert_eq!(month_label_checked(i32::MAX - 11, "DEC 2026").is_some(), true);
    assert_eq!(month_label_checked(i32::MAX - 5, "JAN 2026").is_some(), true);
    assert_eq!(month_label_checked(5, "JUN 2026").as_deref(), Some("NOV 26"));
}

use phosk_pages::debts::traj_shows_chart;

#[test]
fn the_payoff_chart_needs_points() {
    assert!(!traj_shows_chart(None));
    assert!(!traj_shows_chart(Some(0)));
    assert!(traj_shows_chart(Some(7)));
}
