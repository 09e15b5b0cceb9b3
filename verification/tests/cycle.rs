use phosk_pages::cycle::{cycle_days_left, cycle_days_or_default, topbar_date};
use phosk_pages::grouping::{adjacent_groups, first_seen_groups};

#[test]
fn top_bar_date_once_the_cycle_loaded() {
    assert_eq!(topbar_date("JUN 2026", 12, 30), "JUN 2026 · DAY 12/30");
    assert_eq!(topbar_date("JUN 2026", 12, 0), "");
    assert_eq!(cycle_days_left(30, 18), "30-day cycle · 18 days left");
    assert_eq!(cycle_days_left(0, 0), "0 days left");
    assert_eq!(cycle_days_or_default(0), 30);
    assert_eq!(cycle_days_or_default(31), 31);
}

#[test]
fn grouping_keeps_list_order() {
    let keys: Vec<String> = ["b", "a", "b", "c", "a"].iter().map(|x| x.to_string()).collect();
    let (ks, idx) = first_seen_groups(&keys);
    assert_eq!(ks, vec!["b".to_string(), "a".to_string(), "c".to_string()]);
    assert_eq!(idx, vec![vec![0, 2], vec![1, 4], vec![3]]);
    let (rk, ri) = adjacent_groups(&keys);
    assert_eq!(rk.len(), 5);
    assert_eq!(ri, vec![vec![0], vec![1], vec![2], vec![3], vec![4]]);
}
