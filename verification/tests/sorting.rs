use phosk_pages::sorting::{ranked_ratio_order, stable_order, str_lt, text_order};

#[test]
fn integer_keys_sort_stably_both_ways() {
    assert_eq!(stable_order(&vec![3, 1, 3, 2], false), vec![1, 3, 0, 2]);
    assert_eq!(stable_order(&vec![3, 1, 3, 2], true), vec![0, 2, 3, 1]);
    assert_eq!(stable_order(&vec![], true), Vec::<usize>::new());
}

#[test]
fn ranked_ratios_sort_by_rank_then_ratio() {
    // 1/2 == 2/4 keep their order; 3/4 is highest in rank 1; rank 0 first
    let keys = vec![(1u8, 1i64, 2i64), (1, 3, 4), (0, 1, 100), (1, 2, 4)];
    assert_eq!(ranked_ratio_order(&keys), vec![2, 1, 0, 3]);
    let neg = vec![(0u8, -1i64, 2i64), (0, 0, 1), (0, -3, 4)];
    assert_eq!(ranked_ratio_order(&neg), vec![1, 0, 2]);
}

#[test]
fn texts_sort_by_code_point() {
    assert!(str_lt("Alpha", "alpha"));
    assert!(str_lt("ab", "abc"));
    assert!(!str_lt("abc", "abc"));
    assert!(!str_lt("b", "abc"));
    let v: Vec<String> = ["pear", "Apple", "apple", "pear", ""].iter().map(|s| s.to_string()).collect();
    assert_eq!(text_order(&v), vec![4, 1, 2, 0, 3]);
}
