use phosk_pages::transactions::{
    day_parts, forget_open, group_by_day, hz_period, item_word, pick_line, pill_text,
    region_count, sig_short, signal_word, toggle_open,
};

fn s(v: &[&str]) -> Vec<String> {
    v.iter().map(|x| x.to_string()).collect()
}

#[test]
fn signal_pills_use_the_short_name() {
    assert_eq!(sig_short("coffee"), Some("COFFEE"));
    assert_eq!(sig_short("gruyere"), Some("GRUYÈRE"));
    assert_eq!(sig_short("tea"), None);
    assert_eq!(pill_text("pain", "whatever"), "PAIN AU CHOC.");
    assert_eq!(pill_text("tea", "Green tea"), "Green tea");
    assert_eq!(pill_text("tea", ""), "tea");
}

#[test]
fn horizon_periods() {
    assert_eq!(hz_period("TODAY"), "day");
    assert_eq!(hz_period("7D"), "week");
    assert_eq!(hz_period("MONTH"), "month");
    assert_eq!(hz_period("QUARTER"), "quarter");
    assert_eq!(hz_period("YEAR"), "year");
    assert_eq!(hz_period("ALL"), "");
}

#[test]
fn rows_group_by_adjacent_day() {
    let (days, idx) = group_by_day(&s(&["12 JUN", "12 JUN", "11 JUN", "12 JUN"]));
    assert_eq!(days, s(&["12 JUN", "11 JUN", "12 JUN"]));
    assert_eq!(idx, vec![vec![0, 1], vec![2], vec![3]]);
    let (d0, i0) = group_by_day(&vec![]);
    assert!(d0.is_empty() && i0.is_empty());
}

#[test]
fn toggling_a_row_twice_restores_the_open_set() {
    let mut open = s(&["t1", "t3"]);
    toggle_open(&mut open, "t2");
    assert_eq!(open, s(&["t1", "t3", "t2"]));
    toggle_open(&mut open, "t2");
    assert_eq!(open, s(&["t1", "t3"]));
    toggle_open(&mut open, "t1");
    assert_eq!(open, s(&["t3"]));
    let mut dup = s(&["t1", "t2", "t1"]);
    forget_open(&mut dup, "t1");
    assert_eq!(dup, s(&["t2"]));
}

#[test]
fn picking_lines_for_correction() {
    assert_eq!(pick_line(None, 2, false), Some(2));
    assert_eq!(pick_line(Some(2), 2, false), None);
    assert_eq!(pick_line(Some(1), 2, false), Some(2));
    assert_eq!(pick_line(Some(1), 2, true), Some(1));
}

#[test]
fn date_column_and_words() {
    assert_eq!(day_parts("12 JUN"), ("12".to_string(), "JUN".to_string()));
    assert_eq!(day_parts("12 JUN 2026"), ("12".to_string(), "JUN 2026".to_string()));
    assert_eq!(day_parts("TODAY"), ("TODAY".to_string(), String::new()));
    assert_eq!(day_parts(" JUN"), (" JUN".to_string(), "JUN".to_string()));
    assert_eq!(region_count(Some(5), 3), 5);
    assert_eq!(region_count(Some(0), 3), 3);
    assert_eq!(region_count(None, 4), 4);
    assert_eq!(item_word(1), "item");
    assert_eq!(item_word(2), "items");
    assert_eq!(signal_word(0), "signal");
    assert_eq!(signal_word(3), "signals");
}

use phosk_pages::transactions::{detail_follow, LineAnswer, LineConfirm, LineDraft, LineEdit, LineState};

fn line(name: &str, qty: &str) -> LineDraft {
    LineDraft {
        name: name.to_string(),
        category: "Groceries".to_string(),
        qty: qty.to_string(),
        unit_price: "2.40".to_string(),
    }
}

#[test]
fn a_correction_never_saves_over_a_changed_line() {
    let stored = line("Milk", "1");
    let mut e = LineEdit::open(&stored);
    e.edit(line("Milk 1L", "2"));
    assert_eq!(e.state(&stored), LineState::Idle);
    let moved = line("Milk", "3");
    assert!(e.moved(&moved));
    assert_eq!(e.state(&moved), LineState::Changed);
    assert_eq!(e.save(&moved), None);
    e.reload(&moved);
    assert_eq!(e.draft, moved);
    assert!(!e.moved(&moved));
    let (seen, draft) = e.save(&moved).unwrap();
    assert_eq!(seen, moved);
    assert_eq!(draft, moved);
    assert_eq!(e.state(&moved), LineState::Saving);
    assert_eq!(e.save(&moved), None);
    assert_eq!(e.finish(Err(("Quantity must be a number".to_string(), false))), LineAnswer::Refused(false));
    assert_eq!(e.state(&moved), LineState::NotSaved("Quantity must be a number".to_string()));
    assert!(e.save(&moved).is_some());
    assert_eq!(e.finish(Ok(())), LineAnswer::Saved);
}

#[test]
fn confirm_runs_once_and_refreshes() {
    let mut c = LineConfirm::new();
    assert!(c.confirm());
    assert!(!c.confirm());
    assert!(!c.finish(Err(("Refused".to_string(), false))));
    assert_eq!(c.error.as_deref(), Some("Refused"));
    assert!(c.confirm());
    assert!(c.error.is_none());
    assert!(c.finish(Err(("Line changed".to_string(), true))));
    assert!(c.confirm());
    assert!(c.finish(Ok(())));
}

#[test]
fn the_open_detail_follows_the_list() {
    let ids = s(&["t1", "t2", "t3"]);
    assert_eq!(detail_follow(Some("t2"), &ids), Some(1));
    assert_eq!(detail_follow(Some("t9"), &ids), None);
    assert_eq!(detail_follow(None, &ids), None);
}

use phosk_pages::transactions::{ocr_meta, source_kind};

#[test]
fn receipt_source_texts_are_upper_cased() {
    assert_eq!(ocr_meta(Some("paddleocr"), 12), "PADDLEOCR · 12 REGIONS");
    assert_eq!(ocr_meta(Some("Tesseract"), 3), "TESSERACT · 3 REGIONS");
    assert_eq!(ocr_meta(None, 0), "PADDLEOCR · 0 REGIONS");
    assert_eq!(source_kind(Some("photo")), "PHOTO");
    assert_eq!(source_kind(Some("scan")), "SCAN");
    assert_eq!(source_kind(None), "PHOTO");
}

use phosk_pages::transactions::{collapse_all, collapse_all_shown};

#[test]
fn collapse_all_shows_for_two_open_rows_and_closes_them() {
    let mut open = s(&["t1"]);
    assert!(!collapse_all_shown(&open));
    toggle_open(&mut open, "t2");
    assert!(collapse_all_shown(&open));
    collapse_all(&mut open);
    assert!(open.is_empty());
}
