use phosk_pages::config::{
    cfg_default, cfg_key, edits_json, json_str, key_index, parse_stored, pref_control,
    pref_copy, pref_status, row_saving, CfgStore, CfgVal, PrefControl, CFG_COUNT,
};

#[test]
fn defaults_hold_every_key_in_order() {
    let s = CfgStore::defaults();
    assert_eq!(s.changed_count(), 0);
    assert_eq!(cfg_key(0), "aiOpen");
    assert_eq!(cfg_key(CFG_COUNT - 1), "trendWindow");
    for i in 0..CFG_COUNT - 1 {
        assert!(cfg_key(i) < cfg_key(i + 1));
        assert_eq!(key_index(cfg_key(i)), Some(i));
    }
    assert_eq!(key_index("nope"), None);
    assert_eq!(s.get("aiOpen"), Some(&CfgVal::Bool(true)));
    assert_eq!(s.get("debtInsp"), Some(&CfgVal::Str("dock".to_string())));
    assert_eq!(s.get("unknown"), None);
    assert_eq!(s.insp_all(), "dock");
}

#[test]
fn a_written_value_reads_back_after_reload() {
    let mut s = CfgStore::defaults();
    let i = key_index("subView").unwrap();
    let j = key_index("showSparks").unwrap();
    let edits = vec![
        (i, CfgVal::Str("rows \"wide\"\n".to_string())),
        (j, CfgVal::Bool(false)),
    ];
    let json = s.set(&edits);
    assert_eq!(s.changed_count(), 2);
    let mut fresh = CfgStore::defaults();
    fresh.load(&json);
    assert_eq!(fresh.get("subView"), Some(&CfgVal::Str("rows \"wide\"\n".to_string())));
    assert_eq!(fresh.get("showSparks"), Some(&CfgVal::Bool(false)));
    assert_eq!(fresh.changed_count(), 2);
}

#[test]
fn reset_restores_and_broadcasts_every_default() {
    let mut s = CfgStore::defaults();
    let k = key_index("sigInsp").unwrap();
    s.set(&vec![(k, CfgVal::Str("drawer".to_string()))]);
    assert_eq!(s.insp_all(), "mixed");
    let json = s.reset();
    assert_eq!(s.changed_count(), 0);
    let parsed = parse_stored(&json);
    assert_eq!(parsed.len(), CFG_COUNT);
    for (n, (idx, v)) in parsed.iter().enumerate() {
        assert_eq!(*idx, n);
        assert_eq!(*v, cfg_default(n));
    }
}

#[test]
fn the_stored_text_is_read_tolerantly() {
    let mut s = CfgStore::defaults();
    s.load("{\"aiOpen\": false, \"sort\": \"used\", \"zzz\": 1, \"subView\": true}");
    assert_eq!(s.get("aiOpen"), Some(&CfgVal::Bool(false)));
    assert_eq!(s.get("sort"), Some(&CfgVal::Str("used".to_string())));
    // a switch value for a string key keeps the string
    assert_eq!(s.get("subView"), Some(&cfg_default(key_index("subView").unwrap())));
    let mut t = CfgStore::defaults();
    t.load("not json at all");
    assert_eq!(t.changed_count(), 0);
}

#[test]
fn json_text_escapes_quotes_backslashes_and_controls() {
    assert_eq!(json_str("a\"b\\c\nd\u{1}"), "\"a\\\"b\\\\c\\nd\\u0001\"");
    let e = vec![(0usize, CfgVal::Bool(false)), (19usize, CfgVal::Str("over".to_string()))];
    assert_eq!(edits_json(&e), "{\"aiOpen\":false,\"sort\":\"over\"}");
}

#[test]
fn core_rows_copy_status_and_control() {
    let (label, _hint) = pref_copy("currency");
    assert_eq!(label, "Currency");
    assert_eq!(pref_status(true, true, 3), "SAVING…");
    assert_eq!(pref_status(false, true, 3), "CHANGED");
    assert_eq!(pref_status(false, false, 1), "FIXED");
    assert_eq!(pref_status(false, false, 2), "DEFAULT");
    assert_eq!(pref_control(1), PrefControl::Locked);
    assert_eq!(pref_control(3), PrefControl::Segmented);
    assert_eq!(pref_control(5), PrefControl::Select);
    assert!(row_saving(&Some("currency".to_string()), "currency"));
    assert!(row_saving(&Some("*".to_string()), "currency"));
    assert!(!row_saving(&Some("telemetry".to_string()), "currency"));
    assert!(!row_saving(&None, "currency"));
}

use phosk_pages::config::{pref_counts, PrefUi, PrefWrite};
use phosk_pages::calls::CallError;

#[test]
fn core_writes_show_their_target_and_refusals() {
    let mut ui: PrefUi<u32> = PrefUi::new();
    assert_eq!(ui.live, None);
    ui.begin(&PrefWrite::SetValue("currency".to_string(), "CHF".to_string()));
    assert_eq!(ui.busy.as_deref(), Some("currency"));
    ui.finish(Err(CallError::Transport));
    assert!(ui.busy.is_none());
    assert!(ui.err);
    assert_eq!(ui.live, None);
    ui.begin(&PrefWrite::ResetAll);
    assert_eq!(ui.busy.as_deref(), Some("*"));
    assert!(!ui.err);
    ui.finish(Ok(7));
    assert!(!ui.err);
    assert_eq!(ui.live, Some(7));
    ui.begin(&PrefWrite::SetValue("currency".to_string(), "EUR".to_string()));
    ui.finish(Err(CallError::Transport));
    assert!(ui.err);
    assert_eq!(ui.live, Some(7));
}

#[test]
fn header_counts_add_the_core_rows() {
    assert_eq!(pref_counts(3, None), (29, 3));
    assert_eq!(pref_counts(3, Some((5, 2))), (34, 5));
    assert_eq!(pref_counts(3, Some((5, u64::MAX))), (34, usize::MAX));
}

#[test]
fn values_read_as_text_or_switch() {
    assert_eq!(CfgVal::Str("dock".to_string()).as_str(), "dock");
    assert_eq!(CfgVal::Bool(true).as_str(), "");
    assert!(CfgVal::Bool(true).as_bool());
    assert!(!CfgVal::Bool(false).as_bool());
    assert!(!CfgVal::Str("true".to_string()).as_bool());
}

use phosk_pages::config::{changed_ribbon, is_json_object, reset_button};

fn chars(s: &str) -> Vec<char> {
    s.chars().collect()
}

#[test]
fn a_truncated_or_malformed_store_reads_as_nothing() {
    assert!(parse_stored("{\"aiOpen\":false").is_empty());
    assert!(parse_stored("").is_empty());
    assert!(parse_stored("[\"aiOpen\", false]").is_empty());
    assert!(parse_stored("{\"aiOpen\":false,}").is_empty());
    assert!(parse_stored("{\"aiOpen\":false} x").is_empty());
    assert!(parse_stored("{\"subView\":\"a\tb\"}").is_empty());
    assert_eq!(parse_stored(" {\"aiOpen\" : false } \n").len(), 1);
    let mut s = CfgStore::defaults();
    s.load("{\"aiOpen\":false");
    assert_eq!(s.changed_count(), 0);
}

#[test]
fn json_objects_of_scalar_values_are_recognised() {
    assert!(is_json_object(&chars("{}")));
    assert!(is_json_object(&chars(" { } ")));
    assert!(is_json_object(&chars("{\"a\":1,\"b\":-0.5e+3,\"c\":null,\"d\":true,\"e\":\"x\\u00e9\\n\"}")));
    assert!(!is_json_object(&chars("{\"a\":01}")));
    assert!(!is_json_object(&chars("{\"a\":1.}")));
    assert!(!is_json_object(&chars("{\"a\":\"\\x\"}")));
    assert!(!is_json_object(&chars("{a:1}")));
    assert!(!is_json_object(&chars("{\"a\":1")));
}

#[test]
fn what_a_write_persists_reads_back() {
    let k = key_index("topDateFmt").unwrap();
    let json = edits_json(&vec![(k, CfgVal::Str("DD.MM \"x\"".to_string()))]);
    assert!(is_json_object(&chars(&json)));
    assert_eq!(parse_stored(&json), vec![(k, CfgVal::Str("DD.MM \"x\"".to_string()))]);
    let all = CfgStore::defaults().reset();
    assert!(is_json_object(&chars(&all)));
}

#[test]
fn ribbon_and_reset_button() {
    assert_eq!(changed_ribbon(0), ("v blue", "all at defaults"));
    assert_eq!(changed_ribbon(2), ("v coral", "differs from defaults"));
    assert_eq!(reset_button(true), ("✓ Reset", "cfg-reset saved"));
    assert_eq!(reset_button(false), ("↺ Reset all", "cfg-reset"));
}

#[test]
fn several_writes_read_back_in_key_order() {
    let a = key_index("aiOpen").unwrap();
    let d = key_index("debtView").unwrap();
    let s = key_index("sort").unwrap();
    let v = key_index("subView").unwrap();
    let edits = vec![
        (a, CfgVal::Bool(false)),
        (d, CfgVal::Str("rows, \"tight\"".to_string())),
        (s, CfgVal::Str("over".to_string())),
        (v, CfgVal::Str("a}b{c:d\t".to_string())),
    ];
    let json = edits_json(&edits);
    assert_eq!(parse_stored(&json), edits);
    let mut store = CfgStore::defaults();
    store.load(&json);
    let mut direct = CfgStore::defaults();
    direct.set(&edits);
    for i in 0..CFG_COUNT {
        assert_eq!(store.get(cfg_key(i)), direct.get(cfg_key(i)));
    }
    let shuffled = vec![edits[3].clone(), edits[0].clone(), edits[2].clone(), edits[1].clone()];
    let json = edits_json(&shuffled);
    assert_eq!(parse_stored(&json), edits);
    let mut again = CfgStore::defaults();
    again.load(&json);
    let mut direct = CfgStore::defaults();
    direct.set(&shuffled);
    for i in 0..CFG_COUNT {
        assert_eq!(again.get(cfg_key(i)), direct.get(cfg_key(i)));
    }
}
