use phosk_pages::config::{is_numeric, PrefWrite};

#[test]
fn is_numeric_accepts_only_digit_and_dot_values() {
    for v in ["3", "12", "0.7"] {
        assert!(is_numeric(v), "{v} is a number");
    }
    for v in ["", "CHF", "month", "off"] {
        assert!(!is_numeric(v), "{v:?} is text");
    }
}

#[test]
fn a_write_targets_its_row_or_every_row() {
    let set = PrefWrite::SetValue("currency".to_string(), "CHF".to_string());
    assert_eq!(set.target(), "currency");
    assert_eq!(
        PrefWrite::Reset("telemetry".to_string()).target(),
        "telemetry"
    );
    assert_eq!(PrefWrite::ResetAll.target(), "*");
}
