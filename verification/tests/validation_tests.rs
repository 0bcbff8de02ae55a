use rivalcfg_tray::settings::{validate_polling_rate, validate_sensitivity, validate_timer, Settings};

#[test]
fn main_test_validate_sensitivity() {
    assert!(validate_sensitivity("").is_ok());
    assert!(validate_sensitivity("800").is_ok());
    assert!(validate_sensitivity("100").is_ok());
    assert!(validate_sensitivity("16000").is_ok());
    assert!(validate_sensitivity("99").is_err());
    assert!(validate_sensitivity("abc").is_err());
}

#[test]
fn main_test_validate_polling_rate() {
    assert!(validate_polling_rate("").is_ok());
    assert!(validate_polling_rate("125").is_ok());
    assert!(validate_polling_rate("250").is_ok());
    assert!(validate_polling_rate("500").is_ok());
    assert!(validate_polling_rate("1000").is_ok());
    assert!(validate_polling_rate("42").is_err());
}

#[test]
fn main_test_validate_timer() {
    assert!(validate_timer("", "Sleep Timer").is_ok());
    assert!(validate_timer("10", "Sleep Timer").is_ok());
    assert!(validate_timer("abc", "Dim Timer").is_err());
}

#[test]
fn tests_test_validate_sensitivity() {
    assert!(validate_sensitivity("").is_ok());
    assert!(validate_sensitivity("800").is_ok());
    assert!(validate_sensitivity("100").is_ok());
    assert!(validate_sensitivity("16000").is_ok());
    assert!(validate_sensitivity("99").is_err());
    assert!(validate_sensitivity("abc").is_err());
}

#[test]
fn tests_test_validate_polling_rate() {
    assert!(validate_polling_rate("").is_ok());
    assert!(validate_polling_rate("125").is_ok());
    assert!(validate_polling_rate("250").is_ok());
    assert!(validate_polling_rate("500").is_ok());
    assert!(validate_polling_rate("1000").is_ok());
    assert!(validate_polling_rate("42").is_err());
}

#[test]
fn tests_test_validate_timer() {
    assert!(validate_timer("", "Sleep Timer").is_ok());
    assert!(validate_timer("10", "Sleep Timer").is_ok());
    assert!(validate_timer("abc", "Dim Timer").is_err());
}

#[test]
fn validate_sensitivity_boundaries() {
    assert!(validate_sensitivity("16001").is_err());
    assert!(validate_sensitivity("101").is_ok());
    assert!(validate_sensitivity("15999").is_ok());
    assert!(validate_sensitivity("   ").is_ok());
    assert!(validate_sensitivity("0").is_err());
    assert!(validate_sensitivity("-5").is_err());
    assert_eq!(
        validate_sensitivity("99").unwrap_err(),
        "Sensitivity must be a number between 100 and 16000"
    );
}

#[test]
fn validate_polling_rate_messages() {
    assert_eq!(
        validate_polling_rate("300").unwrap_err(),
        "Polling rate must be one of: 125, 250, 500, 1000"
    );
    assert!(validate_polling_rate(" 125").is_err());
}

#[test]
fn validate_timer_accepts_any_nonnegative_integer() {
    assert!(validate_timer("0", "Sleep Timer").is_ok());
    assert!(validate_timer("16001", "Sleep Timer").is_ok());
    assert!(validate_timer("4294967295", "Sleep Timer").is_ok());
    assert!(validate_timer("-1", "Dim Timer").is_err());
    assert!(validate_timer("1.5", "Dim Timer").is_err());
    assert_eq!(
        validate_timer("abc", "Dim Timer").unwrap_err(),
        "Dim Timer must be a whole number"
    );
}

#[test]
fn settings_default_has_every_field_absent() {
    let s = Settings::default();
    assert!(s.sensitivity.is_none());
    assert!(s.polling_rate.is_none());
    assert!(s.sleep_timer.is_none());
    assert!(s.dim_timer.is_none());
    assert!(s.colour_mode.is_none());
    assert!(s.custom_color.is_none());
}
