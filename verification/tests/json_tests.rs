use rivalcfg_tray::json::{settings_from_json, settings_to_json};
use rivalcfg_tray::settings::Settings;

#[test]
fn test_settings_roundtrip() {
    let s = Settings {
        sensitivity: Some("800".to_string()),
        polling_rate: Some("1000".to_string()),
        sleep_timer: Some("15".to_string()),
        dim_timer: Some("5".to_string()),
        colour_mode: None,
        custom_color: None,
    };
    let json = settings_to_json(&s);
    let parsed: Settings = settings_from_json(&json).expect("deserialize");
    assert_eq!(parsed.sensitivity, s.sensitivity);
    assert_eq!(parsed.polling_rate, s.polling_rate);
    assert_eq!(parsed.sleep_timer, s.sleep_timer);
    assert_eq!(parsed.dim_timer, s.dim_timer);
    assert_eq!(parsed.colour_mode, s.colour_mode);
}

#[test]
fn settings_serde_roundtrip() {
    let s = Settings {
        sensitivity: Some("800".to_string()),
        polling_rate: Some("1000".to_string()),
        sleep_timer: Some("15".to_string()),
        dim_timer: Some("5".to_string()),
        colour_mode: Some("custom".to_string()),
        custom_color: Some("#ff8800".to_string()),
    };
    let json = settings_to_json(&s);
    let parsed: Settings = settings_from_json(&json).expect("deserialize");
    assert_eq!(parsed.colour_mode, s.colour_mode);
    assert_eq!(parsed.custom_color, s.custom_color);
}

#[test]
fn roundtrip_keeps_absent_fields_absent() {
    let s = Settings::default();
    let json = settings_to_json(&s);
    let parsed = settings_from_json(&json).expect("deserialize");
    assert!(parsed.sensitivity.is_none());
    assert!(parsed.polling_rate.is_none());
    assert!(parsed.sleep_timer.is_none());
    assert!(parsed.dim_timer.is_none());
    assert!(parsed.colour_mode.is_none());
    assert!(parsed.custom_color.is_none());
}

#[test]
fn roundtrip_escapes_special_characters() {
    let s = Settings {
        sensitivity: Some("a\"b\\c\nd\re\tf".to_string()),
        polling_rate: Some(String::new()),
        sleep_timer: None,
        dim_timer: Some("émoji ≠ ascii".to_string()),
        colour_mode: Some("line1\nline2".to_string()),
        custom_color: Some("#ff8800".to_string()),
    };
    let json = settings_to_json(&s);
    let parsed = settings_from_json(&json).expect("deserialize");
    assert_eq!(parsed.sensitivity, s.sensitivity);
    assert_eq!(parsed.polling_rate, s.polling_rate);
    assert_eq!(parsed.sleep_timer, s.sleep_timer);
    assert_eq!(parsed.dim_timer, s.dim_timer);
    assert_eq!(parsed.colour_mode, s.colour_mode);
    assert_eq!(parsed.custom_color, s.custom_color);
}

#[test]
fn empty_settings_serialize_to_all_null_object() {
    let json = settings_to_json(&Settings::default());
    assert_eq!(
        json,
        "{\"sensitivity\":null,\"polling_rate\":null,\"sleep_timer\":null,\
         \"dim_timer\":null,\"colour_mode\":null,\"custom_color\":null}"
    );
}

#[test]
fn populated_settings_serialize_to_expected_object() {
    let s = Settings {
        sensitivity: Some("800".to_string()),
        polling_rate: None,
        sleep_timer: Some("10".to_string()),
        dim_timer: None,
        colour_mode: None,
        custom_color: None,
    };
    assert_eq!(
        settings_to_json(&s),
        "{\"sensitivity\":\"800\",\"polling_rate\":null,\"sleep_timer\":\"10\",\
         \"dim_timer\":null,\"colour_mode\":null,\"custom_color\":null}"
    );
}

#[test]
fn roundtrip_escapes_control_characters() {
    let s = Settings {
        sensitivity: Some("\u{01}bell\u{07}tail\u{1f}".to_string()),
        polling_rate: Some("\u{00}".to_string()),
        sleep_timer: None,
        dim_timer: Some("\u{0b}\u{0c}".to_string()),
        colour_mode: None,
        custom_color: None,
    };
    let json = settings_to_json(&s);
    assert!(json.is_ascii());
    let parsed = settings_from_json(&json).expect("deserialize");
    assert_eq!(parsed.sensitivity, s.sensitivity);
    assert_eq!(parsed.polling_rate, s.polling_rate);
    assert_eq!(parsed.dim_timer, s.dim_timer);
}

#[test]
fn control_characters_serialize_as_hex_escapes() {
    let s = Settings {
        sensitivity: Some("\u{01}".to_string()),
        polling_rate: Some("\u{1f}".to_string()),
        sleep_timer: None,
        dim_timer: None,
        colour_mode: None,
        custom_color: None,
    };
    assert_eq!(
        settings_to_json(&s),
        "{\"sensitivity\":\"\\u0001\",\"polling_rate\":\"\\u001f\",\"sleep_timer\":null,\
         \"dim_timer\":null,\"colour_mode\":null,\"custom_color\":null}"
    );
}

#[test]
fn hex_escapes_outside_the_control_range_are_rejected() {
    let good = settings_to_json(&Settings::default());
    let with_letter = good.replace("null", "\"\\u0041\"");
    assert!(settings_from_json(&with_letter).is_none());
    let with_bad_digits = good.replace("null", "\"\\u00gg\"");
    assert!(settings_from_json(&with_bad_digits).is_none());
    let truncated = good.replace("null", "\"\\u00\"");
    assert!(settings_from_json(&truncated).is_none());
}

#[test]
fn malformed_json_is_rejected() {
    assert!(settings_from_json("").is_none());
    assert!(settings_from_json("garbage").is_none());
    assert!(settings_from_json("{\"sensitivity\":null}").is_none());
    assert!(settings_from_json("{\"sensitivity\":\"800").is_none());
    let good = settings_to_json(&Settings::default());
    assert!(settings_from_json(&format!("{} ", good)).is_none());
}
