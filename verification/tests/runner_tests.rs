use std::collections::HashMap;
use std::sync::Mutex;

use rivalcfg_tray::cache::BatteryTracker;
use rivalcfg_tray::cmd::{
    build_rivalcfg_args, get_battery_level_with_runner, get_battery_status,
    get_mouse_name_with_runner, CommandOutput, CommandRunner,
};
use rivalcfg_tray::settings::Settings;

#[derive(Debug, Default)]
struct MockCommandRunner {
    responses: Mutex<HashMap<String, CommandOutput>>,
    calls: Mutex<Vec<(String, Vec<String>)>>,
}

impl MockCommandRunner {
    fn new() -> Self {
        Self {
            responses: Mutex::new(HashMap::new()),
            calls: Mutex::new(Vec::new()),
        }
    }

    fn set_response(&self, program: &str, args: &[&str], out: CommandOutput) {
        let key = format!("{}|{}", program, args.join("|"));
        self.responses.lock().unwrap().insert(key, out);
    }

    fn get_calls(&self) -> Vec<(String, Vec<String>)> {
        self.calls.lock().unwrap().clone()
    }
}

impl CommandRunner for MockCommandRunner {
    fn run(&self, program: &str, args: &[&str]) -> CommandOutput {
        let args_vec = args.iter().map(|s| s.to_string()).collect::<Vec<_>>();
        self.calls
            .lock()
            .unwrap()
            .push((program.to_string(), args_vec.clone()));
        let key = format!("{}|{}", program, args.join("|"));
        if let Some(out) = self.responses.lock().unwrap().get(&key) {
            return out.clone();
        }
        CommandOutput {
            stdout: String::new(),
            stderr: format!("No mock response for {} {:?}", program, args),
            success: false,
            _code: None,
        }
    }
}

#[test]
fn main_test_get_battery_level_with_mock_runner_charging() {
    let mock = MockCommandRunner::new();
    let stdout = "SteelSeries Rival Options:\nMouse battery: 75% Charging\n".to_string();
    mock.set_response(
        "rivalcfg",
        &["--battery-level"],
        CommandOutput {
            stdout: stdout.clone(),
            stderr: String::new(),
            success: true,
            _code: Some(0),
        },
    );

    let res = get_battery_level_with_runner(&mock);
    assert!(res.is_some());
    let (percent, charging) = res.unwrap();
    assert_eq!(percent, 75);
    assert!(charging);
}

#[test]
fn main_test_get_battery_level_with_mock_runner_discharging() {
    let mock = MockCommandRunner::new();
    let stdout = "Mouse battery: 12% Discharging\n".to_string();
    mock.set_response(
        "rivalcfg",
        &["--battery-level"],
        CommandOutput {
            stdout: stdout.clone(),
            stderr: String::new(),
            success: true,
            _code: Some(0),
        },
    );
    let res = get_battery_level_with_runner(&mock);
    assert!(res.is_some());
    let (percent, charging) = res.unwrap();
    assert_eq!(percent, 12);
    assert!(!charging);
}

#[test]
fn main_test_get_mouse_name_with_mock_runner() {
    let mock = MockCommandRunner::new();
    let stdout = "Some header\nMyMouse Options:\n more text\n".to_string();
    mock.set_response(
        "rivalcfg",
        &["--help"],
        CommandOutput {
            stdout: stdout.clone(),
            stderr: String::new(),
            success: true,
            _code: Some(0),
        },
    );
    let res = get_mouse_name_with_runner(&mock);
    assert_eq!(res.unwrap(), "MyMouse");
}

#[test]
fn main_test_build_rivalcfg_args_variations() {
    let s = Settings {
        sensitivity: Some("800".to_string()),
        polling_rate: Some("500".to_string()),
        sleep_timer: Some("10".to_string()),
        dim_timer: Some("3".to_string()),
        colour_mode: None,
        custom_color: None,
    };
    let args = build_rivalcfg_args(&s);
    assert_eq!(
        args,
        vec![
            "--sensitivity".to_string(),
            "800".to_string(),
            "--polling-rate".to_string(),
            "500".to_string(),
            "--sleep-timer".to_string(),
            "10".to_string(),
            "--dim-timer".to_string(),
            "3".to_string(),
        ]
    );
}

#[test]
fn tests_test_get_battery_level_with_mock_runner_charging() {
    let mock = MockCommandRunner::new();
    let stdout = "SteelSeries Rival Options:\nMouse battery: 75% Charging\n".to_string();
    mock.set_response(
        "rivalcfg",
        &["--battery-level"],
        CommandOutput {
            stdout: stdout.clone(),
            stderr: String::new(),
            success: true,
            _code: Some(0),
        },
    );

    let res = get_battery_level_with_runner(&mock);
    assert!(res.is_some());
    let (percent, charging) = res.unwrap();
    assert_eq!(percent, 75);
    assert!(charging);
}

#[test]
fn tests_test_get_battery_level_with_mock_runner_discharging() {
    let mock = MockCommandRunner::new();
    let stdout = "Mouse battery: 12% Discharging\n".to_string();
    mock.set_response(
        "rivalcfg",
        &["--battery-level"],
        CommandOutput {
            stdout: stdout.clone(),
            stderr: String::new(),
            success: true,
            _code: Some(0),
        },
    );
    let res = get_battery_level_with_runner(&mock);
    assert!(res.is_some());
    let (percent, charging) = res.unwrap();
    assert_eq!(percent, 12);
    assert!(!charging);
}

#[test]
fn tests_test_get_mouse_name_with_mock_runner() {
    let mock = MockCommandRunner::new();
    let stdout = "Some header\nMyMouse Options:\n more text\n".to_string();
    mock.set_response(
        "rivalcfg",
        &["--help"],
        CommandOutput {
            stdout: stdout.clone(),
            stderr: String::new(),
            success: true,
            _code: Some(0),
        },
    );
    let res = get_mouse_name_with_runner(&mock);
    assert_eq!(res.unwrap(), "MyMouse");
}

#[test]
fn tests_test_build_rivalcfg_args_variations() {
    let s = Settings {
        sensitivity: Some("800".to_string()),
        polling_rate: Some("500".to_string()),
        sleep_timer: Some("10".to_string()),
        dim_timer: Some("3".to_string()),
        colour_mode: None,
        custom_color: None,
    };
    let args = build_rivalcfg_args(&s);
    assert_eq!(
        args,
        vec![
            "--sensitivity".to_string(),
            "800".to_string(),
            "--polling-rate".to_string(),
            "500".to_string(),
            "--sleep-timer".to_string(),
            "10".to_string(),
            "--dim-timer".to_string(),
            "3".to_string(),
        ]
    );
}

#[test]
fn build_rivalcfg_args_empty_settings_yields_empty_list() {
    let args = build_rivalcfg_args(&Settings::default());
    assert!(args.is_empty());
}

#[test]
fn build_rivalcfg_args_skips_empty_strings() {
    let s = Settings {
        sensitivity: Some(String::new()),
        polling_rate: Some("250".to_string()),
        sleep_timer: None,
        dim_timer: Some(String::new()),
        colour_mode: None,
        custom_color: None,
    };
    let args = build_rivalcfg_args(&s);
    assert_eq!(args, vec!["--polling-rate".to_string(), "250".to_string()]);
}

#[test]
fn battery_status_priority_and_absence() {
    assert_eq!(get_battery_status("Mouse battery: 50% Charging"), Some(true));
    assert_eq!(
        get_battery_status("Charging? no: Discharging"),
        Some(false)
    );
    assert_eq!(get_battery_status("Mouse battery: 50% Discharging"), Some(false));
    assert_eq!(get_battery_status("nothing to see"), None);
}

#[test]
fn battery_level_rejects_failed_or_odd_output() {
    let mock = MockCommandRunner::new();
    mock.set_response(
        "rivalcfg",
        &["--battery-level"],
        CommandOutput {
            stdout: "Mouse battery: 75% Charging".to_string(),
            stderr: "boom".to_string(),
            success: false,
            _code: Some(1),
        },
    );
    assert_eq!(get_battery_level_with_runner(&mock), None);

    let mock = MockCommandRunner::new();
    mock.set_response(
        "rivalcfg",
        &["--battery-level"],
        CommandOutput {
            stdout: "Charging".to_string(),
            stderr: String::new(),
            success: true,
            _code: Some(0),
        },
    );
    // a single token has no second-to-last neighbour
    assert_eq!(get_battery_level_with_runner(&mock), None);

    let mock = MockCommandRunner::new();
    mock.set_response(
        "rivalcfg",
        &["--battery-level"],
        CommandOutput {
            stdout: "Mouse battery: 150% Charging".to_string(),
            stderr: String::new(),
            success: true,
            _code: Some(0),
        },
    );
    // a percentage beyond 100 is a contract violation, not a reading
    assert_eq!(get_battery_level_with_runner(&mock), None);
}

#[test]
fn battery_level_token_without_percent_sign_still_parses() {
    let mock = MockCommandRunner::new();
    mock.set_response(
        "rivalcfg",
        &["--battery-level"],
        CommandOutput {
            stdout: "battery   42   Charging  ".to_string(),
            stderr: String::new(),
            success: true,
            _code: Some(0),
        },
    );
    assert_eq!(get_battery_level_with_runner(&mock), Some((42, true)));
}

#[test]
fn mouse_name_first_options_line_wins_and_absence_is_none() {
    let mock = MockCommandRunner::new();
    mock.set_response(
        "rivalcfg",
        &["--help"],
        CommandOutput {
            stdout: "First Options:\nSecond Options:\n".to_string(),
            stderr: String::new(),
            success: true,
            _code: Some(0),
        },
    );
    assert_eq!(get_mouse_name_with_runner(&mock).unwrap(), "First");

    let mock = MockCommandRunner::new();
    mock.set_response(
        "rivalcfg",
        &["--help"],
        CommandOutput {
            stdout: "no such line here\n".to_string(),
            stderr: String::new(),
            success: true,
            _code: Some(0),
        },
    );
    assert_eq!(get_mouse_name_with_runner(&mock), None);
}

#[test]
fn unprogrammed_mock_call_fails_without_panicking() {
    let mock = MockCommandRunner::new();
    let out = mock.run("rivalcfg", &["--battery-level"]);
    assert!(!out.success);
    assert!(out.stderr.contains("No mock response"));
    assert_eq!(get_battery_level_with_runner(&mock), None);
}

#[test]
fn fetch_and_track_skips_second_regeneration_for_unchanged_state() {
    let mock = MockCommandRunner::new();
    mock.set_response(
        "rivalcfg",
        &["--battery-level"],
        CommandOutput {
            stdout: "Mouse battery: 75% Charging\n".to_string(),
            stderr: String::new(),
            success: true,
            _code: Some(0),
        },
    );
    let mut tracker = BatteryTracker::new();
    let (level, charging, changed) =
        rivalcfg_tray::cache::fetch_and_track(&mock, &mut tracker);
    assert_eq!((level, charging), (75, true));
    assert!(changed);
    let (level2, charging2, changed2) =
        rivalcfg_tray::cache::fetch_and_track(&mock, &mut tracker);
    assert_eq!((level2, charging2), (75, true));
    assert!(!changed2);
    // both fetches hit the runner, and nothing else did
    assert_eq!(mock.get_calls().len(), 2);
    for (program, args) in mock.get_calls() {
        assert_eq!(program, "rivalcfg");
        assert_eq!(args, vec!["--battery-level".to_string()]);
    }
}

#[test]
fn fetch_and_track_defaults_to_zero_not_charging_on_failure() {
    let mock = MockCommandRunner::new();
    let mut tracker = BatteryTracker::new();
    let (level, charging, changed) =
        rivalcfg_tray::cache::fetch_and_track(&mock, &mut tracker);
    assert_eq!((level, charging), (0, false));
    assert!(changed);
}
