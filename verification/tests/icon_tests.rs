use rivalcfg_tray::icon::{
    battery_icon_name, charging_temp_name, composite_charging_svg, fallback_icon_path,
    first_existing, icon_candidate_paths,
};

#[test]
fn battery_icon_name_boundary_table() {
    assert_eq!(battery_icon_name(100), "battery-100.svg");
    assert_eq!(battery_icon_name(91), "battery-100.svg");
    assert_eq!(battery_icon_name(90), "battery-75.svg");
    assert_eq!(battery_icon_name(75), "battery-75.svg");
    assert_eq!(battery_icon_name(74), "battery-50.svg");
    assert_eq!(battery_icon_name(50), "battery-50.svg");
    assert_eq!(battery_icon_name(49), "battery-25.svg");
    assert_eq!(battery_icon_name(25), "battery-25.svg");
    assert_eq!(battery_icon_name(24), "battery-warn.svg");
    assert_eq!(battery_icon_name(10), "battery-warn.svg");
    assert_eq!(battery_icon_name(9), "battery-0.svg");
    assert_eq!(battery_icon_name(0), "battery-0.svg");
}

#[test]
fn fallback_path_is_the_literal_relative_location() {
    assert_eq!(fallback_icon_path("charging.svg"), "icons/charging.svg");
}

#[test]
fn candidate_paths_fixed_prefix_order() {
    let paths = icon_candidate_paths("battery-0.svg", None, None, &Vec::new());
    assert_eq!(paths.len(), 16);
    assert_eq!(
        paths[0],
        "/usr/share/icons/hicolor/scalable/apps/battery-0.svg"
    );
    assert_eq!(
        paths[1],
        "/usr/share/icons/hicolor/symbolic/apps/battery-0.svg"
    );
    assert_eq!(paths[2], "/usr/share/icons/hicolor/16x16/apps/battery-0.svg");
    assert_eq!(
        paths[9],
        "/usr/share/icons/hicolor/256x256/apps/battery-0.svg"
    );
    assert_eq!(paths[10], "icons/battery-0.svg");
    assert_eq!(paths[11], "bin/icons/battery-0.svg");
    assert_eq!(paths[12], "/app/bin/icons/battery-0.svg");
    assert_eq!(paths[13], "/app/share/icons/rivalcfgtray/battery-0.svg");
    assert_eq!(
        paths[14],
        "/app/share/icons/hicolor/scalable/apps/battery-0.svg"
    );
    assert_eq!(paths[15], "/usr/share/rivalcfgtray/icons/battery-0.svg");
}

#[test]
fn candidate_paths_append_executable_and_ancestor_dirs() {
    let exe_dir = "/opt/app/bin".to_string();
    let exe_parent = "/opt/app".to_string();
    let ancestors = vec!["/home/u/project".to_string(), "/home/u".to_string()];
    let paths = icon_candidate_paths(
        "charging.svg",
        Some(&exe_dir),
        Some(&exe_parent),
        &ancestors,
    );
    assert_eq!(paths.len(), 16 + 3 + 2);
    assert_eq!(paths[16], "/opt/app/bin/icons/charging.svg");
    assert_eq!(paths[17], "/opt/app/icons/charging.svg");
    assert_eq!(paths[18], "/opt/app/share/icons/rivalcfgtray/charging.svg");
    assert_eq!(paths[19], "/home/u/project/icons/charging.svg");
    assert_eq!(paths[20], "/home/u/icons/charging.svg");
}

#[test]
fn first_existing_picks_the_earliest_hit() {
    let paths = vec!["a".to_string(), "b".to_string(), "c".to_string()];
    let exists = vec![false, true, true];
    assert_eq!(first_existing(&paths, &exists), Some(1));
    let none = vec![false, false, false];
    assert_eq!(first_existing(&paths, &none), None);
}

#[test]
fn composite_inserts_fragment_before_closing_tag() {
    let battery = "<svg>A</svg>";
    let charging = "junk<path d=\"1\"/>tail</svg>";
    let out = composite_charging_svg(battery, charging);
    assert_eq!(out, "<svg>A<path d=\"1\"/>tail\n</svg>");
}

#[test]
fn composite_without_path_keeps_whole_fragment_body() {
    let battery = "<svg>B</svg>";
    let charging = "abc</svg>";
    let out = composite_charging_svg(battery, charging);
    assert_eq!(out, "<svg>Babc\n</svg>");
}

#[test]
fn composite_without_closing_tag_leaves_battery_unchanged() {
    let battery = "<svg>no closing tag";
    let charging = "<path/></svg>";
    let out = composite_charging_svg(battery, charging);
    assert_eq!(out, battery);
}

#[test]
fn composite_inserts_before_first_closing_tag_only() {
    let battery = "<svg>one</svg><svg>two</svg>";
    let charging = "<path/></svg>";
    let out = composite_charging_svg(battery, charging);
    assert_eq!(out, "<svg>one<path/>\n</svg><svg>two</svg>");
}

#[test]
fn charging_temp_name_uses_the_file_stem() {
    assert_eq!(
        charging_temp_name("/usr/share/icons/battery-75.svg"),
        "battery-75_charging.svg"
    );
    assert_eq!(charging_temp_name("battery-0.svg"), "battery-0_charging.svg");
    assert_eq!(charging_temp_name("noext"), "noext_charging.svg");
    assert_eq!(charging_temp_name(".hidden"), ".hidden_charging.svg");
    assert_eq!(charging_temp_name("dir/"), "icon_charging.svg");
}
