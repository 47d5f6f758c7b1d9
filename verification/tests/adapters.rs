use more_wallpapers::kde;
use more_wallpapers::screen::{kde_mode_code, xfce_mode_code, xfce_mode_of_code, Mode, Screen, WallpaperError};
use more_wallpapers::xfce;

const MODES: [Mode; 5] = [Mode::Center, Mode::Crop, Mode::Fit, Mode::Stretch, Mode::Tile];

#[test]
fn kde_codes_exact() {
    assert_eq!(kde_mode_code(Mode::Center), 6);
    assert_eq!(kde_mode_code(Mode::Crop), 2);
    assert_eq!(kde_mode_code(Mode::Fit), 1);
    assert_eq!(kde_mode_code(Mode::Stretch), 0);
    assert_eq!(kde_mode_code(Mode::Tile), 3);
}

#[test]
fn xfce_codes_exact() {
    assert_eq!(xfce_mode_code(Mode::Center), 1);
    assert_eq!(xfce_mode_code(Mode::Crop), 5);
    assert_eq!(xfce_mode_code(Mode::Fit), 4);
    assert_eq!(xfce_mode_code(Mode::Stretch), 3);
    assert_eq!(xfce_mode_code(Mode::Tile), 2);
}

#[test]
fn mode_codes_injective() {
    for a in MODES {
        for b in MODES {
            if a != b {
                assert_ne!(kde_mode_code(a), kde_mode_code(b));
                assert_ne!(xfce_mode_code(a), xfce_mode_code(b));
            }
        }
    }
}

#[test]
fn xfce_codes_round_trip() {
    for m in MODES {
        assert_eq!(xfce_mode_of_code(xfce_mode_code(m)), Some(Some(m)));
    }
}

#[test]
fn xfce_code_zero_is_no_mode() {
    assert_eq!(xfce_mode_of_code(0), Some(None));
    for m in MODES {
        assert_ne!(xfce_mode_code(m), 0);
    }
    assert_eq!(xfce_mode_of_code(6), None);
}

fn xfce_screens(lines: &[&str], values: &[&str]) -> Result<Vec<Screen>, WallpaperError> {
    let lines: Vec<String> = lines.iter().map(|l| l.to_string()).collect();
    let keys = xfce::recognized_keys(&lines);
    assert_eq!(keys.len(), values.len());
    let values: Vec<String> = values.iter().map(|v| v.to_string()).collect();
    xfce::get_screens(&keys, &values)
}

#[test]
fn xfce_live_monitor_both_keys() {
    let screens = xfce_screens(
        &["/backdrop/screen0/monitor0/image-style", "/backdrop/screen0/monitor0/last-image"],
        &["2", "/tmp/a.png"],
    )
    .unwrap();
    assert_eq!(screens.len(), 1);
    assert_eq!(screens[0].name, "screen0/monitor0");
    assert!(screens[0].active);
    assert_eq!(screens[0].mode, Some(Mode::Tile));
    assert_eq!(screens[0].wallpaper, Some("/tmp/a.png".to_string()));
}

#[test]
fn xfce_template_entry_solid_colour() {
    let screens = xfce_screens(&["/backdrop/screen0/image-style"], &["0"]).unwrap();
    assert_eq!(screens.len(), 1);
    assert_eq!(screens[0].name, "screen0");
    assert!(!screens[0].active);
    assert_eq!(screens[0].mode, None);
    assert_eq!(screens[0].wallpaper, None);
}

#[test]
fn xfce_unknown_style_value() {
    let err = xfce_screens(&["/backdrop/screen0/monitor0/image-style"], &["9"]).unwrap_err();
    match err {
        WallpaperError::UnknownMode(v) => assert_eq!(v, "9"),
        _ => panic!("expected UnknownMode"),
    }
}

#[test]
fn xfce_unknown_style_after_other_keys() {
    let err = xfce_screens(
        &["/backdrop/screen0/monitor0/last-image", "/backdrop/screen0/monitor0/image-style"],
        &["/tmp/a.png", "9"],
    )
    .unwrap_err();
    match err {
        WallpaperError::UnknownMode(v) => assert_eq!(v, "9"),
        _ => panic!("expected UnknownMode"),
    }
}

#[test]
fn xfce_all_style_values() {
    let expect = [
        ("0", None),
        ("1", Some(Mode::Center)),
        ("2", Some(Mode::Tile)),
        ("3", Some(Mode::Stretch)),
        ("4", Some(Mode::Fit)),
        ("5", Some(Mode::Crop)),
    ];
    for (value, mode) in expect {
        let screens = xfce_screens(&["/backdrop/screen0/monitor0/image-style"], &[value]).unwrap();
        assert_eq!(screens[0].mode, mode);
    }
}

#[test]
fn xfce_unrelated_keys_are_skipped() {
    let lines: Vec<String> = [
        "/backdrop/screen0/monitor0/workspace0/color-style",
        "/backdrop/screen0/monitor0/workspace0/image-style/extra",
        "/backdrop/screen0",
        "/other/screen0/monitor0/image-style",
        "/backdrop/screen0/monitor0/last-single-image",
    ]
    .iter()
    .map(|l| l.to_string())
    .collect();
    let keys = xfce::recognized_keys(&lines);
    assert_eq!(keys.len(), 0);
}

#[test]
fn xfce_underscore_leaf_is_recognized_too() {
    let screens = xfce_screens(&["/backdrop/screen0/monitor0/last_image"], &["/tmp/b.png"]).unwrap();
    assert_eq!(screens.len(), 1);
    assert_eq!(screens[0].wallpaper, Some("/tmp/b.png".to_string()));
}

#[test]
fn xfce_three_segment_screen_identity() {
    // Three segments after the prefix: the screen identity is the first two.
    let screens = xfce_screens(
        &["/backdrop/screen0/monitorVirtual-1/last-image"],
        &["/tmp/w.png"],
    )
    .unwrap();
    assert_eq!(screens.len(), 1);
    assert_eq!(screens[0].name, "screen0/monitorVirtual-1");
    assert!(screens[0].active);
}

#[test]
fn xfce_template_and_live_mixed() {
    let screens = xfce_screens(
        &[
            "/backdrop/screen0/image-style",
            "/backdrop/screen0/monitor0/image-style",
            "/backdrop/screen0/monitor0/last-image",
        ],
        &["0", "4", "/tmp/a.png"],
    )
    .unwrap();
    assert_eq!(screens.len(), 2);
    assert_eq!(screens[0].name, "screen0");
    assert!(!screens[0].active);
    assert_eq!(screens[1].name, "screen0/monitor0");
    assert!(screens[1].active);
    assert_eq!(screens[1].mode, Some(Mode::Fit));
    assert_eq!(screens[1].wallpaper, Some("/tmp/a.png".to_string()));
}

#[test]
fn kde_reply_filters_negative_screen() {
    let screens = kde::get_screens("[{\"screen\":0,\"id\":1},{\"screen\":-1,\"id\":2}]").unwrap();
    assert_eq!(screens.len(), 1);
    assert_eq!(screens[0].name, "1");
    assert_eq!(screens[0].wallpaper, None);
    assert_eq!(screens[0].mode, None);
}

#[test]
fn kde_reply_with_blanks_and_extra_fields() {
    let screens = kde::get_screens(" [ { \"id\" : 12 , \"screen\" : 3 , \"depth\" : 24 } ] \n").unwrap();
    assert_eq!(screens.len(), 1);
    assert_eq!(screens[0].name, "12");
}

#[test]
fn kde_empty_reply() {
    let screens = kde::get_screens("[]").unwrap();
    assert!(screens.is_empty());
    let screens = kde::get_screens(" [ ] ").unwrap();
    assert!(screens.is_empty());
}

#[test]
fn kde_large_id_renders_in_full() {
    let screens = kde::get_screens("[{\"screen\":7,\"id\":4294967295}]").unwrap();
    assert_eq!(screens[0].name, "4294967295");
}

#[test]
fn kde_extra_string_field() {
    let screens =
        kde::get_screens("[{\"screen\":0,\"id\":1,\"wallpaperPlugin\":\"org.kde.image\"}]").unwrap();
    assert_eq!(screens.len(), 1);
    assert_eq!(screens[0].name, "1");
}

#[test]
fn kde_extra_fields_of_all_kinds() {
    let reply = "[{\"a\":true,\"b\":null,\"screen\":0,\"c\":[1,{\"d\":false},\"x\"],\"e\":{\"f\":[]},\"id\":2,\"g\":-1.5e-3,\"h\":\"q\\\"uo\\\\te\",\"big\":123456789012345678}]";
    let screens = kde::get_screens(reply).unwrap();
    assert_eq!(screens.len(), 1);
    assert_eq!(screens[0].name, "2");
}

#[test]
fn kde_id_zero() {
    let screens = kde::get_screens("[{\"screen\":0,\"id\":0}]").unwrap();
    assert_eq!(screens[0].name, "0");
}

#[test]
fn kde_most_negative_screen_is_filtered() {
    let screens = kde::get_screens("[{\"screen\":-2147483648,\"id\":1}]").unwrap();
    assert!(screens.is_empty());
}

fn assert_malformed(reply: &str) {
    match kde::get_screens(reply) {
        Err(WallpaperError::MalformedResponse) => {},
        _ => panic!("expected MalformedResponse for {:?}", reply),
    }
}

#[test]
fn kde_malformed_replies() {
    assert_malformed("");
    assert_malformed("nonsense");
    assert_malformed("[{\"screen\":0}]");
    assert_malformed("[{\"id\":1}]");
    assert_malformed("[{\"screen\":0,\"id\":-1}]");
    assert_malformed("[{\"screen\":0,\"id\":1,\"id\":2}]");
    assert_malformed("[{\"screen\":0,\"id\":1}");
    assert_malformed("[{\"screen\":0,\"id\":1}] x");
    assert_malformed("[{\"screen\":0,\"id\":4294967296}]");
    assert_malformed("[{\"screen\":0,\"id\":42949672950}]");
    assert_malformed("[{\"screen\":2147483648,\"id\":1}]");
    assert_malformed("[{}]");
    assert_malformed("[{\"screen\":\"0\",\"id\":1}]");
    assert_malformed("[{\"screen\":0,\"id\":1.5}]");
    assert_malformed("[{\"screen\":0,\"id\":true}]");
    assert_malformed("[{\"screen\":0,\"id\":007}]");
    assert_malformed("[{\"screen\":00,\"id\":1}]");
    assert_malformed("[{\"screen\":0,\"id\":1,\"s\":\"abc}]");
}

fn screen(name: &str, wallpaper: Option<&str>, mode: Option<Mode>) -> Screen {
    Screen {
        name: name.to_string(),
        wallpaper: wallpaper.map(|w| w.to_string()),
        mode,
        active: true,
    }
}

#[test]
fn kde_script_two_screens() {
    let screens = vec![
        screen("1", Some("/tmp/a.png"), Some(Mode::Center)),
        screen("2", Some("/tmp/b.png"), Some(Mode::Crop)),
    ];
    let script = kde::build_set_script(&screens).unwrap();
    assert_eq!(script.matches("if (desktop.id === ").count(), 2);
    let expected = "\nfor (const desktop of desktops()) {\n\tdesktop.currentConfigGroup = [\"Wallpaper\", \"org.kde.image\", \"General\"];\n\tif (desktop.id === 1){\n\t\tdesktop.writeConfig(\"FillMode\", 6);\n\t\tdesktop.writeConfig(\"Image\", \"/tmp/a.png\");\n\t}\n\tif (desktop.id === 2){\n\t\tdesktop.writeConfig(\"FillMode\", 2);\n\t\tdesktop.writeConfig(\"Image\", \"/tmp/b.png\");\n\t}\n}";
    assert_eq!(script, expected);
}

#[test]
fn kde_script_quotes_wallpaper() {
    let screens = vec![screen("1", Some("/tmp/\"a\"\\b\n.png"), Some(Mode::Tile))];
    let script = kde::build_set_script(&screens).unwrap();
    assert!(script.contains("desktop.writeConfig(\"Image\", \"/tmp/\\\"a\\\"\\\\b\\n.png\");"));
}

#[test]
fn kde_script_missing_mode() {
    let screens = vec![screen("1", Some("/tmp/a.png"), None)];
    match kde::build_set_script(&screens) {
        Err(WallpaperError::MissingRequiredField) => {},
        _ => panic!("expected MissingRequiredField"),
    }
}

#[test]
fn kde_script_missing_wallpaper() {
    let screens = vec![screen("1", None, Some(Mode::Fit))];
    match kde::build_set_script(&screens) {
        Err(WallpaperError::MissingRequiredField) => {},
        _ => panic!("expected MissingRequiredField"),
    }
}

#[test]
fn kde_query_script_text() {
    assert_eq!(kde::desktops_query(), "print(JSON.stringify(desktops()));");
}
