use timbits::daemon::{hotkey_target, observe_clip_hash, parse_hotkey, KeyCode};
use timbits::gnome_hotkeys::{
    binding_settings, format_path_list, gnome_install_plan, parse_path_list, to_gnome_binding,
    with_timbits_paths, CLIPBOARD_PATH, EMOJI_PATH,
};

#[test]
fn parses_hotkeys() {
    assert!(parse_hotkey("Super+Period").is_some());
    assert!(parse_hotkey("Super+Shift+C").is_some());
    assert!(parse_hotkey("Ctrl+Shift+Alt+F5").is_some());
    assert!(parse_hotkey("ctrl + space").is_some());
    assert!(parse_hotkey("NotARealKey").is_none());
    assert!(parse_hotkey("Super+").is_none());
}

#[test]
fn hotkey_fields() {
    let h = parse_hotkey("Super+Shift+C").unwrap();
    assert!(h.super_key && h.shift && !h.control && !h.alt);
    assert_eq!(h.code, KeyCode::KeyC);
    let h = parse_hotkey("ctrl + space").unwrap();
    assert!(h.control && !h.super_key);
    assert_eq!(h.code, KeyCode::Space);
}

#[test]
fn hotkey_events_pick_pickers() {
    assert_eq!(hotkey_target(1, 1, 2), Some("emoji"));
    assert_eq!(hotkey_target(2, 1, 2), Some("clipboard"));
    assert_eq!(hotkey_target(3, 1, 2), None);
}

#[test]
fn clipboard_changes_are_noticed_once() {
    let mut last = None;
    assert!(observe_clip_hash(&mut last, "t1".to_string()));
    assert!(!observe_clip_hash(&mut last, "t1".to_string()));
    assert!(observe_clip_hash(&mut last, "t2".to_string()));
    assert_eq!(last.as_deref(), Some("t2"));
}

#[test]
fn maps_common_hotkeys() {
    assert_eq!(to_gnome_binding("Super+Period").as_deref(), Some("<Super>period"));
    assert_eq!(to_gnome_binding("Super+Shift+C").as_deref(), Some("<Super><Shift>c"));
    assert_eq!(
        to_gnome_binding("Ctrl+Shift+Alt+F5").as_deref(),
        Some("<Control><Shift><Alt>F5")
    );
    assert_eq!(to_gnome_binding("ctrl + space").as_deref(), Some("<Control>space"));
    assert!(to_gnome_binding("Super+").is_none());
}

#[test]
fn path_lists_round_trip() {
    assert!(parse_path_list("@as []").is_empty());
    assert!(parse_path_list(" [] ").is_empty());
    let ps = parse_path_list("['/a/', \"/b/\"]");
    assert_eq!(ps, vec!["/a/".to_string(), "/b/".to_string()]);
    assert_eq!(format_path_list(&ps), "['/a/', '/b/']");
    assert_eq!(format_path_list(&vec![]), "[]");
    assert_eq!(parse_path_list(&format_path_list(&ps)), ps);
    let with = with_timbits_paths(ps.clone());
    assert_eq!(with.len(), 4);
    assert_eq!(with_timbits_paths(with.clone()), with);
    assert_eq!(with[2], EMOJI_PATH);
    assert_eq!(with[3], CLIPBOARD_PATH);
}

#[test]
fn install_plan_for_gnome() {
    let plan = gnome_install_plan("@as []", "/usr/bin/timbits", "Super+Period", "Super+");
    assert_eq!(plan.emoji_command, "/usr/bin/timbits emoji");
    assert_eq!(plan.clip_command, "/usr/bin/timbits clipboard");
    assert_eq!(plan.emoji_binding, "<Super>period");
    assert_eq!(plan.clip_binding, "<Super><Shift>c");
    assert_eq!(plan.list_value, format!("['{EMOJI_PATH}', '{CLIPBOARD_PATH}']"));
    let args = binding_settings("/p/", "N", "cmd", "<Super>x");
    assert_eq!(args.len(), 3);
    assert_eq!(
        args[2],
        vec![
            "set".to_string(),
            "org.gnome.settings-daemon.plugins.media-keys.custom-keybinding:/p/".to_string(),
            "binding".to_string(),
            "<Super>x".to_string()
        ]
    );
}
