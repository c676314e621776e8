use timbits::config::{Config, PasteMethod};
use timbits::paste::{
    chord_events, clipboard_matches, focus_class_from, focus_delay_ms, is_terminal_class,
    keyd_focus_path, method_chord, normalize_class, pack_input_event, pack_input_event_with,
    pack_uinput_setup, pack_uinput_setup_with, parse_hotkey, paste_attempts, uid_from_output,
    uinput_settle_ms, ydotool_key_args, Chord, EV_KEY, EV_SYN, KEY_LEFTCTRL, KEY_LEFTMETA,
    KEY_LEFTSHIFT, KEY_V,
};

#[test]
fn terminal_detection() {
    assert!(is_terminal_class("com.mitchellh.ghostty"));
    assert!(!is_terminal_class("firefox-dev"));
}

#[test]
fn parse_common_hotkeys() {
    let c = parse_hotkey("Ctrl+V").unwrap();
    assert_eq!(c.ydotool, "ctrl+v");
    assert_eq!(c.keys, vec![KEY_LEFTCTRL, KEY_V]);

    let c = parse_hotkey("Super+V").unwrap();
    assert_eq!(c.ydotool, "super+v");
    assert_eq!(c.keys, vec![KEY_LEFTMETA, KEY_V]);

    let c = parse_hotkey("Ctrl+Shift+V").unwrap();
    assert_eq!(c.ydotool, "ctrl+shift+v");
    assert_eq!(c.keys, vec![KEY_LEFTCTRL, KEY_LEFTSHIFT, KEY_V]);
}

#[test]
fn method_picks_configured_hotkeys() {
    let primary = parse_hotkey("Super+V").unwrap();
    let terminal = parse_hotkey("Ctrl+Shift+V").unwrap();
    let auto = primary.clone();
    assert_eq!(
        method_chord(PasteMethod::YdotoolPrimary, &primary, &terminal, &auto).ydotool,
        "super+v"
    );
    assert_eq!(
        method_chord(PasteMethod::YdotoolTerminal, &primary, &terminal, &auto).ydotool,
        "ctrl+shift+v"
    );
}

#[test]
fn hotkeys_rejected_and_letters() {
    assert!(parse_hotkey("Ctrl+Shift").is_none());
    assert!(parse_hotkey("Ctrl+F5").is_none());
    assert!(parse_hotkey("").is_none());
    let c = parse_hotkey("alt + a").unwrap();
    assert_eq!(c.ydotool, "alt+a");
    assert_eq!(c.keys, vec![56, 30]);
    let c = parse_hotkey("Ctrl+V+X").unwrap();
    assert_eq!(c.ydotool, "ctrl+v+x");
    assert_eq!(c.keys, vec![KEY_LEFTCTRL, 45]);
    let c = parse_hotkey("Ctrl+C").unwrap();
    assert_eq!(c.ydotool, "ctrl+c");
    assert_eq!(c.keys, vec![KEY_LEFTCTRL, 46]);
    assert_eq!(parse_hotkey("Super+Q").unwrap().keys, vec![125, 16]);
    assert_eq!(parse_hotkey("Shift+z").unwrap().keys, vec![42, 44]);
}

#[test]
fn classes_normalise() {
    assert_eq!(normalize_class("Org.Gnome.Terminal"), "org-gnome-terminal");
    assert!(!is_terminal_class(""));
    assert!(is_terminal_class("kitty"));
}

#[test]
fn attempts_follow_config() {
    let mut cfg = Config::default();
    cfg.paste_hotkey = "Super+V".to_string();
    cfg.paste_methods = vec![PasteMethod::YdotoolAuto, PasteMethod::UinputPrimary, PasteMethod::UinputTerminal];
    let a = paste_attempts(&cfg, "kitty", "firefox");
    assert_eq!(a.len(), 3);
    assert_eq!(a[0].chord.ydotool, "ctrl+shift+v");
    assert_eq!(a[1].chord.ydotool, "super+v");
    assert_eq!(a[2].chord.keys, vec![KEY_LEFTCTRL, KEY_LEFTSHIFT, KEY_V]);
    let b = paste_attempts(&cfg, "firefox", "firefox");
    assert_eq!(b[0].chord.ydotool, "super+v");
    cfg.paste_hotkey = "garbage".to_string();
    let c = paste_attempts(&cfg, "firefox", "gedit");
    assert_eq!(c[0].chord.ydotool, "ctrl+v");
}

#[test]
fn delays_are_capped() {
    let mut cfg = Config::default();
    cfg.paste_focus_delay_ms = 9000;
    assert_eq!(focus_delay_ms(&cfg), 500);
    cfg.paste_focus_delay_ms = 60;
    assert_eq!(focus_delay_ms(&cfg), 60);
    assert_eq!(uinput_settle_ms(40), 40);
    assert_eq!(uinput_settle_ms(4000), 300);
    let args = ydotool_key_args(&cfg, "ctrl+v");
    assert_eq!(args, vec!["key", "--delay", "0", "--key-delay", "6", "ctrl+v"]);
}

#[test]
fn chord_events_press_then_release_reversed() {
    assert!(chord_events(&[]).is_none());
    let ev = chord_events(&[KEY_LEFTCTRL, KEY_V]).unwrap();
    assert_eq!(
        ev,
        vec![
            (EV_KEY, KEY_LEFTCTRL, 1),
            (EV_KEY, KEY_V, 1),
            (EV_SYN, 0, 0),
            (EV_KEY, KEY_V, 0),
            (EV_KEY, KEY_LEFTCTRL, 0),
            (EV_SYN, 0, 0),
        ]
    );
}

#[test]
fn input_event_layout() {
    let le = pack_input_event_with(1, 2, EV_KEY, KEY_V, -1, true);
    let mut expected = Vec::new();
    expected.extend_from_slice(&1i64.to_le_bytes());
    expected.extend_from_slice(&2i64.to_le_bytes());
    expected.extend_from_slice(&EV_KEY.to_le_bytes());
    expected.extend_from_slice(&KEY_V.to_le_bytes());
    expected.extend_from_slice(&(-1i32).to_le_bytes());
    assert_eq!(le, expected);
    let be = pack_input_event_with(-3, 2, EV_KEY, KEY_V, 1, false);
    let mut expected = Vec::new();
    expected.extend_from_slice(&(-3i64).to_be_bytes());
    expected.extend_from_slice(&2i64.to_be_bytes());
    expected.extend_from_slice(&EV_KEY.to_be_bytes());
    expected.extend_from_slice(&KEY_V.to_be_bytes());
    expected.extend_from_slice(&1i32.to_be_bytes());
    assert_eq!(be, expected);
    let now = pack_input_event(EV_SYN, 0, 0);
    assert_eq!(now.len(), 24);
    assert_eq!(&now[16..24], &[0u8; 8][..]);
}

#[test]
fn uinput_setup_layout() {
    let b = pack_uinput_setup_with("timbits-paste", true);
    assert_eq!(b.len(), 92);
    assert_eq!(&b[0..8], &[3, 0, 1, 0, 1, 0, 1, 0]);
    assert_eq!(&b[8..21], b"timbits-paste");
    assert!(b[21..92].iter().all(|&x| x == 0));
    let long = "x".repeat(100);
    let b = pack_uinput_setup_with(&long, false);
    assert_eq!(&b[0..8], &[0, 3, 0, 1, 0, 1, 0, 1]);
    assert_eq!(b[8 + 78], b'x');
    assert_eq!(b[8 + 79], 0);
    let native = pack_uinput_setup("timbits-paste");
    assert_eq!(native.len(), 92);
    assert_eq!(&native[0..2], &3u16.to_ne_bytes());
}

#[test]
fn focus_files_and_ids() {
    assert_eq!(keyd_focus_path(1000), "/run/user/1000/keyd-last-focus");
    assert_eq!(focus_class_from("kitty\tKitty\n2nd line\n"), "kitty");
    assert_eq!(focus_class_from(""), "");
    assert_eq!(uid_from_output(b" 1001\n"), 1001);
    assert_eq!(uid_from_output(b"oops"), 1000);
    assert!(clipboard_matches("a\n", "a"));
    assert!(clipboard_matches("a", "a"));
    assert!(!clipboard_matches("a", "b"));
}

#[test]
fn default_chords() {
    let c: Chord = Chord::ctrl_v();
    assert_eq!(c.keys, vec![KEY_LEFTCTRL, KEY_V]);
    assert_eq!(Chord::ctrl_shift_v().ydotool, "ctrl+shift+v");
}
