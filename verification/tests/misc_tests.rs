use timbits::cli::{paste_plan, parse_command, CliCommand, PastePlan};
use timbits::config::{normalized, Config, PasteMethod, SkinTone};
use timbits::emoji_picker::{
    grid_move, parse_recents, picker_row, push_recent, recents_text, refilter, PickerRow,
};
use timbits::emoji_raster::emoji_key;
use timbits::focus::{
    capture_focused, focus_wait_ms, is_timbits_class, restore_step, window_has_focus,
    window_list_json, AttemptOutcome, RestoreStep, WinInfo, RESTORE_ATTEMPTS,
};
use timbits::history_picker::{
    clamp_selection, history_keys, items_footer, preview_use_label, row_use_label, truncate_chars,
    HistoryAction, HistoryKeys,
};
use timbits::install::{autostart_dir_of, desktop_entry, icon_size_dir, icon_sizes};
use timbits::ocr::ocr_text_from;
use timbits::settings::{apply_status, clamp_max_entries, save_status};
use timbits::storage::{i64_text_exec, like_pattern, search_statement, ts_from, Entry, EntryKind};
use timbits::textmap::TextMap;
use timbits::ui_common::{accent_name, accent_rgb, kind_icon, kind_label, prefers_dark, rel_time_at};

#[test]
fn entry_kinds_round_trip() {
    for k in [EntryKind::Text, EntryKind::Image, EntryKind::Files] {
        assert_eq!(EntryKind::from_str(k.as_str()), k);
    }
    assert_eq!(EntryKind::from_str("weird"), EntryKind::Text);
    assert_eq!(EntryKind::Files.as_str(), "files");
}

#[test]
fn search_statements() {
    let s = search_statement("", 10);
    assert_eq!(
        s.sql,
        "SELECT id, kind, text, ocr_text, image_path, preview, hash, created_at, last_used_at, use_count FROM entries ORDER BY last_used_at DESC LIMIT ?"
    );
    assert_eq!(s.values, vec!["10".to_string()]);
    let s = search_statement("Hello 50%_off", 300);
    assert!(s.sql.contains(" WHERE (lower(coalesce(text, '')) LIKE ?"));
    assert!(s.sql.contains(" AND (lower(coalesce(text, '')) LIKE ?"));
    assert_eq!(s.values.len(), 7);
    assert_eq!(s.values[0], "%hello%");
    assert_eq!(s.values[3], "%50  off%");
    assert_eq!(s.values[6], "300");
    let w: Vec<char> = "A_b".chars().collect();
    assert_eq!(like_pattern(&w).iter().collect::<String>(), "%a b%");
    assert_eq!(i64_text_exec(-42).iter().collect::<String>(), "-42");
    assert_eq!(i64_text_exec(i64::MIN).iter().collect::<String>(), i64::MIN.to_string());
}

#[test]
fn timestamps() {
    assert_eq!(ts_from(None), 0);
    assert_eq!(ts_from(Some((1_700_000_000, 5))), 1_700_000_000);
    assert!(timbits::storage::now_ts() > 1_600_000_000);
}

#[test]
fn relative_times() {
    assert_eq!(rel_time_at(1000, 1000), "just now");
    assert_eq!(rel_time_at(1000, 2000), "just now");
    assert_eq!(rel_time_at(1000, 941), "just now");
    assert_eq!(rel_time_at(1000, 940), "1m");
    assert_eq!(rel_time_at(7200, 0), "2h");
    assert_eq!(rel_time_at(86_400 * 12 + 5, 0), "12d");
    assert_eq!(kind_icon(EntryKind::Image), "🖼");
    assert_eq!(kind_label(EntryKind::Files), "Files");
}

#[test]
fn theme_preferences() {
    assert!(prefers_dark(Some("'prefer-dark'"), None));
    assert!(!prefers_dark(Some("'prefer-light'"), Some("Adwaita-dark")));
    assert!(prefers_dark(Some("'default'"), Some("'Dracula'")));
    assert!(prefers_dark(None, Some("'Adwaita'")));
    assert_eq!(accent_name(b" 'Teal'\n"), "teal");
    assert_eq!(accent_rgb("teal"), (0x21, 0x90, 0xa4));
    assert_eq!(accent_rgb("unknown"), (0x35, 0x84, 0xe4));
}

#[test]
fn history_navigation() {
    let k = |up, down, pu, pd| HistoryKeys {
        esc: false,
        enter: false,
        up,
        down,
        page_up: pu,
        page_down: pd,
        ctrl_delete: false,
    };
    assert_eq!(history_keys(0, 5, k(0, 2, 0, 0)), (2, HistoryAction::Stay));
    assert_eq!(history_keys(3, 5, k(0, 9, 0, 0)).0, 4);
    assert_eq!(history_keys(3, 5, k(9, 0, 0, 0)).0, 0);
    assert_eq!(history_keys(0, 100, k(0, 0, 0, 2)).0, 24);
    assert_eq!(history_keys(30, 100, k(0, 0, 1, 0)).0, 18);
    assert_eq!(history_keys(2, 0 + 5, k(1, 1, 0, 0)).0, 2);
    let mut enter = k(0, 1, 0, 0);
    enter.enter = true;
    assert_eq!(history_keys(0, 5, enter), (1, HistoryAction::Choose(1)));
    let mut esc = enter;
    esc.esc = true;
    assert_eq!(history_keys(0, 5, esc).1, HistoryAction::Close);
    let mut del = k(0, 0, 0, 0);
    del.ctrl_delete = true;
    assert_eq!(history_keys(0, 0, del).1, HistoryAction::Forget);
    assert_eq!(history_keys(0, 0, enter), (0, HistoryAction::Stay));
    assert_eq!(clamp_selection(7, 3), 2);
    assert_eq!(clamp_selection(7, 0), 0);
    assert_eq!(clamp_selection(1, 3), 1);
}

#[test]
fn row_labels() {
    assert_eq!(truncate_chars("héllo", 3), "hél…");
    assert_eq!(truncate_chars("héllo", 5), "héllo");
    assert_eq!(truncate_chars("", 0), "");
    assert_eq!(items_footer(3), "3 items  ·  Ctrl+Del forget");
    assert_eq!(row_use_label(1), None);
    assert_eq!(row_use_label(4).as_deref(), Some("· used 4×"));
    assert_eq!(preview_use_label(1).as_deref(), Some("used 1×"));
    assert_eq!(preview_use_label(0), None);
}

fn win(id: u64, class: Option<&str>, focus: bool) -> WinInfo {
    WinInfo { id, class: class.map(|c| c.to_string()), focus }
}

#[test]
fn focus_capture_and_check() {
    let wins = vec![
        win(1, Some("Timbits"), true),
        win(2, Some("firefox"), false),
        win(3, None, true),
        win(4, Some("kitty"), true),
    ];
    assert_eq!(capture_focused(Some(wins.clone())).map(|f| f.id), Some(3));
    assert!(capture_focused(None).is_none());
    assert!(capture_focused(Some(vec![win(1, Some("TIMBITS-emoji"), true)])).is_none());
    assert!(window_has_focus(Some(&wins), 4));
    assert!(!window_has_focus(Some(&wins), 2));
    assert!(!window_has_focus(None, 4));
    assert!(is_timbits_class(Some("timbits")));
    assert!(!is_timbits_class(None));
}

#[test]
fn window_list_output() {
    let out = b"('[{\\\"id\\\":1,\\\"class\\\":\\\"a\\\\\\\\b\\\",\\\"focus\\\":true}]',)\n";
    assert_eq!(
        window_list_json(out).as_deref(),
        Some("[{\"id\":1,\"class\":\"a\\\\b\",\"focus\":true}]")
    );
    assert_eq!(window_list_json(b"no list"), None);
    assert_eq!(window_list_json(b"] before ["), None);
}

#[test]
fn focus_restore_policy() {
    assert_eq!(focus_wait_ms(1), 140);
    assert_eq!(focus_wait_ms(4), 260);
    assert_eq!(restore_step(1, AttemptOutcome::Focused), RestoreStep::Succeed { settle_ms: 120 });
    assert_eq!(restore_step(1, AttemptOutcome::ActivateFailed), RestoreStep::Retry { next: 2, wait_ms: 80 });
    assert_eq!(restore_step(2, AttemptOutcome::NotFocused), RestoreStep::Retry { next: 3, wait_ms: 0 });
    assert_eq!(restore_step(RESTORE_ATTEMPTS, AttemptOutcome::NotFocused), RestoreStep::Fail { wait_ms: 0 });
    assert_eq!(restore_step(RESTORE_ATTEMPTS, AttemptOutcome::ActivateFailed), RestoreStep::Fail { wait_ms: 80 });
}

#[test]
fn commands() {
    assert_eq!(parse_command(Some("emoji"), None), CliCommand::Emoji);
    assert_eq!(parse_command(Some("clip"), None), CliCommand::Clipboard);
    assert_eq!(parse_command(Some("prefs"), None), CliCommand::Settings);
    assert_eq!(parse_command(Some("__serve-clip"), None), CliCommand::ServeClip("text".to_string()));
    assert_eq!(parse_command(Some("__serve-clip"), Some("image")), CliCommand::ServeClip("image".to_string()));
    assert_eq!(parse_command(None, None), CliCommand::Help);
    assert_eq!(parse_command(Some("bogus"), None), CliCommand::Help);
    assert_eq!(parse_command(Some("update-emojis"), None), CliCommand::UpdateEmojis { assets: false });
    assert_eq!(parse_command(Some("update-emojis"), Some("--assets")), CliCommand::UpdateEmojis { assets: true });
}

fn history_entry(kind: EntryKind, text: Option<&str>, image: Option<&str>) -> Entry {
    Entry {
        id: 1,
        kind,
        text: text.map(|t| t.to_string()),
        ocr_text: None,
        image_path: image.map(|t| t.to_string()),
        preview: String::new(),
        hash: "h".to_string(),
        created_at: 0,
        last_used_at: 0,
        use_count: 1,
    }
}

#[test]
fn paste_plans() {
    assert!(matches!(paste_plan(&history_entry(EntryKind::Image, Some("t"), Some("/x.png"))), PastePlan::StageImage(p) if p == "/x.png"));
    assert!(matches!(paste_plan(&history_entry(EntryKind::Image, Some("t"), None)), PastePlan::Text(t) if t == "t"));
    assert!(matches!(paste_plan(&history_entry(EntryKind::Image, None, None)), PastePlan::Nothing));
    assert!(matches!(paste_plan(&history_entry(EntryKind::Files, Some("/a"), None)), PastePlan::StageFiles(t) if t == "/a"));
    assert!(matches!(paste_plan(&history_entry(EntryKind::Text, None, None)), PastePlan::Nothing));
}

#[test]
fn settings_status_lines() {
    assert_eq!(save_status(Ok(()), "/c.toml"), ("Saved /c.toml".to_string(), true));
    assert_eq!(save_status(Err("boom".to_string()), "/c.toml"), ("Save failed: boom".to_string(), false));
    assert_eq!(apply_status(Err("x".to_string()), Ok(true)), ("Could not save config: x".to_string(), false));
    assert!(apply_status(Ok(()), Ok(true)).0.starts_with("GNOME hotkeys updated"));
    assert!(apply_status(Ok(()), Ok(false)).1);
    assert_eq!(apply_status(Ok(()), Err("y".to_string())), ("Hotkey apply failed: y".to_string(), false));
    assert_eq!(clamp_max_entries(10), 50);
    assert_eq!(clamp_max_entries(500), 500);
    assert_eq!(clamp_max_entries(99999), 5000);
}

#[test]
fn install_files() {
    let e = desktop_entry("Timbits", "Picker", "/bin/timbits settings", true);
    assert!(e.starts_with("[Desktop Entry]\nType=Application\nName=Timbits\n"));
    assert!(e.ends_with("NoDisplay=false\n"));
    assert!(desktop_entry("D", "C", "x", false).ends_with("NoDisplay=true\n"));
    assert_eq!(autostart_dir_of("/home/u/.config/timbits", Some("/home/u/.config".to_string())), "/home/u/.config/autostart");
    assert_eq!(autostart_dir_of("timbits", None), "timbits/autostart");
    assert_eq!(icon_sizes(), vec![16, 24, 32, 48, 64, 128, 256, 512]);
    assert_eq!(icon_size_dir(48), "48x48/apps");
    assert!(timbits::install::xdg_autostart_dir().ends_with("autostart"));
}

#[test]
fn glyph_keys() {
    assert_eq!(emoji_key("👍🏽"), "1f44d-1f3fd");
    assert_eq!(emoji_key("a"), "61");
    assert_eq!(emoji_key(""), "");
}

#[test]
fn ocr_output() {
    assert_eq!(ocr_text_from(b"  Invoice #42 \n"), Some("Invoice #42".to_string()));
    assert_eq!(ocr_text_from(b" \n\n"), None);
}

fn row(e: &str, n: &str, k: &str) -> PickerRow {
    PickerRow { emoji: e.to_string(), name: n.to_string(), key: k.to_string() }
}

#[test]
fn picker_filtering_and_recents() {
    let all = vec![row("🍩", "doughnut", "doughnut donut"), row("☕", "hot beverage", "hot beverage coffee"), row("🍁", "maple leaf", "maple leaf")];
    let recents = vec!["☕".to_string(), "☕".to_string(), "🦄".to_string()];
    let (shown, n) = refilter(&all, "  ", &recents);
    assert_eq!(n, 2);
    assert_eq!(shown.len(), 4);
    assert_eq!(shown[0].text, "☕");
    assert!(shown[0].recent);
    assert_eq!(shown[1].name, "recent");
    assert_eq!(shown[2].text, "🍩");
    assert_eq!(shown[3].text, "🍁");
    let (shown, n) = refilter(&all, "Coffee", &recents);
    assert_eq!(n, 0);
    assert_eq!(shown.len(), 1);
    assert_eq!(shown[0].name, "hot beverage");
    let r = push_recent(&vec!["a".to_string(), "b".to_string(), "a".to_string()], "b");
    assert_eq!(r, vec!["b".to_string(), "a".to_string(), "a".to_string()]);
    let many: Vec<String> = (0..30).map(|i| i.to_string()).collect();
    assert_eq!(push_recent(&many, "x").len(), 20);
    assert_eq!(parse_recents("a\n\nb\n"), vec!["a".to_string(), "b".to_string()]);
    assert_eq!(recents_text(&vec!["a".to_string(), "b".to_string()]), "a\nb");
    let c = timbits::emoji_db::CrateEmoji { ch: "😆".to_string(), name: "Grinning Squinting Face".to_string(), shortcodes: vec!["laughing".to_string(), "satisfied".to_string()] };
    assert_eq!(picker_row(&c).key, "grinning squinting face laughing satisfied");
}

#[test]
fn grid_navigation() {
    assert_eq!(grid_move(0, 25, false, true, false, false), 10);
    assert_eq!(grid_move(20, 25, false, true, false, false), 24);
    assert_eq!(grid_move(5, 25, true, false, false, false), 0);
    assert_eq!(grid_move(5, 25, false, false, true, true), 5);
    assert_eq!(grid_move(24, 25, false, false, false, true), 24);
    assert_eq!(grid_move(0, 1, true, true, true, true), 0);
}

#[test]
fn config_normalisation() {
    let mut cfg = Config::default();
    cfg.paste_methods = vec![PasteMethod::UinputAuto, PasteMethod::UinputAuto, PasteMethod::YdotoolPrimary];
    cfg.paste_hotkey = "  ".to_string();
    let n = normalized(cfg);
    assert_eq!(n.paste_methods, vec![PasteMethod::UinputAuto, PasteMethod::YdotoolPrimary]);
    assert_eq!(n.paste_hotkey, "Ctrl+V");
    assert_eq!(n.emoji_skin_tone, SkinTone::NoTone);
    let mut empty = Config::default();
    empty.paste_methods = vec![];
    assert_eq!(normalized(empty).paste_methods.len(), 4);
}

#[test]
fn text_maps() {
    let mut m: TextMap<u32> = TextMap::new();
    let k: Vec<char> = "a".chars().collect();
    assert_eq!(m.get(&k), None);
    m.insert("a".to_string(), 1);
    m.insert("b".to_string(), 2);
    m.insert("a".to_string(), 3);
    assert_eq!(m.get(&k), Some(&3));
    assert_eq!(m.entries.len(), 2);
}

#[test]
fn glyph_code_points() {
    assert_eq!(timbits::emoji_raster::glyph_chars("☕\u{fe0f}"), vec!['☕']);
    assert_eq!(timbits::emoji_raster::glyph_chars("👩\u{200d}💻"), vec!['👩', '💻']);
    assert_eq!(timbits::emoji_raster::glyph_chars("👍🏽"), vec!['👍', '🏽']);
    assert!(timbits::emoji_raster::glyph_chars("\u{fe0e}").is_empty());
}
