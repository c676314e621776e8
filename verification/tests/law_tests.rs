use timbits::clip::{content_hash, percent_decode, ClipContent};
use timbits::config::{normalized, Config, PasteMethod};
use timbits::daemon::observe_clip_hash;
use timbits::emoji_db::version_at_least;
use timbits::emoji_picker::{parse_recents, push_recent, recents_text, refilter, PickerRow};
use timbits::emoji_update::{keywords_for, KeywordLib};
use timbits::gnome_hotkeys::{format_path_list, gnome_install_plan, parse_path_list};
use timbits::textmap::TextMap;

#[test]
fn normalising_twice_changes_nothing() {
    let mut cfg = Config::default();
    cfg.paste_methods = vec![
        PasteMethod::UinputTerminal,
        PasteMethod::YdotoolAuto,
        PasteMethod::UinputTerminal,
        PasteMethod::YdotoolAuto,
    ];
    let once = normalized(cfg);
    assert_eq!(once.paste_methods, vec![PasteMethod::UinputTerminal, PasteMethod::YdotoolAuto]);
    let twice = normalized(once.clone());
    assert_eq!(twice.paste_methods, once.paste_methods);
    assert_eq!(twice.paste_hotkey, once.paste_hotkey);
    let mut empty = Config::default();
    empty.paste_methods = vec![];
    let e = normalized(empty);
    assert_eq!(normalized(e.clone()).paste_methods, e.paste_methods);
}

#[test]
fn written_path_lists_read_back() {
    let ps = vec!["/x/y/".to_string(), "a b".to_string(), "it's".to_string()];
    assert_eq!(parse_path_list(&format_path_list(&ps)), ps);
    assert!(parse_path_list(&format_path_list(&vec![])).is_empty());
}

#[test]
fn installing_twice_writes_the_same_list() {
    let raw = "['/org/gnome/settings-daemon/plugins/media-keys/custom-keybindings/custom0/']";
    let first = gnome_install_plan(raw, "/bin/timbits", "Super+Period", "Super+Shift+C");
    let second = gnome_install_plan(&first.list_value, "/bin/timbits", "Super+Period", "Super+Shift+C");
    assert_eq!(second.list_value, first.list_value);
    assert_eq!(parse_path_list(&first.list_value).len(), 3);
}

#[test]
fn keyword_tokens_are_unique() {
    let mut lib: KeywordLib = TextMap::new();
    lib.insert("☕".to_string(), vec!["coffee".to_string(), "Coffee".to_string(), "hot_coffee".to_string()]);
    let k = keywords_for("☕", "hot beverage: coffee", &lib);
    assert_eq!(k, "coffee hot coffee hot beverage");
    let toks: Vec<&str> = k.split(' ').collect();
    assert_eq!(toks.len(), 5);
}

#[test]
fn picker_rows_are_listed_once() {
    let row = |e: &str, n: &str| PickerRow { emoji: e.to_string(), name: n.to_string(), key: n.to_string() };
    let all = vec![row("🍩", "doughnut"), row("🍩", "doughnut again"), row("☕", "coffee")];
    let recents = vec!["☕".to_string(), "🍩".to_string(), "☕".to_string()];
    let (shown, n) = refilter(&all, "", &recents);
    assert_eq!(n, 2);
    let texts: Vec<&str> = shown.iter().map(|s| s.text.as_str()).collect();
    assert_eq!(texts, vec!["☕", "🍩"]);
    assert!(shown.iter().take(n).all(|s| s.recent));
    let (shown, n) = refilter(&all, "dough", &recents);
    assert_eq!(n, 0);
    assert_eq!(shown.len(), 1);
    assert!(!shown[0].recent);
}

#[test]
fn recents_read_back_as_saved() {
    let rs = push_recent(&vec!["🍩".to_string(), "☕".to_string()], "🍁");
    assert_eq!(parse_recents(&recents_text(&rs)), rs);
    assert!(parse_recents(&recents_text(&vec![])).is_empty());
}

#[test]
fn plain_paths_decode_to_themselves() {
    assert_eq!(percent_decode("/home/user/Été/a b.png"), "/home/user/Été/a b.png");
    assert_eq!(percent_decode("/tmp/b%20c.txt"), "/tmp/b c.txt");
    assert_eq!(percent_decode("/tmp/100%"), "/tmp/100%");
}

#[test]
fn content_keys_keep_kinds_apart() {
    let t = content_hash(&ClipContent::Text("/tmp/a".to_string()));
    let f = content_hash(&ClipContent::Files(vec!["/tmp/a".to_string()]));
    assert_ne!(t, f);
    assert_eq!(&t[1..], &f[1..]);
    assert!(t.starts_with('t') && f.starts_with('f'));
    let mut last = None;
    assert!(observe_clip_hash(&mut last, t.clone()));
    assert!(!observe_clip_hash(&mut last, t.clone()));
    assert!(observe_clip_hash(&mut last, f));
}

#[test]
fn versions_order_consistently() {
    let vs = ["15.1", "16.0", "16", "17.0.1", "9", ""];
    for a in vs {
        assert!(version_at_least(a, a));
        for b in vs {
            assert!(version_at_least(a, b) || version_at_least(b, a));
            for c in vs {
                if version_at_least(a, b) && version_at_least(b, c) {
                    assert!(version_at_least(a, c), "{a} {b} {c}");
                }
            }
        }
    }
}
