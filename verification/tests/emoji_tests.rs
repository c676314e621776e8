use timbits::config::SkinTone;
use timbits::emoji_db::{
    alias_for, browse_default_skin, by_group, crate_entry, demonyms_for_region, entries_from_sources,
    entry_with_shortcodes, filter, filter_opts, flag_search_terms, load_from_crate, match_score,
    strip_fe0f, to_entry, version_at_least, with_skin_tone, Aliases, CrateEmoji, EmojiEntry,
    EmojiSource,
};
use timbits::emoji_update::{
    attach_keywords, keywords_for, parse_emoji_test, parse_test_line, strip_for_keyword_lookup,
    EmojiTestError, KeywordLib,
};
use timbits::textmap::TextMap;

fn entry(ch: &str, name: &str, group: &str, keywords: &str, blob: &str) -> EmojiEntry {
    EmojiEntry {
        ch: ch.to_string(),
        name: name.to_string(),
        group: group.to_string(),
        is_skin_tone: name.to_lowercase().contains("skin tone"),
        keywords: keywords.to_string(),
        search_blob: blob.to_string(),
    }
}

fn sample() -> Vec<EmojiEntry> {
    vec![
        entry("🍁", "maple leaf", "Animals & Nature", "canada autumn", "maple leaf nature canada autumn"),
        entry("🇨🇦", "flag: Canada", "Flags", "canada canadian", "flag: canada flags canada canadian flag"),
        entry("👍", "thumbs up", "People & Body", "like yes", "thumbs up people like yes +1"),
        entry("👍🏽", "thumbs up: medium skin tone", "People & Body", "", "thumbs up: medium skin tone people"),
        entry("👍🏻", "thumbs up: light skin tone", "People & Body", "", "thumbs up: light skin tone people"),
        entry("😀", "grinning face", "Smileys & Emotion", "happy smile", "grinning face smileys happy smile"),
    ]
}

#[test]
fn flag_terms_from_name() {
    let t = flag_search_terms("flag: Canada", "Flags", "country-flag");
    let t = t.to_lowercase();
    assert!(t.contains("canada"));
    assert!(t.contains("canadian"));
    assert!(t.contains("flag"));
}

#[test]
fn version_compare() {
    assert!(version_at_least("17.0", "17.0"));
    assert!(version_at_least("17.0", "16.0"));
    assert!(version_at_least("17.1", "17.0"));
    assert!(!version_at_least("16.0", "17.0"));
    assert!(version_at_least("17.0\n", "17.0"));
}

#[test]
fn version_order_examples() {
    assert!(version_at_least("17", "17.0"));
    assert!(version_at_least("17.0", "17"));
    assert!(!version_at_least("9.0", "15.1"));
    assert!(version_at_least("15.10", "15.9"));
    assert!(version_at_least("", ""));
    assert!(version_at_least("abc", "0"));
    assert!(version_at_least("1.2", "1.1") || version_at_least("1.1", "1.2"));
}

#[test]
fn flag_terms_exact() {
    assert_eq!(
        flag_search_terms("flag: Antigua & Barbuda", "Flags", "country-flag"),
        "flag antigua & barbuda flag flag of antigua & barbuda antigua & barbuda antigua barbuda antigua and barbuda antigua and barbuda flag "
    );
    assert_eq!(
        flag_search_terms("rainbow flag", "Flags", "subdivision-flag"),
        "flag rainbow flag rainbow rainbow flag pride lgbt lgbtq gay"
    );
    assert_eq!(flag_search_terms("grinning face", "Smileys & Emotion", "face-smiling"), "");
    assert_eq!(demonyms_for_region("wales"), "welsh wales welsh flag");
    assert_eq!(demonyms_for_region("atlantis"), "");
}

#[test]
fn aliases_and_selectors() {
    let mut al: Aliases = TextMap::new();
    al.insert("🍩".to_string(), "donut doughnut".to_string());
    al.insert("☕\u{fe0f}".to_string(), "coffee".to_string());
    assert_eq!(alias_for("🍩", &al).as_deref(), Some("donut doughnut"));
    assert_eq!(alias_for("🍩\u{fe0f}", &al).as_deref(), Some("donut doughnut"));
    assert_eq!(alias_for("☕", &al).as_deref(), Some("coffee"));
    assert_eq!(alias_for("🍕", &al), None);
    al.insert("🍩".to_string(), "sweet".to_string());
    assert_eq!(alias_for("🍩", &al).as_deref(), Some("sweet"));
    assert_eq!(al.entries.len(), 2);
    assert_eq!(strip_fe0f("☕\u{fe0f}"), "☕");
}

#[test]
fn entries_from_records() {
    let al: Aliases = TextMap::new();
    let src = EmojiSource {
        codes: "1F1E8 1F1E6".to_string(),
        emoji: "🇨🇦".to_string(),
        name: "flag: Canada".to_string(),
        category: "Flags (country-flag)".to_string(),
        group: "Flags".to_string(),
        subgroup: "country-flag".to_string(),
        keywords: "Canada Maple".to_string(),
    };
    let e = entry_with_shortcodes(src, &al, vec!["flag_ca".to_string()]);
    assert_eq!(e.ch, "🇨🇦");
    assert!(!e.is_skin_tone);
    assert_eq!(e.keywords, "canada maple");
    assert!(e.search_blob.contains("canadian"));
    assert!(e.search_blob.ends_with("flag_ca"));
    let empty = EmojiSource {
        codes: String::new(),
        emoji: String::new(),
        name: "nothing".to_string(),
        category: String::new(),
        group: String::new(),
        subgroup: String::new(),
        keywords: String::new(),
    };
    let laughing = EmojiSource {
        codes: "1F606".to_string(),
        emoji: "😆".to_string(),
        name: "grinning squinting face".to_string(),
        category: String::new(),
        group: String::new(),
        subgroup: String::new(),
        keywords: String::new(),
    };
    let es = entries_from_sources(&vec![empty, laughing], &al);
    assert_eq!(es.len(), 1);
    assert!(es[0].search_blob.contains("laughing"));
    assert!(es[0].search_blob.contains("satisfied"));
}

#[test]
fn crate_entries() {
    let al: Aliases = TextMap::new();
    let c = CrateEmoji {
        ch: "😎".to_string(),
        name: "Smiling Face With Sunglasses".to_string(),
        shortcodes: vec!["sunglasses".to_string()],
    };
    let e = crate_entry(&c, &al);
    assert_eq!(e.search_blob, "smiling face with sunglasses sunglasses");
    assert_eq!(e.group, "");
    let all = load_from_crate(&al);
    assert!(all.len() > 1000);
    assert!(all.iter().any(|e| e.ch == "😀"));
}

#[test]
fn to_entry_uses_crate_shortcodes() {
    let al: Aliases = TextMap::new();
    let src = EmojiSource {
        codes: "1F43F".to_string(),
        emoji: "\u{1f43f}\u{fe0f}".to_string(),
        name: "chipmunk".to_string(),
        category: String::new(),
        group: String::new(),
        subgroup: String::new(),
        keywords: String::new(),
    };
    let e = to_entry(src, &al);
    assert!(e.search_blob.contains("chipmunk"));
}

#[test]
fn filter_ranks_and_hides_tones() {
    let all = sample();
    let hits = filter(&all, "canada", 10);
    assert_eq!(hits[0].ch, "🇨🇦");
    assert!(hits.iter().any(|e| e.ch == "🍁"));
    let hits = filter(&all, "thumbs up", 50);
    assert!(hits.iter().all(|e| !e.is_skin_tone));
    assert_eq!(hits.len(), 1);
    let hits = filter(&all, "thumbs up light skin", 20);
    assert!(hits.iter().any(|e| e.is_skin_tone));
    let hits = filter_opts(&all, "thumbs", 20, true);
    assert_eq!(hits.len(), 3);
    assert_eq!(hits[0].ch, "👍");
    assert_eq!(filter(&all, "canada", 1).len(), 1);
    assert!(filter(&all, "canada", 0).is_empty());
    assert!(filter(&all, "nothing matches this", 10).is_empty());
    let everything = filter(&all, "   ", 100);
    assert_eq!(everything.len(), 4);
}

#[test]
fn scores_follow_the_rules() {
    let all = sample();
    let w = |q: &str| q.split_whitespace().map(|s| s.chars().collect::<Vec<char>>()).collect::<Vec<_>>();
    let q = |s: &str| s.chars().collect::<Vec<char>>();
    assert_eq!(match_score(&all[2], &w(""), &q("")), 10);
    assert_eq!(match_score(&all[3], &w(""), &q("")), -50);
    assert_eq!(match_score(&all[3], &w("skin"), &q("")), 0);
    // exact name (200) + plain glyph (10) + two name-word hits (90) + short name (7)
    assert_eq!(match_score(&all[2], &w("thumbs up"), &q("thumbs up")), 307);
    assert!(match_score(&all[1], &w("canada"), &q("canada")) > match_score(&all[0], &w("canada"), &q("canada")));
}

#[test]
fn skin_tone_forms() {
    let all = sample();
    let base = &all[2];
    assert_eq!(with_skin_tone(base, &all, SkinTone::NoTone), "👍");
    assert_eq!(with_skin_tone(base, &all, SkinTone::Medium), "👍🏽");
    assert_eq!(with_skin_tone(base, &all, SkinTone::Light), "👍🏻");
    assert_eq!(with_skin_tone(base, &all, SkinTone::Dark), "👍");
}

#[test]
fn browsing() {
    let all = sample();
    let b = browse_default_skin(&all, 3);
    assert_eq!(b.iter().map(|e| e.ch.as_str()).collect::<Vec<_>>(), vec!["🍁", "🇨🇦", "👍"]);
    assert_eq!(browse_default_skin(&all, 0).len(), 1);
    assert_eq!(browse_default_skin(&all, 100).len(), 4);
    let people = by_group(&all, "people & body", true, 10);
    assert_eq!(people.len(), 1);
    let people = by_group(&all, "PEOPLE & BODY", false, 10);
    assert_eq!(people.len(), 3);
    assert_eq!(by_group(&all, "Flags", true, 0).len(), 1);
    assert!(by_group(&all, "Symbols", true, 10).is_empty());
}

#[test]
fn parse_sample_line() {
    let line = "1F1E8 1F1E6                                          ; fully-qualified     # 🇨🇦 E2.0 flag: Canada";
    let c = parse_test_line(line).expect("parse");
    assert_eq!(c.status, "fully-qualified");
    assert_eq!(c.emoji, "🇨🇦");
    assert_eq!(c.name, "flag: Canada");
    assert_eq!(c.codes, "1F1E8 1F1E6");
}

#[test]
fn test_lines_rejected() {
    assert!(parse_test_line("no hash here").is_none());
    assert!(parse_test_line("1F600 fully-qualified # 😀 E1.0 grinning face").is_none());
    assert!(parse_test_line("1F600 ; fully-qualified # 😀 1.0 grinning face").is_none());
    assert!(parse_test_line("1F600 ; fully-qualified # 😀 E1.0").is_none());
    assert!(parse_test_line("1F600 ; fully-qualified # 😀 E1.0 ").is_none());
}

#[test]
fn emoji_test_files() {
    let text = "# emoji-test.txt\n# Version: 17.0\n\n# group: Smileys & Emotion\n# subgroup: face-smiling\n1F600 ; fully-qualified # 😀 E1.0 grinning face\n263A ; unqualified # ☺ E0.6 smiling face\n# group: Flags\n# subgroup: \n1F1E8 1F1E6 ; fully-qualified # 🇨🇦 E2.0 flag: Canada\n";
    let (version, es) = parse_emoji_test(text).expect("parsed");
    assert_eq!(version, "17.0");
    assert_eq!(es.len(), 2);
    assert_eq!(es[0].category, "Smileys & Emotion (face-smiling)");
    assert_eq!(es[0].emoji, "😀");
    assert_eq!(es[1].category, "Flags");
    assert_eq!(es[1].subgroup, "");
    assert_eq!(es[1].keywords, "");
    let (v, _) = parse_emoji_test("1F600 ; fully-qualified # 😀 E1.0 grinning face").unwrap();
    assert_eq!(v, "unknown");
    assert_eq!(parse_emoji_test("# nothing\n").err(), Some(EmojiTestError::NoEmoji));
}

#[test]
fn keyword_lookup_keys() {
    assert_eq!(strip_for_keyword_lookup("😀"), vec!["😀".to_string(), "😀\u{fe0f}".to_string()]);
    assert_eq!(
        strip_for_keyword_lookup("👍🏽"),
        vec!["👍🏽".to_string(), "👍".to_string(), "👍\u{fe0f}".to_string()]
    );
    assert_eq!(
        strip_for_keyword_lookup("☺\u{fe0f}"),
        vec!["☺\u{fe0f}".to_string(), "☺".to_string()]
    );
}

#[test]
fn keywords_from_table_and_name() {
    let mut lib: KeywordLib = TextMap::new();
    lib.insert("👍".to_string(), vec!["thumbs_up".to_string(), "Like".to_string(), "-".to_string(), "like".to_string()]);
    assert_eq!(
        keywords_for("👍🏽", "thumbs up: medium skin tone", &lib),
        "thumbs up thumbs up like medium skin tone"
    );
    assert_eq!(keywords_for("🫠", "melting face, a", &lib), "melting face");
    let mut es = vec![timbits::emoji_db::EmojiSource {
        codes: "1F44D".to_string(),
        emoji: "👍".to_string(),
        name: "x".to_string(),
        category: String::new(),
        group: String::new(),
        subgroup: String::new(),
        keywords: String::new(),
    }];
    let n = attach_keywords(&mut es, &lib);
    assert_eq!(n, 1);
    assert_eq!(es[0].keywords, "thumbs up thumbs up like");
}

#[test]
fn emojilib_json_reads_into_table() {
    let lib = timbits::emoji_update::keyword_lib_from_json(r#"{"☕": ["coffee", "hot_beverage"], "🍩": ["donut"]}"#)
        .expect("a table");
    let key: Vec<char> = "☕".chars().collect();
    assert_eq!(lib.get(&key).cloned(), Some(vec!["coffee".to_string(), "hot_beverage".to_string()]));
    assert_eq!(lib.entries.len(), 2);
    assert_eq!(keywords_for("☕", "hot beverage", &lib), "coffee hot beverage hot beverage");
    assert!(timbits::emoji_update::keyword_lib_from_json("[1, 2]").is_none());
    assert!(timbits::emoji_update::keyword_lib_from_json("not json").is_none());
}

#[test]
fn alias_files_and_pairs() {
    let al = timbits::emoji_db::aliases_from_toml("\"🍩\" = \"Donut Timbits\"\n\"☕\" = \"Java\"\n").expect("a table");
    assert_eq!(alias_for("🍩", &al).as_deref(), Some("donut timbits"));
    assert_eq!(alias_for("☕", &al).as_deref(), Some("java"));
    assert!(timbits::emoji_db::aliases_from_toml("= nonsense").is_none());
    let al = timbits::emoji_db::aliases_from_pairs(vec![
        ("🍩".to_string(), "A".to_string()),
        ("🍩".to_string(), "B".to_string()),
    ]);
    assert_eq!(alias_for("🍩", &al).as_deref(), Some("b"));
}
