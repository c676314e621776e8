use emojis::Group;
use timbits::config::SkinTone;
use timbits::emoji_db::{by_group, choose_catalogue, entries_from_sources, filter, with_skin_tone, Aliases, EmojiEntry, EmojiSource};
use timbits::textmap::TextMap;

fn group_name(g: Group) -> &'static str {
    match g {
        Group::SmileysAndEmotion => "Smileys & Emotion",
        Group::PeopleAndBody => "People & Body",
        Group::AnimalsAndNature => "Animals & Nature",
        Group::FoodAndDrink => "Food & Drink",
        Group::TravelAndPlaces => "Travel & Places",
        Group::Activities => "Activities",
        Group::Objects => "Objects",
        Group::Symbols => "Symbols",
        Group::Flags => "Flags",
    }
}

/// The full fully-qualified catalogue, skin-tone variants included, as the
/// Unicode data of the `emojis` crate gives it.
fn loaded() -> Vec<EmojiEntry> {
    let mut sources = Vec::new();
    for e in emojis::iter() {
        let variants: Vec<&emojis::Emoji> = match e.skin_tones() {
            Some(it) => it.collect(),
            None => vec![e],
        };
        for v in variants {
            let group = group_name(v.group()).to_string();
            sources.push(EmojiSource {
                codes: String::new(),
                emoji: v.as_str().to_string(),
                name: v.name().to_string(),
                category: group.clone(),
                group,
                subgroup: String::new(),
                keywords: String::new(),
            });
        }
    }
    let aliases: Aliases = TextMap::new();
    entries_from_sources(&sources, &aliases)
}

#[test]
fn bundled_loads_and_finds_grinning() {
    let all = loaded();
    let hits = filter(&all, "grinning face", 20);
    assert!(!hits.is_empty());
    assert!(hits.iter().any(|e| e.ch.contains('😀') || e.name.contains("grinning")));
}

#[test]
fn multi_word_and() {
    let all = loaded();
    let hits = filter(&all, "face smiling", 50);
    assert!(!hits.is_empty());
}

#[test]
fn canada_matches_canadian_flag() {
    let all = loaded();
    for q in ["canada", "canadian", "canadian flag", "canada flag"] {
        let hits = filter(&all, q, 20);
        assert!(
            hits.iter().any(|e| e.ch == "🇨🇦"),
            "query {q:?} expected 🇨🇦 in {:?}",
            hits.iter().map(|e| (&e.ch, &e.name)).collect::<Vec<_>>()
        );
    }
}

#[test]
fn usa_and_american_match_us_flag() {
    let all = loaded();
    for q in ["usa", "america", "american", "united states"] {
        let hits = filter(&all, q, 20);
        assert!(
            hits.iter().any(|e| e.ch == "🇺🇸"),
            "query {q:?} expected 🇺🇸 in {:?}",
            hits.iter().map(|e| &e.ch).collect::<Vec<_>>()
        );
    }
}

#[test]
fn canada_ranks_flag_above_maple() {
    let all = loaded();
    let hits = filter(&all, "canada", 10);
    assert_eq!(hits[0].ch, "🇨🇦", "top hit should be 🇨🇦, got {}", hits[0].name);
}

#[test]
fn unicode17_distorted_face() {
    let all = loaded();
    assert!(all.iter().any(|e| e.name == "distorted face"), "U17 distorted face missing");
    let hits = filter(&all, "distorted", 10);
    assert!(hits.iter().any(|e| e.name == "distorted face"));
}

#[test]
fn search_hides_skin_tone_variants() {
    let all = loaded();
    let hits = filter(&all, "thumbs up", 50);
    assert!(!hits.is_empty());
    assert!(
        hits.iter().all(|e| !e.is_skin_tone),
        "skin-tone variants must not appear in normal search: {:?}",
        hits.iter().map(|e| &e.name).collect::<Vec<_>>()
    );
    assert!(hits.iter().any(|e| e.ch == "👍" || e.name == "thumbs up"));
}

#[test]
fn with_skin_tone_applies_medium() {
    let all = loaded();
    let base = all.iter().find(|e| e.name == "thumbs up").expect("thumbs up");
    assert_eq!(with_skin_tone(base, &all, SkinTone::NoTone), "👍");
    assert_eq!(with_skin_tone(base, &all, SkinTone::Medium), "👍🏽");
    assert_eq!(with_skin_tone(base, &all, SkinTone::Light), "👍🏻");
}

#[test]
fn skin_tone_query_can_still_find_variants() {
    let all = loaded();
    let hits = filter(&all, "thumbs up light skin", 20);
    assert!(hits.iter().any(|e| e.is_skin_tone), "explicit tone query should surface variants");
}

#[test]
fn group_filter_flags() {
    let all = loaded();
    let flags = by_group(&all, "Flags", true, 500);
    assert!(flags.len() > 200);
    assert!(flags.iter().any(|e| e.ch == "🇨🇦"));
}

#[test]
fn empty_query_browses_default_skin() {
    let all = loaded();
    let hits = filter(&all, "   ", 30);
    let browse = timbits::emoji_db::browse_default_skin(&all, 30);
    assert_eq!(hits.len(), 30);
    assert!(hits.iter().zip(browse.iter()).all(|(a, b)| a.ch == b.ch));
}

#[test]
fn bundled_is_full_unicode_set() {
    let all = loaded();
    assert!(all.len() >= 3900, "expected full FQ catalogue, got {}", all.len());
}


fn record(ch: &str, name: &str, group: &str, subgroup: &str, keywords: &str) -> EmojiSource {
    EmojiSource {
        codes: String::new(),
        emoji: ch.to_string(),
        name: name.to_string(),
        category: group.to_string(),
        group: group.to_string(),
        subgroup: subgroup.to_string(),
        keywords: keywords.to_string(),
    }
}

/// A small catalogue with emojilib-style keywords and hand aliases, in place
/// of the bundled catalogue and its alias table.
fn keyworded() -> Vec<EmojiEntry> {
    let sources = vec![
        record("😀", "grinning face", "Smileys & Emotion", "face-smiling", "face smile happy joy :D grin"),
        record("😂", "face with tears of joy", "Smileys & Emotion", "face-smiling", "face cry tears weep happy happytears haha lol"),
        record("☕", "hot beverage", "Food & Drink", "drink", "beverage caffeine latte espresso coffee mug"),
        record("🍩", "doughnut", "Food & Drink", "food-sweet", "food dessert snack sweet"),
        record("💩", "pile of poo", "Smileys & Emotion", "face-costume", "poop shitface fail turd"),
        record("🎉", "party popper", "Activities", "event", "party congratulations birthday magic circus celebration tada"),
        record("🏳️‍🌈", "rainbow flag", "Flags", "flag", "flag rainbow pride gay lgbt queer"),
        record("🏳️‍⚧️", "transgender flag", "Flags", "flag", "transgender flag pride"),
    ];
    let mut aliases: Aliases = TextMap::new();
    aliases.insert("🍩".to_string(), "donut timbits".to_string());
    entries_from_sources(&sources, &aliases)
}

#[test]
fn donut_alias_matches() {
    let all = keyworded();
    let hits = filter(&all, "donut", 10);
    assert!(
        hits.iter().any(|e| e.ch == "🍩"),
        "expected 🍩 in {:?}",
        hits.iter().map(|e| &e.ch).collect::<Vec<_>>()
    );
}

#[test]
fn phone_style_keywords() {
    let all = keyworded();
    for (q, ch) in [("happy", "😀"), ("coffee", "☕"), ("lol", "😂"), ("poop", "💩")] {
        let hits = filter(&all, q, 30);
        assert!(
            hits.iter().any(|e| e.ch == ch || e.ch.contains(ch)),
            "query {q:?} expected something like {ch} in {:?}",
            hits.iter().map(|e| (&e.ch, &e.name)).collect::<Vec<_>>()
        );
    }
    let hits = filter(&all, "pride", 15);
    assert!(
        hits.iter().any(|e| e.name.to_lowercase().contains("rainbow flag")),
        "pride should find rainbow flag in {:?}",
        hits.iter().map(|e| &e.name).collect::<Vec<_>>()
    );
    assert!(
        hits[0].name.to_lowercase().contains("rainbow") || hits[0].name.to_lowercase().contains("transgender"),
        "pride should rank a pride flag first, got {}",
        hits[0].name
    );
}

#[test]
fn crate_table_starts_as_documented() {
    let aliases: Aliases = TextMap::new();
    let all = timbits::emoji_db::load_from_crate(&aliases);
    let first: Vec<&str> = all.iter().take(5).map(|e| e.ch.as_str()).collect();
    assert_eq!(first, ["😀", "😃", "😄", "😁", "😆"]);
    let rows = timbits::emoji_picker::picker_catalogue();
    assert_eq!(rows[0].emoji, "😀");
    assert_eq!(rows.len(), all.len());
}

#[test]
fn catalogue_choice_order() {
    let all = keyworded();
    let one = |i: usize| vec![all[i].clone()];
    let fallback = || vec![all[7].clone()];
    let pick = |r: Vec<EmojiEntry>| r[0].ch.clone();
    // The override wins when it has entries.
    assert_eq!(pick(choose_catalogue(Some(one(0)), Some(("17.0".to_string(), Some(one(1)))), "16.0", vec![Some(one(2))], fallback())), "😀");
    // An empty override is passed over; a newer user catalogue wins.
    assert_eq!(pick(choose_catalogue(Some(vec![]), Some(("17.0".to_string(), Some(one(1)))), "16.0", vec![Some(one(2))], fallback())), "😂");
    // An older or unstamped user catalogue is ignored.
    assert_eq!(pick(choose_catalogue(None, Some(("15.1".to_string(), Some(one(1)))), "16.0", vec![Some(one(2))], fallback())), "☕");
    assert_eq!(pick(choose_catalogue(None, Some((String::new(), Some(one(1)))), "16.0", vec![Some(one(2))], fallback())), "☕");
    // The first shipped catalogue with entries, else the crate's table.
    assert_eq!(pick(choose_catalogue(None, None, "16.0", vec![None, Some(vec![]), Some(one(3))], fallback())), "🍩");
    assert_eq!(pick(choose_catalogue(None, Some(("17.0".to_string(), None)), "16.0", vec![None], fallback())), "🏳️‍⚧️");
}
