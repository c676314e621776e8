//! Configuration values and the well-known file locations of the tool.
use vstd::prelude::*;

use crate::text::{append, chars_of, eq_ignore_ascii_case, eq_ignore_case, string_of, trim, trim_chars, ascii_lower_seq};

verus! {

/// Backend used to inject a paste chord after the clipboard is set.
#[derive(Debug, Clone, Copy, PartialEq, Eq, Structural)]
pub enum PasteMethod {
    /// ydotool: uses the primary paste hotkey, or the terminal one when the
    /// target looks like a terminal (if terminal auto-detection is enabled).
    YdotoolAuto,
    /// uinput virtual keyboard with the same automatic hotkey selection.
    UinputAuto,
    /// ydotool with the primary paste hotkey only.
    YdotoolPrimary,
    /// ydotool with the terminal paste hotkey only.
    YdotoolTerminal,
    /// uinput with the primary paste hotkey only.
    UinputPrimary,
    /// uinput with the terminal paste hotkey only.
    UinputTerminal,
}

impl PasteMethod {
    pub open spec fn spec_id(self) -> Seq<char> {
        match self {
            PasteMethod::YdotoolAuto => "ydotool_auto"@,
            PasteMethod::UinputAuto => "uinput_auto"@,
            PasteMethod::YdotoolPrimary => "ydotool_primary"@,
            PasteMethod::YdotoolTerminal => "ydotool_terminal"@,
            PasteMethod::UinputPrimary => "uinput_primary"@,
            PasteMethod::UinputTerminal => "uinput_terminal"@,
        }
    }

    /// Stable identifier used in the configuration file.
    pub fn id(self) -> (r: &'static str)
        ensures
            r@ == self.spec_id(),
    {
        match self {
            PasteMethod::YdotoolAuto => "ydotool_auto",
            PasteMethod::UinputAuto => "uinput_auto",
            PasteMethod::YdotoolPrimary => "ydotool_primary",
            PasteMethod::YdotoolTerminal => "ydotool_terminal",
            PasteMethod::UinputPrimary => "uinput_primary",
            PasteMethod::UinputTerminal => "uinput_terminal",
        }
    }

    pub open spec fn spec_uses_ydotool(self) -> bool {
        self is YdotoolAuto || self is YdotoolPrimary || self is YdotoolTerminal
    }

    /// Does this method inject keys through ydotool (rather than uinput)?
    pub fn uses_ydotool(self) -> (r: bool)
        ensures
            r == self.spec_uses_ydotool(),
    {
        match self {
            PasteMethod::YdotoolAuto | PasteMethod::YdotoolPrimary | PasteMethod::YdotoolTerminal => true,
            _ => false,
        }
    }

    pub open spec fn spec_label(self) -> Seq<char> {
        match self {
            PasteMethod::YdotoolAuto => "ydotool (auto primary / terminal hotkey)"@,
            PasteMethod::UinputAuto => "uinput (auto primary / terminal hotkey)"@,
            PasteMethod::YdotoolPrimary => "ydotool + primary paste hotkey"@,
            PasteMethod::YdotoolTerminal => "ydotool + terminal paste hotkey"@,
            PasteMethod::UinputPrimary => "uinput + primary paste hotkey"@,
            PasteMethod::UinputTerminal => "uinput + terminal paste hotkey"@,
        }
    }

    /// Short human label for the settings window.
    pub fn label(self) -> (r: &'static str)
        ensures
            r@ == self.spec_label(),
    {
        match self {
            PasteMethod::YdotoolAuto => "ydotool (auto primary / terminal hotkey)",
            PasteMethod::UinputAuto => "uinput (auto primary / terminal hotkey)",
            PasteMethod::YdotoolPrimary => "ydotool + primary paste hotkey",
            PasteMethod::YdotoolTerminal => "ydotool + terminal paste hotkey",
            PasteMethod::UinputPrimary => "uinput + primary paste hotkey",
            PasteMethod::UinputTerminal => "uinput + terminal paste hotkey",
        }
    }

    pub open spec fn spec_description(self) -> Seq<char> {
        match self {
            PasteMethod::YdotoolAuto => "Inject via ydotoold using the primary paste hotkey, or the terminal hotkey when the focused app looks like a terminal."@,
            PasteMethod::UinputAuto => "Temporary virtual keyboard (uinput) with the same auto hotkey selection. Works well when a key remapper grabs uinput devices."@,
            PasteMethod::YdotoolPrimary => "Always use the primary paste hotkey through ydotool (default Ctrl+V)."@,
            PasteMethod::YdotoolTerminal => "Always use the terminal paste hotkey through ydotool (default Ctrl+Shift+V)."@,
            PasteMethod::UinputPrimary => "Always uinput the primary paste hotkey."@,
            PasteMethod::UinputTerminal => "Always uinput the terminal paste hotkey."@,
        }
    }

    /// One-sentence explanation for the settings window.
    pub fn description(self) -> (r: &'static str)
        ensures
            r@ == self.spec_description(),
    {
        match self {
            PasteMethod::YdotoolAuto => "Inject via ydotoold using the primary paste hotkey, or the terminal hotkey when the focused app looks like a terminal.",
            PasteMethod::UinputAuto => "Temporary virtual keyboard (uinput) with the same auto hotkey selection. Works well when a key remapper grabs uinput devices.",
            PasteMethod::YdotoolPrimary => "Always use the primary paste hotkey through ydotool (default Ctrl+V).",
            PasteMethod::YdotoolTerminal => "Always use the terminal paste hotkey through ydotool (default Ctrl+Shift+V).",
            PasteMethod::UinputPrimary => "Always uinput the primary paste hotkey.",
            PasteMethod::UinputTerminal => "Always uinput the terminal paste hotkey.",
        }
    }

    /// Every method, in the order the settings window lists them.
    pub fn all() -> (r: Vec<PasteMethod>)
        ensures
            r@ == seq![
                PasteMethod::YdotoolAuto,
                PasteMethod::UinputAuto,
                PasteMethod::YdotoolPrimary,
                PasteMethod::YdotoolTerminal,
                PasteMethod::UinputPrimary,
                PasteMethod::UinputTerminal,
            ],
    {
        vec![
            PasteMethod::YdotoolAuto,
            PasteMethod::UinputAuto,
            PasteMethod::YdotoolPrimary,
            PasteMethod::YdotoolTerminal,
            PasteMethod::UinputPrimary,
            PasteMethod::UinputTerminal,
        ]
    }
}

pub open spec fn spec_default_paste_methods() -> Seq<PasteMethod> {
    seq![
        PasteMethod::YdotoolAuto,
        PasteMethod::UinputAuto,
        PasteMethod::YdotoolPrimary,
        PasteMethod::UinputPrimary,
    ]
}

/// Generic defaults: Ctrl+V / Ctrl+Shift+V via ydotool, then uinput.
pub fn default_paste_methods() -> (r: Vec<PasteMethod>)
    ensures
        r@ == spec_default_paste_methods(),
{
    vec![
        PasteMethod::YdotoolAuto,
        PasteMethod::UinputAuto,
        PasteMethod::YdotoolPrimary,
        PasteMethod::UinputPrimary,
    ]
}

pub fn default_paste_hotkey() -> (r: String)
    ensures
        r@ == "Ctrl+V"@,
{
    String::from_str("Ctrl+V")
}

pub fn default_paste_hotkey_terminal() -> (r: String)
    ensures
        r@ == "Ctrl+Shift+V"@,
{
    String::from_str("Ctrl+Shift+V")
}

pub fn default_true() -> (r: bool)
    ensures
        r,
{
    true
}

pub fn default_focus_delay() -> (r: u64)
    ensures
        r == 60,
{
    60
}

pub fn default_ydotool_pre() -> (r: u64)
    ensures
        r == 0,
{
    0
}

pub fn default_ydotool_stroke() -> (r: u64)
    ensures
        r == 6,
{
    6
}

pub fn default_uinput_settle() -> (r: u64)
    ensures
        r == 40,
{
    40
}

/// Preferred Fitzpatrick skin tone for people/gesture emoji in the picker.
///
/// `None` (default) keeps the unmodified forms and never lists the five tone
/// variants in the grid.
#[derive(Debug, Clone, Copy, PartialEq, Eq, Structural)]
pub enum SkinTone {
    NoTone,
    Light,
    MediumLight,
    Medium,
    MediumDark,
    Dark,
}

impl Default for SkinTone {
    fn default() -> (r: Self)
        ensures
            r == SkinTone::NoTone,
    {
        SkinTone::NoTone
    }
}

impl SkinTone {
    pub fn all() -> (r: Vec<SkinTone>)
        ensures
            r@ == seq![
                SkinTone::NoTone,
                SkinTone::Light,
                SkinTone::MediumLight,
                SkinTone::Medium,
                SkinTone::MediumDark,
                SkinTone::Dark,
            ],
    {
        vec![
            SkinTone::NoTone,
            SkinTone::Light,
            SkinTone::MediumLight,
            SkinTone::Medium,
            SkinTone::MediumDark,
            SkinTone::Dark,
        ]
    }

    pub open spec fn spec_label(self) -> Seq<char> {
        match self {
            SkinTone::NoTone => "Default (none)"@,
            SkinTone::Light => "Light"@,
            SkinTone::MediumLight => "Medium-light"@,
            SkinTone::Medium => "Medium"@,
            SkinTone::MediumDark => "Medium-dark"@,
            SkinTone::Dark => "Dark"@,
        }
    }

    pub fn label(self) -> (r: &'static str)
        ensures
            r@ == self.spec_label(),
    {
        match self {
            SkinTone::NoTone => "Default (none)",
            SkinTone::Light => "Light",
            SkinTone::MediumLight => "Medium-light",
            SkinTone::Medium => "Medium",
            SkinTone::MediumDark => "Medium-dark",
            SkinTone::Dark => "Dark",
        }
    }

    pub open spec fn spec_name_suffix(self) -> Option<Seq<char>> {
        match self {
            SkinTone::NoTone => None,
            SkinTone::Light => Some("light skin tone"@),
            SkinTone::MediumLight => Some("medium-light skin tone"@),
            SkinTone::Medium => Some("medium skin tone"@),
            SkinTone::MediumDark => Some("medium-dark skin tone"@),
            SkinTone::Dark => Some("dark skin tone"@),
        }
    }

    /// Unicode name suffix used in fully-qualified emoji names, e.g.
    /// `thumbs up: medium skin tone`.
    pub fn name_suffix(self) -> (r: Option<&'static str>)
        ensures
            match r {
                Some(s) => self.spec_name_suffix() == Some(s@),
                None => self.spec_name_suffix() is None,
            },
    {
        match self {
            SkinTone::NoTone => None,
            SkinTone::Light => Some("light skin tone"),
            SkinTone::MediumLight => Some("medium-light skin tone"),
            SkinTone::Medium => Some("medium skin tone"),
            SkinTone::MediumDark => Some("medium-dark skin tone"),
            SkinTone::Dark => Some("dark skin tone"),
        }
    }

    pub open spec fn spec_sample(self) -> Seq<char> {
        match self {
            SkinTone::NoTone => "\u{1F44B}"@,
            SkinTone::Light => "\u{1F44B}\u{1F3FB}"@,
            SkinTone::MediumLight => "\u{1F44B}\u{1F3FC}"@,
            SkinTone::Medium => "\u{1F44B}\u{1F3FD}"@,
            SkinTone::MediumDark => "\u{1F44B}\u{1F3FE}"@,
            SkinTone::Dark => "\u{1F44B}\u{1F3FF}"@,
        }
    }

    /// The place of a tone on the Fitzpatrick scale as the emoji modifiers
    /// number it (`Light` is the first modifier, U+1F3FB); 0 for no tone.
    pub open spec fn tone_index(self) -> int {
        match self {
            SkinTone::NoTone => 0,
            SkinTone::Light => 1,
            SkinTone::MediumLight => 2,
            SkinTone::Medium => 3,
            SkinTone::MediumDark => 4,
            SkinTone::Dark => 5,
        }
    }

    /// Sample waving hand for the settings window.
    pub fn sample(self) -> (r: &'static str)
        ensures
            r@ == self.spec_sample(),
    {
        match self {
            SkinTone::NoTone => "\u{1F44B}",
            SkinTone::Light => "\u{1F44B}\u{1F3FB}",
            SkinTone::MediumLight => "\u{1F44B}\u{1F3FC}",
            SkinTone::Medium => "\u{1F44B}\u{1F3FD}",
            SkinTone::MediumDark => "\u{1F44B}\u{1F3FE}",
            SkinTone::Dark => "\u{1F44B}\u{1F3FF}",
        }
    }
}

/// Each skin tone picks the emoji variant named for that tone: the name
/// suffix of a tone is its label, lowercased, followed by `skin tone`; no two
/// tones share a suffix; and the sample of a tone carries the Fitzpatrick
/// modifier of that tone (U+1F3FA plus its place on the scale).
pub proof fn skin_tone_suffix_names_the_tone(t: SkinTone, u: SkinTone)
    ensures
        t != SkinTone::NoTone ==> t.spec_name_suffix() == Some(ascii_lower_seq(t.spec_label()) + " skin tone"@),
        t == SkinTone::NoTone ==> t.spec_name_suffix() is None,
        t != u ==> t.spec_name_suffix() != u.spec_name_suffix(),
        t != SkinTone::NoTone ==> t.spec_sample().len() == 2 && (t.spec_sample()[1] as u32) == 0x1F3FA + t.tone_index(),
{
    reveal_strlit(" skin tone");
    reveal_strlit("Light");
    reveal_strlit("Medium-light");
    reveal_strlit("Medium");
    reveal_strlit("Medium-dark");
    reveal_strlit("Dark");
    reveal_strlit("light skin tone");
    reveal_strlit("medium-light skin tone");
    reveal_strlit("medium skin tone");
    reveal_strlit("medium-dark skin tone");
    reveal_strlit("dark skin tone");
    reveal_strlit("\u{1F44B}\u{1F3FB}");
    reveal_strlit("\u{1F44B}\u{1F3FC}");
    reveal_strlit("\u{1F44B}\u{1F3FD}");
    reveal_strlit("\u{1F44B}\u{1F3FE}");
    reveal_strlit("\u{1F44B}\u{1F3FF}");
    reveal_strlit("light");
    reveal_strlit("medium-light");
    reveal_strlit("medium");
    reveal_strlit("medium-dark");
    reveal_strlit("dark");
    assert(ascii_lower_seq("Light"@) =~= "light"@);
    assert(ascii_lower_seq("Medium-light"@) =~= "medium-light"@);
    assert(ascii_lower_seq("Medium"@) =~= "medium"@);
    assert(ascii_lower_seq("Medium-dark"@) =~= "medium-dark"@);
    assert(ascii_lower_seq("Dark"@) =~= "dark"@);
    assert("light"@ + " skin tone"@ =~= "light skin tone"@);
    assert("medium-light"@ + " skin tone"@ =~= "medium-light skin tone"@);
    assert("medium"@ + " skin tone"@ =~= "medium skin tone"@);
    assert("medium-dark"@ + " skin tone"@ =~= "medium-dark skin tone"@);
    assert("dark"@ + " skin tone"@ =~= "dark skin tone"@);
    assert("light skin tone"@.len() != "medium skin tone"@.len());
    assert("light skin tone"@[0] != "dark skin tone"@[0]);
    assert("medium skin tone"@.len() != "dark skin tone"@.len());
    assert("medium-light skin tone"@[7] != "medium-dark skin tone"@[7]);
}

/// User preferences.
#[derive(Debug, Clone)]
pub struct Config {
    /// Hotkey for the emoji picker, e.g. "Super+Period".
    pub emoji_hotkey: String,
    /// Hotkey for the clipboard history picker, e.g. "Super+Shift+C".
    pub clipboard_hotkey: String,
    /// Maximum number of clipboard history entries kept.
    pub max_entries: i64,
    /// Run OCR on clipboard images so they become searchable.
    pub ocr_enabled: bool,
    /// Preferred skin tone for people/gesture emoji.
    pub emoji_skin_tone: SkinTone,
    /// Chord injected into normal apps after copy, e.g. "Ctrl+V" or "Super+V".
    pub paste_hotkey: String,
    /// Chord for terminal apps when auto-detection is used, e.g. "Ctrl+Shift+V".
    pub paste_hotkey_terminal: String,
    /// When true, the automatic methods pick the terminal hotkey for terminals.
    pub paste_auto_terminal: bool,
    /// Wait after the picker closes before injecting keys (ms).
    pub paste_focus_delay_ms: u64,
    /// `ydotool key --delay` (ms before the chord starts).
    pub paste_ydotool_delay_ms: u64,
    /// `ydotool key --key-delay` between key events (ms).
    pub paste_ydotool_key_delay_ms: u64,
    /// Wait after creating the virtual keyboard (ms).
    pub paste_uinput_settle_ms: u64,
    /// Wait for the clipboard to echo claimed text before injecting.
    pub paste_verify_clipboard: bool,
    /// Also claim the primary selection.
    pub paste_also_primary: bool,
    /// Ordered list of paste injection backends (first success wins).
    pub paste_methods: Vec<PasteMethod>,
}

impl Config {
    /// The values of a freshly installed configuration.
    pub open spec fn is_default(self) -> bool {
        &&& self.emoji_hotkey@ == "Super+Period"@
        &&& self.clipboard_hotkey@ == "Super+Shift+C"@
        &&& self.max_entries == 500
        &&& self.ocr_enabled
        &&& self.emoji_skin_tone == SkinTone::NoTone
        &&& self.paste_hotkey@ == "Ctrl+V"@
        &&& self.paste_hotkey_terminal@ == "Ctrl+Shift+V"@
        &&& self.paste_auto_terminal
        &&& self.paste_focus_delay_ms == 60
        &&& self.paste_ydotool_delay_ms == 0
        &&& self.paste_ydotool_key_delay_ms == 6
        &&& self.paste_uinput_settle_ms == 40
        &&& !self.paste_verify_clipboard
        &&& self.paste_also_primary
        &&& self.paste_methods@ == spec_default_paste_methods()
    }

    /// Fields that a configuration keeps through [`Config::normalized`].
    pub open spec fn same_except_paste(self, other: Config) -> bool {
        &&& self.emoji_hotkey@ == other.emoji_hotkey@
        &&& self.clipboard_hotkey@ == other.clipboard_hotkey@
        &&& self.max_entries == other.max_entries
        &&& self.ocr_enabled == other.ocr_enabled
        &&& self.emoji_skin_tone == other.emoji_skin_tone
        &&& self.paste_auto_terminal == other.paste_auto_terminal
        &&& self.paste_focus_delay_ms == other.paste_focus_delay_ms
        &&& self.paste_ydotool_delay_ms == other.paste_ydotool_delay_ms
        &&& self.paste_ydotool_key_delay_ms == other.paste_ydotool_key_delay_ms
        &&& self.paste_uinput_settle_ms == other.paste_uinput_settle_ms
        &&& self.paste_verify_clipboard == other.paste_verify_clipboard
        &&& self.paste_also_primary == other.paste_also_primary
    }
}

impl Default for Config {
    fn default() -> (r: Self)
        ensures
            r.is_default(),
    {
        Config {
            emoji_hotkey: String::from_str("Super+Period"),
            clipboard_hotkey: String::from_str("Super+Shift+C"),
            max_entries: 500,
            ocr_enabled: true,
            emoji_skin_tone: SkinTone::NoTone,
            paste_hotkey: default_paste_hotkey(),
            paste_hotkey_terminal: default_paste_hotkey_terminal(),
            paste_auto_terminal: true,
            paste_focus_delay_ms: default_focus_delay(),
            paste_ydotool_delay_ms: default_ydotool_pre(),
            paste_ydotool_key_delay_ms: default_ydotool_stroke(),
            paste_uinput_settle_ms: default_uinput_settle(),
            paste_verify_clipboard: false,
            paste_also_primary: true,
            paste_methods: default_paste_methods(),
        }
    }
}

/// The methods in order, each kept at its first occurrence.
pub open spec fn dedup_methods(m: Seq<PasteMethod>) -> Seq<PasteMethod>
    decreases m.len(),
{
    if m.len() == 0 {
        m
    } else {
        let d = dedup_methods(m.drop_last());
        if d.contains(m.last()) {
            d
        } else {
            d.push(m.last())
        }
    }
}

/// The paste methods that a loaded configuration ends up with.
pub open spec fn normalized_methods(m: Seq<PasteMethod>) -> Seq<PasteMethod> {
    if m.len() == 0 {
        spec_default_paste_methods()
    } else {
        dedup_methods(m)
    }
}

/// A hotkey that loading keeps, or the default when it is blank.
pub open spec fn hotkey_or(h: Seq<char>, default: Seq<char>) -> Seq<char> {
    if trim(h).len() == 0 {
        default
    } else {
        h
    }
}

pub proof fn lemma_dedup_contains(m: Seq<PasteMethod>, x: PasteMethod)
    ensures
        dedup_methods(m).contains(x) <==> m.contains(x),
    decreases m.len(),
{
    broadcast use vstd::seq_lib::group_seq_properties;

    if m.len() > 0 {
        lemma_dedup_contains(m.drop_last(), x);
        assert(m == m.drop_last().push(m.last()));
        if m.contains(x) && !m.drop_last().contains(x) {
            assert(m.last() == x);
        }
        if m.drop_last().contains(x) {
            let i = choose|i: int| 0 <= i < m.drop_last().len() && m.drop_last()[i] == x;
            assert(m[i] == x);
        }
    }
}

pub proof fn lemma_dedup_nonempty(m: Seq<PasteMethod>)
    requires
        m.len() > 0,
    ensures
        dedup_methods(m).len() > 0,
{
    lemma_dedup_contains(m, m[0]);
    assert(m.contains(m[0]));
}

proof fn lemma_dedup_distinct(m: Seq<PasteMethod>)
    ensures
        dedup_methods(m).no_duplicates(),
    decreases m.len(),
{
    if m.len() > 0 {
        lemma_dedup_distinct(m.drop_last());
    }
}

proof fn lemma_dedup_of_distinct(m: Seq<PasteMethod>)
    requires
        m.no_duplicates(),
    ensures
        dedup_methods(m) == m,
    decreases m.len(),
{
    if m.len() > 0 {
        let p = m.drop_last();
        assert(p.no_duplicates());
        lemma_dedup_of_distinct(p);
        if p.contains(m.last()) {
            let i = choose|i: int| 0 <= i < p.len() && p[i] == m.last();
            assert(m[i] == m[m.len() - 1]);
        }
        assert(p.push(m.last()) == m);
    }
}

/// Loading settles the paste methods: the list it keeps is never empty,
/// holds each method once, in the order of first mention (or the defaults
/// for an empty list), and tidying it again changes nothing.
pub proof fn normalized_methods_settle(m: Seq<PasteMethod>)
    ensures
        normalized_methods(m).len() > 0,
        normalized_methods(m).no_duplicates(),
        forall|x: PasteMethod|
            #[trigger] normalized_methods(m).contains(x) <==> if m.len() == 0 {
                spec_default_paste_methods().contains(x)
            } else {
                m.contains(x)
            },
        normalized_methods(normalized_methods(m)) == normalized_methods(m),
{
    let d = spec_default_paste_methods();
    assert(d.no_duplicates()) by {
        assert(d[0] == PasteMethod::YdotoolAuto);
        assert(d[1] == PasteMethod::UinputAuto);
        assert(d[2] == PasteMethod::YdotoolPrimary);
        assert(d[3] == PasteMethod::UinputPrimary);
    }
    if m.len() == 0 {
        assert(d[0] == PasteMethod::YdotoolAuto);
        lemma_dedup_of_distinct(d);
    } else {
        lemma_dedup_nonempty(m);
        lemma_dedup_distinct(m);
        assert forall|x: PasteMethod| #[trigger] normalized_methods(m).contains(x) <==> m.contains(x) by {
            lemma_dedup_contains(m, x);
        }
        lemma_dedup_of_distinct(dedup_methods(m));
    }
}

/// Tidy a configuration as loading does: restore default paste methods when
/// the list is empty, drop repeated methods (keeping the first of each) and
/// restore blank paste hotkeys to their defaults. Other fields are kept.
pub fn normalized(cfg: Config) -> (r: Config)
    ensures
        r.same_except_paste(cfg),
        r.paste_methods@ == normalized_methods(cfg.paste_methods@),
        r.paste_hotkey@ == hotkey_or(cfg.paste_hotkey@, "Ctrl+V"@),
        r.paste_hotkey_terminal@ == hotkey_or(cfg.paste_hotkey_terminal@, "Ctrl+Shift+V"@),
{
    broadcast use vstd::seq_lib::group_seq_properties;

    let mut cfg = cfg;
    let ghost orig = cfg;
    if cfg.paste_methods.len() == 0 {
        cfg.paste_methods = default_paste_methods();
    } else {
        let mut kept: Vec<PasteMethod> = Vec::new();
        let n = cfg.paste_methods.len();
        for i in 0..n
            invariant
                n == cfg.paste_methods@.len(),
                cfg.paste_methods@ == orig.paste_methods@,
                kept@ == dedup_methods(cfg.paste_methods@.take(i as int)),
        {
            let m = cfg.paste_methods[i];
            let mut seen = false;
            for j in 0..kept.len()
                invariant
                    seen == kept@.take(j as int).contains(m),
            {
                if kept[j] == m {
                    seen = true;
                }
                proof {
                    let t = kept@.take(j as int);
                    let t1 = kept@.take(j + 1);
                    assert(t1 == t.push(kept@[j as int]));
                    if t.contains(m) {
                        let k = choose|k: int| 0 <= k < t.len() && t[k] == m;
                        assert(t1[k] == m);
                    }
                    if kept@[j as int] == m {
                        assert(t1[j as int] == m);
                    }
                    if t1.contains(m) {
                        let k = choose|k: int| 0 <= k < t1.len() && t1[k] == m;
                        if k < j {
                            assert(t[k] == m);
                        }
                    }
                }
            }
            assert(kept@.take(kept@.len() as int) == kept@);
            assert(cfg.paste_methods@.take(i + 1).drop_last() == cfg.paste_methods@.take(i as int));
            if !seen {
                kept.push(m);
            }
        }
        assert(cfg.paste_methods@.take(n as int) == cfg.paste_methods@);
        cfg.paste_methods = kept;
    }
    let hk = chars_of(cfg.paste_hotkey.as_str());
    if trim_chars(hk.as_slice()).len() == 0 {
        cfg.paste_hotkey = default_paste_hotkey();
    }
    let hkt = chars_of(cfg.paste_hotkey_terminal.as_str());
    if trim_chars(hkt.as_slice()).len() == 0 {
        cfg.paste_hotkey_terminal = default_paste_hotkey_terminal();
    }
    cfg
}

// ───────────────────────── well-known paths ─────────────────────────

/// `PathBuf::join` of a relative or absolute path onto `base` (Unix rules:
/// an absolute `rel` replaces `base`; otherwise a `/` is inserted unless
/// `base` is empty or already ends with one).
pub open spec fn path_join(base: Seq<char>, rel: Seq<char>) -> Seq<char> {
    if rel.len() > 0 && rel[0] == '/' {
        rel
    } else if base.len() == 0 || base.last() == '/' {
        base + rel
    } else {
        base + seq!['/'] + rel
    }
}

pub fn join_path(base: &str, rel: &str) -> (r: String)
    ensures
        r@ == path_join(base@, rel@),
{
    let b = chars_of(base);
    let rl = chars_of(rel);
    if rl.len() > 0 && rl[0] == '/' {
        return string_of(rl.as_slice());
    }
    let mut out = b;
    if out.len() > 0 && out[out.len() - 1] != '/' {
        out.push('/');
    }
    append(&mut out, rl.as_slice());
    string_of(out.as_slice())
}

/// The tool's own directory under a platform directory, or under `.` when
/// the platform directory is unknown.
pub open spec fn app_dir(platform: Option<Seq<char>>) -> Seq<char> {
    match platform {
        Some(p) => path_join(p, "timbits"@),
        None => path_join("."@, "timbits"@),
    }
}

pub open spec fn opt_view(o: Option<String>) -> Option<Seq<char>> {
    match o {
        Some(s) => Some(s@),
        None => None,
    }
}

/// `dirs::config_dir`, as a string. Depends on the environment, so nothing
/// is claimed of the result.
#[verifier::external_body]
fn platform_config_dir() -> (r: Option<String>) {
    dirs::config_dir().map(|p| p.to_string_lossy().into_owned())
}

/// `dirs::data_dir`, as a string. Depends on the environment, so nothing is
/// claimed of the result.
#[verifier::external_body]
fn platform_data_dir() -> (r: Option<String>) {
    dirs::data_dir().map(|p| p.to_string_lossy().into_owned())
}

pub fn app_dir_in(platform: Option<String>) -> (r: String)
    ensures
        r@ == app_dir(opt_view(platform)),
{
    match platform {
        Some(p) => join_path(p.as_str(), "timbits"),
        None => join_path(".", "timbits"),
    }
}

/// `~/.config/timbits` (or `./timbits` when the platform gives no directory).
pub fn config_dir() -> (r: String)
    ensures
        exists|p: Option<Seq<char>>| r@ == app_dir(p),
{
    let p = platform_config_dir();
    let ghost pv = opt_view(p);
    let r = app_dir_in(p);
    assert(r@ == app_dir(pv));
    r
}

/// `~/.local/share/timbits` (or `./timbits` when the platform gives none).
pub fn data_dir() -> (r: String)
    ensures
        exists|p: Option<Seq<char>>| r@ == app_dir(p),
{
    let p = platform_data_dir();
    let ghost pv = opt_view(p);
    let r = app_dir_in(p);
    assert(r@ == app_dir(pv));
    r
}

/// A file named `name` in some directory of the tool.
pub open spec fn in_app_dir(r: Seq<char>, name: Seq<char>) -> bool {
    exists|p: Option<Seq<char>>| r == path_join(app_dir(p), name)
}

pub fn config_path() -> (r: String)
    ensures
        in_app_dir(r@, "config.toml"@),
{
    let d = config_dir();
    join_path(d.as_str(), "config.toml")
}

pub fn db_path() -> (r: String)
    ensures
        in_app_dir(r@, "history.db"@),
{
    let d = data_dir();
    join_path(d.as_str(), "history.db")
}

pub fn images_dir() -> (r: String)
    ensures
        in_app_dir(r@, "images"@),
{
    let d = data_dir();
    join_path(d.as_str(), "images")
}

pub fn recents_path() -> (r: String)
    ensures
        in_app_dir(r@, "recent_emojis.txt"@),
{
    let d = data_dir();
    join_path(d.as_str(), "recent_emojis.txt")
}

pub fn pending_text_path() -> (r: String)
    ensures
        in_app_dir(r@, "pending_text"@),
{
    let d = data_dir();
    join_path(d.as_str(), "pending_text")
}

pub fn pending_image_path() -> (r: String)
    ensures
        in_app_dir(r@, "pending_image.png"@),
{
    let d = data_dir();
    join_path(d.as_str(), "pending_image.png")
}

/// Written by the clipboard helper once its offer is live.
pub fn serve_ready_path() -> (r: String)
    ensures
        in_app_dir(r@, "serve_ready"@),
{
    let d = data_dir();
    join_path(d.as_str(), "serve_ready")
}

pub fn serve_log_path() -> (r: String)
    ensures
        in_app_dir(r@, "serve.log"@),
{
    let d = data_dir();
    join_path(d.as_str(), "serve.log")
}

/// Optional user search keywords.
pub fn emoji_aliases_path() -> (r: String)
    ensures
        in_app_dir(r@, "emoji_aliases.toml"@),
{
    let d = config_dir();
    join_path(d.as_str(), "emoji_aliases.toml")
}

/// Optional installed copy of the emoji catalogue.
pub fn emojis_json_path() -> (r: String)
    ensures
        in_app_dir(r@, "emojis.json"@),
{
    let d = data_dir();
    join_path(d.as_str(), "emojis.json")
}

/// Is the session a Wayland one, given `XDG_SESSION_TYPE` (if set) and
/// whether `WAYLAND_DISPLAY` is set?
pub fn is_wayland_session(session_type: Option<&str>, wayland_display_set: bool) -> (r: bool)
    ensures
        r == ((session_type matches Some(t) && eq_ignore_ascii_case(t@, "wayland"@))
            || wayland_display_set),
{
    match session_type {
        Some(t) => {
            let tc = chars_of(t);
            let w = chars_of("wayland");
            if eq_ignore_case(tc.as_slice(), w.as_slice()) {
                return true;
            }
        },
        None => {},
    }
    wayland_display_set
}

} // verus!
