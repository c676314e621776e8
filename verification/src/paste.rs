//! Paste support: hotkey chords, terminal detection, the ordered list of
//! injection attempts, and the raw Linux input events that a chord becomes.
use vstd::prelude::*;

use crate::config::{Config, PasteMethod};
use crate::text::{
    ascii_lower, ascii_lower_chars, ascii_lower_seq, chars_of, char_ascii_lower, contains,
    contains_str, dec, dec_chars, eq_str, is_ascii_alnum, is_ascii_lower, is_one_byte, join,
    join_chars, lines, lines_of, parse_u32, parse_u32_spec, split_char, split_on_char, string_of,
    trim, trim_chars, trimmed_parts, trimmed_parts_of, utf8_len, views, from_utf8_lossy,
    utf8_lossy, append, strip_trailing, matches_at,
};

verus! {

// linux/input-event-codes.h
pub const EV_SYN: u16 = 0x00;
pub const EV_KEY: u16 = 0x01;
pub const SYN_REPORT: u16 = 0;
pub const KEY_LEFTCTRL: u16 = 29;
pub const KEY_LEFTSHIFT: u16 = 42;
pub const KEY_LEFTALT: u16 = 56;
pub const KEY_V: u16 = 47;
pub const KEY_LEFTMETA: u16 = 125;

/// A paste chord in both ydotool and uinput forms.
#[derive(Debug, Clone)]
pub struct Chord {
    /// e.g. `ctrl+v`, `super+v`, `ctrl+shift+v`
    pub ydotool: String,
    /// Linux keycodes pressed in order, released in reverse.
    pub keys: Vec<u16>,
}

impl Chord {
    /// The chord as plain values: its ydotool spelling and its key codes.
    pub open spec fn spec_value(self) -> (Seq<char>, Seq<u16>) {
        (self.ydotool@, self.keys@)
    }

    pub fn ctrl_v() -> (r: Chord)
        ensures
            r.spec_value() == spec_ctrl_v(),
    {
        Chord { ydotool: String::from_str("ctrl+v"), keys: vec![KEY_LEFTCTRL, KEY_V] }
    }

    pub fn ctrl_shift_v() -> (r: Chord)
        ensures
            r.spec_value() == spec_ctrl_shift_v(),
    {
        Chord {
            ydotool: String::from_str("ctrl+shift+v"),
            keys: vec![KEY_LEFTCTRL, KEY_LEFTSHIFT, KEY_V],
        }
    }

    /// A copy of this chord.
    pub fn duplicate(&self) -> (r: Chord)
        ensures
            r.spec_value() == self.spec_value(),
    {
        let mut keys: Vec<u16> = Vec::new();
        for i in 0..self.keys.len()
            invariant
                keys@ == self.keys@.take(i as int),
        {
            keys.push(self.keys[i]);
            assert(self.keys@.take(i + 1) == self.keys@.take(i as int).push(self.keys@[i as int]));
        }
        assert(self.keys@.take(self.keys@.len() as int) == self.keys@);
        Chord { ydotool: self.ydotool.clone(), keys }
    }
}

pub open spec fn spec_ctrl_v() -> (Seq<char>, Seq<u16>) {
    ("ctrl+v"@, seq![KEY_LEFTCTRL, KEY_V])
}

pub open spec fn spec_ctrl_shift_v() -> (Seq<char>, Seq<u16>) {
    ("ctrl+shift+v"@, seq![KEY_LEFTCTRL, KEY_LEFTSHIFT, KEY_V])
}

// ───────────────────────── hotkey parsing ─────────────────────────

/// Parsing state: modifier codes so far, the key (if seen), ydotool words.
pub type HotkeyState = (Seq<u16>, Option<u16>, Seq<Seq<char>>);

pub open spec fn is_super_word(l: Seq<char>) -> bool {
    l == "super"@ || l == "meta"@ || l == "win"@ || l == "cmd"@ || l == "command"@ || l == "logo"@
}

/// The Linux key code (`KEY_A` … `KEY_Z` of `input-event-codes.h`) of a
/// lowercase ASCII letter; the codes follow the keyboard rows.
pub open spec fn letter_key_code(c: char) -> u16 {
    match c {
        'a' => 30,
        'b' => 48,
        'c' => 46,
        'd' => 32,
        'e' => 18,
        'f' => 33,
        'g' => 34,
        'h' => 35,
        'i' => 23,
        'j' => 36,
        'k' => 37,
        'l' => 38,
        'm' => 50,
        'n' => 49,
        'o' => 24,
        'p' => 25,
        'q' => 16,
        'r' => 19,
        's' => 31,
        't' => 20,
        'u' => 22,
        'v' => 47,
        'w' => 17,
        'x' => 45,
        'y' => 21,
        'z' => 44,
        _ => 0,
    }
}

/// The letter whose key has Linux key code `code`: the kernel numbers the
/// letter keys row by row, `q`–`p` from 16, `a`–`l` from 30, `z`–`m` from 44.
pub open spec fn key_row_letter(code: u16) -> Option<char> {
    if 16 <= code <= 25 {
        Some("qwertyuiop"@[code - 16])
    } else if 30 <= code <= 38 {
        Some("asdfghjkl"@[code - 30])
    } else if 44 <= code <= 50 {
        Some("zxcvbnm"@[code - 44])
    } else {
        None
    }
}

/// Each letter key gets the key code of that letter on the keyboard: the
/// code's place in the kernel's keyboard rows is the letter itself; so no
/// two letters share a code, and no letter takes a modifier's code.
pub proof fn letter_codes_follow_keyboard_rows(c: char)
    requires
        is_ascii_lower(c),
    ensures
        key_row_letter(letter_key_code(c)) == Some(c),
        letter_key_code(c) != KEY_LEFTCTRL && letter_key_code(c) != KEY_LEFTSHIFT
            && letter_key_code(c) != KEY_LEFTALT && letter_key_code(c) != KEY_LEFTMETA,
{
    reveal_strlit("qwertyuiop");
    reveal_strlit("asdfghjkl");
    reveal_strlit("zxcvbnm");
}

/// The Linux key code of a lowercase ASCII letter.
pub fn letter_code(c: char) -> (r: u16)
    ensures
        r == letter_key_code(c),
{
    match c {
        'a' => 30,
        'b' => 48,
        'c' => 46,
        'd' => 32,
        'e' => 18,
        'f' => 33,
        'g' => 34,
        'h' => 35,
        'i' => 23,
        'j' => 36,
        'k' => 37,
        'l' => 38,
        'm' => 50,
        'n' => 49,
        'o' => 24,
        'p' => 25,
        'q' => 16,
        'r' => 19,
        's' => 31,
        't' => 20,
        'u' => 22,
        'v' => 47,
        'w' => 17,
        'x' => 45,
        'y' => 21,
        'z' => 44,
        _ => 0,
    }
}

/// One `+`-separated word of a paste hotkey; `None` rejects the hotkey.
pub open spec fn hotkey_step(st: HotkeyState, part: Seq<char>) -> Option<HotkeyState> {
    let l = ascii_lower_seq(part);
    if l == "ctrl"@ || l == "control"@ {
        Some((st.0.push(KEY_LEFTCTRL), st.1, st.2.push("ctrl"@)))
    } else if l == "shift"@ {
        Some((st.0.push(KEY_LEFTSHIFT), st.1, st.2.push("shift"@)))
    } else if l == "alt"@ || l == "option"@ {
        Some((st.0.push(KEY_LEFTALT), st.1, st.2.push("alt"@)))
    } else if is_super_word(l) {
        Some((st.0.push(KEY_LEFTMETA), st.1, st.2.push("super"@)))
    } else if l == "v"@ {
        Some((st.0, Some(KEY_V), st.2.push("v"@)))
    } else if utf8_len(l) == 1 {
        if is_ascii_lower(l[0]) {
            Some((st.0, Some(letter_key_code(l[0])), st.2.push(l)))
        } else {
            None
        }
    } else {
        None
    }
}

pub open spec fn hotkey_fold(parts: Seq<Seq<char>>) -> Option<HotkeyState>
    decreases parts.len(),
{
    if parts.len() == 0 {
        Some((Seq::empty(), None, Seq::empty()))
    } else {
        match hotkey_fold(parts.drop_last()) {
            Some(st) => hotkey_step(st, parts.last()),
            None => None,
        }
    }
}

/// What a paste hotkey such as `Ctrl+Shift+V` parses to: the ydotool
/// spelling (words joined by `+`) and the key codes (modifiers in order, then
/// the key). `None` when a word is unknown or no key is given.
pub open spec fn parse_hotkey_spec(s: Seq<char>) -> Option<(Seq<char>, Seq<u16>)> {
    match hotkey_fold(trimmed_parts(s, '+')) {
        Some((mods, Some(k), ydo)) => Some((join(ydo, "+"@), mods.push(k))),
        _ => None,
    }
}

proof fn lemma_fold_none_stays(parts: Seq<Seq<char>>, i: int)
    requires
        0 <= i <= parts.len(),
        hotkey_fold(parts.take(i)) is None,
    ensures
        hotkey_fold(parts) is None,
    decreases parts.len() - i,
{
    if i < parts.len() {
        assert(parts.take(i + 1).drop_last() == parts.take(i));
        lemma_fold_none_stays(parts, i + 1);
    } else {
        assert(parts.take(i) == parts);
    }
}

/// Parse user hotkeys like `Ctrl+V`, `Super+V`, `Ctrl+Shift+V`.
pub fn parse_hotkey(s: &str) -> (r: Option<Chord>)
    ensures
        match r {
            Some(c) => parse_hotkey_spec(s@) == Some(c.spec_value()),
            None => parse_hotkey_spec(s@) is None,
        },
{
    let sc = chars_of(s);
    let parts = trimmed_parts_of(sc.as_slice(), '+');
    let ghost ps = views(parts@);
    let mut mods: Vec<u16> = Vec::new();
    let mut key: Option<u16> = None;
    let mut ydo: Vec<Vec<char>> = Vec::new();
    assert(ps.take(0) == Seq::<Seq<char>>::empty());
    for i in 0..parts.len()
        invariant
            ps == views(parts@),
            ps == trimmed_parts(s@, '+'),
            hotkey_fold(ps.take(i as int)) == Some((mods@, key, views(ydo@))),
    {
        assert(ps.take(i + 1).drop_last() == ps.take(i as int));
        assert(ps.take(i + 1).last() == parts@[i as int]@);
        let l = ascii_lower_chars(parts[i].as_slice());
        let ghost old_ydo = ydo@;
        if eq_str(l.as_slice(), "ctrl") || eq_str(l.as_slice(), "control") {
            mods.push(KEY_LEFTCTRL);
            ydo.push(chars_of("ctrl"));
        } else if eq_str(l.as_slice(), "shift") {
            mods.push(KEY_LEFTSHIFT);
            ydo.push(chars_of("shift"));
        } else if eq_str(l.as_slice(), "alt") || eq_str(l.as_slice(), "option") {
            mods.push(KEY_LEFTALT);
            ydo.push(chars_of("alt"));
        } else if eq_str(l.as_slice(), "super") || eq_str(l.as_slice(), "meta") || eq_str(
            l.as_slice(),
            "win",
        ) || eq_str(l.as_slice(), "cmd") || eq_str(l.as_slice(), "command") || eq_str(
            l.as_slice(),
            "logo",
        ) {
            mods.push(KEY_LEFTMETA);
            ydo.push(chars_of("super"));
        } else if eq_str(l.as_slice(), "v") {
            key = Some(KEY_V);
            ydo.push(chars_of("v"));
        } else if is_one_byte(l.as_slice()) {
            let c = l[0];
            if 'a' <= c && c <= 'z' {
                let code: u16 = letter_code(c);
                key = Some(code);
                ydo.push(l);
            } else {
                proof {
                    lemma_fold_none_stays(ps, i + 1);
                }
                return None;
            }
        } else {
            proof {
                lemma_fold_none_stays(ps, i + 1);
            }
            return None;
        }
        assert(views(ydo@) =~= views(old_ydo).push(ydo@.last()@));
    }
    assert(ps.take(ps.len() as int) == ps);
    match key {
        Some(k) => {
            let plus = chars_of("+");
            let y = join_chars(&ydo, plus.as_slice());
            let mut keys = mods;
            keys.push(k);
            Some(Chord { ydotool: string_of(y.as_slice()), keys })
        },
        None => None,
    }
}

// ───────────────────────── terminal detection ─────────────────────────

pub open spec fn normalize_class_spec(raw: Seq<char>) -> Seq<char> {
    Seq::new(raw.len(), |i: int| if is_ascii_alnum(raw[i]) { ascii_lower(raw[i]) } else { '-' })
}

/// Lowercase ASCII letters and digits; every other character becomes `-`.
pub fn normalize_class(raw: &str) -> (r: String)
    ensures
        r@ == normalize_class_spec(raw@),
{
    let v = chars_of(raw);
    let mut out: Vec<char> = Vec::new();
    for i in 0..v.len()
        invariant
            out@ == normalize_class_spec(v@.take(i as int)),
    {
        let c = v[i];
        let m = if ('a' <= c && c <= 'z') || ('A' <= c && c <= 'Z') || ('0' <= c && c <= '9') {
            char_ascii_lower(c)
        } else {
            '-'
        };
        out.push(m);
        assert(normalize_class_spec(v@.take(i + 1)) =~= normalize_class_spec(v@.take(i as int)).push(m));
    }
    assert(v@.take(v@.len() as int) == v@);
    string_of(out.as_slice())
}

/// Does a normalized window class name a known terminal emulator?
pub open spec fn has_terminal_needle(cls: Seq<char>) -> bool {
    contains(cls, "terminal"@)
    || contains(cls, "kitty"@)
    || contains(cls, "alacritty"@)
    || contains(cls, "wezterm"@)
    || contains(cls, "foot"@)
    || contains(cls, "ghostty"@)
    || contains(cls, "xterm"@)
    || contains(cls, "konsole"@)
    || contains(cls, "terminator"@)
    || contains(cls, "ptyxis"@)
    || contains(cls, "warp"@)
    || contains(cls, "tilix"@)
    || contains(cls, "guake"@)
    || contains(cls, "tilda"@)
    || contains(cls, "hyper"@)
    || contains(cls, "rio"@)
    || contains(cls, "blackbox"@)
    || contains(cls, "console"@)
    || contains(cls, "gnome-terminal"@)
    || contains(cls, "org-gnome-terminal"@)
    || contains(cls, "org-gnome-ptyxis"@)
    || contains(cls, "com-mitchellh-ghostty"@)
}

pub open spec fn is_terminal_spec(raw: Seq<char>) -> bool {
    raw.len() > 0 && has_terminal_needle(normalize_class_spec(raw))
}

/// The terminal emulators recognised, as fragments of a normalized window
/// class: the generic `terminal` and `console`, and the emulators by name.
pub open spec fn terminal_needles() -> Seq<Seq<char>> {
    seq![
        "terminal"@, "kitty"@, "alacritty"@, "wezterm"@, "foot"@, "ghostty"@, "xterm"@,
        "konsole"@, "terminator"@, "ptyxis"@, "warp"@, "tilix"@, "guake"@, "tilda"@, "hyper"@,
        "rio"@, "blackbox"@, "console"@, "gnome-terminal"@, "org-gnome-terminal"@,
        "org-gnome-ptyxis"@, "com-mitchellh-ghostty"@,
    ]
}

/// Terminal detection recognises every listed emulator, and in particular
/// any window class that says `terminal` in any letter case (GNOME
/// Terminal's `org.gnome.Terminal`, `gnome-terminal-server`,
/// `xfce4-terminal`, …); and it recognises nothing else.
pub proof fn terminal_classes_detected(raw: Seq<char>)
    ensures
        forall|i: int|
            0 <= i < terminal_needles().len() && contains(normalize_class_spec(raw), #[trigger] terminal_needles()[i])
                ==> is_terminal_spec(raw),
        contains(ascii_lower_seq(raw), "terminal"@) ==> is_terminal_spec(raw),
        is_terminal_spec(raw) ==> exists|i: int|
            0 <= i < terminal_needles().len() && contains(normalize_class_spec(raw), #[trigger] terminal_needles()[i]),
{
    reveal_strlit("terminal");
    let n = normalize_class_spec(raw);
    let t = terminal_needles();
    assert(t.len() == 22);
    assert(t[0] == "terminal"@);
    assert forall|i: int| 0 <= i < t.len() && contains(n, #[trigger] t[i]) implies is_terminal_spec(raw) by {
        let j = choose|j: int| matches_at(n, t[i], j);
        assert(t[i].len() > 0) by {
            reveal_strlit("rio");
            reveal_strlit("foot");
            reveal_strlit("warp");
            reveal_strlit("hyper");
            reveal_strlit("kitty");
            reveal_strlit("xterm");
            reveal_strlit("tilix");
            reveal_strlit("guake");
            reveal_strlit("tilda");
            reveal_strlit("konsole");
            reveal_strlit("ghostty");
            reveal_strlit("wezterm");
            reveal_strlit("console");
            reveal_strlit("ptyxis");
            reveal_strlit("blackbox");
            reveal_strlit("alacritty");
            reveal_strlit("terminator");
            reveal_strlit("gnome-terminal");
            reveal_strlit("org-gnome-terminal");
            reveal_strlit("org-gnome-ptyxis");
            reveal_strlit("com-mitchellh-ghostty");
        }
        assert(n.len() > 0);
    }
    if contains(ascii_lower_seq(raw), "terminal"@) {
        let j = choose|j: int| matches_at(ascii_lower_seq(raw), "terminal"@, j);
        let l = ascii_lower_seq(raw);
        assert forall|k: int| j <= k < j + 8 implies n[k] == l[k] by {
            assert(l.subrange(j, j + 8)[k - j] == "terminal"@[k - j]);
            assert(is_ascii_lower(l[k]));
            assert(is_ascii_alnum(raw[k]));
        }
        assert(n.subrange(j, j + 8) =~= l.subrange(j, j + 8));
        assert(matches_at(n, "terminal"@, j));
        assert(contains(n, t[0]));
    }
    if is_terminal_spec(raw) {
        reveal_strlit("kitty");
        assert(t[1] == "kitty"@);
        assert(t[2] == "alacritty"@);
        assert(t[3] == "wezterm"@);
        assert(t[4] == "foot"@);
        assert(t[5] == "ghostty"@);
        assert(t[6] == "xterm"@);
        assert(t[7] == "konsole"@);
        assert(t[8] == "terminator"@);
        assert(t[9] == "ptyxis"@);
        assert(t[10] == "warp"@);
        assert(t[11] == "tilix"@);
        assert(t[12] == "guake"@);
        assert(t[13] == "tilda"@);
        assert(t[14] == "hyper"@);
        assert(t[15] == "rio"@);
        assert(t[16] == "blackbox"@);
        assert(t[17] == "console"@);
        assert(t[18] == "gnome-terminal"@);
        assert(t[19] == "org-gnome-terminal"@);
        assert(t[20] == "org-gnome-ptyxis"@);
        assert(t[21] == "com-mitchellh-ghostty"@);
    }
}

/// Does this window class look like a terminal emulator?
pub fn is_terminal_class(raw: &str) -> (r: bool)
    ensures
        r == is_terminal_spec(raw@),
{
    let rc = chars_of(raw);
    if rc.len() == 0 {
        return false;
    }
    let n = normalize_class(raw);
    let cv = chars_of(n.as_str());
    let cls = cv.as_slice();
    contains_str(cls, "terminal")
        || contains_str(cls, "kitty")
        || contains_str(cls, "alacritty")
        || contains_str(cls, "wezterm")
        || contains_str(cls, "foot")
        || contains_str(cls, "ghostty")
        || contains_str(cls, "xterm")
        || contains_str(cls, "konsole")
        || contains_str(cls, "terminator")
        || contains_str(cls, "ptyxis")
        || contains_str(cls, "warp")
        || contains_str(cls, "tilix")
        || contains_str(cls, "guake")
        || contains_str(cls, "tilda")
        || contains_str(cls, "hyper")
        || contains_str(cls, "rio")
        || contains_str(cls, "blackbox")
        || contains_str(cls, "console")
        || contains_str(cls, "gnome-terminal")
        || contains_str(cls, "org-gnome-terminal")
        || contains_str(cls, "org-gnome-ptyxis")
        || contains_str(cls, "com-mitchellh-ghostty")
}

// ───────────────────────── choosing chords ─────────────────────────

pub open spec fn chord_for(
    method: PasteMethod,
    primary: (Seq<char>, Seq<u16>),
    terminal: (Seq<char>, Seq<u16>),
    auto: (Seq<char>, Seq<u16>),
) -> (Seq<char>, Seq<u16>) {
    match method {
        PasteMethod::YdotoolAuto | PasteMethod::UinputAuto => auto,
        PasteMethod::YdotoolPrimary | PasteMethod::UinputPrimary => primary,
        PasteMethod::YdotoolTerminal | PasteMethod::UinputTerminal => terminal,
    }
}

/// The chord a paste method injects.
pub fn method_chord(method: PasteMethod, primary: &Chord, terminal: &Chord, auto: &Chord) -> (r:
    Chord)
    ensures
        r.spec_value() == chord_for(
            method,
            primary.spec_value(),
            terminal.spec_value(),
            auto.spec_value(),
        ),
{
    match method {
        PasteMethod::YdotoolAuto | PasteMethod::UinputAuto => auto.duplicate(),
        PasteMethod::YdotoolPrimary | PasteMethod::UinputPrimary => primary.duplicate(),
        PasteMethod::YdotoolTerminal | PasteMethod::UinputTerminal => terminal.duplicate(),
    }
}

pub open spec fn hotkey_or_default(h: Seq<char>, dflt: (Seq<char>, Seq<u16>)) -> (
    Seq<char>,
    Seq<u16>,
) {
    match parse_hotkey_spec(h) {
        Some(c) => c,
        None => dflt,
    }
}

/// Parse a configured hotkey, falling back to `dflt` when it does not parse.
fn hotkey_or(h: &str, dflt: Chord) -> (r: Chord)
    ensures
        r.spec_value() == hotkey_or_default(h@, dflt.spec_value()),
{
    match parse_hotkey(h) {
        Some(c) => c,
        None => dflt,
    }
}

/// The chord the automatic methods use: the terminal one when terminal
/// detection is on and either window class looks like a terminal.
pub open spec fn auto_chord(cfg: Config, before: Seq<char>, after: Seq<char>) -> (
    Seq<char>,
    Seq<u16>,
) {
    let primary = hotkey_or_default(cfg.paste_hotkey@, spec_ctrl_v());
    let terminal = hotkey_or_default(cfg.paste_hotkey_terminal@, spec_ctrl_shift_v());
    if cfg.paste_auto_terminal && (is_terminal_spec(before) || is_terminal_spec(after)) {
        terminal
    } else {
        primary
    }
}

/// The chord that `method` injects under configuration `cfg`.
pub open spec fn attempt_chord(
    cfg: Config,
    before: Seq<char>,
    after: Seq<char>,
    method: PasteMethod,
) -> (Seq<char>, Seq<u16>) {
    chord_for(
        method,
        hotkey_or_default(cfg.paste_hotkey@, spec_ctrl_v()),
        hotkey_or_default(cfg.paste_hotkey_terminal@, spec_ctrl_shift_v()),
        auto_chord(cfg, before, after),
    )
}

/// One paste injection to try.
#[derive(Debug, Clone)]
pub struct PasteAttempt {
    pub method: PasteMethod,
    pub chord: Chord,
}

/// The paste injections to try, in order (the first that succeeds wins):
/// one per configured method, with the chord that method uses given the
/// window class focused before the picker opened and the one focused now.
pub fn paste_attempts(cfg: &Config, focus_before: &str, focus_after: &str) -> (r: Vec<
    PasteAttempt,
>)
    ensures
        r@.len() == cfg.paste_methods@.len(),
        forall|i: int|
            0 <= i < r@.len() ==> {
                &&& (#[trigger] r@[i]).method == cfg.paste_methods@[i]
                &&& r@[i].chord.spec_value() == attempt_chord(
                    *cfg,
                    focus_before@,
                    focus_after@,
                    cfg.paste_methods@[i],
                )
            },
{
    let primary = hotkey_or(cfg.paste_hotkey.as_str(), Chord::ctrl_v());
    let terminal = hotkey_or(cfg.paste_hotkey_terminal.as_str(), Chord::ctrl_shift_v());
    let use_term = cfg.paste_auto_terminal && (is_terminal_class(focus_before)
        || is_terminal_class(focus_after));
    let auto = if use_term {
        terminal.duplicate()
    } else {
        primary.duplicate()
    };
    let mut r: Vec<PasteAttempt> = Vec::new();
    for i in 0..cfg.paste_methods.len()
        invariant
            primary.spec_value() == hotkey_or_default(cfg.paste_hotkey@, spec_ctrl_v()),
            terminal.spec_value() == hotkey_or_default(
                cfg.paste_hotkey_terminal@,
                spec_ctrl_shift_v(),
            ),
            auto.spec_value() == auto_chord(*cfg, focus_before@, focus_after@),
            r@.len() == i,
            forall|k: int|
                0 <= k < i ==> {
                    &&& (#[trigger] r@[k]).method == cfg.paste_methods@[k]
                    &&& r@[k].chord.spec_value() == attempt_chord(
                        *cfg,
                        focus_before@,
                        focus_after@,
                        cfg.paste_methods@[k],
                    )
                },
    {
        let m = cfg.paste_methods[i];
        let chord = method_chord(m, &primary, &terminal, &auto);
        r.push(PasteAttempt { method: m, chord });
    }
    r
}

/// How long to wait before injecting keys: the configured delay, capped at
/// half a second.
pub fn focus_delay_ms(cfg: &Config) -> (r: u64)
    ensures
        r == if cfg.paste_focus_delay_ms < 500 { cfg.paste_focus_delay_ms } else { 500 },
{
    if cfg.paste_focus_delay_ms < 500 {
        cfg.paste_focus_delay_ms
    } else {
        500
    }
}

/// How long the virtual keyboard settles: the configured time, capped at
/// 300 ms.
pub fn uinput_settle_ms(settle_ms: u64) -> (r: u64)
    ensures
        r == if settle_ms < 300 { settle_ms } else { 300 },
{
    if settle_ms < 300 {
        settle_ms
    } else {
        300
    }
}

/// Arguments of the `ydotool` command that types `chord`.
pub fn ydotool_key_args(cfg: &Config, chord: &str) -> (r: Vec<String>)
    ensures
        r@.len() == 6,
        r@[0]@ == "key"@,
        r@[1]@ == "--delay"@,
        r@[2]@ == dec(cfg.paste_ydotool_delay_ms as nat),
        r@[3]@ == "--key-delay"@,
        r@[4]@ == dec(cfg.paste_ydotool_key_delay_ms as nat),
        r@[5]@ == chord@,
{
    let pre = dec_chars(cfg.paste_ydotool_delay_ms);
    let stroke = dec_chars(cfg.paste_ydotool_key_delay_ms);
    let mut r: Vec<String> = Vec::new();
    r.push(String::from_str("key"));
    r.push(String::from_str("--delay"));
    r.push(string_of(pre.as_slice()));
    r.push(String::from_str("--key-delay"));
    r.push(string_of(stroke.as_slice()));
    r.push(String::from_str(chord));
    r
}

// ───────────────────────── input events ─────────────────────────

/// One Linux input event: type, code and value.
pub type InputEventSpec = (u16, u16, i32);

/// The events that type a chord: every key pressed in order, a sync, every
/// key released in reverse order, and a final sync.
pub open spec fn chord_event_seq(keys: Seq<u16>) -> Seq<InputEventSpec> {
    Seq::new(keys.len(), |i: int| (EV_KEY, keys[i], 1i32)) + seq![(EV_SYN, SYN_REPORT, 0i32)]
        + Seq::new(keys.len(), |i: int| (EV_KEY, keys[keys.len() - 1 - i], 0i32)) + seq![
        (EV_SYN, SYN_REPORT, 0i32),
    ]
}

/// The input events of a chord; `None` for an empty chord.
pub fn chord_events(keys: &[u16]) -> (r: Option<Vec<(u16, u16, i32)>>)
    ensures
        keys@.len() == 0 <==> r is None,
        r matches Some(ev) ==> ev@ == chord_event_seq(keys@),
{
    if keys.len() == 0 {
        return None;
    }
    let n = keys.len();
    let mut ev: Vec<(u16, u16, i32)> = Vec::new();
    for i in 0..n
        invariant
            n == keys@.len(),
            ev@ == Seq::new(i as nat, |k: int| (EV_KEY, keys@[k], 1i32)),
    {
        ev.push((EV_KEY, keys[i], 1));
        assert(ev@ =~= Seq::new((i + 1) as nat, |k: int| (EV_KEY, keys@[k], 1i32)));
    }
    ev.push((EV_SYN, SYN_REPORT, 0));
    let ghost pressed = ev@;
    for j in 0..n
        invariant
            n == keys@.len(),
            ev@ == pressed + Seq::new(j as nat, |k: int| (EV_KEY, keys@[n - 1 - k], 0i32)),
    {
        ev.push((EV_KEY, keys[n - 1 - j], 0));
        assert(ev@ =~= pressed + Seq::new((j + 1) as nat, |k: int| (EV_KEY, keys@[n - 1 - k], 0i32)));
    }
    ev.push((EV_SYN, SYN_REPORT, 0));
    assert(ev@ =~= chord_event_seq(keys@));
    Some(ev)
}

// ───────────────────────── focus file ─────────────────────────

/// `/run/user/<uid>/keyd-last-focus`.
pub fn keyd_focus_path(uid: u32) -> (r: String)
    ensures
        r@ == "/run/user/"@ + dec(uid as nat) + "/keyd-last-focus"@,
{
    let mut v = chars_of("/run/user/");
    let d = dec_chars(uid as u64);
    append(&mut v, d.as_slice());
    let tail = chars_of("/keyd-last-focus");
    append(&mut v, tail.as_slice());
    string_of(v.as_slice())
}

/// The window class recorded in the focus file: the first tab-separated
/// field of its first line (empty when the file is empty).
pub open spec fn focus_class_spec(contents: Seq<char>) -> Seq<char> {
    let ls = lines(contents);
    if ls.len() == 0 {
        Seq::empty()
    } else {
        split_char(ls[0], '\t')[0]
    }
}

pub fn focus_class_from(contents: &str) -> (r: String)
    ensures
        r@ == focus_class_spec(contents@),
{
    let v = chars_of(contents);
    let ls = lines_of(v.as_slice());
    if ls.len() == 0 {
        return String::new();
    }
    let fields = split_on_char(ls[0].as_slice(), '\t');
    proof {
        crate::text::lemma_split_marked_len(ls@[0]@, crate::text::marks_char(ls@[0]@, '\t'));
    }
    assert(views(ls@)[0] == ls@[0]@);
    assert(views(fields@)[0] == fields@[0]@);
    string_of(fields[0].as_slice())
}

/// The user id printed by `id -u`, or 1000 when it does not parse.
pub fn uid_from_output(stdout: &[u8]) -> (r: u32)
    ensures
        r == match parse_u32_spec(trim(utf8_lossy(stdout@))) {
            Some(v) => v,
            None => 1000,
        },
{
    let s = from_utf8_lossy(stdout);
    let v = chars_of(s.as_str());
    let t = trim_chars(v.as_slice());
    match parse_u32(t.as_slice()) {
        Some(u) => u,
        None => 1000,
    }
}

/// Does what the clipboard echoes back match the text that was claimed?
/// Trailing line breaks are ignored.
pub fn clipboard_matches(got: &str, expected: &str) -> (r: bool)
    ensures
        r == (got@ == expected@ || strip_trailing(got@, '\n') == strip_trailing(
            expected@,
            '\n',
        )),
{
    let g = chars_of(got);
    let e = chars_of(expected);
    if crate::text::eq(g.as_slice(), e.as_slice()) {
        return true;
    }
    let gs = crate::text::strip_trailing_chars(g.as_slice(), '\n');
    let es = crate::text::strip_trailing_chars(e.as_slice(), '\n');
    crate::text::eq(gs.as_slice(), es.as_slice())
}

// ───────────────────────── uinput records ─────────────────────────

/// The `n` low bytes of `v`, least significant first.
pub open spec fn le_bytes(v: nat, n: nat) -> Seq<u8>
    decreases n,
{
    if n == 0 {
        Seq::empty()
    } else {
        seq![(v % 256) as u8] + le_bytes(v / 256, (n - 1) as nat)
    }
}

/// The `n` low bytes of `v` in the machine's byte order.
pub open spec fn ne_bytes(v: nat, n: nat, little: bool) -> Seq<u8> {
    if little {
        le_bytes(v, n)
    } else {
        le_bytes(v, n).reverse()
    }
}

/// The two's-complement value of a signed number as `bits` bits.
pub open spec fn unsigned_of(v: int, bits: nat) -> nat {
    if v < 0 {
        (v + vstd::arithmetic::power2::pow2(bits)) as nat
    } else {
        v as nat
    }
}

fn ne_bytes_exec(v: u64, n: usize, little: bool, out: &mut Vec<u8>)
    requires
        n <= 8,
    ensures
        final(out)@ == old(out)@ + ne_bytes(v as nat, n as nat, little),
{
    let mut tmp: Vec<u8> = Vec::new();
    let mut cur: u64 = v;
    let mut k: usize = 0;
    while k < n
        invariant
            k <= n,
            tmp@ + le_bytes(cur as nat, (n - k) as nat) == le_bytes(v as nat, n as nat),
        decreases n - k,
    {
        let ghost before = tmp@;
        tmp.push((cur % 256) as u8);
        assert(le_bytes(cur as nat, (n - k) as nat) == seq![(cur % 256) as u8] + le_bytes(
            (cur / 256) as nat,
            (n - k - 1) as nat,
        ));
        assert(tmp@ + le_bytes((cur / 256) as nat, (n - k - 1) as nat) == before + le_bytes(
            cur as nat,
            (n - k) as nat,
        ));
        cur = cur / 256;
        k = k + 1;
    }
    assert(tmp@ == le_bytes(v as nat, n as nat));
    if little {
        let ghost start = out@;
        for i in 0..tmp.len()
            invariant
                out@ == start + tmp@.take(i as int),
        {
            out.push(tmp[i]);
            assert(tmp@.take(i + 1) == tmp@.take(i as int).push(tmp@[i as int]));
        }
        assert(tmp@.take(tmp@.len() as int) == tmp@);
    } else {
        let ghost start = out@;
        let len = tmp.len();
        for i in 0..len
            invariant
                len == tmp@.len(),
                out@ == start + tmp@.reverse().take(i as int),
        {
            out.push(tmp[len - 1 - i]);
            assert(tmp@.reverse().take(i + 1) == tmp@.reverse().take(i as int).push(
                tmp@[len - 1 - i],
            ));
        }
        assert(tmp@.reverse().take(len as int) == tmp@.reverse());
    }
}

/// The bytes of an `input_event` record: seconds, microseconds, type, code
/// and value in the machine's byte order.
pub open spec fn input_event_bytes(sec: i64, usec: i64, etype: u16, code: u16, value: i32, little: bool) -> Seq<u8> {
    ne_bytes(unsigned_of(sec as int, 64), 8, little) + ne_bytes(unsigned_of(usec as int, 64), 8, little)
        + ne_bytes(etype as nat, 2, little) + ne_bytes(code as nat, 2, little) + ne_bytes(
        unsigned_of(value as int, 32),
        4,
        little,
    )
}

fn u64_of_i64(v: i64) -> (r: u64)
    ensures
        r == unsigned_of(v as int, 64),
{
    proof {
        vstd::arithmetic::power2::lemma2_to64();
    }
    if v < 0 {
        (v as i128 + 0x1_0000_0000_0000_0000i128) as u64
    } else {
        v as u64
    }
}

fn u64_of_i32(v: i32) -> (r: u64)
    ensures
        r == unsigned_of(v as int, 32),
{
    proof {
        vstd::arithmetic::power2::lemma2_to64();
    }
    if v < 0 {
        (v as i64 + 0x1_0000_0000i64) as u64
    } else {
        v as u64
    }
}

/// An `input_event` record for a given time and byte order.
pub fn pack_input_event_with(sec: i64, usec: i64, etype: u16, code: u16, value: i32, little: bool) -> (r: Vec<u8>)
    ensures
        r@ == input_event_bytes(sec, usec, etype, code, value, little),
        r@.len() == 24,
{
    let mut buf: Vec<u8> = Vec::new();
    ne_bytes_exec(u64_of_i64(sec), 8, little, &mut buf);
    ne_bytes_exec(u64_of_i64(usec), 8, little, &mut buf);
    ne_bytes_exec(etype as u64, 2, little, &mut buf);
    ne_bytes_exec(code as u64, 2, little, &mut buf);
    ne_bytes_exec(u64_of_i32(value), 4, little, &mut buf);
    proof {
        lemma_le_bytes_len(unsigned_of(sec as int, 64), 8);
        lemma_le_bytes_len(unsigned_of(usec as int, 64), 8);
        lemma_le_bytes_len(etype as nat, 2);
        lemma_le_bytes_len(code as nat, 2);
        lemma_le_bytes_len(unsigned_of(value as int, 32), 4);
    }
    buf
}

proof fn lemma_le_bytes_len(v: nat, n: nat)
    ensures
        le_bytes(v, n).len() == n,
    decreases n,
{
    if n > 0 {
        lemma_le_bytes_len(v / 256, (n - 1) as nat);
    }
}

/// `1u16.to_ne_bytes()`: how this machine orders the bytes of a number,
/// `[1, 0]` when it stores the least significant byte first and `[0, 1]`
/// when it stores the most significant first. Which of the two is not
/// stated: it is the machine's.
#[verifier::external_body]
fn one_in_native_order() -> (r: [u8; 2])
    ensures
        (r@[0] == 1 && r@[1] == 0) || (r@[0] == 0 && r@[1] == 1),
{
    1u16.to_ne_bytes()
}

/// Does this machine store numbers least significant byte first?
fn native_little_endian() -> (r: bool) {
    let b = one_in_native_order();
    b[0] == 1
}

/// An `input_event` record stamped with the current time.
pub fn pack_input_event(etype: u16, code: u16, value: i32) -> (r: Vec<u8>)
    ensures
        exists|sec: i64, usec: i64, little: bool|
            r@ == input_event_bytes(sec, usec, etype, code, value, little),
        r@.len() == 24,
{
    let (sec, usec): (i64, i64) = match crate::storage::since_epoch() {
        Some(t) => (t.0 as i64, t.1 as i64),
        None => (0, 0),
    };
    let little = native_little_endian();
    pack_input_event_with(sec, usec, etype, code, value, little)
}

/// Longest device name (with its terminating zero byte).
pub const UINPUT_MAX_NAME_SIZE: usize = 80;

/// The name field of `uinput_setup`: the first bytes of the name (at most
/// 79) padded with zeros to 80 bytes.
pub open spec fn name_field(name: Seq<u8>) -> Seq<u8> {
    let n: int = if name.len() < 79 {
        name.len() as int
    } else {
        79
    };
    name.take(n) + Seq::new((80 - n) as nat, |i: int| 0u8)
}

/// The bytes of a `uinput_setup` record: USB bus, vendor 1, product 1,
/// version 1, the name, and no force-feedback effects.
pub open spec fn uinput_setup_bytes(name: Seq<u8>, little: bool) -> Seq<u8> {
    ne_bytes(3, 2, little) + ne_bytes(1, 2, little) + ne_bytes(1, 2, little) + ne_bytes(1, 2, little)
        + name_field(name) + ne_bytes(0, 4, little)
}

/// A `uinput_setup` record for a given byte order.
pub fn pack_uinput_setup_with(name: &str, little: bool) -> (r: Vec<u8>)
    ensures
        r@ == uinput_setup_bytes(vstd::utf8::encode_utf8(name@), little),
{
    let raw = name.as_bytes();
    let mut buf: Vec<u8> = Vec::new();
    ne_bytes_exec(3, 2, little, &mut buf);
    ne_bytes_exec(1, 2, little, &mut buf);
    ne_bytes_exec(1, 2, little, &mut buf);
    ne_bytes_exec(1, 2, little, &mut buf);
    let n: usize = if raw.len() < 79 {
        raw.len()
    } else {
        79
    };
    let ghost head = buf@;
    for i in 0..n
        invariant
            n <= raw@.len(),
            buf@ == head + raw@.take(i as int),
    {
        buf.push(raw[i]);
        assert(raw@.take(i + 1) == raw@.take(i as int).push(raw@[i as int]));
    }
    let ghost mid = buf@;
    for j in 0..(80 - n)
        invariant
            buf@ == mid + Seq::new(j as nat, |i: int| 0u8),
    {
        buf.push(0);
        assert(buf@ =~= mid + Seq::new((j + 1) as nat, |i: int| 0u8));
    }
    assert(raw@ == vstd::utf8::encode_utf8(name@));
    assert(buf@ =~= head + name_field(raw@));
    ne_bytes_exec(0, 4, little, &mut buf);
    buf
}

/// The `uinput_setup` record of the virtual keyboard, in this machine's
/// byte order.
pub fn pack_uinput_setup(name: &str) -> (r: Vec<u8>)
    ensures
        exists|little: bool| r@ == uinput_setup_bytes(vstd::utf8::encode_utf8(name@), little),
{
    let little = native_little_endian();
    pack_uinput_setup_with(name, little)
}

} // verus!
