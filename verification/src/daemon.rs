//! Decisions of the background watcher: global hotkey strings, which picker
//! a hotkey event launches, and when a clipboard item is new.
use vstd::prelude::*;

use crate::config::opt_view;
use crate::text::{chars_of, eq, eq_str, lower_chars, lower_text, trimmed_parts, trimmed_parts_of, views};

verus! {

/// Physical keys a global hotkey can use.
#[derive(Debug, Clone, Copy, PartialEq, Eq, Structural)]
pub enum KeyCode {
    KeyA,
    KeyB,
    KeyC,
    KeyD,
    KeyE,
    KeyF,
    KeyG,
    KeyH,
    KeyI,
    KeyJ,
    KeyK,
    KeyL,
    KeyM,
    KeyN,
    KeyO,
    KeyP,
    KeyQ,
    KeyR,
    KeyS,
    KeyT,
    KeyU,
    KeyV,
    KeyW,
    KeyX,
    KeyY,
    KeyZ,
    Digit0,
    Digit1,
    Digit2,
    Digit3,
    Digit4,
    Digit5,
    Digit6,
    Digit7,
    Digit8,
    Digit9,
    F1,
    F2,
    F3,
    F4,
    F5,
    F6,
    F7,
    F8,
    F9,
    F10,
    F11,
    F12,
    Space,
    Enter,
    Tab,
    Escape,
    Backspace,
    Delete,
    Period,
    Comma,
    Slash,
    Backslash,
    Minus,
    Equal,
    Semicolon,
    Quote,
    Backquote,
    BracketLeft,
    BracketRight,
    ArrowUp,
    ArrowDown,
    ArrowLeft,
    ArrowRight,
    Home,
    End,
    PageUp,
    PageDown,
}

/// A global hotkey: modifier keys plus one key.
#[derive(Debug, Clone, Copy, PartialEq, Eq, Structural)]
pub struct HotKey {
    pub super_key: bool,
    pub control: bool,
    pub shift: bool,
    pub alt: bool,
    pub code: KeyCode,
}

/// The key a (lowercase) key word names.
pub open spec fn code_of(k: Seq<char>) -> Option<KeyCode> {
    if k == "a"@ {
        Some(KeyCode::KeyA)
    } else if k == "b"@ {
        Some(KeyCode::KeyB)
    } else if k == "c"@ {
        Some(KeyCode::KeyC)
    } else if k == "d"@ {
        Some(KeyCode::KeyD)
    } else if k == "e"@ {
        Some(KeyCode::KeyE)
    } else if k == "f"@ {
        Some(KeyCode::KeyF)
    } else if k == "g"@ {
        Some(KeyCode::KeyG)
    } else if k == "h"@ {
        Some(KeyCode::KeyH)
    } else if k == "i"@ {
        Some(KeyCode::KeyI)
    } else if k == "j"@ {
        Some(KeyCode::KeyJ)
    } else if k == "k"@ {
        Some(KeyCode::KeyK)
    } else if k == "l"@ {
        Some(KeyCode::KeyL)
    } else if k == "m"@ {
        Some(KeyCode::KeyM)
    } else if k == "n"@ {
        Some(KeyCode::KeyN)
    } else if k == "o"@ {
        Some(KeyCode::KeyO)
    } else if k == "p"@ {
        Some(KeyCode::KeyP)
    } else if k == "q"@ {
        Some(KeyCode::KeyQ)
    } else if k == "r"@ {
        Some(KeyCode::KeyR)
    } else if k == "s"@ {
        Some(KeyCode::KeyS)
    } else if k == "t"@ {
        Some(KeyCode::KeyT)
    } else if k == "u"@ {
        Some(KeyCode::KeyU)
    } else if k == "v"@ {
        Some(KeyCode::KeyV)
    } else if k == "w"@ {
        Some(KeyCode::KeyW)
    } else if k == "x"@ {
        Some(KeyCode::KeyX)
    } else if k == "y"@ {
        Some(KeyCode::KeyY)
    } else if k == "z"@ {
        Some(KeyCode::KeyZ)
    } else if k == "0"@ {
        Some(KeyCode::Digit0)
    } else if k == "1"@ {
        Some(KeyCode::Digit1)
    } else if k == "2"@ {
        Some(KeyCode::Digit2)
    } else if k == "3"@ {
        Some(KeyCode::Digit3)
    } else if k == "4"@ {
        Some(KeyCode::Digit4)
    } else if k == "5"@ {
        Some(KeyCode::Digit5)
    } else if k == "6"@ {
        Some(KeyCode::Digit6)
    } else if k == "7"@ {
        Some(KeyCode::Digit7)
    } else if k == "8"@ {
        Some(KeyCode::Digit8)
    } else if k == "9"@ {
        Some(KeyCode::Digit9)
    } else if k == "f1"@ {
        Some(KeyCode::F1)
    } else if k == "f2"@ {
        Some(KeyCode::F2)
    } else if k == "f3"@ {
        Some(KeyCode::F3)
    } else if k == "f4"@ {
        Some(KeyCode::F4)
    } else if k == "f5"@ {
        Some(KeyCode::F5)
    } else if k == "f6"@ {
        Some(KeyCode::F6)
    } else if k == "f7"@ {
        Some(KeyCode::F7)
    } else if k == "f8"@ {
        Some(KeyCode::F8)
    } else if k == "f9"@ {
        Some(KeyCode::F9)
    } else if k == "f10"@ {
        Some(KeyCode::F10)
    } else if k == "f11"@ {
        Some(KeyCode::F11)
    } else if k == "f12"@ {
        Some(KeyCode::F12)
    } else if k == "space"@ {
        Some(KeyCode::Space)
    } else if k == "enter"@ || k == "return"@ {
        Some(KeyCode::Enter)
    } else if k == "tab"@ {
        Some(KeyCode::Tab)
    } else if k == "escape"@ || k == "esc"@ {
        Some(KeyCode::Escape)
    } else if k == "backspace"@ {
        Some(KeyCode::Backspace)
    } else if k == "delete"@ {
        Some(KeyCode::Delete)
    } else if k == "period"@ || k == "."@ {
        Some(KeyCode::Period)
    } else if k == "comma"@ || k == ","@ {
        Some(KeyCode::Comma)
    } else if k == "slash"@ || k == "/"@ {
        Some(KeyCode::Slash)
    } else if k == "backslash"@ || k == "\\"@ {
        Some(KeyCode::Backslash)
    } else if k == "minus"@ || k == "-"@ {
        Some(KeyCode::Minus)
    } else if k == "equal"@ || k == "="@ {
        Some(KeyCode::Equal)
    } else if k == "semicolon"@ || k == ";"@ {
        Some(KeyCode::Semicolon)
    } else if k == "quote"@ || k == "'"@ {
        Some(KeyCode::Quote)
    } else if k == "backquote"@ || k == "`"@ {
        Some(KeyCode::Backquote)
    } else if k == "bracketleft"@ || k == "["@ {
        Some(KeyCode::BracketLeft)
    } else if k == "bracketright"@ || k == "]"@ {
        Some(KeyCode::BracketRight)
    } else if k == "up"@ {
        Some(KeyCode::ArrowUp)
    } else if k == "down"@ {
        Some(KeyCode::ArrowDown)
    } else if k == "left"@ {
        Some(KeyCode::ArrowLeft)
    } else if k == "right"@ {
        Some(KeyCode::ArrowRight)
    } else if k == "home"@ {
        Some(KeyCode::Home)
    } else if k == "end"@ {
        Some(KeyCode::End)
    } else if k == "pageup"@ {
        Some(KeyCode::PageUp)
    } else if k == "pagedown"@ {
        Some(KeyCode::PageDown)
    } else {
        None
    }
}

/// Map a lowercase key word to its key.
pub fn parse_code(k: &[char]) -> (r: Option<KeyCode>)
    ensures
        r == code_of(k@),
{
    if eq_str(k, "a") {
        Some(KeyCode::KeyA)
    } else if eq_str(k, "b") {
        Some(KeyCode::KeyB)
    } else if eq_str(k, "c") {
        Some(KeyCode::KeyC)
    } else if eq_str(k, "d") {
        Some(KeyCode::KeyD)
    } else if eq_str(k, "e") {
        Some(KeyCode::KeyE)
    } else if eq_str(k, "f") {
        Some(KeyCode::KeyF)
    } else if eq_str(k, "g") {
        Some(KeyCode::KeyG)
    } else if eq_str(k, "h") {
        Some(KeyCode::KeyH)
    } else if eq_str(k, "i") {
        Some(KeyCode::KeyI)
    } else if eq_str(k, "j") {
        Some(KeyCode::KeyJ)
    } else if eq_str(k, "k") {
        Some(KeyCode::KeyK)
    } else if eq_str(k, "l") {
        Some(KeyCode::KeyL)
    } else if eq_str(k, "m") {
        Some(KeyCode::KeyM)
    } else if eq_str(k, "n") {
        Some(KeyCode::KeyN)
    } else if eq_str(k, "o") {
        Some(KeyCode::KeyO)
    } else if eq_str(k, "p") {
        Some(KeyCode::KeyP)
    } else if eq_str(k, "q") {
        Some(KeyCode::KeyQ)
    } else if eq_str(k, "r") {
        Some(KeyCode::KeyR)
    } else if eq_str(k, "s") {
        Some(KeyCode::KeyS)
    } else if eq_str(k, "t") {
        Some(KeyCode::KeyT)
    } else if eq_str(k, "u") {
        Some(KeyCode::KeyU)
    } else if eq_str(k, "v") {
        Some(KeyCode::KeyV)
    } else if eq_str(k, "w") {
        Some(KeyCode::KeyW)
    } else if eq_str(k, "x") {
        Some(KeyCode::KeyX)
    } else if eq_str(k, "y") {
        Some(KeyCode::KeyY)
    } else if eq_str(k, "z") {
        Some(KeyCode::KeyZ)
    } else if eq_str(k, "0") {
        Some(KeyCode::Digit0)
    } else if eq_str(k, "1") {
        Some(KeyCode::Digit1)
    } else if eq_str(k, "2") {
        Some(KeyCode::Digit2)
    } else if eq_str(k, "3") {
        Some(KeyCode::Digit3)
    } else if eq_str(k, "4") {
        Some(KeyCode::Digit4)
    } else if eq_str(k, "5") {
        Some(KeyCode::Digit5)
    } else if eq_str(k, "6") {
        Some(KeyCode::Digit6)
    } else if eq_str(k, "7") {
        Some(KeyCode::Digit7)
    } else if eq_str(k, "8") {
        Some(KeyCode::Digit8)
    } else if eq_str(k, "9") {
        Some(KeyCode::Digit9)
    } else if eq_str(k, "f1") {
        Some(KeyCode::F1)
    } else if eq_str(k, "f2") {
        Some(KeyCode::F2)
    } else if eq_str(k, "f3") {
        Some(KeyCode::F3)
    } else if eq_str(k, "f4") {
        Some(KeyCode::F4)
    } else if eq_str(k, "f5") {
        Some(KeyCode::F5)
    } else if eq_str(k, "f6") {
        Some(KeyCode::F6)
    } else if eq_str(k, "f7") {
        Some(KeyCode::F7)
    } else if eq_str(k, "f8") {
        Some(KeyCode::F8)
    } else if eq_str(k, "f9") {
        Some(KeyCode::F9)
    } else if eq_str(k, "f10") {
        Some(KeyCode::F10)
    } else if eq_str(k, "f11") {
        Some(KeyCode::F11)
    } else if eq_str(k, "f12") {
        Some(KeyCode::F12)
    } else if eq_str(k, "space") {
        Some(KeyCode::Space)
    } else if eq_str(k, "enter") || eq_str(k, "return") {
        Some(KeyCode::Enter)
    } else if eq_str(k, "tab") {
        Some(KeyCode::Tab)
    } else if eq_str(k, "escape") || eq_str(k, "esc") {
        Some(KeyCode::Escape)
    } else if eq_str(k, "backspace") {
        Some(KeyCode::Backspace)
    } else if eq_str(k, "delete") {
        Some(KeyCode::Delete)
    } else if eq_str(k, "period") || eq_str(k, ".") {
        Some(KeyCode::Period)
    } else if eq_str(k, "comma") || eq_str(k, ",") {
        Some(KeyCode::Comma)
    } else if eq_str(k, "slash") || eq_str(k, "/") {
        Some(KeyCode::Slash)
    } else if eq_str(k, "backslash") || eq_str(k, "\\") {
        Some(KeyCode::Backslash)
    } else if eq_str(k, "minus") || eq_str(k, "-") {
        Some(KeyCode::Minus)
    } else if eq_str(k, "equal") || eq_str(k, "=") {
        Some(KeyCode::Equal)
    } else if eq_str(k, "semicolon") || eq_str(k, ";") {
        Some(KeyCode::Semicolon)
    } else if eq_str(k, "quote") || eq_str(k, "'") {
        Some(KeyCode::Quote)
    } else if eq_str(k, "backquote") || eq_str(k, "`") {
        Some(KeyCode::Backquote)
    } else if eq_str(k, "bracketleft") || eq_str(k, "[") {
        Some(KeyCode::BracketLeft)
    } else if eq_str(k, "bracketright") || eq_str(k, "]") {
        Some(KeyCode::BracketRight)
    } else if eq_str(k, "up") {
        Some(KeyCode::ArrowUp)
    } else if eq_str(k, "down") {
        Some(KeyCode::ArrowDown)
    } else if eq_str(k, "left") {
        Some(KeyCode::ArrowLeft)
    } else if eq_str(k, "right") {
        Some(KeyCode::ArrowRight)
    } else if eq_str(k, "home") {
        Some(KeyCode::Home)
    } else if eq_str(k, "end") {
        Some(KeyCode::End)
    } else if eq_str(k, "pageup") {
        Some(KeyCode::PageUp)
    } else if eq_str(k, "pagedown") {
        Some(KeyCode::PageDown)
    } else {
        None
    }
}

/// Modifier flags so far (super, control, shift, alt) and the key so far.
pub type HotkeyParse = (bool, bool, bool, bool, Option<KeyCode>);

pub open spec fn hotkey_parse_step(st: HotkeyParse, part: Seq<char>) -> Option<HotkeyParse> {
    let k = lower_text(part);
    if k == "super"@ || k == "meta"@ || k == "win"@ || k == "cmd"@ || k == "command"@ {
        Some((true, st.1, st.2, st.3, st.4))
    } else if k == "ctrl"@ || k == "control"@ {
        Some((st.0, true, st.2, st.3, st.4))
    } else if k == "shift"@ {
        Some((st.0, st.1, true, st.3, st.4))
    } else if k == "alt"@ || k == "option"@ {
        Some((st.0, st.1, st.2, true, st.4))
    } else {
        match code_of(k) {
            Some(c) => Some((st.0, st.1, st.2, st.3, Some(c))),
            None => None,
        }
    }
}

pub open spec fn hotkey_parse_fold(parts: Seq<Seq<char>>) -> Option<HotkeyParse>
    decreases parts.len(),
{
    if parts.len() == 0 {
        Some((false, false, false, false, None))
    } else {
        match hotkey_parse_fold(parts.drop_last()) {
            Some(st) => hotkey_parse_step(st, parts.last()),
            None => None,
        }
    }
}

/// The hotkey a string like `Super+Shift+Period` names: the modifiers it
/// mentions and its last key. `None` when a word names no key or modifier,
/// or no key is given.
pub open spec fn parse_hotkey_spec(s: Seq<char>) -> Option<HotKey> {
    match hotkey_parse_fold(trimmed_parts(s, '+')) {
        Some((su, c, sh, a, Some(code))) => Some(
            HotKey { super_key: su, control: c, shift: sh, alt: a, code },
        ),
        _ => None,
    }
}

proof fn lemma_parse_fold_none_stays(parts: Seq<Seq<char>>, i: int)
    requires
        0 <= i <= parts.len(),
        hotkey_parse_fold(parts.take(i)) is None,
    ensures
        hotkey_parse_fold(parts) is None,
    decreases parts.len() - i,
{
    if i < parts.len() {
        assert(parts.take(i + 1).drop_last() == parts.take(i));
        lemma_parse_fold_none_stays(parts, i + 1);
    } else {
        assert(parts.take(i) == parts);
    }
}

/// Parse a human hotkey string like "Super+Shift+Period" or "Ctrl+Alt+V".
pub fn parse_hotkey(s: &str) -> (r: Option<HotKey>)
    ensures
        r == parse_hotkey_spec(s@),
{
    let sc = chars_of(s);
    let parts = trimmed_parts_of(sc.as_slice(), '+');
    let ghost ps = views(parts@);
    let mut su = false;
    let mut c = false;
    let mut sh = false;
    let mut a = false;
    let mut code: Option<KeyCode> = None;
    assert(ps.take(0) == Seq::<Seq<char>>::empty());
    for i in 0..parts.len()
        invariant
            ps == views(parts@),
            ps == trimmed_parts(s@, '+'),
            hotkey_parse_fold(ps.take(i as int)) == Some((su, c, sh, a, code)),
    {
        assert(ps.take(i + 1).drop_last() == ps.take(i as int));
        assert(ps.take(i + 1).last() == parts@[i as int]@);
        let k = lower_chars(parts[i].as_slice());
        let ks = k.as_slice();
        if eq_str(ks, "super") || eq_str(ks, "meta") || eq_str(ks, "win") || eq_str(ks, "cmd")
            || eq_str(ks, "command") {
            su = true;
        } else if eq_str(ks, "ctrl") || eq_str(ks, "control") {
            c = true;
        } else if eq_str(ks, "shift") {
            sh = true;
        } else if eq_str(ks, "alt") || eq_str(ks, "option") {
            a = true;
        } else {
            match parse_code(ks) {
                Some(k2) => {
                    code = Some(k2);
                },
                None => {
                    proof {
                        lemma_parse_fold_none_stays(ps, i + 1);
                    }
                    return None;
                },
            }
        }
    }
    assert(ps.take(ps.len() as int) == ps);
    match code {
        Some(k) => Some(HotKey { super_key: su, control: c, shift: sh, alt: a, code: k }),
        None => None,
    }
}

/// Which picker a hotkey event launches: `emoji`, `clipboard`, or none.
pub fn hotkey_target(event_id: u32, emoji_id: u32, clipboard_id: u32) -> (r: Option<&'static str>)
    ensures
        event_id == emoji_id ==> (r matches Some(s) && s@ == "emoji"@),
        event_id != emoji_id && event_id == clipboard_id ==> (r matches Some(s) && s@
            == "clipboard"@),
        event_id != emoji_id && event_id != clipboard_id ==> r is None,
{
    if event_id == emoji_id {
        Some("emoji")
    } else if event_id == clipboard_id {
        Some("clipboard")
    } else {
        None
    }
}

/// Is an item with content key `hash` new, given the key seen last?
pub open spec fn clip_changed(last: Option<Seq<char>>, hash: Seq<char>) -> bool {
    last != Some(hash)
}

/// Remember the hash of the item now on the clipboard; true when it differs
/// from the one seen last (so the item should be stored).
pub fn observe_clip_hash(last: &mut Option<String>, hash: String) -> (r: bool)
    ensures
        r == clip_changed(opt_view(*old(last)), hash@),
        opt_view(*final(last)) == Some(hash@),
        !r ==> *final(last) == *old(last),
{
    let same = match &*last {
        Some(h) => {
            let a = chars_of(h.as_str());
            let b = chars_of(hash.as_str());
            eq(a.as_slice(), b.as_slice())
        },
        None => false,
    };
    if same {
        false
    } else {
        *last = Some(hash);
        true
    }
}

/// Each clipboard change is noticed once: after an item has been observed,
/// observing it again reports no change, while any other item is new.
pub proof fn clip_change_noticed_once(last: Option<Seq<char>>, h: Seq<char>, other: Seq<char>)
    requires
        other != h,
    ensures
        !clip_changed(Some(h), h),
        clip_changed(Some(h), other),
        clip_changed(last, h) <==> last != Some(h),
{
}

} // verus!
