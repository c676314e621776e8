//! GNOME custom keyboard shortcuts: converting configured hotkeys to GNOME
//! accelerators and reading / writing the `custom-keybindings` path list.
use vstd::prelude::*;

use crate::text::{
    append, chars_of, contains, eq, eq_str, join, join_chars, lower_chars, lower_text,
    parse_u32_spec, parse_u32, parses_as_u8, starts_with, str_views, string_of, strings_of,
    strip_both, strip_both_chars, strip_leading, strip_leading_chars, strip_trailing,
    strip_trailing_chars, split_char, split_on_char, trim, trim_chars, trimmed_parts,
    trimmed_parts_of, utf8_len, is_one_byte, copy_range, views, keep_nonempty, drop_empty,
    trim_each, trim_all, concat, lemma_utf8_len_ge,
    trim_start, trim_end, is_ws, ascii_lower_seq, lemma_split_extend, lemma_split_at_sep, lemma_keep_nonempty_all,
};

verus! {

pub const SCHEMA_LIST: &'static str = "org.gnome.settings-daemon.plugins.media-keys";
pub const KEY_LIST: &'static str = "custom-keybindings";
pub const EMOJI_PATH: &'static str = "/org/gnome/settings-daemon/plugins/media-keys/custom-keybindings/timbits-emoji/";
pub const CLIPBOARD_PATH: &'static str = "/org/gnome/settings-daemon/plugins/media-keys/custom-keybindings/timbits-clipboard/";

/// GNOME's name for a key word of a configured hotkey, where it has a
/// fixed spelling.
pub open spec fn gnome_key_name(k: Seq<char>) -> Option<Seq<char>> {
    if k == "."@ || k == "period"@ {
        Some("period"@)
    } else if k == ","@ || k == "comma"@ {
        Some("comma"@)
    } else if k == "/"@ || k == "slash"@ {
        Some("slash"@)
    } else if k == "\\"@ || k == "backslash"@ {
        Some("backslash"@)
    } else if k == "-"@ || k == "minus"@ {
        Some("minus"@)
    } else if k == "="@ || k == "equal"@ {
        Some("equal"@)
    } else if k == ";"@ || k == "semicolon"@ {
        Some("semicolon"@)
    } else if k == "'"@ || k == "quote"@ {
        Some("apostrophe"@)
    } else if k == "`"@ || k == "backquote"@ {
        Some("grave"@)
    } else if k == "["@ || k == "bracketleft"@ {
        Some("bracketleft"@)
    } else if k == "]"@ || k == "bracketright"@ {
        Some("bracketright"@)
    } else if k == "space"@ {
        Some("space"@)
    } else if k == "enter"@ || k == "return"@ {
        Some("Return"@)
    } else if k == "tab"@ {
        Some("Tab"@)
    } else if k == "escape"@ || k == "esc"@ {
        Some("Escape"@)
    } else if k == "backspace"@ {
        Some("BackSpace"@)
    } else if k == "delete"@ {
        Some("Delete"@)
    } else if k == "up"@ {
        Some("Up"@)
    } else if k == "down"@ {
        Some("Down"@)
    } else if k == "left"@ {
        Some("Left"@)
    } else if k == "right"@ {
        Some("Right"@)
    } else if k == "home"@ {
        Some("Home"@)
    } else if k == "end"@ {
        Some("End"@)
    } else if k == "pageup"@ {
        Some("Page_Up"@)
    } else if k == "pagedown"@ {
        Some("Page_Down"@)
    } else {
        None
    }
}

fn gnome_key_name_exec(k: &[char]) -> (r: Option<&'static str>)
    ensures
        match r {
            Some(s) => gnome_key_name(k@) == Some(s@),
            None => gnome_key_name(k@) is None,
        },
{
    if eq_str(k, ".") || eq_str(k, "period") {
        Some("period")
    } else if eq_str(k, ",") || eq_str(k, "comma") {
        Some("comma")
    } else if eq_str(k, "/") || eq_str(k, "slash") {
        Some("slash")
    } else if eq_str(k, "\\") || eq_str(k, "backslash") {
        Some("backslash")
    } else if eq_str(k, "-") || eq_str(k, "minus") {
        Some("minus")
    } else if eq_str(k, "=") || eq_str(k, "equal") {
        Some("equal")
    } else if eq_str(k, ";") || eq_str(k, "semicolon") {
        Some("semicolon")
    } else if eq_str(k, "'") || eq_str(k, "quote") {
        Some("apostrophe")
    } else if eq_str(k, "`") || eq_str(k, "backquote") {
        Some("grave")
    } else if eq_str(k, "[") || eq_str(k, "bracketleft") {
        Some("bracketleft")
    } else if eq_str(k, "]") || eq_str(k, "bracketright") {
        Some("bracketright")
    } else if eq_str(k, "space") {
        Some("space")
    } else if eq_str(k, "enter") || eq_str(k, "return") {
        Some("Return")
    } else if eq_str(k, "tab") {
        Some("Tab")
    } else if eq_str(k, "escape") || eq_str(k, "esc") {
        Some("Escape")
    } else if eq_str(k, "backspace") {
        Some("BackSpace")
    } else if eq_str(k, "delete") {
        Some("Delete")
    } else if eq_str(k, "up") {
        Some("Up")
    } else if eq_str(k, "down") {
        Some("Down")
    } else if eq_str(k, "left") {
        Some("Left")
    } else if eq_str(k, "right") {
        Some("Right")
    } else if eq_str(k, "home") {
        Some("Home")
    } else if eq_str(k, "end") {
        Some("End")
    } else if eq_str(k, "pageup") {
        Some("Page_Up")
    } else if eq_str(k, "pagedown") {
        Some("Page_Down")
    } else {
        None
    }
}

pub open spec fn modifier_name(k: Seq<char>) -> Option<Seq<char>> {
    if k == "super"@ || k == "meta"@ || k == "win"@ || k == "cmd"@ || k == "command"@ {
        Some("<Super>"@)
    } else if k == "ctrl"@ || k == "control"@ {
        Some("<Control>"@)
    } else if k == "shift"@ {
        Some("<Shift>"@)
    } else if k == "alt"@ || k == "option"@ {
        Some("<Alt>"@)
    } else {
        None
    }
}

fn modifier_name_exec(k: &[char]) -> (r: Option<&'static str>)
    ensures
        match r {
            Some(s) => modifier_name(k@) == Some(s@),
            None => modifier_name(k@) is None,
        },
{
    if eq_str(k, "super") || eq_str(k, "meta") || eq_str(k, "win") || eq_str(k, "cmd") || eq_str(
        k,
        "command",
    ) {
        Some("<Super>")
    } else if eq_str(k, "ctrl") || eq_str(k, "control") {
        Some("<Control>")
    } else if eq_str(k, "shift") {
        Some("<Shift>")
    } else if eq_str(k, "alt") || eq_str(k, "option") {
        Some("<Alt>")
    } else {
        None
    }
}

/// The GNOME key names (keysyms) of the named keys of a configured hotkey:
/// each word, as typed in lowercase, with the keysym of the same key.
pub open spec fn named_key_table() -> Seq<(Seq<char>, Seq<char>)> {
    seq![
        ("."@, "period"@),
        ("period"@, "period"@),
        (","@, "comma"@),
        ("comma"@, "comma"@),
        ("/"@, "slash"@),
        ("slash"@, "slash"@),
        ("\\"@, "backslash"@),
        ("backslash"@, "backslash"@),
        ("-"@, "minus"@),
        ("minus"@, "minus"@),
        ("="@, "equal"@),
        ("equal"@, "equal"@),
        (";"@, "semicolon"@),
        ("semicolon"@, "semicolon"@),
        ("'"@, "apostrophe"@),
        ("quote"@, "apostrophe"@),
        ("`"@, "grave"@),
        ("backquote"@, "grave"@),
        ("["@, "bracketleft"@),
        ("bracketleft"@, "bracketleft"@),
        ("]"@, "bracketright"@),
        ("bracketright"@, "bracketright"@),
        ("space"@, "space"@),
        ("enter"@, "Return"@),
        ("return"@, "Return"@),
        ("tab"@, "Tab"@),
        ("escape"@, "Escape"@),
        ("esc"@, "Escape"@),
        ("backspace"@, "BackSpace"@),
        ("delete"@, "Delete"@),
        ("up"@, "Up"@),
        ("down"@, "Down"@),
        ("left"@, "Left"@),
        ("right"@, "Right"@),
        ("home"@, "Home"@),
        ("end"@, "End"@),
        ("pageup"@, "Page_Up"@),
        ("pagedown"@, "Page_Down"@),
    ]
}

/// A word of a hotkey as typed: not empty, ASCII, with no blank and no `+`.
pub open spec fn plain_word(w: Seq<char>) -> bool {
    w.len() > 0 && forall|k: int| 0 <= k < w.len() ==> (w[k] as u32) < 128 && !is_ws(#[trigger] w[k]) && w[k] != '+'
}

proof fn lemma_named_key_table()
    ensures
        forall|i: int|
            0 <= i < named_key_table().len() ==> gnome_key_name(#[trigger] named_key_table()[i].0)
                == Some(named_key_table()[i].1) && modifier_name(named_key_table()[i].0) is None
                && plain_word(named_key_table()[i].0),
{
    reveal_strlit("'");
    reveal_strlit(",");
    reveal_strlit("-");
    reveal_strlit(".");
    reveal_strlit("/");
    reveal_strlit(";");
    reveal_strlit("<Alt>");
    reveal_strlit("<Control>");
    reveal_strlit("<Shift>");
    reveal_strlit("<Super>");
    reveal_strlit("=");
    reveal_strlit("BackSpace");
    reveal_strlit("Delete");
    reveal_strlit("Down");
    reveal_strlit("End");
    reveal_strlit("Escape");
    reveal_strlit("Home");
    reveal_strlit("Left");
    reveal_strlit("Page_Down");
    reveal_strlit("Page_Up");
    reveal_strlit("Return");
    reveal_strlit("Right");
    reveal_strlit("Tab");
    reveal_strlit("Up");
    reveal_strlit("[");
    reveal_strlit("\\");
    reveal_strlit("]");
    reveal_strlit("`");
    reveal_strlit("alt");
    reveal_strlit("apostrophe");
    reveal_strlit("backquote");
    reveal_strlit("backslash");
    reveal_strlit("backspace");
    reveal_strlit("bracketleft");
    reveal_strlit("bracketright");
    reveal_strlit("cmd");
    reveal_strlit("comma");
    reveal_strlit("command");
    reveal_strlit("control");
    reveal_strlit("ctrl");
    reveal_strlit("delete");
    reveal_strlit("down");
    reveal_strlit("end");
    reveal_strlit("enter");
    reveal_strlit("equal");
    reveal_strlit("esc");
    reveal_strlit("escape");
    reveal_strlit("grave");
    reveal_strlit("home");
    reveal_strlit("left");
    reveal_strlit("meta");
    reveal_strlit("minus");
    reveal_strlit("option");
    reveal_strlit("pagedown");
    reveal_strlit("pageup");
    reveal_strlit("period");
    reveal_strlit("quote");
    reveal_strlit("return");
    reveal_strlit("right");
    reveal_strlit("semicolon");
    reveal_strlit("shift");
    reveal_strlit("slash");
    reveal_strlit("space");
    reveal_strlit("super");
    reveal_strlit("tab");
    reveal_strlit("up");
    reveal_strlit("win");
    let t = named_key_table();
    assert(t.len() == 38);
    assert(t[0].0 == "."@ && t[0].1 == "period"@);
    assert(gnome_key_name("."@) == Some("period"@) && modifier_name("."@) is None);
    assert(plain_word("."@));
    assert(t[1].0 == "period"@ && t[1].1 == "period"@);
    assert("period"@[0] != "option"@[0]);
    assert(gnome_key_name("period"@) == Some("period"@) && modifier_name("period"@) is None);
    assert(plain_word("period"@));
    assert(t[2].0 == ","@ && t[2].1 == "comma"@);
    assert(","@[0] != "."@[0]);
    assert(gnome_key_name(","@) == Some("comma"@) && modifier_name(","@) is None);
    assert(plain_word(","@));
    assert(t[3].0 == "comma"@ && t[3].1 == "comma"@);
    assert("comma"@[0] != "shift"@[0]);
    assert("comma"@[0] != "super"@[0]);
    assert(gnome_key_name("comma"@) == Some("comma"@) && modifier_name("comma"@) is None);
    assert(plain_word("comma"@));
    assert(t[4].0 == "/"@ && t[4].1 == "slash"@);
    assert("/"@[0] != ","@[0]);
    assert("/"@[0] != "."@[0]);
    assert(gnome_key_name("/"@) == Some("slash"@) && modifier_name("/"@) is None);
    assert(plain_word("/"@));
    assert(t[5].0 == "slash"@ && t[5].1 == "slash"@);
    assert("slash"@[0] != "comma"@[0]);
    assert("slash"@[1] != "shift"@[1]);
    assert("slash"@[1] != "super"@[1]);
    assert(gnome_key_name("slash"@) == Some("slash"@) && modifier_name("slash"@) is None);
    assert(plain_word("slash"@));
    assert(t[6].0 == "\\"@ && t[6].1 == "backslash"@);
    assert("\\"@[0] != ","@[0]);
    assert("\\"@[0] != "."@[0]);
    assert("\\"@[0] != "/"@[0]);
    assert(gnome_key_name("\\"@) == Some("backslash"@) && modifier_name("\\"@) is None);
    assert(plain_word("\\"@));
    assert(t[7].0 == "backslash"@ && t[7].1 == "backslash"@);
    assert(gnome_key_name("backslash"@) == Some("backslash"@) && modifier_name("backslash"@) is None);
    assert(plain_word("backslash"@));
    assert(t[8].0 == "-"@ && t[8].1 == "minus"@);
    assert("-"@[0] != ","@[0]);
    assert("-"@[0] != "."@[0]);
    assert("-"@[0] != "/"@[0]);
    assert("-"@[0] != "\\"@[0]);
    assert(gnome_key_name("-"@) == Some("minus"@) && modifier_name("-"@) is None);
    assert(plain_word("-"@));
    assert(t[9].0 == "minus"@ && t[9].1 == "minus"@);
    assert("minus"@[0] != "comma"@[0]);
    assert("minus"@[0] != "shift"@[0]);
    assert("minus"@[0] != "slash"@[0]);
    assert("minus"@[0] != "super"@[0]);
    assert(gnome_key_name("minus"@) == Some("minus"@) && modifier_name("minus"@) is None);
    assert(plain_word("minus"@));
    assert(t[10].0 == "="@ && t[10].1 == "equal"@);
    assert("="@[0] != ","@[0]);
    assert("="@[0] != "-"@[0]);
    assert("="@[0] != "."@[0]);
    assert("="@[0] != "/"@[0]);
    assert("="@[0] != "\\"@[0]);
    assert(gnome_key_name("="@) == Some("equal"@) && modifier_name("="@) is None);
    assert(plain_word("="@));
    assert(t[11].0 == "equal"@ && t[11].1 == "equal"@);
    assert("equal"@[0] != "comma"@[0]);
    assert("equal"@[0] != "minus"@[0]);
    assert("equal"@[0] != "shift"@[0]);
    assert("equal"@[0] != "slash"@[0]);
    assert("equal"@[0] != "super"@[0]);
    assert(gnome_key_name("equal"@) == Some("equal"@) && modifier_name("equal"@) is None);
    assert(plain_word("equal"@));
    assert(t[12].0 == ";"@ && t[12].1 == "semicolon"@);
    assert(";"@[0] != ","@[0]);
    assert(";"@[0] != "-"@[0]);
    assert(";"@[0] != "."@[0]);
    assert(";"@[0] != "/"@[0]);
    assert(";"@[0] != "="@[0]);
    assert(";"@[0] != "\\"@[0]);
    assert(gnome_key_name(";"@) == Some("semicolon"@) && modifier_name(";"@) is None);
    assert(plain_word(";"@));
    assert(t[13].0 == "semicolon"@ && t[13].1 == "semicolon"@);
    assert("semicolon"@[0] != "backslash"@[0]);
    assert(gnome_key_name("semicolon"@) == Some("semicolon"@) && modifier_name("semicolon"@) is None);
    assert(plain_word("semicolon"@));
    assert(t[14].0 == "'"@ && t[14].1 == "apostrophe"@);
    assert("'"@[0] != ","@[0]);
    assert("'"@[0] != "-"@[0]);
    assert("'"@[0] != "."@[0]);
    assert("'"@[0] != "/"@[0]);
    assert("'"@[0] != ";"@[0]);
    assert("'"@[0] != "="@[0]);
    assert("'"@[0] != "\\"@[0]);
    assert(gnome_key_name("'"@) == Some("apostrophe"@) && modifier_name("'"@) is None);
    assert(plain_word("'"@));
    assert(t[15].0 == "quote"@ && t[15].1 == "apostrophe"@);
    assert("quote"@[0] != "comma"@[0]);
    assert("quote"@[0] != "equal"@[0]);
    assert("quote"@[0] != "minus"@[0]);
    assert("quote"@[0] != "shift"@[0]);
    assert("quote"@[0] != "slash"@[0]);
    assert("quote"@[0] != "super"@[0]);
    assert(gnome_key_name("quote"@) == Some("apostrophe"@) && modifier_name("quote"@) is None);
    assert(plain_word("quote"@));
    assert(t[16].0 == "`"@ && t[16].1 == "grave"@);
    assert("`"@[0] != "'"@[0]);
    assert("`"@[0] != ","@[0]);
    assert("`"@[0] != "-"@[0]);
    assert("`"@[0] != "."@[0]);
    assert("`"@[0] != "/"@[0]);
    assert("`"@[0] != ";"@[0]);
    assert("`"@[0] != "="@[0]);
    assert("`"@[0] != "\\"@[0]);
    assert(gnome_key_name("`"@) == Some("grave"@) && modifier_name("`"@) is None);
    assert(plain_word("`"@));
    assert(t[17].0 == "backquote"@ && t[17].1 == "grave"@);
    assert("backquote"@[4] != "backslash"@[4]);
    assert("backquote"@[0] != "semicolon"@[0]);
    assert(gnome_key_name("backquote"@) == Some("grave"@) && modifier_name("backquote"@) is None);
    assert(plain_word("backquote"@));
    assert(t[18].0 == "["@ && t[18].1 == "bracketleft"@);
    assert("["@[0] != "'"@[0]);
    assert("["@[0] != ","@[0]);
    assert("["@[0] != "-"@[0]);
    assert("["@[0] != "."@[0]);
    assert("["@[0] != "/"@[0]);
    assert("["@[0] != ";"@[0]);
    assert("["@[0] != "="@[0]);
    assert("["@[0] != "\\"@[0]);
    assert("["@[0] != "`"@[0]);
    assert(gnome_key_name("["@) == Some("bracketleft"@) && modifier_name("["@) is None);
    assert(plain_word("["@));
    assert(t[19].0 == "bracketleft"@ && t[19].1 == "bracketleft"@);
    assert(gnome_key_name("bracketleft"@) == Some("bracketleft"@) && modifier_name("bracketleft"@) is None);
    assert(plain_word("bracketleft"@));
    assert(t[20].0 == "]"@ && t[20].1 == "bracketright"@);
    assert("]"@[0] != "'"@[0]);
    assert("]"@[0] != ","@[0]);
    assert("]"@[0] != "-"@[0]);
    assert("]"@[0] != "."@[0]);
    assert("]"@[0] != "/"@[0]);
    assert("]"@[0] != ";"@[0]);
    assert("]"@[0] != "="@[0]);
    assert("]"@[0] != "["@[0]);
    assert("]"@[0] != "\\"@[0]);
    assert("]"@[0] != "`"@[0]);
    assert(gnome_key_name("]"@) == Some("bracketright"@) && modifier_name("]"@) is None);
    assert(plain_word("]"@));
    assert(t[21].0 == "bracketright"@ && t[21].1 == "bracketright"@);
    assert(gnome_key_name("bracketright"@) == Some("bracketright"@) && modifier_name("bracketright"@) is None);
    assert(plain_word("bracketright"@));
    assert(t[22].0 == "space"@ && t[22].1 == "space"@);
    assert("space"@[0] != "comma"@[0]);
    assert("space"@[0] != "equal"@[0]);
    assert("space"@[0] != "minus"@[0]);
    assert("space"@[0] != "quote"@[0]);
    assert("space"@[1] != "shift"@[1]);
    assert("space"@[1] != "slash"@[1]);
    assert("space"@[1] != "super"@[1]);
    assert(gnome_key_name("space"@) == Some("space"@) && modifier_name("space"@) is None);
    assert(plain_word("space"@));
    assert(t[23].0 == "enter"@ && t[23].1 == "Return"@);
    assert("enter"@[0] != "comma"@[0]);
    assert("enter"@[1] != "equal"@[1]);
    assert("enter"@[0] != "minus"@[0]);
    assert("enter"@[0] != "quote"@[0]);
    assert("enter"@[0] != "shift"@[0]);
    assert("enter"@[0] != "slash"@[0]);
    assert("enter"@[0] != "space"@[0]);
    assert("enter"@[0] != "super"@[0]);
    assert(gnome_key_name("enter"@) == Some("Return"@) && modifier_name("enter"@) is None);
    assert(plain_word("enter"@));
    assert(t[24].0 == "return"@ && t[24].1 == "Return"@);
    assert("return"@[0] != "option"@[0]);
    assert("return"@[0] != "period"@[0]);
    assert(gnome_key_name("return"@) == Some("Return"@) && modifier_name("return"@) is None);
    assert(plain_word("return"@));
    assert(t[25].0 == "tab"@ && t[25].1 == "Tab"@);
    assert("tab"@[0] != "alt"@[0]);
    assert("tab"@[0] != "cmd"@[0]);
    assert("tab"@[0] != "win"@[0]);
    assert(gnome_key_name("tab"@) == Some("Tab"@) && modifier_name("tab"@) is None);
    assert(plain_word("tab"@));
    assert(t[26].0 == "escape"@ && t[26].1 == "Escape"@);
    assert("escape"@[0] != "option"@[0]);
    assert("escape"@[0] != "period"@[0]);
    assert("escape"@[0] != "return"@[0]);
    assert(gnome_key_name("escape"@) == Some("Escape"@) && modifier_name("escape"@) is None);
    assert(plain_word("escape"@));
    assert(t[27].0 == "esc"@ && t[27].1 == "Escape"@);
    assert("esc"@[0] != "alt"@[0]);
    assert("esc"@[0] != "cmd"@[0]);
    assert("esc"@[0] != "tab"@[0]);
    assert("esc"@[0] != "win"@[0]);
    assert(gnome_key_name("esc"@) == Some("Escape"@) && modifier_name("esc"@) is None);
    assert(plain_word("esc"@));
    assert(t[28].0 == "backspace"@ && t[28].1 == "BackSpace"@);
    assert("backspace"@[4] != "backquote"@[4]);
    assert("backspace"@[5] != "backslash"@[5]);
    assert("backspace"@[0] != "semicolon"@[0]);
    assert(gnome_key_name("backspace"@) == Some("BackSpace"@) && modifier_name("backspace"@) is None);
    assert(plain_word("backspace"@));
    assert(t[29].0 == "delete"@ && t[29].1 == "Delete"@);
    assert("delete"@[0] != "escape"@[0]);
    assert("delete"@[0] != "option"@[0]);
    assert("delete"@[0] != "period"@[0]);
    assert("delete"@[0] != "return"@[0]);
    assert(gnome_key_name("delete"@) == Some("Delete"@) && modifier_name("delete"@) is None);
    assert(plain_word("delete"@));
    assert(t[30].0 == "up"@ && t[30].1 == "Up"@);
    assert(gnome_key_name("up"@) == Some("Up"@) && modifier_name("up"@) is None);
    assert(plain_word("up"@));
    assert(t[31].0 == "down"@ && t[31].1 == "Down"@);
    assert("down"@[0] != "ctrl"@[0]);
    assert("down"@[0] != "meta"@[0]);
    assert(gnome_key_name("down"@) == Some("Down"@) && modifier_name("down"@) is None);
    assert(plain_word("down"@));
    assert(t[32].0 == "left"@ && t[32].1 == "Left"@);
    assert("left"@[0] != "ctrl"@[0]);
    assert("left"@[0] != "down"@[0]);
    assert("left"@[0] != "meta"@[0]);
    assert(gnome_key_name("left"@) == Some("Left"@) && modifier_name("left"@) is None);
    assert(plain_word("left"@));
    assert(t[33].0 == "right"@ && t[33].1 == "Right"@);
    assert("right"@[0] != "comma"@[0]);
    assert("right"@[0] != "enter"@[0]);
    assert("right"@[0] != "equal"@[0]);
    assert("right"@[0] != "minus"@[0]);
    assert("right"@[0] != "quote"@[0]);
    assert("right"@[0] != "shift"@[0]);
    assert("right"@[0] != "slash"@[0]);
    assert("right"@[0] != "space"@[0]);
    assert("right"@[0] != "super"@[0]);
    assert(gnome_key_name("right"@) == Some("Right"@) && modifier_name("right"@) is None);
    assert(plain_word("right"@));
    assert(t[34].0 == "home"@ && t[34].1 == "Home"@);
    assert("home"@[0] != "ctrl"@[0]);
    assert("home"@[0] != "down"@[0]);
    assert("home"@[0] != "left"@[0]);
    assert("home"@[0] != "meta"@[0]);
    assert(gnome_key_name("home"@) == Some("Home"@) && modifier_name("home"@) is None);
    assert(plain_word("home"@));
    assert(t[35].0 == "end"@ && t[35].1 == "End"@);
    assert("end"@[0] != "alt"@[0]);
    assert("end"@[0] != "cmd"@[0]);
    assert("end"@[1] != "esc"@[1]);
    assert("end"@[0] != "tab"@[0]);
    assert("end"@[0] != "win"@[0]);
    assert(gnome_key_name("end"@) == Some("End"@) && modifier_name("end"@) is None);
    assert(plain_word("end"@));
    assert(t[36].0 == "pageup"@ && t[36].1 == "Page_Up"@);
    assert("pageup"@[0] != "delete"@[0]);
    assert("pageup"@[0] != "escape"@[0]);
    assert("pageup"@[0] != "option"@[0]);
    assert("pageup"@[1] != "period"@[1]);
    assert("pageup"@[0] != "return"@[0]);
    assert(gnome_key_name("pageup"@) == Some("Page_Up"@) && modifier_name("pageup"@) is None);
    assert(plain_word("pageup"@));
    assert(t[37].0 == "pagedown"@ && t[37].1 == "Page_Down"@);
    assert(gnome_key_name("pagedown"@) == Some("Page_Down"@) && modifier_name("pagedown"@) is None);
    assert(plain_word("pagedown"@));
}

/// The modifier words of a hotkey, as typed in lowercase, with their GNOME
/// accelerator prefixes.
pub open spec fn modifier_table() -> Seq<(Seq<char>, Seq<char>)> {
    seq![
        ("super"@, "<Super>"@),
        ("ctrl"@, "<Control>"@),
        ("control"@, "<Control>"@),
        ("shift"@, "<Shift>"@),
        ("alt"@, "<Alt>"@),
    ]
}

proof fn lemma_modifier_table()
    ensures
        forall|j: int|
            0 <= j < modifier_table().len() ==> modifier_name(#[trigger] modifier_table()[j].0)
                == Some(modifier_table()[j].1) && plain_word(modifier_table()[j].0),
{
    reveal_strlit("super");
    reveal_strlit("meta");
    reveal_strlit("win");
    reveal_strlit("cmd");
    reveal_strlit("command");
    reveal_strlit("ctrl");
    reveal_strlit("control");
    reveal_strlit("shift");
    reveal_strlit("alt");
    reveal_strlit("option");
    reveal_strlit("<Super>");
    reveal_strlit("<Control>");
    reveal_strlit("<Shift>");
    reveal_strlit("<Alt>");
    let t = modifier_table();
    assert(t.len() == 5);
    assert(t[0].0 == "super"@ && t[0].1 == "<Super>"@);
    assert(t[1].0 == "ctrl"@ && t[1].1 == "<Control>"@);
    assert(t[2].0 == "control"@ && t[2].1 == "<Control>"@);
    assert(t[3].0 == "shift"@ && t[3].1 == "<Shift>"@);
    assert(t[4].0 == "alt"@ && t[4].1 == "<Alt>"@);
    assert("ctrl"@[0] != "meta"@[0]);
    assert("control"@[2] != "command"@[2]);
    assert("shift"@[1] != "super"@[1]);
    assert("alt"@[0] != "win"@[0]);
    assert("alt"@[0] != "cmd"@[0]);
    assert(modifier_name("super"@) == Some("<Super>"@) && plain_word("super"@));
    assert(modifier_name("ctrl"@) == Some("<Control>"@) && plain_word("ctrl"@));
    assert(modifier_name("control"@) == Some("<Control>"@) && plain_word("control"@));
    assert(modifier_name("shift"@) == Some("<Shift>"@) && plain_word("shift"@));
    assert(modifier_name("alt"@) == Some("<Alt>"@) && plain_word("alt"@));
}

/// A word typed in any letter case that lowers to a plain word `w` reads as
/// `w`: it is its own trimmed form and holds no `+`.
proof fn lemma_typed_word(typed: Seq<char>, w: Seq<char>)
    requires
        ascii_lower_seq(typed) == w,
        plain_word(w),
    ensures
        lower_text(typed) == w,
        trim(typed) == typed,
        !typed.contains('+'),
        typed.len() > 0,
{
    assert(typed.len() == w.len());
    assert forall|k: int| 0 <= k < typed.len() implies (typed[k] as u32) < 128 && !is_ws(typed[k]) && typed[k] != '+' by {
        assert(w[k] == crate::text::ascii_lower(typed[k]));
        assert(plain_word(w));
        assert((w[k] as u32) < 128 && !is_ws(w[k]) && w[k] != '+');
    }
    assert(crate::text::all_ascii(typed));
    assert(trim_start(typed) == typed);
    assert(trim_end(typed) == typed);
}

/// Configured hotkeys of a named key become the GNOME accelerator of the
/// same key: for every named key of [`named_key_table`], typed in any letter
/// case, alone or after one modifier word of [`modifier_table`] (also in any
/// case) and a `+`, the accelerator is the modifier's prefix followed by the
/// key's GNOME name (`Super+Semicolon` is `<Super>semicolon`, `ctrl+.` is
/// `<Control>period`).
pub proof fn named_keys_bind(i: int, j: int, key: Seq<char>, modifier: Seq<char>)
    requires
        0 <= i < named_key_table().len(),
        0 <= j < modifier_table().len(),
        ascii_lower_seq(key) == named_key_table()[i].0,
        ascii_lower_seq(modifier) == modifier_table()[j].0,
    ensures
        gnome_binding_spec(key) == Some(named_key_table()[i].1),
        gnome_binding_spec(modifier + "+"@ + key) == Some(modifier_table()[j].1 + named_key_table()[i].1),
{
    reveal_strlit("+");
    lemma_named_key_table();
    lemma_modifier_table();
    let w = named_key_table()[i].0;
    let sym = named_key_table()[i].1;
    let mw = modifier_table()[j].0;
    let acc = modifier_table()[j].1;
    lemma_typed_word(key, w);
    lemma_typed_word(modifier, mw);
    let e = Seq::<char>::empty();
    let e2 = Seq::<Seq<char>>::empty();
    // The key alone.
    let one = seq![key];
    assert forall|k: int| 0 <= k < one.len() implies !(#[trigger] one[k]).contains('+') by {}
    crate::text::lemma_split_join_char(one, '+');
    assert(crate::text::join(one, seq!['+']) == key);
    assert(trim_each(one) =~= one);
    assert forall|k: int| 0 <= k < one.len() implies (#[trigger] one[k]).len() > 0 by {}
    lemma_keep_nonempty_all(one);
    assert(trimmed_parts(key, '+') == one);
    let init: BindingState = (e2, None, None);
    assert(binding_fold(e2) == init);
    assert(one.drop_last() =~= e2);
    assert(one.last() == key);
    assert(binding_fold(one) == binding_step(init, key));
    assert(binding_step(init, key) == (e2, Some(sym), None::<Seq<char>>));
    assert(join(e2, e) == e);
    assert(e + sym =~= sym);
    // After a modifier.
    let two = seq![modifier, key];
    assert forall|k: int| 0 <= k < two.len() implies !(#[trigger] two[k]).contains('+') by {}
    crate::text::lemma_split_join_char(two, '+');
    assert(two.drop_last() =~= seq![modifier]);
    assert(crate::text::join(two, seq!['+']) == crate::text::join(seq![modifier], seq!['+']) + seq!['+'] + key);
    assert(modifier + "+"@ + key =~= crate::text::join(two, seq!['+']));
    assert(trim_each(two) =~= two);
    assert forall|k: int| 0 <= k < two.len() implies (#[trigger] two[k]).len() > 0 by {}
    lemma_keep_nonempty_all(two);
    assert(trimmed_parts(modifier + "+"@ + key, '+') == two);
    assert(seq![modifier].drop_last() =~= e2);
    assert(seq![modifier].last() == modifier);
    let st1 = binding_step(init, modifier);
    assert(binding_fold(seq![modifier]) == st1);
    assert(two.last() == key);
    assert(st1 == (seq![acc], None::<Seq<char>>, None::<Seq<char>>)) by {
        assert(e2.push(acc) =~= seq![acc]);
    }
    assert(binding_fold(two) == binding_step(st1, key));
    assert(binding_step(st1, key) == (seq![acc], Some(sym), None::<Seq<char>>));
    assert(join(seq![acc], e) == acc);
}

/// Configured hotkeys of a letter or digit key become the GNOME accelerator
/// of that key in lowercase: alone, or after one modifier word of
/// [`modifier_table`] (in any case) and a `+` (`Super+Shift+C`'s last step,
/// `Super+C`, is `<Super>c`).
pub proof fn letter_keys_bind(j: int, c: char, modifier: Seq<char>)
    requires
        0 <= j < modifier_table().len(),
        crate::text::is_ascii_alnum(c),
        ascii_lower_seq(modifier) == modifier_table()[j].0,
    ensures
        gnome_binding_spec(seq![c]) == Some(seq![crate::text::ascii_lower(c)]),
        gnome_binding_spec(modifier + "+"@ + seq![c]) == Some(modifier_table()[j].1 + seq![crate::text::ascii_lower(c)]),
{
    reveal_strlit("<Alt>");
    reveal_strlit("<Control>");
    reveal_strlit("<Shift>");
    reveal_strlit("<Super>");
    reveal_strlit("BackSpace");
    reveal_strlit("Delete");
    reveal_strlit("Down");
    reveal_strlit("End");
    reveal_strlit("Escape");
    reveal_strlit("Home");
    reveal_strlit("Left");
    reveal_strlit("Page_Down");
    reveal_strlit("Page_Up");
    reveal_strlit("Return");
    reveal_strlit("Right");
    reveal_strlit("Tab");
    reveal_strlit("Up");
    reveal_strlit("alt");
    reveal_strlit("apostrophe");
    reveal_strlit("backquote");
    reveal_strlit("backslash");
    reveal_strlit("backspace");
    reveal_strlit("bracketleft");
    reveal_strlit("bracketright");
    reveal_strlit("cmd");
    reveal_strlit("comma");
    reveal_strlit("command");
    reveal_strlit("control");
    reveal_strlit("ctrl");
    reveal_strlit("delete");
    reveal_strlit("down");
    reveal_strlit("end");
    reveal_strlit("enter");
    reveal_strlit("equal");
    reveal_strlit("esc");
    reveal_strlit("escape");
    reveal_strlit("grave");
    reveal_strlit("home");
    reveal_strlit("left");
    reveal_strlit("meta");
    reveal_strlit("minus");
    reveal_strlit("option");
    reveal_strlit("pagedown");
    reveal_strlit("pageup");
    reveal_strlit("period");
    reveal_strlit("quote");
    reveal_strlit("return");
    reveal_strlit("right");
    reveal_strlit("semicolon");
    reveal_strlit("shift");
    reveal_strlit("slash");
    reveal_strlit("space");
    reveal_strlit("super");
    reveal_strlit("tab");
    reveal_strlit("up");
    reveal_strlit("win");
    reveal_strlit("+");
    reveal_strlit(".");
    reveal_strlit(",");
    reveal_strlit("/");
    reveal_strlit("\\");
    reveal_strlit("-");
    reveal_strlit("=");
    reveal_strlit(";");
    reveal_strlit("'");
    reveal_strlit("`");
    reveal_strlit("[");
    reveal_strlit("]");
    lemma_modifier_table();
    let lc = crate::text::ascii_lower(c);
    let key = seq![c];
    let w = seq![lc];
    let mw = modifier_table()[j].0;
    let acc = modifier_table()[j].1;
    assert(ascii_lower_seq(key) =~= w);
    assert(plain_word(w));
    lemma_typed_word(key, w);
    lemma_typed_word(modifier, mw);
    assert(modifier_name(w) is None);
    assert(gnome_key_name(w) is None) by {
        assert(w[0] != "."@[0] && w[0] != ","@[0] && w[0] != "/"@[0] && w[0] != "\\"@[0]);
        assert(w[0] != "-"@[0] && w[0] != "="@[0] && w[0] != ";"@[0] && w[0] != "'"@[0]);
        assert(w[0] != "`"@[0] && w[0] != "["@[0] && w[0] != "]"@[0]);
    }
    assert(w.drop_last() =~= Seq::<char>::empty());
    assert((lc as u32) < 128);
    assert(utf8_len(Seq::<char>::empty()) == 0);
    assert(w.last() == lc);
    assert(utf8_len(w) == utf8_len(w.drop_last()) + crate::text::char_utf8_len(lc));
    assert(utf8_len(w) == 1);
    let e = Seq::<char>::empty();
    let e2 = Seq::<Seq<char>>::empty();
    let init: BindingState = (e2, None, None);
    assert(binding_fold(e2) == init);
    let one = seq![key];
    assert forall|k: int| 0 <= k < one.len() implies !(#[trigger] one[k]).contains('+') by {}
    crate::text::lemma_split_join_char(one, '+');
    assert(crate::text::join(one, seq!['+']) == key);
    assert(trim_each(one) =~= one);
    assert forall|k: int| 0 <= k < one.len() implies (#[trigger] one[k]).len() > 0 by {}
    lemma_keep_nonempty_all(one);
    assert(one.drop_last() =~= e2);
    assert(one.last() == key);
    assert(binding_fold(one) == binding_step(init, key));
    assert(binding_step(init, key) == (e2, Some(w), None::<Seq<char>>));
    assert(join(e2, e) == e);
    assert(e + w =~= w);
    let two = seq![modifier, key];
    assert forall|k: int| 0 <= k < two.len() implies !(#[trigger] two[k]).contains('+') by {}
    crate::text::lemma_split_join_char(two, '+');
    assert(two.drop_last() =~= seq![modifier]);
    assert(crate::text::join(two, seq!['+']) == crate::text::join(seq![modifier], seq!['+']) + seq!['+'] + key);
    assert(modifier + "+"@ + key =~= crate::text::join(two, seq!['+']));
    assert(trim_each(two) =~= two);
    assert forall|k: int| 0 <= k < two.len() implies (#[trigger] two[k]).len() > 0 by {}
    lemma_keep_nonempty_all(two);
    assert(seq![modifier].drop_last() =~= e2);
    assert(seq![modifier].last() == modifier);
    let st1 = binding_step(init, modifier);
    assert(binding_fold(seq![modifier]) == st1);
    assert(st1 == (seq![acc], None::<Seq<char>>, None::<Seq<char>>)) by {
        assert(e2.push(acc) =~= seq![acc]);
    }
    assert(two.last() == key);
    assert(binding_fold(two) == binding_step(st1, key));
    assert(binding_step(st1, key) == (seq![acc], Some(w), None::<Seq<char>>));
    assert(join(seq![acc], e) == acc);
}

/// A function key word such as `f5` (at most three bytes, `f` then a number
/// that fits in a byte).
pub open spec fn is_function_key(k: Seq<char>) -> bool {
    starts_with(k, "f"@) && utf8_len(k) <= 3 && parses_as_u8(k.skip(1))
}

/// Conversion state: the modifiers so far, the key so far, and the finished
/// accelerator once a function key has been seen.
pub type BindingState = (Seq<Seq<char>>, Option<Seq<char>>, Option<Seq<char>>);

pub open spec fn binding_step(st: BindingState, part: Seq<char>) -> BindingState {
    if st.2 is Some {
        st
    } else {
        let k = lower_text(part);
        match modifier_name(k) {
            Some(m) => (st.0.push(m), st.1, None),
            None => match gnome_key_name(k) {
                Some(n) => (st.0, Some(n), None),
                None => if utf8_len(k) == 1 {
                    (st.0, Some(k), None)
                } else if is_function_key(k) {
                    (st.0, st.1, Some(join(st.0, Seq::empty()) + "F"@ + k.skip(1)))
                } else {
                    (st.0, Some(k), None)
                },
            },
        }
    }
}

pub open spec fn binding_fold(parts: Seq<Seq<char>>) -> BindingState
    decreases parts.len(),
{
    if parts.len() == 0 {
        (Seq::empty(), None, None)
    } else {
        binding_step(binding_fold(parts.drop_last()), parts.last())
    }
}

/// The GNOME accelerator for a configured hotkey such as `Super+Period`
/// (`<Super>period`): modifiers in the order given, then the key. A function
/// key ends the conversion at once. `None` when no key is given.
pub open spec fn gnome_binding_spec(s: Seq<char>) -> Option<Seq<char>> {
    let st = binding_fold(trimmed_parts(s, '+'));
    match st.2 {
        Some(done) => Some(done),
        None => match st.1 {
            Some(k) => Some(join(st.0, Seq::empty()) + k),
            None => None,
        },
    }
}

proof fn lemma_fold_done_stays(parts: Seq<Seq<char>>, i: int, done: Seq<char>)
    requires
        0 <= i <= parts.len(),
        binding_fold(parts.take(i)).2 == Some(done),
    ensures
        binding_fold(parts).2 == Some(done),
    decreases parts.len() - i,
{
    if i < parts.len() {
        assert(parts.take(i + 1).drop_last() == parts.take(i));
        lemma_fold_done_stays(parts, i + 1, done);
    } else {
        assert(parts.take(i) == parts);
    }
}

/// Convert config-style hotkeys (`Super+Period`, `Ctrl+Shift+V`) to GNOME
/// accelerator form (`<Super>period`, `<Control><Shift>v`).
pub fn to_gnome_binding(s: &str) -> (r: Option<String>)
    ensures
        match r {
            Some(b) => gnome_binding_spec(s@) == Some(b@),
            None => gnome_binding_spec(s@) is None,
        },
{
    let sc = chars_of(s);
    let parts = trimmed_parts_of(sc.as_slice(), '+');
    let ghost ps = views(parts@);
    let mut mods: Vec<Vec<char>> = Vec::new();
    let mut key: Option<Vec<char>> = None;
    let empty: Vec<char> = Vec::new();
    assert(ps.take(0) == Seq::<Seq<char>>::empty());
    for i in 0..parts.len()
        invariant
            ps == views(parts@),
            ps == trimmed_parts(s@, '+'),
            empty@ == Seq::<char>::empty(),
            binding_fold(ps.take(i as int)) == (views(mods@), match key {
                Some(k) => Some(k@),
                None => None,
            }, None::<Seq<char>>),
    {
        assert(ps.take(i + 1).drop_last() == ps.take(i as int));
        assert(ps.take(i + 1).last() == parts@[i as int]@);
        let k = lower_chars(parts[i].as_slice());
        match modifier_name_exec(k.as_slice()) {
            Some(m) => {
                let ghost old_mods = mods@;
                mods.push(chars_of(m));
                assert(views(mods@) =~= views(old_mods).push(m@));
            },
            None => match gnome_key_name_exec(k.as_slice()) {
                Some(n) => {
                    key = Some(chars_of(n));
                },
                None => {
                    if is_one_byte(k.as_slice()) {
                        key = Some(k);
                    } else {
                        proof {
                            reveal_strlit("f");
                            assert("f"@.len() == 1 && "f"@[0] == 'f');
                            if k@.len() >= 1 && k@[0] == 'f' {
                                assert(k@.take(1) =~= "f"@);
                            }
                            if starts_with(k@, "f"@) {
                                assert(k@.take(1)[0] == 'f');
                            }
                        }
                        let is_fn = if k.len() >= 1 && k[0] == 'f' && k.len() <= 3 {
                            proof {
                                lemma_utf8_len_ge(k@);
                            }
                            let rest = copy_range(k.as_slice(), 1, k.len());
                            assert(rest@ == k@.skip(1));
                            let small = crate::text::utf8_len_exec(k.as_slice()) <= 3;
                            small && match parse_u32(rest.as_slice()) {
                                Some(v) => v <= 255,
                                None => false,
                            }
                        } else {
                            proof {
                                if k@.len() > 3 {
                                    lemma_utf8_len_ge(k@);
                                }
                            }
                            false
                        };
                        if is_fn {
                            assert(k@.len() >= 1);
                            let mut out = join_chars(&mods, empty.as_slice());
                            let ff = chars_of("F");
                            append(&mut out, ff.as_slice());
                            let rest = copy_range(k.as_slice(), 1, k.len());
                            assert(rest@ == k@.skip(1));
                            append(&mut out, rest.as_slice());
                            proof {
                                lemma_fold_done_stays(ps, i + 1, out@);
                            }
                            return Some(string_of(out.as_slice()));
                        } else {
                            key = Some(k);
                        }
                    }
                },
            },
        }
    }
    assert(ps.take(ps.len() as int) == ps);
    match key {
        Some(k) => {
            let mut out = join_chars(&mods, empty.as_slice());
            append(&mut out, k.as_slice());
            Some(string_of(out.as_slice()))
        },
        None => None,
    }
}

/// One entry of a GNOME path list: trimmed, then stripped of single and
/// double quotes.
pub open spec fn path_entry(p: Seq<char>) -> Seq<char> {
    strip_both(strip_both(trim(p), '\''), '"')
}

pub open spec fn path_entries(ps: Seq<Seq<char>>) -> Seq<Seq<char>> {
    Seq::new(ps.len(), |i: int| path_entry(ps[i]))
}

/// The paths in a `gsettings get` list such as `['/a/', '/b/']`.
pub open spec fn parse_path_list_spec(raw: Seq<char>) -> Seq<Seq<char>> {
    let t = trim(raw);
    if t == "@as []"@ || t == "[]"@ {
        Seq::empty()
    } else {
        let inner = strip_trailing(strip_leading(t, '['), ']');
        keep_nonempty(path_entries(split_char(inner, ',')))
    }
}

/// Read the list printed by `gsettings get … custom-keybindings`.
pub fn parse_path_list(raw: &str) -> (r: Vec<String>)
    ensures
        str_views(r@) == parse_path_list_spec(raw@),
{
    let v = chars_of(raw);
    let t = trim_chars(v.as_slice());
    if eq_str(t.as_slice(), "@as []") || eq_str(t.as_slice(), "[]") {
        return Vec::new();
    }
    let a = strip_leading_chars(t.as_slice(), '[');
    let inner = strip_trailing_chars(a.as_slice(), ']');
    let pieces = split_on_char(inner.as_slice(), ',');
    let mut entries: Vec<Vec<char>> = Vec::new();
    for i in 0..pieces.len()
        invariant
            views(entries@) == path_entries(views(pieces@.take(i as int))),
    {
        let tp = trim_chars(pieces[i].as_slice());
        let q = strip_both_chars(tp.as_slice(), '\'');
        let d = strip_both_chars(q.as_slice(), '"');
        let ghost old_e = entries@;
        entries.push(d);
        assert(views(entries@) =~= views(old_e).push(d@));
        assert(views(pieces@.take(i + 1)) =~= views(pieces@.take(i as int)).push(pieces@[i as int]@));
        assert(path_entries(views(pieces@.take(i + 1))) =~= path_entries(views(pieces@.take(i as int))).push(path_entry(pieces@[i as int]@)));
    }
    assert(pieces@.take(pieces@.len() as int) == pieces@);
    let kept = drop_empty(&entries);
    strings_of(&kept)
}

/// A path wrapped in single quotes.
pub open spec fn quoted(p: Seq<char>) -> Seq<char> {
    "'"@ + p + "'"@
}

pub open spec fn quoted_all(ps: Seq<Seq<char>>) -> Seq<Seq<char>> {
    Seq::new(ps.len(), |i: int| quoted(ps[i]))
}

/// The `gsettings set` form of a path list: `[]`, or `['/a/', '/b/']`.
pub open spec fn format_path_list_spec(ps: Seq<Seq<char>>) -> Seq<char> {
    if ps.len() == 0 {
        "[]"@
    } else {
        "["@ + join(quoted_all(ps), ", "@) + "]"@
    }
}

pub fn format_path_list(paths: &Vec<String>) -> (r: String)
    ensures
        r@ == format_path_list_spec(str_views(paths@)),
{
    if paths.len() == 0 {
        return String::from_str("[]");
    }
    let q = chars_of("'");
    let mut items: Vec<Vec<char>> = Vec::new();
    for i in 0..paths.len()
        invariant
            q@ == "'"@,
            views(items@) == quoted_all(str_views(paths@.take(i as int))),
    {
        let mut item = concat(q.as_slice(), chars_of(paths[i].as_str()).as_slice());
        append(&mut item, q.as_slice());
        let ghost old_i = items@;
        items.push(item);
        assert(views(items@) =~= views(old_i).push(item@));
        assert(str_views(paths@.take(i + 1)) =~= str_views(paths@.take(i as int)).push(paths@[i as int]@));
        assert(quoted_all(str_views(paths@.take(i + 1))) =~= quoted_all(str_views(paths@.take(i as int))).push(quoted(paths@[i as int]@)));
    }
    assert(paths@.take(paths@.len() as int) == paths@);
    let sep = chars_of(", ");
    let inner = join_chars(&items, sep.as_slice());
    let mut out = chars_of("[");
    append(&mut out, inner.as_slice());
    let close = chars_of("]");
    append(&mut out, close.as_slice());
    string_of(out.as_slice())
}

/// `paths` with the emoji and clipboard shortcut paths appended when they are
/// missing (existing entries keep their order).
pub open spec fn with_timbits_paths_spec(ps: Seq<Seq<char>>) -> Seq<Seq<char>> {
    let a = if ps.contains(EMOJI_PATH@) { ps } else { ps.push(EMOJI_PATH@) };
    if a.contains(CLIPBOARD_PATH@) { a } else { a.push(CLIPBOARD_PATH@) }
}

fn contains_string(ps: &Vec<String>, x: &str) -> (r: bool)
    ensures
        r == str_views(ps@).contains(x@),
{
    let xc = chars_of(x);
    for i in 0..ps.len()
        invariant
            xc@ == x@,
            forall|j: int| 0 <= j < i ==> ps@[j]@ != x@,
    {
        let pc = chars_of(ps[i].as_str());
        if eq(pc.as_slice(), xc.as_slice()) {
            assert(str_views(ps@)[i as int] == x@);
            return true;
        }
    }
    assert forall|j: int| 0 <= j < str_views(ps@).len() implies str_views(ps@)[j] != x@ by {
        assert(str_views(ps@)[j] == ps@[j]@);
    }
    false
}

pub fn with_timbits_paths(paths: Vec<String>) -> (r: Vec<String>)
    ensures
        str_views(r@) == with_timbits_paths_spec(str_views(paths@)),
{
    let mut paths = paths;
    let ghost orig = str_views(paths@);
    if !contains_string(&paths, EMOJI_PATH) {
        let ghost before = paths@;
        paths.push(String::from_str(EMOJI_PATH));
        assert(str_views(paths@) =~= str_views(before).push(EMOJI_PATH@));
    }
    let ghost a = str_views(paths@);
    if !contains_string(&paths, CLIPBOARD_PATH) {
        let ghost before = paths@;
        paths.push(String::from_str(CLIPBOARD_PATH));
        assert(str_views(paths@) =~= str_views(before).push(CLIPBOARD_PATH@));
    }
    paths
}

// ───────────────────────── path lists read back ─────────────────────────

/// A path that survives being written into a list and read back: not
/// empty, free of commas, and neither starting nor ending with a quote.
pub open spec fn clean_path(p: Seq<char>) -> bool {
    &&& p.len() > 0
    &&& !p.contains(',')
    &&& p[0] != '\'' && p[0] != '"'
    &&& p.last() != '\'' && p.last() != '"'
}

pub open spec fn all_clean(ps: Seq<Seq<char>>) -> bool {
    forall|i: int| 0 <= i < ps.len() ==> clean_path(#[trigger] ps[i])
}

/// The pieces that splitting a `", "`-joined list at its commas yields.
spec fn comma_pieces(qs: Seq<Seq<char>>) -> Seq<Seq<char>> {
    Seq::new(qs.len(), |i: int| if i == 0 { qs[0] } else { " "@ + qs[i] })
}

proof fn lemma_split_join(qs: Seq<Seq<char>>)
    requires
        qs.len() >= 1,
        forall|i: int| 0 <= i < qs.len() ==> !(#[trigger] qs[i]).contains(','),
    ensures
        split_char(join(qs, ", "@), ',') == comma_pieces(qs),
    decreases qs.len(),
{
    reveal_strlit(", ");
    reveal_strlit(" ");
    if qs.len() == 1 {
        let e = Seq::<char>::empty();
        lemma_split_extend(e, qs[0], ',');
        assert(e + qs[0] =~= qs[0]);
        assert(split_char(e, ',') =~= seq![e]);
        assert(e + qs[0] =~= qs[0]);
        assert(split_char(join(qs, ", "@), ',') =~= comma_pieces(qs));
    } else {
        let init = qs.drop_last();
        assert forall|i: int| 0 <= i < init.len() implies !(#[trigger] init[i]).contains(',') by {
            assert(init[i] == qs[i]);
        }
        lemma_split_join(init);
        let j = join(init, ", "@);
        let tail = " "@ + qs.last();
        assert(!tail.contains(',')) by {
            assert(!qs[qs.len() - 1].contains(','));
            if tail.contains(',') {
                let i = choose|i: int| 0 <= i < tail.len() && tail[i] == ',';
                if i > 0 {
                    assert(qs.last()[i - 1] == ',');
                }
            }
        }
        assert(join(qs, ", "@) =~= j.push(',') + tail);
        lemma_split_at_sep(j, ',');
        lemma_split_extend(j.push(','), tail, ',');
        let e = Seq::<char>::empty();
        assert(e + tail =~= tail);
        assert(comma_pieces(init).push(e).update(init.len() as int, e + tail) =~= comma_pieces(qs));
    }
}

proof fn lemma_entry_of_quoted(p: Seq<char>, lead: bool)
    requires
        clean_path(p),
    ensures
        path_entry(if lead { " "@ + quoted(p) } else { quoted(p) }) == p,
{
    reveal_strlit(" ");
    reveal_strlit("'");
    let q = quoted(p);
    let piece = if lead { " "@ + q } else { q };
    assert(q.len() == p.len() + 2);
    assert(q[0] == '\'');
    assert(q.last() == '\'');
    assert(trim_start(q) == q);
    if lead {
        assert(piece.drop_first() =~= q);
        assert(is_ws(piece[0]));
    }
    assert(trim_start(piece) == q);
    assert(trim_end(q) == q);
    assert(trim(piece) == q);
    let d = q.drop_first();
    assert(d =~= p + "'"@);
    assert(d[0] == p[0]);
    assert(strip_leading(d, '\'') == d);
    assert(strip_leading(q, '\'') == d);
    assert(d.drop_last() =~= p);
    assert(strip_trailing(p, '\'') == p);
    assert(strip_trailing(d, '\'') == p);
    assert(strip_leading(p, '"') == p);
    assert(strip_trailing(p, '"') == p);
}

proof fn lemma_join_ends(qs: Seq<Seq<char>>)
    requires
        qs.len() >= 1,
        forall|i: int| 0 <= i < qs.len() ==> (#[trigger] qs[i]).len() > 0,
    ensures
        join(qs, ", "@).len() > 0,
        join(qs, ", "@)[0] == qs[0][0],
        join(qs, ", "@).last() == qs.last().last(),
    decreases qs.len(),
{
    if qs.len() > 1 {
        let init = qs.drop_last();
        assert forall|i: int| 0 <= i < init.len() implies (#[trigger] init[i]).len() > 0 by {
            assert(init[i] == qs[i]);
        }
        lemma_join_ends(init);
        assert(qs[qs.len() - 1].len() > 0);
        assert(init[0] == qs[0]);
    }
}

/// Reading back a written path list gives the same paths, for paths that
/// are not empty, hold no comma and neither start nor end with a quote.
pub proof fn path_list_round_trip(ps: Seq<Seq<char>>)
    requires
        all_clean(ps),
    ensures
        parse_path_list_spec(format_path_list_spec(ps)) == ps,
{
    reveal_strlit("[]");
    reveal_strlit("@as []");
    reveal_strlit("[");
    reveal_strlit("]");
    reveal_strlit("'");
    let f = format_path_list_spec(ps);
    if ps.len() == 0 {
        assert(f == "[]"@);
        assert(trim_start(f) == f);
        assert(trim_end(f) == f);
        assert(parse_path_list_spec(f) =~= ps);
    } else {
        let qs = quoted_all(ps);
        assert forall|i: int| 0 <= i < qs.len() implies (#[trigger] qs[i]).len() > 0 && !qs[i].contains(',') by {
            let p = ps[i];
            assert(clean_path(p));
            assert(qs[i] == quoted(p));
            assert(qs[i][0] == '\'');
            if qs[i].contains(',') {
                let k = choose|k: int| 0 <= k < qs[i].len() && qs[i][k] == ',';
                assert(qs[i] =~= "'"@ + p + "'"@);
                assert(k != 0 && k != qs[i].len() - 1);
                assert(p[k - 1] == ',');
            }
        }
        lemma_join_ends(qs);
        let j = join(qs, ", "@);
        assert(qs[0][0] == '\'');
        assert(qs.last().last() == '\'');
        assert(f =~= "["@ + j + "]"@);
        assert(f[0] == '[');
        assert(f.last() == ']');
        assert(trim_start(f) == f);
        assert(trim_end(f) == f);
        assert(trim(f) == f);
        assert(f != "@as []"@) by {
            assert("@as []"@[0] == '@');
        }
        assert(f.len() > 2);
        let a = f.drop_first();
        assert(a =~= j + "]"@);
        assert(a[0] == '\'');
        assert(strip_leading(a, '[') == a);
        assert(strip_leading(f, '[') == a);
        assert(a.drop_last() =~= j);
        assert(strip_trailing(j, ']') == j);
        assert(strip_trailing(a, ']') == j);
        lemma_split_join(qs);
        let pieces = comma_pieces(qs);
        assert forall|i: int| 0 <= i < ps.len() implies path_entries(pieces)[i] == ps[i] by {
            assert(clean_path(ps[i]));
            lemma_entry_of_quoted(ps[i], i != 0);
            assert(qs[i] == quoted(ps[i]));
        }
        assert(path_entries(pieces) =~= ps);
        assert forall|i: int| 0 <= i < ps.len() implies (#[trigger] ps[i]).len() > 0 by {
            assert(clean_path(ps[i]));
        }
        lemma_keep_nonempty_all(ps);
    }
}

proof fn lemma_timbits_paths_clean()
    ensures
        clean_path(EMOJI_PATH@),
        clean_path(CLIPBOARD_PATH@),
{
    reveal_strlit("/org/gnome/settings-daemon/plugins/media-keys/custom-keybindings/timbits-emoji/");
    reveal_strlit("/org/gnome/settings-daemon/plugins/media-keys/custom-keybindings/timbits-clipboard/");
    assert forall|i: int| 0 <= i < EMOJI_PATH@.len() implies EMOJI_PATH@[i] != ',' by {}
    assert forall|i: int| 0 <= i < CLIPBOARD_PATH@.len() implies CLIPBOARD_PATH@[i] != ',' by {}
}

/// Registering the shortcuts twice writes the same list as once: the list
/// written already holds both paths, and reads back unchanged (for lists
/// whose paths are clean, as [`clean_path`] says).
pub proof fn install_list_settles(raw: Seq<char>)
    requires
        all_clean(parse_path_list_spec(raw)),
    ensures
        ({
            let written = format_path_list_spec(with_timbits_paths_spec(parse_path_list_spec(raw)));
            format_path_list_spec(with_timbits_paths_spec(parse_path_list_spec(written))) == written
        }),
{
    let p = parse_path_list_spec(raw);
    let e = EMOJI_PATH@;
    let c = CLIPBOARD_PATH@;
    lemma_timbits_paths_clean();
    let a = if p.contains(e) { p } else { p.push(e) };
    let w = with_timbits_paths_spec(p);
    assert(a.contains(e)) by {
        if !p.contains(e) {
            assert(a[a.len() - 1] == e);
        }
    }
    assert(all_clean(a)) by {
        assert forall|i: int| 0 <= i < a.len() implies clean_path(#[trigger] a[i]) by {
            if i < p.len() {
                assert(a[i] == p[i]);
            }
        }
    }
    assert(w.contains(e) && w.contains(c) && all_clean(w)) by {
        if !a.contains(c) {
            let i = choose|i: int| 0 <= i < a.len() && a[i] == e;
            assert(w[i] == e);
            assert(w[w.len() - 1] == c);
            assert forall|k: int| 0 <= k < w.len() implies clean_path(#[trigger] w[k]) by {
                if k < a.len() {
                    assert(w[k] == a[k]);
                }
            }
        }
    }
    path_list_round_trip(w);
    assert(with_timbits_paths_spec(w) == w);
}

/// The relocatable schema of one custom shortcut.
pub fn binding_schema(path: &str) -> (r: String)
    ensures
        r@ == "org.gnome.settings-daemon.plugins.media-keys.custom-keybinding:"@ + path@,
{
    let mut v = chars_of("org.gnome.settings-daemon.plugins.media-keys.custom-keybinding:");
    let p = chars_of(path);
    append(&mut v, p.as_slice());
    string_of(v.as_slice())
}

/// The accelerator for a configured hotkey, or `fallback` when it has no key.
pub fn binding_or(hotkey: &str, fallback: &str) -> (r: String)
    ensures
        r@ == match gnome_binding_spec(hotkey@) {
            Some(b) => b,
            None => fallback@,
        },
{
    match to_gnome_binding(hotkey) {
        Some(b) => b,
        None => String::from_str(fallback),
    }
}

/// The `gsettings set` argument lists that define one custom shortcut:
/// its name, its command and its key binding.
pub fn binding_settings(path: &str, name: &str, command: &str, binding: &str) -> (r: Vec<Vec<String>>)
    ensures
        r@.len() == 3,
        str_views(r@[0]@) == seq!["set"@, "org.gnome.settings-daemon.plugins.media-keys.custom-keybinding:"@ + path@, "name"@, name@],
        str_views(r@[1]@) == seq!["set"@, "org.gnome.settings-daemon.plugins.media-keys.custom-keybinding:"@ + path@, "command"@, command@],
        str_views(r@[2]@) == seq!["set"@, "org.gnome.settings-daemon.plugins.media-keys.custom-keybinding:"@ + path@, "binding"@, binding@],
{
    let mut r: Vec<Vec<String>> = Vec::new();
    let fields: Vec<(&str, &str)> = vec![("name", name), ("command", command), ("binding", binding)];
    for i in 0..3
        invariant
            fields@.len() == 3,
            fields@[0].0@ == "name"@ && fields@[0].1@ == name@,
            fields@[1].0@ == "command"@ && fields@[1].1@ == command@,
            fields@[2].0@ == "binding"@ && fields@[2].1@ == binding@,
            r@.len() == i,
            forall|k: int|
                0 <= k < i ==> str_views((#[trigger] r@[k])@) == seq![
                    "set"@,
                    "org.gnome.settings-daemon.plugins.media-keys.custom-keybinding:"@ + path@,
                    fields@[k].0@,
                    fields@[k].1@,
                ],
    {
        let mut args: Vec<String> = Vec::new();
        args.push(String::from_str("set"));
        args.push(binding_schema(path));
        args.push(String::from_str(fields[i].0));
        args.push(String::from_str(fields[i].1));
        assert(str_views(args@) =~= seq![
            "set"@,
            "org.gnome.settings-daemon.plugins.media-keys.custom-keybinding:"@ + path@,
            fields@[i as int].0@,
            fields@[i as int].1@,
        ]);
        r.push(args);
    }
    r
}

/// What registering the shortcuts writes: the new list of custom shortcut
/// paths, and the command and binding of each picker.
pub struct GnomeInstall {
    pub list_value: String,
    pub emoji_command: String,
    pub emoji_binding: String,
    pub clip_command: String,
    pub clip_binding: String,
}

/// The shortcut settings for the configured hotkeys, given the current
/// list of custom shortcut paths (as `gsettings get` printed it) and the
/// program path: both pickers' paths are added to the list when missing,
/// and an unusable hotkey falls back to `<Super>period` / `<Super><Shift>c`.
pub fn gnome_install_plan(raw_list: &str, bin: &str, emoji_hotkey: &str, clipboard_hotkey: &str) -> (r:
    GnomeInstall)
    ensures
        r.list_value@ == format_path_list_spec(with_timbits_paths_spec(parse_path_list_spec(raw_list@))),
        r.emoji_command@ == bin@ + " emoji"@,
        r.clip_command@ == bin@ + " clipboard"@,
        r.emoji_binding@ == match gnome_binding_spec(emoji_hotkey@) {
            Some(b) => b,
            None => "<Super>period"@,
        },
        r.clip_binding@ == match gnome_binding_spec(clipboard_hotkey@) {
            Some(b) => b,
            None => "<Super><Shift>c"@,
        },
{
    let paths = with_timbits_paths(parse_path_list(raw_list));
    let list_value = format_path_list(&paths);
    let mut e = chars_of(bin);
    append(&mut e, chars_of(" emoji").as_slice());
    let mut c = chars_of(bin);
    append(&mut c, chars_of(" clipboard").as_slice());
    GnomeInstall {
        list_value,
        emoji_command: string_of(e.as_slice()),
        emoji_binding: binding_or(emoji_hotkey, "<Super>period"),
        clip_command: string_of(c.as_slice()),
        clip_binding: binding_or(clipboard_hotkey, "<Super><Shift>c"),
    }
}

} // verus!
