//! Shared picker logic: entry kind badges, relative times and the system
//! theme preferences read from GNOME settings.
use vstd::prelude::*;

use crate::storage::{now_ts, ts_of, EntryKind};
use crate::text::{append, chars_of, contains, contains_str, dec, dec_chars, eq_str, from_utf8_lossy, lower_chars, lower_text, string_of, strip_both, strip_both_chars, trim, trim_chars, utf8_lossy};

verus! {

pub open spec fn kind_icon_spec(kind: EntryKind) -> Seq<char> {
    match kind {
        EntryKind::Text => "📄"@,
        EntryKind::Image => "🖼"@,
        EntryKind::Files => "📁"@,
    }
}

/// The icon shown for an entry kind.
pub fn kind_icon(kind: EntryKind) -> (r: &'static str)
    ensures
        r@ == kind_icon_spec(kind),
{
    match kind {
        EntryKind::Text => "📄",
        EntryKind::Image => "🖼",
        EntryKind::Files => "📁",
    }
}

pub open spec fn kind_label_spec(kind: EntryKind) -> Seq<char> {
    match kind {
        EntryKind::Text => "Text"@,
        EntryKind::Image => "Image"@,
        EntryKind::Files => "Files"@,
    }
}

/// The label shown for an entry kind.
pub fn kind_label(kind: EntryKind) -> (r: &'static str)
    ensures
        r@ == kind_label_spec(kind),
{
    match kind {
        EntryKind::Text => "Text",
        EntryKind::Image => "Image",
        EntryKind::Files => "Files",
    }
}

/// How long ago `ts` was at time `now`: "just now", minutes, hours or days
/// (a time in the future reads as "just now").
pub open spec fn rel_time_spec(now: i64, ts: i64) -> Seq<char> {
    let d = now - ts;
    let secs: int = if d < 0 {
        0
    } else {
        d
    };
    if secs < 60 {
        "just now"@
    } else if secs < 3600 {
        dec((secs / 60) as nat) + "m"@
    } else if secs < 86_400 {
        dec((secs / 3600) as nat) + "h"@
    } else {
        dec((secs / 86_400) as nat) + "d"@
    }
}

/// "just now" / "5m" / "3h" / "12d", measured at time `now`.
pub fn rel_time_at(now: i64, ts: i64) -> (r: String)
    ensures
        r@ == rel_time_spec(now, ts),
{
    let d: i128 = now as i128 - ts as i128;
    let secs: u64 = if d < 0 {
        0
    } else {
        d as u64
    };
    if secs < 60 {
        return String::from_str("just now");
    }
    let (n, unit): (u64, &str) = if secs < 3600 {
        (secs / 60, "m")
    } else if secs < 86_400 {
        (secs / 3600, "h")
    } else {
        (secs / 86_400, "d")
    };
    let mut v = dec_chars(n);
    append(&mut v, chars_of(unit).as_slice());
    string_of(v.as_slice())
}

/// "just now" / "5m" / "3h" / "12d"
pub fn rel_time(ts: i64) -> (r: String)
    ensures
        exists|now: i64| r@ == rel_time_spec(now, ts),
{
    rel_time_at(now_ts(), ts)
}

/// Whether the desktop prefers a dark theme, from what `gsettings get`
/// printed for the colour scheme and, when that says neither, for the GTK
/// theme (`None` where the command failed). Dark is the default.
pub open spec fn prefers_dark_spec(color_scheme: Option<Seq<char>>, gtk_theme: Option<Seq<char>>) -> bool {
    let cs = match color_scheme {
        Some(s) => lower_text(s),
        None => Seq::empty(),
    };
    let th = match gtk_theme {
        Some(s) => lower_text(s),
        None => Seq::empty(),
    };
    if color_scheme is Some && contains(cs, "prefer-dark"@) {
        true
    } else if color_scheme is Some && contains(cs, "prefer-light"@) {
        false
    } else if gtk_theme is Some && (contains(th, "dark"@) || contains(th, "dracula"@)) {
        true
    } else {
        true
    }
}

pub fn prefers_dark(color_scheme: Option<&str>, gtk_theme: Option<&str>) -> (r: bool)
    ensures
        r == prefers_dark_spec(
            match color_scheme {
                Some(s) => Some(s@),
                None => None,
            },
            match gtk_theme {
                Some(s) => Some(s@),
                None => None,
            },
        ),
{
    match color_scheme {
        Some(s) => {
            let l = lower_chars(chars_of(s).as_slice());
            if contains_str(l.as_slice(), "prefer-dark") {
                return true;
            }
            if contains_str(l.as_slice(), "prefer-light") {
                return false;
            }
        },
        None => {},
    }
    match gtk_theme {
        Some(s) => {
            let l = lower_chars(chars_of(s).as_slice());
            if contains_str(l.as_slice(), "dark") || contains_str(l.as_slice(), "dracula") {
                return true;
            }
        },
        None => {},
    }
    true
}

/// The accent colour name in what `gsettings get … accent-color` printed:
/// trimmed, without quotes, lowercase.
pub open spec fn accent_name_spec(out: Seq<u8>) -> Seq<char> {
    lower_text(strip_both(trim(utf8_lossy(out)), '\''))
}

pub fn accent_name(stdout: &[u8]) -> (r: String)
    ensures
        r@ == accent_name_spec(stdout@),
{
    let raw = from_utf8_lossy(stdout);
    let t = trim_chars(chars_of(raw.as_str()).as_slice());
    let q = strip_both_chars(t.as_slice(), '\'');
    string_of(lower_chars(q.as_slice()).as_slice())
}

/// The Adwaita colour of a GNOME accent name (blue for unknown names).
pub open spec fn accent_rgb_spec(name: Seq<char>) -> (u8, u8, u8) {
    if name == "teal"@ {
        (0x21, 0x90, 0xa4)
    } else if name == "green"@ {
        (0x3a, 0x94, 0x4a)
    } else if name == "yellow"@ {
        (0xc8, 0x88, 0x00)
    } else if name == "orange"@ {
        (0xed, 0x5b, 0x00)
    } else if name == "red"@ {
        (0xe6, 0x2d, 0x42)
    } else if name == "pink"@ {
        (0xd5, 0x61, 0x99)
    } else if name == "purple"@ {
        (0x91, 0x41, 0xac)
    } else if name == "slate"@ {
        (0x6f, 0x83, 0x96)
    } else {
        (0x35, 0x84, 0xe4)
    }
}

pub fn accent_rgb(name: &str) -> (r: (u8, u8, u8))
    ensures
        r == accent_rgb_spec(name@),
{
    let v = chars_of(name);
    let n = v.as_slice();
    if eq_str(n, "teal") {
        (0x21, 0x90, 0xa4)
    } else if eq_str(n, "green") {
        (0x3a, 0x94, 0x4a)
    } else if eq_str(n, "yellow") {
        (0xc8, 0x88, 0x00)
    } else if eq_str(n, "orange") {
        (0xed, 0x5b, 0x00)
    } else if eq_str(n, "red") {
        (0xe6, 0x2d, 0x42)
    } else if eq_str(n, "pink") {
        (0xd5, 0x61, 0x99)
    } else if eq_str(n, "purple") {
        (0x91, 0x41, 0xac)
    } else if eq_str(n, "slate") {
        (0x6f, 0x83, 0x96)
    } else {
        (0x35, 0x84, 0xe4)
    }
}

} // verus!
