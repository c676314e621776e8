//! The clipboard history window's logic: keyboard navigation over the
//! result list, keeping the selection inside the list, and the row labels.
use vstd::prelude::*;

use crate::text::{append, chars_of, dec, dec_chars, string_of};

verus! {

/// How many results the window lists.
pub const RESULT_LIMIT: usize = 300;

/// How far Page Up / Page Down move the selection.
pub const PAGE_STEP: usize = 12;

/// The keys pressed in one frame (arrow and page keys with their repeat
/// counts).
#[derive(Debug, Clone, Copy)]
pub struct HistoryKeys {
    pub esc: bool,
    pub enter: bool,
    pub up: u32,
    pub down: u32,
    pub page_up: u32,
    pub page_down: u32,
    pub ctrl_delete: bool,
}

/// What the window does with a frame's keys.
#[derive(Debug, Clone, Copy, PartialEq, Eq, Structural)]
pub enum HistoryAction {
    /// Close without choosing.
    Close,
    /// Paste entry `i`.
    Choose(usize),
    /// Forget the selected entry.
    Forget,
    /// Keep going.
    Stay,
}

pub open spec fn clamp_down(sel: int, n: int, len: int) -> int {
    if sel + n < len - 1 {
        sel + n
    } else {
        len - 1
    }
}

pub open spec fn clamp_up(sel: int, n: int) -> int {
    if sel - n > 0 {
        sel - n
    } else {
        0
    }
}

/// The selection after the frame's arrow and page keys: down, up, page down,
/// page up, each applied only when pressed and kept inside the list.
pub open spec fn moved_selection(sel: int, len: int, k: HistoryKeys) -> int {
    let a = if k.down > 0 {
        clamp_down(sel, k.down as int, len)
    } else {
        sel
    };
    let b = if k.up > 0 {
        clamp_up(a, k.up as int)
    } else {
        a
    };
    let c = if k.page_down > 0 {
        clamp_down(b, k.page_down * PAGE_STEP, len)
    } else {
        b
    };
    if k.page_up > 0 {
        clamp_up(c, k.page_up * PAGE_STEP)
    } else {
        c
    }
}

/// The new selection and action for a frame; an empty list ignores
/// navigation and Enter.
pub open spec fn history_keys_spec(selected: usize, len: usize, k: HistoryKeys) -> (int, HistoryAction) {
    if k.esc {
        (selected as int, HistoryAction::Close)
    } else if len == 0 {
        (selected as int, if k.ctrl_delete {
            HistoryAction::Forget
        } else {
            HistoryAction::Stay
        })
    } else {
        let s = moved_selection(selected as int, len as int, k);
        (s, if k.enter {
            HistoryAction::Choose(s as usize)
        } else if k.ctrl_delete {
            HistoryAction::Forget
        } else {
            HistoryAction::Stay
        })
    }
}

fn down_exec(sel: u128, n: u128, len: u128) -> (r: u128)
    requires
        len >= 1,
        sel < 0x1_0000_0000_0000_0000_0000,
        n < 0x1_0000_0000_0000_0000_0000,
    ensures
        r == clamp_down(sel as int, n as int, len as int),
{
    if sel + n < len - 1 {
        sel + n
    } else {
        len - 1
    }
}

fn up_exec(sel: u128, n: u128) -> (r: u128)
    ensures
        r == clamp_up(sel as int, n as int),
{
    if sel > n {
        sel - n
    } else {
        0
    }
}

/// Handle one frame's keys: the new selection and what to do.
pub fn history_keys(selected: usize, len: usize, k: HistoryKeys) -> (r: (usize, HistoryAction))
    requires
        len == 0 || selected < len,
    ensures
        r.0 == history_keys_spec(selected, len, k).0,
        r.1 == history_keys_spec(selected, len, k).1,
        len > 0 ==> r.0 < len,
{
    if k.esc {
        return (selected, HistoryAction::Close);
    }
    if len == 0 {
        let act = if k.ctrl_delete {
            HistoryAction::Forget
        } else {
            HistoryAction::Stay
        };
        return (selected, act);
    }
    let l = len as u128;
    let mut s = selected as u128;
    if k.down > 0 {
        s = down_exec(s, k.down as u128, l);
    }
    if k.up > 0 {
        s = up_exec(s, k.up as u128);
    }
    if k.page_down > 0 {
        s = down_exec(s, (k.page_down as u128) * (PAGE_STEP as u128), l);
    }
    if k.page_up > 0 {
        s = up_exec(s, (k.page_up as u128) * (PAGE_STEP as u128));
    }
    let sel = s as usize;
    let act = if k.enter {
        HistoryAction::Choose(sel)
    } else if k.ctrl_delete {
        HistoryAction::Forget
    } else {
        HistoryAction::Stay
    };
    (sel, act)
}

/// The selection after the list was reloaded with `len` entries: kept when
/// still inside, else the last entry (0 for an empty list).
pub fn clamp_selection(selected: usize, len: usize) -> (r: usize)
    ensures
        selected < len ==> r == selected,
        selected >= len ==> r == if len == 0 {
            0
        } else {
            len - 1
        },
{
    if selected >= len {
        if len == 0 {
            0
        } else {
            len - 1
        }
    } else {
        selected
    }
}

/// At most `max` characters, with `…` after a cut.
pub open spec fn truncate_spec(s: Seq<char>, max: nat) -> Seq<char> {
    if s.len() <= max {
        s
    } else {
        s.take(max as int).push('…')
    }
}

/// Truncate to `max` Unicode scalars without panicking on multi-byte chars.
pub fn truncate_chars(s: &str, max: usize) -> (r: String)
    ensures
        r@ == truncate_spec(s@, max as nat),
{
    let v = chars_of(s);
    if v.len() <= max {
        return string_of(v.as_slice());
    }
    let mut out = crate::text::copy_range(v.as_slice(), 0, max);
    out.push('…');
    string_of(out.as_slice())
}

/// The footer text: `<n> items  ·  Ctrl+Del forget`.
pub fn items_footer(n: usize) -> (r: String)
    ensures
        r@ == dec(n as nat) + " items  ·  Ctrl+Del forget"@,
{
    let mut v = dec_chars(n as u64);
    append(&mut v, chars_of(" items  ·  Ctrl+Del forget").as_slice());
    string_of(v.as_slice())
}

/// The use count shown on a row: `· used <n>×` when used more than once.
pub fn row_use_label(use_count: i64) -> (r: Option<String>)
    ensures
        use_count > 1 ==> (r matches Some(s) && s@ == "· used "@ + dec(use_count as nat) + "×"@),
        use_count <= 1 ==> r is None,
{
    if use_count > 1 {
        let mut v = chars_of("· used ");
        append(&mut v, dec_chars(use_count as u64).as_slice());
        append(&mut v, chars_of("×").as_slice());
        Some(string_of(v.as_slice()))
    } else {
        None
    }
}

/// The use count shown in the preview: `used <n>×` when used at all.
pub fn preview_use_label(use_count: i64) -> (r: Option<String>)
    ensures
        use_count > 0 ==> (r matches Some(s) && s@ == "used "@ + dec(use_count as nat) + "×"@),
        use_count <= 0 ==> r is None,
{
    if use_count > 0 {
        let mut v = chars_of("used ");
        append(&mut v, dec_chars(use_count as u64).as_slice());
        append(&mut v, chars_of("×").as_slice());
        Some(string_of(v.as_slice()))
    } else {
        None
    }
}

} // verus!
