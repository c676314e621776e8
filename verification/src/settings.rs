//! The settings window's logic: the status line after saving or applying
//! hotkeys, and the range of the history size.
use vstd::prelude::*;

use crate::text::{append, chars_of, string_of};

verus! {

/// The status line after saving the configuration to `config_path`, and
/// whether it reports success.
pub fn save_status(saved: Result<(), String>, config_path: &str) -> (r: (String, bool))
    ensures
        match saved {
            Ok(()) => r.0@ == "Saved "@ + config_path@ && r.1,
            Err(e) => r.0@ == "Save failed: "@ + e@ && !r.1,
        },
{
    match saved {
        Ok(()) => {
            let mut v = chars_of("Saved ");
            append(&mut v, chars_of(config_path).as_slice());
            (string_of(v.as_slice()), true)
        },
        Err(e) => {
            let mut v = chars_of("Save failed: ");
            append(&mut v, chars_of(e.as_str()).as_slice());
            (string_of(v.as_slice()), false)
        },
    }
}

pub open spec fn hotkeys_updated_msg() -> Seq<char> {
    "GNOME hotkeys updated. Super+Shift+C / Super+. (and keyd) still apply."@
}

pub open spec fn no_gsettings_msg() -> Seq<char> {
    "Saved config (gsettings not available — set DE shortcuts manually)."@
}

/// The status line after "Save & apply GNOME hotkeys": a failed save stops
/// there; otherwise the outcome of registering the shortcuts (`Ok(false)`
/// when gsettings is not available).
pub fn apply_status(saved: Result<(), String>, installed: Result<bool, String>) -> (r: (String, bool))
    ensures
        match saved {
            Err(e) => r.0@ == "Could not save config: "@ + e@ && !r.1,
            Ok(()) => match installed {
                Ok(true) => r.0@ == hotkeys_updated_msg() && r.1,
                Ok(false) => r.0@ == no_gsettings_msg() && r.1,
                Err(e) => r.0@ == "Hotkey apply failed: "@ + e@ && !r.1,
            },
        },
{
    match saved {
        Err(e) => {
            let mut v = chars_of("Could not save config: ");
            append(&mut v, chars_of(e.as_str()).as_slice());
            (string_of(v.as_slice()), false)
        },
        Ok(()) => match installed {
            Ok(true) => (
                String::from_str(
                    "GNOME hotkeys updated. Super+Shift+C / Super+. (and keyd) still apply.",
                ),
                true,
            ),
            Ok(false) => (
                String::from_str(
                    "Saved config (gsettings not available — set DE shortcuts manually).",
                ),
                true,
            ),
            Err(e) => {
                let mut v = chars_of("Hotkey apply failed: ");
                append(&mut v, chars_of(e.as_str()).as_slice());
                (string_of(v.as_slice()), false)
            },
        },
    }
}

/// The smallest and largest history sizes the settings accept.
pub const MIN_ENTRIES: i64 = 50;

pub const MAX_ENTRIES: i64 = 5000;

/// The history size kept inside the accepted range.
pub fn clamp_max_entries(v: i64) -> (r: i64)
    ensures
        MIN_ENTRIES <= r <= MAX_ENTRIES,
        MIN_ENTRIES <= v <= MAX_ENTRIES ==> r == v,
        v < MIN_ENTRIES ==> r == MIN_ENTRIES,
        v > MAX_ENTRIES ==> r == MAX_ENTRIES,
{
    if v < MIN_ENTRIES {
        MIN_ENTRIES
    } else if v > MAX_ENTRIES {
        MAX_ENTRIES
    } else {
        v
    }
}

} // verus!
