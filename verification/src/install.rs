//! Installation files: desktop entries, the autostart directory and the
//! icon sizes installed.
use vstd::prelude::*;

use crate::config::{config_dir, join_path, path_join};
use crate::text::{append, chars_of, dec, dec_chars, string_of};

verus! {

/// The text of a `.desktop` entry.
pub open spec fn desktop_entry_spec(name: Seq<char>, comment: Seq<char>, exec: Seq<char>, show_in_menu: bool) -> Seq<char> {
    "[Desktop Entry]\nType=Application\nName="@ + name + "\nComment="@ + comment + "\nExec="@ + exec
        + "\nIcon=timbits\nTerminal=false\nCategories=Utility;Accessibility;\nStartupWMClass=timbits\nNoDisplay="@
        + (if show_in_menu {
        "false"@
    } else {
        "true"@
    }) + "\n"@
}

pub fn desktop_entry(name: &str, comment: &str, exec: &str, show_in_menu: bool) -> (r: String)
    ensures
        r@ == desktop_entry_spec(name@, comment@, exec@, show_in_menu),
{
    let no_display = if show_in_menu {
        "false"
    } else {
        "true"
    };
    let mut v = chars_of("[Desktop Entry]\nType=Application\nName=");
    append(&mut v, chars_of(name).as_slice());
    append(&mut v, chars_of("\nComment=").as_slice());
    append(&mut v, chars_of(comment).as_slice());
    append(&mut v, chars_of("\nExec=").as_slice());
    append(&mut v, chars_of(exec).as_slice());
    append(
        &mut v,
        chars_of(
            "\nIcon=timbits\nTerminal=false\nCategories=Utility;Accessibility;\nStartupWMClass=timbits\nNoDisplay=",
        ).as_slice(),
    );
    append(&mut v, chars_of(no_display).as_slice());
    append(&mut v, chars_of("\n").as_slice());
    string_of(v.as_slice())
}

/// What `Path::parent` gives for a path (as text), if anything.
pub uninterp spec fn parent_of(p: Seq<char>) -> Option<Seq<char>>;

/// `Path::parent`, as text: named as a function of the path.
#[verifier::external_body]
fn path_parent(p: &str) -> (r: Option<String>)
    ensures
        match r {
            Some(q) => parent_of(p@) == Some(q@),
            None => parent_of(p@) is None,
        },
{
    std::path::Path::new(p).parent().map(|q| q.to_string_lossy().into_owned())
}

/// The autostart directory next to the configuration directory, given the
/// parent of that directory.
pub fn autostart_dir_of(config_dir: &str, parent: Option<String>) -> (r: String)
    ensures
        r@ == match parent {
            Some(p) => path_join(p@, "autostart"@),
            None => path_join(config_dir@, "autostart"@),
        },
{
    match parent {
        Some(p) => join_path(p.as_str(), "autostart"),
        None => join_path(config_dir, "autostart"),
    }
}

/// `~/.config/autostart` (beside the configuration directory).
pub fn xdg_autostart_dir() -> (r: String)
    ensures
        exists|d: Seq<char>|
            r@ == match #[trigger] parent_of(d) {
                Some(p) => path_join(p, "autostart"@),
                None => path_join(d, "autostart"@),
            },
{
    let d = config_dir();
    let parent = path_parent(d.as_str());
    autostart_dir_of(d.as_str(), parent)
}

/// The icon sizes installed, smallest first.
pub fn icon_sizes() -> (r: Vec<u32>)
    ensures
        r@ == seq![16u32, 24, 32, 48, 64, 128, 256, 512],
{
    vec![16, 24, 32, 48, 64, 128, 256, 512]
}

/// The icon-theme directory of a size: `<size>x<size>/apps`.
pub fn icon_size_dir(size: u32) -> (r: String)
    ensures
        r@ == dec(size as nat) + "x"@ + dec(size as nat) + "/apps"@,
{
    let mut v = dec_chars(size as u64);
    append(&mut v, chars_of("x").as_slice());
    append(&mut v, dec_chars(size as u64).as_slice());
    append(&mut v, chars_of("/apps").as_slice());
    string_of(v.as_slice())
}

} // verus!
