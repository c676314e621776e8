//! The command line: which subcommand runs, and how a chosen history entry
//! is pasted.
use vstd::prelude::*;

use crate::storage::{Entry, EntryKind};
use crate::text::{chars_of, eq_str};

verus! {

/// A `timbits` subcommand.
#[derive(Debug, Clone, PartialEq, Eq)]
pub enum CliCommand {
    Emoji,
    Clipboard,
    Daemon,
    Install,
    Settings,
    /// Serve staged clipboard content of this kind.
    ServeClip(String),
    /// Refresh the emoji catalogue: the user's copy, or with `--assets` the
    /// one shipped in the source tree.
    UpdateEmojis { assets: bool },
    Help,
}

pub open spec fn is_arg(a: Option<&str>, lit: Seq<char>) -> bool {
    a matches Some(s) && s@ == lit
}

/// Which subcommand the first argument names, by position in
/// [`CliCommand`]: `clip` is `clipboard`, `prefs` and `preferences` are
/// `settings`, `update-emojis` refreshes the catalogue, anything unknown
/// asks for help.
pub open spec fn command_of(arg1: Option<&str>) -> int {
    if is_arg(arg1, "emoji"@) {
        0
    } else if is_arg(arg1, "clipboard"@) || is_arg(arg1, "clip"@) {
        1
    } else if is_arg(arg1, "daemon"@) {
        2
    } else if is_arg(arg1, "install"@) {
        3
    } else if is_arg(arg1, "settings"@) || is_arg(arg1, "prefs"@) || is_arg(arg1, "preferences"@) {
        4
    } else if is_arg(arg1, "__serve-clip"@) {
        5
    } else if is_arg(arg1, "update-emojis"@) {
        6
    } else {
        7
    }
}

pub open spec fn command_code(c: CliCommand) -> int {
    match c {
        CliCommand::Emoji => 0,
        CliCommand::Clipboard => 1,
        CliCommand::Daemon => 2,
        CliCommand::Install => 3,
        CliCommand::Settings => 4,
        CliCommand::ServeClip(_) => 5,
        CliCommand::UpdateEmojis { .. } => 6,
        CliCommand::Help => 7,
    }
}

fn arg_is(a: Option<&str>, lit: &str) -> (r: bool)
    ensures
        r == is_arg(a, lit@),
{
    match a {
        Some(s) => eq_str(chars_of(s).as_slice(), lit),
        None => false,
    }
}

/// Which subcommand the arguments ask for.
pub fn parse_command(arg1: Option<&str>, arg2: Option<&str>) -> (r: CliCommand)
    ensures
        command_code(r) == command_of(arg1),
        r matches CliCommand::ServeClip(k) ==> k@ == match arg2 {
            Some(s) => s@,
            None => "text"@,
        },
        r matches CliCommand::UpdateEmojis { assets } ==> assets == is_arg(arg2, "--assets"@),
{
    if arg_is(arg1, "emoji") {
        CliCommand::Emoji
    } else if arg_is(arg1, "clipboard") || arg_is(arg1, "clip") {
        CliCommand::Clipboard
    } else if arg_is(arg1, "daemon") {
        CliCommand::Daemon
    } else if arg_is(arg1, "install") {
        CliCommand::Install
    } else if arg_is(arg1, "settings") || arg_is(arg1, "prefs") || arg_is(arg1, "preferences") {
        CliCommand::Settings
    } else if arg_is(arg1, "__serve-clip") {
        let kind = match arg2 {
            Some(k) => String::from_str(k),
            None => String::from_str("text"),
        };
        CliCommand::ServeClip(kind)
    } else if arg_is(arg1, "update-emojis") {
        CliCommand::UpdateEmojis { assets: arg_is(arg2, "--assets") }
    } else {
        CliCommand::Help
    }
}

/// How a chosen history entry is pasted.
#[derive(Debug, Clone)]
pub enum PastePlan {
    /// Stage the PNG at this path and paste it as an image.
    StageImage(String),
    /// Paste this text.
    Text(String),
    /// Stage this path list and paste it as files.
    StageFiles(String),
    /// Nothing to paste.
    Nothing,
}

/// Images paste their PNG (or, lacking one, their text); file lists are
/// staged as files; text pastes as text.
pub fn paste_plan(entry: &Entry) -> (r: PastePlan)
    ensures
        match entry.kind {
            EntryKind::Image => match entry.image_path {
                Some(p) => r matches PastePlan::StageImage(x) && x@ == p@,
                None => match entry.text {
                    Some(t) => r matches PastePlan::Text(x) && x@ == t@,
                    None => r is Nothing,
                },
            },
            EntryKind::Files => match entry.text {
                Some(t) => r matches PastePlan::StageFiles(x) && x@ == t@,
                None => r is Nothing,
            },
            EntryKind::Text => match entry.text {
                Some(t) => r matches PastePlan::Text(x) && x@ == t@,
                None => r is Nothing,
            },
        },
{
    match entry.kind {
        EntryKind::Image => match &entry.image_path {
            Some(p) => PastePlan::StageImage(p.clone()),
            None => match &entry.text {
                Some(t) => PastePlan::Text(t.clone()),
                None => PastePlan::Nothing,
            },
        },
        EntryKind::Files => match &entry.text {
            Some(t) => PastePlan::StageFiles(t.clone()),
            None => PastePlan::Nothing,
        },
        EntryKind::Text => match &entry.text {
            Some(t) => PastePlan::Text(t.clone()),
            None => PastePlan::Nothing,
        },
    }
}

} // verus!
