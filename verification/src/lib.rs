use vstd::prelude::*;

pub mod text;
pub mod textmap;
pub mod config;
pub mod paste;
pub mod gnome_hotkeys;
pub mod daemon;
pub mod emoji_db;
pub mod emoji_update;
pub mod storage;
pub mod clip;
pub mod focus;
pub mod ocr;
pub mod ui_common;
pub mod history_picker;
pub mod emoji_picker;
pub mod settings;
pub mod install;
pub mod emoji_raster;
pub mod cli;

verus! {
} // verus!
