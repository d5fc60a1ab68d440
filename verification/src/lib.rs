use vstd::prelude::*;

pub mod text;
pub mod error;
pub mod names;
pub mod preset_text;
pub mod model;
pub mod library;
pub mod encoding;
pub mod tray;
pub mod elevation;
pub mod paths;
pub mod backup;
pub mod backend;
pub mod tui;
pub mod autoeq;
pub mod linux_export;
pub mod cli;
pub mod shell;
pub mod listing;
pub mod unique_names;
pub mod edits;

verus! {

} // verus!
