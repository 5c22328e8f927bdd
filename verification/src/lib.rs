use vstd::prelude::*;

pub mod app;
pub mod fuzzy;
pub mod herdr;
pub mod labels;
pub mod layout;
pub mod merge;
pub mod move_ops;
pub mod picker;
pub mod sort;
pub mod text;
pub mod ui;

verus! {

/// Identifier under which Herdr knows this plugin.
pub const PLUGIN_ID: &'static str = "shadowfax.ferry";

/// The command line: which entry point to run.
#[derive(Debug, PartialEq, Eq)]
pub struct Cli {
    pub command: Command,
}

/// The entry points: open the picker from a keybinding, run the picker itself, or add
/// the keybinding to Herdr's configuration.
#[derive(Clone, Copy, Debug, PartialEq, Eq, Structural)]
pub enum Command {
    Open,
    Picker,
    InstallKeybindings,
}

} // verus!
