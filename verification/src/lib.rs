//! Mod lifecycle and directory-resolution engine for a moddable game.
//!
//! The crate resolves where mods live (native installs and Windows
//! compatibility-layer environments), persists which mods are installed and
//! enabled in a ledger file, reconciles that ledger against the directories
//! actually on disk, and drives the install / uninstall / enable / disable
//! state machine. All decisions and formats are verified; the caller performs
//! the filesystem and network effects and feeds their outcomes back in as
//! plain values.

use vstd::prelude::*;

pub mod game;
pub mod ledger;
pub mod manager;
pub mod paths;
pub mod text;

pub use game::LoveGame as Game;

verus! {

/// Name of this package; the ledger file and the per-mod statefiles are
/// hidden files carrying this name.
pub fn package_name() -> (r: &'static str)
    ensures
        r@ == "lovely_mod_manager"@,
{
    "lovely_mod_manager"
}

} // verus!
