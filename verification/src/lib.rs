//! Wallpaper daemon for the niri compositor, with blur on overview.

use vstd::prelude::*;

pub mod cli;
pub mod client;
pub mod color;
pub mod config;
pub mod daemon;
pub mod paths;
pub mod proto;
pub mod slots;
pub mod state;
pub mod text;

verus! {

/// Build version reported over the control socket, to detect a stale client
/// that talks to a newer daemon.
pub const VERSION: &'static str = "0.1.0";

} // verus!
