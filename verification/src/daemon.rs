//! The long-lived daemon's logic: everything but the event loop, the sockets
//! and the Wayland connection.

pub mod anim;
pub mod control;
pub mod framing;
pub mod ipc;
pub mod niri;
pub mod output;
pub mod pending;
pub mod render;
pub mod report;
pub mod socket;
pub mod status;
pub mod wallpaper;
pub mod worker;
