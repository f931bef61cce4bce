//! `nomad` — shared mouse, keyboard and clipboard across the machines of a LAN.
//!
//! This crate is the verified core: node identities, the frame codec, the 2D
//! screen layout and its edge transitions, the bookkeeping of known machines,
//! the control-API request dispatch and the small decision state machines that
//! the daemon runs. Everything here is pure; the program around it (network,
//! capture, injection, clipboard, tray) lives in `app/`.

pub mod protocol;
pub mod clip;
pub mod codec;
pub mod config;
pub mod daemon;
pub mod discovery;
pub mod edge;
pub mod held;
pub mod input;
pub mod ipc;
pub mod keymap;
pub mod layout;
pub mod known;
pub mod menu;
pub mod orchestrator;
pub mod placement;
pub mod status;
pub mod text;
