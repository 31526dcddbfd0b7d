//! Opt-in collector of storage writes and nested contract calls, driven by the
//! evaluation hooks of a Clarity virtual machine.

pub mod collector;
pub mod consensus;
pub mod events;
pub mod hex;
pub mod hooks;
pub mod laws;
pub mod model;
pub mod principal;
pub mod size;
pub mod text;
pub mod value;
