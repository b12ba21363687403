//! The protocol core of a GDB Remote Serial Protocol bridge: packet framing
//! and checksums, the command grammar, and the session's dispatch decisions.

pub mod hex;
pub mod error;
pub mod text;
pub mod command;
pub mod reply;
pub mod server;
pub mod lemmas;
