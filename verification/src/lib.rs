//! Host-side core of a chat bot that loads native command-handler modules:
//! the command grammar, trigger matching, reply chunking, the module registry
//! and the reconnect backoff, each with a machine-checked contract.

pub mod chunking;
pub mod command;
pub mod common;
pub mod dispatch;
pub mod marshal;
pub mod plugins;
pub mod runescape;
pub mod supervisor;
pub mod text;
pub mod triggers;
