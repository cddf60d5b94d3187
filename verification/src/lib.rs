//! LAN clipboard sync: the verified logic of the engine, the history and the shell.

use vstd::prelude::*;

pub mod announce;
pub mod bridge;
pub mod cli;
pub mod clipboard;
pub mod commands;
pub mod config;
pub mod digest;
pub mod discovery;
pub mod echo;
pub mod filenames;
pub mod glob;
pub mod history;
pub mod identity;
pub mod ids;
pub mod ignore;
pub mod images;
pub mod layout;
pub mod locale;
pub mod order;
pub mod paired;
pub mod paths;
pub mod platform;
pub mod protocol;
pub mod session;
pub mod settings;
pub mod stream;
pub mod sync;
pub mod table;
pub mod text;
pub mod watcher;

pub use crate::config::{DEFAULT_DISCOVERY_PORT, DEFAULT_TCP_PORT, PROTOCOL_VERSION};

verus! {

} // verus!
