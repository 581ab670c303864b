//! The decisions of a Minecraft launcher: which sources a download tries and in what order, how
//! it recovers from their failures, what an update of a modpack changes, and what a request to
//! change an instance amounts to.
//!
//! Nothing here reads a file or opens a connection. Functions take what was read and say what
//! to do next.
pub mod account;
pub mod build_env;
pub mod download;
pub mod error;
pub mod external;
pub mod instance;
pub mod loader_meta;
pub mod modpack;
pub mod paths;
pub mod ranking;
pub mod rounds;
pub mod tasks;
pub mod text;
pub mod updater;
pub mod web;
