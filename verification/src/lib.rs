//! Verified core of `forge`, a tmux sessionizer that keeps its projects in
//! plain-text `.wl` files.
//!
//! Everything that decides something (parsing, rendering, diffing, merging,
//! planning which external commands to run) lives here and carries a
//! contract; reading and writing files, spawning processes and talking to the
//! terminal is left to the thin binary in `app/`.

pub mod text;
pub mod fields;
pub mod wl_parser;
pub mod paths;
pub mod config;
pub mod check;
pub mod project_state;
pub mod applied_includes;
pub mod include_registry;
pub mod index;
pub mod create;
pub mod verify_and_diff;
pub mod tmux;
pub mod overseer;
pub mod listing;
pub mod sync;
pub mod health;
pub mod cli;
pub mod completion;
pub mod help;
pub mod lang_pack;
pub mod session;
pub mod names;
pub mod scripts;
