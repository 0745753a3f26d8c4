//! Snapshots configuration files and directories into one managed backup
//! location, driven by lists of paths to take and to leave out, and records what was copied.
pub mod text;
pub mod progress;
pub mod resolve;
pub mod config;
pub mod copy;
pub mod snapshot;
