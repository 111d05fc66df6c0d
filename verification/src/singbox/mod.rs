//! The sing-box core: its process, version and releases.

pub mod process;
pub mod version;
pub mod download;
pub mod clash_api;
pub mod config;
