//! Umbra: share-link parsing, subscription handling and sing-box
//! configuration for a desktop proxy client.

pub mod text;
pub mod error;
pub mod models;
pub mod url_text;
mod ids;
pub mod json;
pub mod parser;
pub mod subscription;
pub mod profiles;
pub mod events;
pub mod singbox;
pub mod proxy;
pub mod hwid;
pub mod connection;
pub mod storage;
pub mod tray;
pub mod settings;
pub mod processes;
