//! Verified core of a DLNA/UPnP media server.

pub mod text;
pub mod table;
pub mod media_item;
pub mod patterns;
pub mod renderer;
pub mod dlna_helper;
pub mod registry;
pub mod state;
pub mod streaming;
pub mod error;
pub mod soap;
pub mod ssdp;
pub mod description;
pub mod watcher;
pub mod logging;
pub mod transcoder;
pub mod server;
