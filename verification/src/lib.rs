//! Verified core of a bridge between an IP camera and its browser client.

pub mod audio;
pub mod bytes;
pub mod config;
pub mod flv_tag;
pub mod frames;
pub mod json;
pub mod net;
pub mod protocol;
pub mod proxy;
pub mod service_manager;
pub mod session;
pub mod state;
pub mod text;
pub mod video;
