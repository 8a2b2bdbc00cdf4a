//! The messages that the browser client exchanges with the bridge.

pub mod constants;
pub mod messages;
