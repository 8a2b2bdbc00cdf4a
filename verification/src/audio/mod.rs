//! Audio: from the camera's G.711 to AAC in an FLV stream.
//!
//! The camera sends its microphone as G.711 mu-law at 8 kHz; the browser takes
//! AAC. The samples are encoded at the rate at which they come.

pub mod aac;
pub mod flv;
pub mod g711;
pub mod transcode;
