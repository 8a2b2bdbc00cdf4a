//! State of a connection that several subsystems may share.

use vstd::prelude::*;

verus! {

/// Authentication state of a session.
#[derive(Debug, Clone)]
pub struct SessionAuth {
    pub username: String,
    pub password: String,
    /// Camera host from the login command, if it was given.
    pub camera_ip: Option<String>,
    /// Camera port from the login command, if it was given.
    pub camera_port: Option<u16>,
    /// Preferred stream: 0 main, 1 sub.
    pub stream_type: u32,
}

/// Which subsystems of a connection are in use.
#[derive(Debug)]
pub struct SessionState {
    /// Whether the client has answered the greeting.
    pub hello_completed: bool,
    /// Who has logged in.
    pub auth: Option<SessionAuth>,
    /// Stream type of the open video stream.
    pub video_stream: Option<u32>,
    /// Whether audio is on.
    pub audio_enabled: bool,
    /// Whether talkback is on.
    pub talk_enabled: bool,
    /// Whether a recording is on.
    pub recording: bool,
}

impl Default for SessionState {
    /// Nothing is in use.
    fn default() -> (s: SessionState)
        ensures
            s == (SessionState {
                hello_completed: false,
                auth: None,
                video_stream: None,
                audio_enabled: false,
                talk_enabled: false,
                recording: false,
            }),
    {
        SessionState {
            hello_completed: false,
            auth: None,
            video_stream: None,
            audio_enabled: false,
            talk_enabled: false,
            recording: false,
        }
    }
}

} // verus!
