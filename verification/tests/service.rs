use fosipcore::config::{u16_setting, CORE_PORT, DEFAULT_SERVICE_MANAGER_PORT, DEFAULT_SERVICE_VERSION};
use fosipcore::frames::{classify, Frame, FrameAction};
use fosipcore::protocol::constants::{CMD_REQUEST_PORT, RESPONSE_REQUEST_PORT, WS_REQUEST_LOGIN};
use fosipcore::protocol::messages::WsMessage;
use fosipcore::service_manager::handle_message;
use fosipcore::state::{SessionAuth, SessionState};

#[test]
fn state_test_session_state_defaults() {
    let state = SessionState::default();
    assert!(!state.hello_completed);
    assert!(state.auth.is_none());
    assert!(state.video_stream.is_none());
    assert!(!state.audio_enabled);
    assert!(!state.talk_enabled);
    assert!(!state.recording);
}

#[test]
fn test_session_auth() {
    let auth = SessionAuth {
        username: "admin".into(),
        password: "secret".into(),
        camera_ip: Some("192.168.1.100".into()),
        camera_port: Some(88),
        stream_type: 0,
    };
    assert_eq!(auth.username, "admin");
    assert_eq!(auth.camera_ip, Some("192.168.1.100".into()));
}

#[test]
fn request_port_returns_core_port() {
    let reply = handle_message(&WsMessage::new(CMD_REQUEST_PORT), "2.0.1.1", 50001).unwrap();
    assert_eq!(reply, r#"{"dstPort":50001,"msgid":50000,"seviceVer":"2.0.1.1","version":1}"#);
}

#[test]
fn unknown_msg_id_is_ignored() {
    assert!(handle_message(&WsMessage::new(WS_REQUEST_LOGIN), "2.0.1.1", 50001).is_none());
}

#[test]
fn binary_valid_utf8_is_answered() {
    let text = "{\"msgId\":20000} \u{e9}";
    assert!(matches!(
        classify(Frame::Binary(text.as_bytes().to_vec())),
        FrameAction::Handle(s) if s == text
    ));
    assert!(matches!(classify(Frame::Text(text.into())), FrameAction::Handle(s) if s == text));
}

#[test]
fn binary_non_utf8_is_skipped() {
    assert!(matches!(classify(Frame::Binary(vec![0xff, 0xfe])), FrameAction::Skip));
    assert!(matches!(classify(Frame::Binary(vec![0xc3])), FrameAction::Skip));
}

#[test]
fn other_frames() {
    assert!(matches!(classify(Frame::Ping(vec![])), FrameAction::Pong(p) if p.is_empty()));
    assert!(matches!(classify(Frame::Close), FrameAction::Stop));
    assert!(matches!(classify(Frame::Pong), FrameAction::Skip));
    assert!(matches!(classify(Frame::Raw), FrameAction::Skip));
}

#[test]
fn settings_and_their_defaults() {
    assert_eq!(u16_setting(Some("1234"), 7), 1234);
    assert_eq!(u16_setting(Some("65535"), 7), 65535);
    assert_eq!(u16_setting(Some("65536"), 7), 7);
    assert_eq!(u16_setting(Some(" 1"), 7), 7);
    assert_eq!(u16_setting(Some(""), 7), 7);
    assert_eq!(u16_setting(None, 7), 7);
    assert_eq!((DEFAULT_SERVICE_MANAGER_PORT, CORE_PORT), (50000, 50001));
    assert_eq!(DEFAULT_SERVICE_VERSION, "2.0.1.1");
}

#[test]
fn ping_gets_pong() {
    match classify(Frame::Ping(vec![1, 2, 3])) {
        FrameAction::Pong(payload) => assert_eq!(payload, vec![1, 2, 3]),
        other => panic!("expected Pong, got {other:?}"),
    }
}

#[test]
fn client_pong_is_ignored() {
    // The pong is passed over, and the request behind it is answered.
    assert!(matches!(classify(Frame::Pong), FrameAction::Skip));
    let request = WsMessage::new(CMD_REQUEST_PORT).to_json();
    assert!(matches!(classify(Frame::Text(request.clone())), FrameAction::Handle(s) if s == request));
    let reply = handle_message(&WsMessage::new(CMD_REQUEST_PORT), "2.4.1", 43210).expect("reply");
    let v: serde_json::Value = serde_json::from_str(&reply).expect("parse reply");
    assert_eq!(v["msgid"], serde_json::Value::from(RESPONSE_REQUEST_PORT));
}

#[test]
fn close_terminates_cleanly() {
    assert!(matches!(classify(Frame::Close), FrameAction::Stop));
    // The next client is answered.
    let reply = handle_message(&WsMessage::new(CMD_REQUEST_PORT), "2.4.1", 43210).expect("reply");
    let v: serde_json::Value = serde_json::from_str(&reply).expect("parse reply");
    assert_eq!(v["msgid"], serde_json::Value::from(RESPONSE_REQUEST_PORT));
}
