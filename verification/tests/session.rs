use fosipcore::net::{resolve_camera, IpAddr, NetError, OriginInfo, SocketAddr};
use fosipcore::protocol::constants::{
    HEARTBEAT_MSG_ID, HELLO_RESPONSE, RESPONSE_REQUEST_AUDIO, RESPONSE_REQUEST_CGI,
    RESPONSE_REQUEST_CLOSE_VIDEO, RESPONSE_REQUEST_LOGIN, RESPONSE_REQUEST_LOGOUT,
    RESPONSE_REQUEST_OPEN_VIDEO_SUCCESS, RESPONSE_REQUEST_RECORD, RESPONSE_REQUEST_TALK,
    WS_REQUEST_AUDIO, WS_REQUEST_CGI, WS_REQUEST_CLOSE_VIDEO, WS_REQUEST_LOGIN,
    WS_REQUEST_LOGIN_AGAIN, WS_REQUEST_LOGOUT, WS_REQUEST_OPEN_VIDEO, WS_REQUEST_RECORD,
    WS_REQUEST_SNAP, WS_REQUEST_TALK, WS_REQUEST_UPGRADE_PROMPT_ENABLE,
};
use fosipcore::protocol::messages::{
    CgiCmd, CgiResponse, InitInfo, LoginCmd, VideoPlayCmd, WsMessage,
};
use fosipcore::session::{
    cgi_reply, dispatch_message, error_response, extract_login_pwd, extract_login_user,
    extract_stream_type, failed_login_action, handle_audio, handle_cgi, handle_close_video,
    handle_login, handle_logout, handle_open_video, handle_record, handle_talk, hello_message,
    route_cgi, snapshot_reply, CameraInfo, CgiRequest, CmdObject, DispatchAction, LoginStep, Next,
    SessionError, SessionState,
};
use fosipcore::video::ports::PortPool;
use fosipcore::video::VideoServer;
use std::collections::HashSet;

fn addr(a: u8, b: u8, c: u8, d: u8, port: u16) -> SocketAddr {
    SocketAddr { ip: IpAddr::V4([a, b, c, d]), port }
}

fn fake_camera() -> CameraInfo {
    CameraInfo {
        ip: "camera.lan".into(),
        http_port: 88,
        rtsp_port: 9,
        addr: addr(127, 0, 0, 1, 9),
    }
}

/// A session that has logged in and has a video plane.
fn armed() -> SessionState {
    SessionState {
        camera: Some(fake_camera()),
        user: Some("admin".into()),
        pwd: Some("test".into()),
        stream_type: 0,
        live_port: Some(20000),
    }
}

fn no_cmd() -> CmdObject {
    CmdObject { login: None, cgi: None, play: None }
}

fn cgi_cmd(cgi: &str) -> Option<CgiCmd> {
    Some(CgiCmd { cgi: cgi.into(), timeout: 0 })
}

fn value(json: &str) -> serde_json::Value {
    serde_json::from_str(json).unwrap()
}

fn login_cmd(ip: &str, port: u16) -> LoginCmd {
    let mut l = LoginCmd::default();
    l.ip = Some(ip.into());
    l.usr = "admin".into();
    l.pwd = "test".into();
    l.web_port = Some(port);
    l.media_port = Some(port);
    l
}

#[test]
fn pure_handlers_build_responses() {
    let s = handle_logout();
    assert!(s.contains(&RESPONSE_REQUEST_LOGOUT.to_string()));
    let audio = handle_audio();
    assert!(audio.contains(&RESPONSE_REQUEST_AUDIO.to_string()));
    let talk = handle_talk();
    assert!(talk.contains(&RESPONSE_REQUEST_TALK.to_string()));
    let record = handle_record();
    assert!(record.contains(&RESPONSE_REQUEST_RECORD.to_string()));
}

#[test]
fn close_video_stops_pipeline_or_errors() {
    assert!(handle_close_video(&SessionState::new()).is_err());
    let s = handle_close_video(&armed()).unwrap();
    assert!(s.contains(&RESPONSE_REQUEST_CLOSE_VIDEO.to_string()));
}

#[test]
fn open_video_requires_camera_and_session() {
    let mut s = armed();
    s.camera = None;
    assert_eq!(handle_open_video(0, &s).err(), Some(SessionError::NoCamera));
    let mut s = armed();
    s.live_port = None;
    assert_eq!(handle_open_video(0, &s).err(), Some(SessionError::NoVideo));
    let (start, text) = handle_open_video(0, &armed()).unwrap();
    assert!(text.contains(&RESPONSE_REQUEST_OPEN_VIDEO_SUCCESS.to_string()));
    assert_eq!(start.dial, addr(127, 0, 0, 1, 9));
    assert_eq!(start.origin, OriginInfo { host: "camera.lan".into(), port: 88 });
    assert_eq!((start.user.as_str(), start.pwd.as_str()), ("admin", "test"));
    let v = value(&text);
    assert_eq!(
        v["productAllInfo"],
        serde_json::Value::from(
            "<CGI_Result><code>0</code><model>IP Camera</model><ip>camera.lan</ip><webPort>88</webPort></CGI_Result>"
        )
    );
}

#[test]
fn cgi_and_snapshot_error_branches() {
    let mut out = armed();
    out.user = None;
    assert_eq!(handle_cgi(cgi_cmd("x"), &out).err(), Some(SessionError::NotAuthenticated));
    let mut out = armed();
    out.pwd = None;
    assert_eq!(handle_cgi(cgi_cmd("x"), &out).err(), Some(SessionError::NotAuthenticated));
    let mut no_camera = armed();
    no_camera.camera = None;
    assert_eq!(handle_cgi(cgi_cmd("x"), &no_camera).err(), Some(SessionError::NoCamera));
    assert_eq!(handle_cgi(None, &armed()).err(), Some(SessionError::BadCgiCommand));
    assert_eq!(out.access().err(), Some(SessionError::NotAuthenticated));
    assert_eq!(no_camera.access().err(), Some(SessionError::NoCamera));
    // A snapshot that does not come is answered all the same.
    let s = snapshot_reply(None);
    assert!(s.responses[0].contains("-1"));
}

#[test]
fn snapshots_come_in_base64() {
    let v = value(&snapshot_reply(Some(b"FAKEJPEG")).responses[0]);
    assert_eq!(v["result"], serde_json::Value::from(0));
    assert_eq!(v["img"], serde_json::Value::from("RkFLRUpQRUc="));
    assert_eq!(v["msgid"], serde_json::Value::from(50007));
}

/// Takes a login to its end with the given answers of the network.
fn login(
    cmd: Option<LoginCmd>,
    again: bool,
    session: &SessionState,
    origin: Option<&OriginInfo>,
    pinned: Option<SocketAddr>,
    auth: Option<CgiResponse>,
    port: Option<u16>,
) -> DispatchAction {
    let mut step = handle_login(cmd, again);
    loop {
        step = match step {
            LoginStep::Resolve(l) => l.resolved(pinned, origin),
            LoginStep::Authenticate(l, a) => l.authenticated(a, auth.clone(), session),
            LoginStep::AllocatePort(l, a, r) => l.allocated(a, r, port),
            LoginStep::Gather(l, a, r, p, new) => {
                let mut info = InitInfo::default();
                info.live_port = p;
                LoginStep::Finished(l.gathered(a, r, p, new, Some("<p/>".into()), info))
            }
            LoginStep::Finished(action) => return action,
        };
    }
}

fn ok_answer() -> Option<CgiResponse> {
    Some(CgiResponse { result: 0, response: "<ok/>".into() })
}

#[test]
fn login_failure_paths_are_fast() {
    let session = SessionState::new();
    let matching = OriginInfo::parse("http://192.168.1.50:88").unwrap();
    let mismatch = OriginInfo::parse("http://camera.lan:88").unwrap();
    let lan = Some(addr(192, 168, 1, 50, 88));
    let cmd = || Some(login_cmd("192.168.1.50", 88));

    // No login command: no answer.
    let a = login(None, false, &session, Some(&matching), lan, ok_answer(), Some(20000));
    assert!(a.responses.is_empty());

    // A host that may not be dialed.
    let a = login(cmd(), false, &session, Some(&matching), None, ok_answer(), Some(20000));
    assert_eq!(a.responses.len(), 1);
    assert!(a.responses[0].contains("camera unreachable"));
    assert!(a.new_camera.is_none());

    // No origin.
    let a = login(cmd(), false, &session, None, lan, ok_answer(), Some(20000));
    assert!(a.responses[0].contains("no origin"));
    assert!(a.new_camera.is_none());

    // Another origin.
    let a = login(cmd(), false, &session, Some(&mismatch), lan, ok_answer(), Some(20000));
    assert!(a.responses[0].contains("origin does not match claimed camera"));
    assert!(a.new_camera.is_none());

    // A camera that does not answer.
    let a = login(cmd(), false, &session, Some(&matching), lan, None, Some(20000));
    assert!(a.responses[0].contains("camera unreachable"));

    // A camera that refuses the user: its answer is passed on, nothing more.
    let refusal = Some(CgiResponse { result: -1, response: "<no/>".into() });
    for fresh in [true, false] {
        let s = if fresh { SessionState::new() } else { armed() };
        let a = login(cmd(), false, &s, Some(&matching), lan, refusal.clone(), Some(20000));
        assert_eq!(a.responses.len(), 1);
        let v = value(&a.responses[0]);
        assert_eq!(v["msgid"], serde_json::Value::from(50001));
        assert_eq!(v["result"], serde_json::Value::from(-1));
        assert_eq!(v["response"], serde_json::Value::from("<no/>"));
        assert!(a.new_camera.is_none() && a.new_auth.is_none() && a.new_video.is_none());
    }
    match handle_login(cmd(), false) {
        LoginStep::Resolve(l) => match l.authenticated(lan.unwrap(), refusal, &session) {
            LoginStep::Finished(_) => {}
            other => panic!("no port may be taken: {other:?}"),
        },
        other => panic!("unexpected: {other:?}"),
    }

    // No port left.
    let a = login(cmd(), true, &session, Some(&matching), lan, ok_answer(), None);
    assert!(a.responses[0].contains("too many concurrent video sessions"));
    assert_eq!(value(&a.responses[0])["msgid"], serde_json::Value::from(50026));
    assert_eq!(value(&a.responses[0])["result"], serde_json::Value::from(-1));
    assert!(a.new_auth.is_none() && a.new_video.is_none());
}

#[test]
fn login_that_goes_through() {
    let mut session = SessionState::new();
    let origin = OriginInfo::parse("http://camera.lan:88").unwrap();
    let pinned = addr(192, 168, 1, 50, 88);
    let cmd = login_cmd(" Camera.LAN ", 88);
    let a = login(Some(cmd), false, &session, Some(&origin), Some(pinned), ok_answer(), Some(20007));
    assert_eq!(a.responses.len(), 3);
    let first = value(&a.responses[0]);
    assert_eq!(first["msgid"], serde_json::Value::from(50001));
    assert_eq!(first["result"], serde_json::Value::from(0));
    assert_eq!(first["response"], serde_json::Value::from("<ok/>"));
    assert_eq!(value(&a.responses[1])["msgid"], serde_json::Value::from(50008));
    let init = value(&a.responses[2]);
    assert_eq!(init["msgid"], serde_json::Value::from(50009));
    assert_eq!(init["livePort"], serde_json::Value::from(20007));
    let (texts, released) = session.apply(&WsMessage::new(WS_REQUEST_LOGIN), a);
    assert_eq!(texts.len(), 3);
    assert_eq!(released, None);
    assert_eq!(session.live_port, Some(20007));
    assert_eq!(session.user.as_deref(), Some("admin"));
    assert_eq!(session.camera.as_ref().unwrap().addr, pinned);

    // A later login keeps camera and port, and asks the camera for nothing.
    let elsewhere = Some(addr(10, 0, 0, 1, 88));
    let a = login(
        Some(login_cmd("camera.lan", 88)),
        true,
        &session,
        Some(&origin),
        elsewhere,
        ok_answer(),
        None,
    );
    assert_eq!(a.responses.len(), 2);
    assert!(a.new_video.is_none());
    assert_eq!(value(&a.responses[1])["livePort"], serde_json::Value::from(20007));
    session.apply(&WsMessage::new(WS_REQUEST_LOGIN_AGAIN), a);
    assert_eq!(session.camera.as_ref().unwrap().addr, pinned);
    assert_eq!(session.live_port, Some(20007));
}

#[test]
fn login_defaults() {
    let mut cmd = LoginCmd::default();
    cmd.usr = "u".into();
    match handle_login(Some(cmd), false) {
        LoginStep::Resolve(l) => {
            assert_eq!(l.camera_ip, "");
            assert_eq!((l.http_port, l.rtsp_port), (88, 88));
        }
        other => panic!("unexpected: {other:?}"),
    }
}

#[test]
fn dispatch_routes_all_message_types() {
    let session = armed();
    for id in [HELLO_RESPONSE, HEARTBEAT_MSG_ID, 99_999_999] {
        match dispatch_message(&WsMessage::new(id), no_cmd(), &session) {
            Next::Finished(a) => assert!(a.responses.is_empty(), "msgId {id} should be silent"),
            other => panic!("unexpected: {other:?}"),
        }
    }
    for id in [
        WS_REQUEST_LOGOUT,
        WS_REQUEST_AUDIO,
        WS_REQUEST_TALK,
        WS_REQUEST_RECORD,
        WS_REQUEST_UPGRADE_PROMPT_ENABLE,
    ] {
        match dispatch_message(&WsMessage::new(id), no_cmd(), &session) {
            Next::Finished(a) => assert_eq!(a.responses.len(), 1, "msgId {id}"),
            other => panic!("unexpected: {other:?}"),
        }
    }
    let mut cmd = no_cmd();
    cmd.cgi = cgi_cmd("getDeviceStatus");
    match dispatch_message(&WsMessage::new(WS_REQUEST_CGI), cmd, &session) {
        Next::Cgi(q) => assert_eq!(
            q.url("1.2.3.4:88"),
            "http://1.2.3.4:88/cgi-bin/CGIProxy.fcgi?usrName=admin&pwd=test&cmd=getDeviceStatus"
        ),
        other => panic!("unexpected: {other:?}"),
    }
    let mut cmd = no_cmd();
    cmd.cgi = cgi_cmd("/cgi-bin/CGIProxy.fcgi?usr=a&pwd=b&cmd=streamSetting");
    match dispatch_message(&WsMessage::new(WS_REQUEST_CGI), cmd, &session) {
        Next::Cgi(q) => assert_eq!(
            q.url("1.2.3.4:88"),
            "http://1.2.3.4:88/cgi-bin/CGIProxy.fcgi?usr=a&pwd=b&cmd=streamSetting"
        ),
        other => panic!("unexpected: {other:?}"),
    }
    match dispatch_message(&WsMessage::new(WS_REQUEST_SNAP), no_cmd(), &session) {
        Next::Snapshot(a) => assert_eq!((a.addr, a.user.as_str()), (fake_camera().addr, "admin")),
        other => panic!("unexpected: {other:?}"),
    }
    let mut cmd = no_cmd();
    cmd.play = Some(VideoPlayCmd { stream_type: 1, timeout: 0 });
    match dispatch_message(&WsMessage::new(WS_REQUEST_OPEN_VIDEO), cmd, &session) {
        Next::OpenVideo(v, a) => {
            assert_eq!(v.stream_type, 1);
            assert_eq!(a.responses.len(), 1);
        }
        other => panic!("unexpected: {other:?}"),
    }
    match dispatch_message(&WsMessage::new(WS_REQUEST_CLOSE_VIDEO), no_cmd(), &session) {
        Next::CloseVideo(a) => assert_eq!(a.responses.len(), 1),
        other => panic!("unexpected: {other:?}"),
    }
    let again = dispatch_message(&WsMessage::new(WS_REQUEST_LOGIN_AGAIN), no_cmd(), &session);
    assert!(matches!(again, Next::Login(LoginStep::Finished(a)) if a.responses.is_empty()));
}

#[test]
fn upgrade_prompt_answers_the_request() {
    let mut m = WsMessage::new(WS_REQUEST_UPGRADE_PROMPT_ENABLE);
    m.group_id = 77;
    m.sequence = 5;
    match dispatch_message(&m, no_cmd(), &SessionState::new()) {
        Next::Finished(a) => assert_eq!(
            a.responses[0],
            r#"{"version":1,"msgid":50027,"groupId":77,"sequence":5,"dataLen":0,"cmdObject":{"enable":1}}"#
        ),
        other => panic!("unexpected: {other:?}"),
    }
}

#[test]
fn nothing_without_a_login() {
    let session = SessionState::new();
    let mut cmd = no_cmd();
    cmd.cgi = cgi_cmd("getDevInfo");
    for (id, cmd) in [(WS_REQUEST_CGI, cmd), (WS_REQUEST_SNAP, no_cmd())] {
        match dispatch_message(&WsMessage::new(id), cmd, &session) {
            Next::Finished(a) => {
                let v = value(&a.responses[0]);
                assert_eq!(v["cmdObject"]["result"], serde_json::Value::from(-1));
                assert!(a.responses[0].contains("not authenticated"));
            }
            other => panic!("unexpected: {other:?}"),
        }
    }
    for id in [WS_REQUEST_OPEN_VIDEO, WS_REQUEST_CLOSE_VIDEO] {
        match dispatch_message(&WsMessage::new(id), no_cmd(), &session) {
            Next::Finished(a) => assert!(a.responses.is_empty()),
            other => panic!("unexpected: {other:?}"),
        }
    }
}

#[test]
fn encoded_paths_are_decoded() {
    let session = armed();
    let q = handle_cgi(cgi_cmd("%2Fcgi-bin%2FCGIProxy.fcgi%3Fcmd%3Dx"), &session).unwrap();
    assert_eq!(q.url("c"), "http://c/cgi-bin/CGIProxy.fcgi?cmd=x");
    let q = handle_cgi(cgi_cmd("//cgi-bin/x"), &session).unwrap();
    assert_eq!(q.url("c"), "http://c/cgi-bin/CGIProxy.fcgi?usrName=admin&pwd=test&cmd=//cgi-bin/x");
    let q = handle_cgi(cgi_cmd("/CGIProxy.fcgi?cmd=y"), &session).unwrap();
    assert_eq!(q.url("c"), "http://c/CGIProxy.fcgi?cmd=y");
    // Every well-formed escape stands for its byte, the others for themselves.
    let q = handle_cgi(cgi_cmd("%2fcgi-bin/%C3%A9%4%zz%+x%41%"), &session).unwrap();
    assert_eq!(q.url("c"), "http://c/cgi-bin/\u{e9}%4%zz%+xA%");
    // What does not decode to text is a command as it stands.
    let q = handle_cgi(cgi_cmd("%ff"), &session).unwrap();
    assert_eq!(q.url("c"), "http://c/cgi-bin/CGIProxy.fcgi?usrName=admin&pwd=test&cmd=%ff");
}

#[test]
fn routes_of_decoded_texts() {
    let a = addr(1, 2, 3, 4, 88);
    assert!(matches!(
        route_cgi("%2F", Some("/cgi-bin//x".into()), a, "u", "p"),
        CgiRequest::FullPath(to, path) if to == a && path == "cgi-bin//x"
    ));
    assert!(matches!(
        route_cgi("raw", None, a, "u", "p"),
        CgiRequest::Command(to, u, p, c) if to == a && u == "u" && p == "p" && c == "raw"
    ));
    assert!(matches!(
        route_cgi("raw", Some("/cgi-bi".into()), a, "u", "p"),
        CgiRequest::Command(_, _, _, c) if c == "raw"
    ));
}

#[test]
fn answers_to_cgi_messages() {
    let a = cgi_reply(Ok(CgiResponse { result: 0, response: "<x/>".into() }));
    let v = value(&a.responses[0]);
    assert_eq!(v["msgid"], serde_json::Value::from(RESPONSE_REQUEST_CGI));
    assert_eq!(v["response"], serde_json::Value::from("<x/>"));
    let a = cgi_reply(Err("failed to connect to camera".into()));
    let v = value(&a.responses[0]);
    assert_eq!(v["cmdObject"]["result"], serde_json::Value::from(-1));
    assert!(a.responses[0].contains("failed to connect to camera"));
}

#[test]
fn test_extract_stream_type_main() {
    let msg = WsMessage::with_cmd(
        WS_REQUEST_OPEN_VIDEO,
        VideoPlayCmd {
            stream_type: 0,
            timeout: 5000,
        }
        .to_value(),
    );
    assert_eq!(extract_stream_type(&msg), 0);
}

#[test]
fn test_extract_stream_type_sub() {
    let msg = WsMessage::with_cmd(
        WS_REQUEST_OPEN_VIDEO,
        VideoPlayCmd {
            stream_type: 1,
            timeout: 5000,
        }
        .to_value(),
    );
    assert_eq!(extract_stream_type(&msg), 1);
}

#[test]
fn test_extract_stream_type_missing() {
    let msg = WsMessage::new(WS_REQUEST_OPEN_VIDEO);
    assert_eq!(extract_stream_type(&msg), 0);
}

#[test]
fn stream_types_at_their_edges() {
    for (payload, expected) in [
        ("{\"streamType\":4294967297}", 1u32),
        ("{\"streamType\":18446744073709551615}", u32::MAX),
        ("{\"streamType\":-1}", 0),
        ("{\"streamType\":1.0}", 0),
        ("{\"streamType\":\"1\"}", 0),
        ("[1]", 0),
        ("null", 0),
    ] {
        let msg = WsMessage::with_cmd(WS_REQUEST_OPEN_VIDEO, value(payload));
        assert_eq!(extract_stream_type(&msg), expected, "{payload}");
    }
}

#[test]
fn stream_type_is_noted_when_video_opens() {
    let mut session = armed();
    let msg = WsMessage::with_cmd(WS_REQUEST_OPEN_VIDEO, value("{\"streamType\":1}"));
    session.apply(&msg, DispatchAction::default());
    assert_eq!(session.stream_type, 1);
    session.apply(&WsMessage::new(WS_REQUEST_AUDIO), DispatchAction::default());
    assert_eq!(session.stream_type, 1);
}

#[test]
fn test_camera_info_holds_pinned_addr() {
    let info = CameraInfo {
        ip: "camera.lan".into(),
        http_port: 88,
        rtsp_port: 554,
        addr: addr(192, 168, 1, 50, 88),
    };
    // The claim is kept for the origin; dials use `addr`.
    assert_eq!(info.ip, "camera.lan");
    assert_eq!(info.http_port, 88);
    assert_eq!(info.rtsp_port, 554);
    assert_eq!(info.addr.ip, IpAddr::V4([192, 168, 1, 50]));
    assert_eq!(info.addr.port, 88);
}

#[test]
fn test_login_pinning_rejects_blocked_claim() {
    let loopback = IpAddr::V4([127, 0, 0, 1]);
    let err = resolve_camera("127.0.0.1", 88, Some(loopback), None).unwrap_err();
    assert_eq!(err, NetError::BlockedAddress(loopback));
}

#[test]
fn test_hello_message_serialization() {
    let json = hello_message();
    assert!(json.contains("1000000"));
}

#[test]
fn test_logout_response() {
    let response = WsMessage::new(RESPONSE_REQUEST_LOGOUT);
    let json = response.to_json();
    assert!(json.contains("50002"));
}

#[test]
fn test_extract_login_credentials() {
    let login = LoginCmd {
        ip: None,
        ddns: None,
        uid: None,
        usr: "admin".into(),
        pwd: "secret".into(),
        web_port: None,
        media_port: None,
        ddns_media: None,
        mac: None,
        ipc_type: None,
        connect_type: None,
        stream_type: None,
        timeout: None,
        service_type: None,
    };
    let msg = WsMessage::with_cmd(WS_REQUEST_LOGIN, login.to_value());
    assert_eq!(extract_login_user(&msg), Some("admin".into()));
    assert_eq!(extract_login_pwd(&msg), Some("secret".into()));
}

#[test]
fn test_error_response() {
    let json = error_response(RESPONSE_REQUEST_CGI, "test error");
    assert!(json.contains("50006"));
    assert!(json.contains("-1"));
}

#[test]
fn test_failed_login_action_is_unarmed() {
    let action = failed_login_action(RESPONSE_REQUEST_LOGIN, "no origin");
    assert!(action.new_camera.is_none());
    assert!(action.new_auth.is_none());
    assert_eq!(action.responses.len(), 1);
    assert!(action.responses[0].contains("\"result\":-1"));
    assert!(action.responses[0].contains("no origin"));
}

#[test]
fn core_test_session_state_defaults() {
    let session = SessionState::new();
    assert!(session.camera.is_none());
    assert!(session.user.is_none());
    assert!(session.pwd.is_none());
}

#[test]
fn test_session_logout_clears_state() {
    let mut session = SessionState::new();
    session.camera = Some(CameraInfo {
        ip: "1.2.3.4".into(),
        http_port: 80,
        rtsp_port: 88,
        addr: addr(1, 2, 3, 4, 80),
    });
    session.user = Some("admin".into());
    session.pwd = Some("pass".into());

    session.logout();

    assert!(session.camera.is_none());
    assert!(session.user.is_none());
    assert!(session.pwd.is_none());
}

#[test]
fn logout_gives_the_port_back() {
    let mut session = armed();
    let msg = WsMessage::new(WS_REQUEST_LOGOUT);
    let action = match dispatch_message(&msg, no_cmd(), &session) {
        Next::Finished(a) => a,
        other => panic!("unexpected: {other:?}"),
    };
    let (texts, released) = session.apply(&msg, action);
    assert_eq!(texts.len(), 1);
    assert_eq!(released, Some(20000));
    assert!(session.camera.is_none() && session.user.is_none() && session.live_port.is_none());
    assert_eq!(session.teardown_video(), None);
}

#[test]
fn teardown_twice_is_once() {
    let mut session = armed();
    assert_eq!(session.teardown_video(), Some(20000));
    assert_eq!(session.teardown_video(), None);
    assert!(session.camera.is_some());
}

#[test]
fn refused_login_changes_nothing() {
    let mut session = armed();
    let action = failed_login_action(RESPONSE_REQUEST_LOGIN, "no origin");
    let (_, released) = session.apply(&WsMessage::new(WS_REQUEST_LOGIN), action);
    assert_eq!(released, None);
    assert_eq!(session.user.as_deref(), Some("admin"));
    assert_eq!(session.live_port, Some(20000));
}

#[test]
fn video_requests_without_login_are_refused() {
    let empty = SessionState::new();
    let err = handle_close_video(&empty).unwrap_err();
    assert!(err.message().contains("no video session"));
    let err = handle_open_video(0, &empty).unwrap_err();
    assert!(err.message().contains("no camera"));
    let mut no_video = SessionState::new();
    no_video.camera = Some(fake_camera());
    no_video.user = Some("u".into());
    no_video.pwd = Some("p".into());
    let err = handle_open_video(0, &no_video).unwrap_err();
    assert!(err.message().contains("no video session"));
}

#[test]
fn sessions_have_their_own_ports() {
    let mut pool = PortPool::new(30_000, 2);
    let origin = OriginInfo::parse("http://camera.lan:88").unwrap();
    let pinned = Some(addr(192, 168, 1, 50, 88));
    let mut sessions = vec![SessionState::new(), SessionState::new(), SessionState::new()];
    for session in sessions.iter_mut() {
        let a = login(
            Some(login_cmd("camera.lan", 88)),
            false,
            session,
            Some(&origin),
            pinned,
            ok_answer(),
            pool.allocate(|_| true),
        );
        session.apply(&WsMessage::new(WS_REQUEST_LOGIN), a);
    }
    assert_eq!(sessions[0].live_port, Some(30_000));
    assert_eq!(sessions[1].live_port, Some(30_001));
    assert_eq!(sessions[2].live_port, None, "the pool is exhausted");

    // The end of one session frees its port and no other.
    let released = sessions[0].teardown_video().unwrap();
    pool.release(released);
    assert_eq!(released, 30_000);
    assert!(!pool.in_use().contains(&30_000));
    assert!(pool.in_use().contains(&30_001));
    assert_eq!(sessions[1].live_port, Some(30_001));
}

#[test]
fn ensure_session_video_allocates_and_reuses() {
    let mut pool = PortPool::new(30_000, 10);
    let mut session = SessionState::new();
    let camera = addr(192, 168, 1, 50, 88);
    let authenticated = |session: &SessionState| {
        match handle_login(Some(login_cmd("camera.lan", 88)), false) {
            LoginStep::Resolve(l) => l.authenticated(camera, ok_answer(), session),
            other => panic!("unexpected: {other:?}"),
        }
    };
    // No live port: a fresh one is taken.
    let port = match authenticated(&session) {
        LoginStep::AllocatePort(l, a, r) => {
            match l.allocated(a, r, pool.allocate(|_| true)) {
                LoginStep::Gather(_, _, _, port, is_new) => {
                    assert!(is_new);
                    port
                }
                other => panic!("unexpected: {other:?}"),
            }
        }
        other => panic!("unexpected: {other:?}"),
    };
    // With a live port: that one, and nothing is taken.
    session.live_port = Some(port);
    match authenticated(&session) {
        LoginStep::Gather(_, _, _, again, is_new) => {
            assert_eq!(again, port);
            assert!(!is_new);
        }
        other => panic!("unexpected: {other:?}"),
    }
    assert_eq!(pool.in_use_count(), 1);
}

/// The first response to a login for `ip:port` from a page with the origin
/// `origin`, at a camera that is looked up at `lookup`, and the session after it.
fn login_roundtrip(
    origin: Option<&str>,
    ip: &str,
    port: u16,
    literal: Option<IpAddr>,
    lookup: Option<&[SocketAddr]>,
) -> (serde_json::Value, SessionState) {
    let mut session = SessionState::new();
    let origin = origin.and_then(OriginInfo::parse);
    let pinned = resolve_camera(ip, port, literal, lookup).ok();
    let cmd = Some(login_cmd(ip, port));
    let action = login(cmd, false, &session, origin.as_ref(), pinned, ok_answer(), Some(20000));
    let first = value(&action.responses[0]);
    session.apply(&WsMessage::new(WS_REQUEST_LOGIN), action);
    (first, session)
}

#[test]
fn test_ws_login_origin_mismatch_rejected() {
    let lan = [addr(192, 168, 1, 50, 88)];
    let (resp, _) =
        login_roundtrip(Some("http://evil.example"), "camera.lan", 88, None, Some(&lan));
    assert_eq!(resp["result"], serde_json::Value::from(-1));
    let text = resp["response"].as_str().unwrap_or("");
    assert!(text.contains("origin does not match claimed camera"), "unexpected: {text}");
}

#[test]
fn test_ws_login_missing_origin_rejected() {
    let lan = [addr(192, 168, 1, 50, 88)];
    let (resp, _) = login_roundtrip(None, "camera.lan", 88, None, Some(&lan));
    assert_eq!(resp["result"], serde_json::Value::from(-1));
    let text = resp["response"].as_str().unwrap_or("");
    assert!(text.contains("no origin"), "unexpected: {text}");
}

#[test]
fn test_ws_login_origin_match_proceeds() {
    // The origin matches the claim; the address is one that is never dialed,
    // and the session stays unarmed.
    let loopback = Some(IpAddr::V4([127, 0, 0, 1]));
    let (resp, session) =
        login_roundtrip(Some("http://127.0.0.1:9"), "127.0.0.1", 9, loopback, None);
    assert_eq!(resp["result"], serde_json::Value::from(-1));
    let text = resp["response"].as_str().unwrap_or("");
    assert!(text.contains("camera unreachable"), "unexpected: {text}");

    // A CGI request in the unarmed session is refused.
    let msg = WsMessage::new(WS_REQUEST_CGI);
    let cmd = CmdObject { login: None, cgi: cgi_cmd("getDevInfo"), play: None };
    let action = match dispatch_message(&msg, cmd, &session) {
        Next::Finished(a) => a,
        other => panic!("unexpected: {other:?}"),
    };
    let v = value(&action.responses[0]);
    assert_eq!(v["msgid"], serde_json::Value::from(RESPONSE_REQUEST_CGI));
    assert_eq!(v["cmdObject"]["result"], serde_json::Value::from(-1));
    let text = v["cmdObject"]["response"].as_str().unwrap_or("");
    assert!(
        text.contains("not authenticated") || text.contains("no camera configured"),
        "unexpected: {text}"
    );
}

/// Gives a session a live port and a running video plane.
fn arm_session(session: &mut SessionState, pool: &mut PortPool, host: &str) -> (u16, VideoServer) {
    let port = pool.allocate(|_| true).expect("port");
    let mut video = VideoServer::new();
    video.start(0, OriginInfo { host: host.into(), port: 88 });
    session.live_port = Some(port);
    (port, video)
}

#[test]
fn teardown_stops_only_its_pipeline_and_releases_port() {
    let mut pool = PortPool::new(30_000, 10);
    let (mut a, mut b) = (SessionState::new(), SessionState::new());
    let (port_a, mut vs_a) = arm_session(&mut a, &mut pool, "cam-a.lan");
    let (port_b, vs_b) = arm_session(&mut b, &mut pool, "cam-b.lan");
    assert_eq!(*pool.in_use(), HashSet::from([port_a, port_b]));
    assert!(vs_a.has_video());
    assert!(vs_b.has_video());

    // The connection of the first session drops.
    let released = a.teardown_video();
    assert_eq!(released, Some(port_a));
    vs_a.stop();
    pool.release(port_a);
    assert!(!vs_a.has_video());
    assert!(vs_a.armed_origin().is_none());
    assert!(a.live_port.is_none());

    // The second is untouched.
    assert!(vs_b.has_video());
    assert!(vs_b.armed_origin().is_some());
    assert_eq!(*pool.in_use(), HashSet::from([port_b]));
    assert_eq!(pool.in_use_count(), 1);

    pool.release(b.teardown_video().unwrap());
    assert_eq!(pool.in_use_count(), 0);
}

#[test]
fn close_video_of_session_a_leaves_session_b_running() {
    let mut pool = PortPool::new(30_000, 10);
    let (mut a, mut b) = (SessionState::new(), SessionState::new());
    let (_, mut vs_a) = arm_session(&mut a, &mut pool, "cam-a.lan");
    let (_, mut vs_b) = arm_session(&mut b, &mut pool, "cam-b.lan");

    let resp = handle_close_video(&a).unwrap();
    vs_a.stop();
    assert!(resp.contains("50011"), "unexpected: {resp}");
    assert!(!vs_a.has_video());
    assert!(vs_b.has_video());

    handle_close_video(&b).unwrap();
    vs_b.stop();
    assert!(!vs_b.has_video());
}
