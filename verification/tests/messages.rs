use fosipcore::protocol::messages::{
    response_text, CgiResponse, InitInfo, InitInfoResponse, LoginCmd, PortAssignment, ProductInfo,
    SnapResponse, VideoOpenSuccess, VideoPlayCmd, WsMessage,
};

#[test]
fn test_serialize_port_assignment() {
    let resp = PortAssignment {
        dst_port: 50001,
        service_ver: "2.0.1.1".into(),
    };
    let json = serde_json::to_string(&resp.to_value()).expect("should serialize");
    // Verify the JS-expected key names
    assert!(json.contains("\"dstPort\""));
    assert!(json.contains("\"seviceVer\""));
    assert!(json.contains("50001"));
}

#[test]
fn test_serialize_cgi_response() {
    let resp = CgiResponse {
        result: 0,
        response: "<CGI_Result><code>0</code></CGI_Result>".into(),
    };
    let json = serde_json::to_string(&resp.to_value()).expect("should serialize");
    assert!(json.contains("\"result\":0"));
    assert!(json.contains("CGI_Result"));
}

#[test]
fn test_serialize_snap_response() {
    let resp = SnapResponse {
        result: 0,
        img: "base64data".into(),
    };
    let json = serde_json::to_string(&resp.to_value()).expect("should serialize");
    assert!(json.contains("\"result\":0"));
    assert!(json.contains("\"img\":\"base64data\""));
}

#[test]
fn test_message_new() {
    let msg = WsMessage::new(50000);
    assert_eq!(msg.msg_id, 50000);
    assert_eq!(msg.version, 1);
    assert!(msg.cmd_object.is_none());
}

#[test]
fn test_message_with_cmd() {
    let port = PortAssignment {
        dst_port: 50001,
        service_ver: "2.0.1.1".into(),
    };
    let msg = WsMessage::with_cmd(50000, port.to_value());
    assert_eq!(msg.msg_id, 50000);
    assert!(msg.cmd_object.is_some());
}

#[test]
fn text_of_messages() {
    assert_eq!(
        WsMessage::new(20005).to_json(),
        r#"{"version":1,"msgid":20005,"groupId":0,"sequence":0,"dataLen":0}"#
    );
    let m = WsMessage {
        version: 2,
        msg_id: 7,
        group_id: u64::MAX,
        sequence: 3,
        data_len: 4,
        cmd_object: Some(serde_json::Value::from("a\"b")),
    };
    assert_eq!(
        m.to_json(),
        r#"{"version":2,"msgid":7,"groupId":18446744073709551615,"sequence":3,"dataLen":4,"cmdObject":"a\"b"}"#
    );
}

#[test]
fn text_of_a_message_parses_back() {
    let port = PortAssignment { dst_port: 50001, service_ver: "2.0.1.1".into() };
    let json = WsMessage::with_cmd(50000, port.to_value()).to_json();
    let v: serde_json::Value = serde_json::from_str(&json).unwrap();
    assert_eq!(v["msgid"], serde_json::Value::from(50000));
    assert_eq!(v["cmdObject"]["dstPort"], serde_json::Value::from(50001));
    assert_eq!(v["cmdObject"]["seviceVer"], serde_json::Value::from("2.0.1.1"));
}

#[test]
fn flat_responses_merge_the_payload() {
    let r = CgiResponse { result: -1, response: "x".into() };
    let v = WsMessage::with_response(50006, r.to_value());
    assert_eq!(
        v.to_string(),
        r#"{"dataLen":0,"groupId":0,"msgid":50006,"response":"x","result":-1,"sequence":0,"version":1}"#
    );
    // The payload comes before the envelope, and what is no object adds nothing.
    let mut m = serde_json::Map::new();
    m.insert("version".into(), serde_json::Value::from(9));
    assert_eq!(
        response_text(1, serde_json::Value::Object(m)),
        r#"{"dataLen":0,"groupId":0,"msgid":1,"sequence":0,"version":9}"#
    );
    assert_eq!(
        response_text(1, serde_json::Value::from(5)),
        r#"{"dataLen":0,"groupId":0,"msgid":1,"sequence":0,"version":1}"#
    );
}

#[test]
fn product_info_is_the_camera_xml() {
    let p = ProductInfo { response: "<x/>".into() };
    assert_eq!(p.to_value().to_string(), r#"{"response":"<x/>"}"#);
}

#[test]
fn init_info_has_the_keys_of_the_client() {
    let mut i = InitInfo::default();
    i.live_port = 20001;
    i.stream_param = vec![1, 2, 4_294_967_295];
    i.usr_privilege = 2;
    let v = i.to_value();
    assert_eq!(v.as_object().unwrap().len(), 27);
    assert_eq!(v["livePort"], serde_json::Value::from(20001));
    assert_eq!(v["streamParam"].to_string(), "[1,2,4294967295]");
    assert_eq!(v["usrPrivilege"], serde_json::Value::from(2));
    for key in [
        "result", "rtmpPort", "recordState", "flashEnableBuffer", "isMute", "volume", "ledState",
        "presetPointCnt", "cruiseMapCnt", "cruCruiseMap", "mainStreamType", "subStreamType",
        "brightness", "contrast", "hue", "saturation", "sharpness", "isMirror", "isFlip",
        "isAlarming", "alarmType", "pwrFreq", "infraLedMode", "infraLedState",
    ] {
        assert_eq!(v[key], serde_json::Value::from(0), "{key}");
    }
}

#[test]
fn init_info_response_defaults() {
    let r = InitInfoResponse::default();
    assert_eq!((r.volume, r.brightness, r.contrast, r.saturation, r.sharpness), (50, 50, 50, 50, 50));
    assert_eq!((r.hue, r.result, r.rtmp_port, r.live_port, r.usr_privilege), (0, 0, 0, 0, 0));
    let v = r.to_value();
    assert_eq!(v.as_object().unwrap().len(), 26);
    assert_eq!(v["volume"], serde_json::Value::from(50));
}

#[test]
fn video_open_success_keys() {
    let o = VideoOpenSuccess {
        channel: 0,
        dev_name: "camera".into(),
        privilege: 1,
        enable_talk: 0,
        enable_audio: 0,
        model_name: "IP Camera".into(),
        ip: "cam.lan".into(),
        web_port: 88,
        usr: "u".into(),
        pwd: "p".into(),
        product_all_info: "<x/>".into(),
    };
    assert_eq!(
        o.to_value().to_string(),
        r#"{"channel":0,"dev_name":"camera","enable_audio":0,"enable_talk":0,"ip":"cam.lan","model_name":"IP Camera","privilege":1,"productAllInfo":"<x/>","pwd":"p","usr":"u","webPort":88}"#
    );
}

#[test]
fn login_and_play_commands() {
    let mut l = LoginCmd::default();
    l.usr = "admin".into();
    l.web_port = Some(88);
    l.stream_type = Some(1);
    let v = l.to_value();
    assert_eq!(v["usr"], serde_json::Value::from("admin"));
    assert_eq!(v["webPort"], serde_json::Value::from(88));
    assert_eq!(v["streamType"], serde_json::Value::from(1));
    assert_eq!(v["ip"], serde_json::Value::Null);
    assert_eq!(v["serviceType"], serde_json::Value::Null);
    assert_eq!(v.as_object().unwrap().len(), 14);
    assert_eq!(VideoPlayCmd::default().to_value().to_string(), r#"{"streamType":0,"timeout":0}"#);
}

#[test]
fn test_full_port_response_serialization() {
    let port = PortAssignment { dst_port: 50001, service_ver: "2.0.1.1".into() };
    let msg = WsMessage::with_cmd(50000, port.to_value());
    let json = msg.to_json();
    // The client reads `msgid`, in small letters, to route responses.
    assert!(json.contains("\"msgid\":50000"), "expected lowercase 'msgid', got: {json}");
    assert!(json.contains("\"dstPort\":50001"), "expected dstPort, got: {json}");
}
