//! The message types and the JSON form of those that the bridge sends.

use vstd::prelude::*;

use crate::json::{
    fields, int_or_null, json, json_text, member_of, merge, nats, no_fields, number_array, object,
    set_int, set_numbers, set_opt_int, set_opt_text, set_text, text, text_or_null, Json,
};
use crate::text::{decimal, push_decimal};

verus! {

/// The outer envelope of every WebSocket message.
#[derive(Debug, Clone, PartialEq)]
pub struct WsMessage {
    /// Protocol version (always 1).
    pub version: u32,
    /// Message type identifier.
    pub msg_id: u32,
    /// Group identifier chosen by the sender.
    pub group_id: u64,
    /// Message sequence number.
    pub sequence: u32,
    /// Length of the data payload (often 0).
    pub data_len: usize,
    /// Payload of the command.
    pub cmd_object: Option<serde_json::Value>,
}

/// The members that every flat response starts from.
pub open spec fn envelope(msg_id: u32) -> Map<Seq<char>, Json> {
    no_fields().insert("version"@, Json::Int(1)).insert("msgid"@, Json::Int(msg_id as int)).insert(
        "groupId"@,
        Json::Int(0),
    ).insert("sequence"@, Json::Int(0)).insert("dataLen"@, Json::Int(0))
}

/// The flat response to a message: the envelope, with the members of `cmd` set
/// in it if `cmd` is an object.
pub open spec fn flat_response(msg_id: u32, cmd: Json) -> Json {
    match cmd {
        Json::Object(m) => Json::Object(envelope(msg_id).union_prefer_right(m)),
        _ => Json::Object(envelope(msg_id)),
    }
}

/// The JSON text of a message: its five numbers in this order, and the payload
/// behind them if there is one.
pub open spec fn message_text(
    version: nat,
    msg_id: nat,
    group_id: nat,
    sequence: nat,
    data_len: nat,
    payload: Option<Json>,
) -> Seq<char> {
    "{\"version\":"@ + decimal(version) + ",\"msgid\":"@ + decimal(msg_id) + ",\"groupId\":"@
        + decimal(group_id) + ",\"sequence\":"@ + decimal(sequence) + ",\"dataLen\":"@ + decimal(
        data_len,
    ) + match payload {
        Some(j) => ",\"cmdObject\":"@ + json_text(j) + "}"@,
        None => "}"@,
    }
}

/// The JSON text of the message `msg_id` that the bridge sends with the payload
/// `payload`, or without one.
pub open spec fn plain_text(msg_id: u32, payload: Option<Json>) -> Seq<char> {
    message_text(1, msg_id as nat, 0, 0, 0, payload)
}

impl WsMessage {
    /// The message `msg_id` without a payload.
    pub open spec fn bare(msg_id: u32) -> WsMessage {
        WsMessage {
            version: 1,
            msg_id,
            group_id: 0,
            sequence: 0,
            data_len: 0,
            cmd_object: None,
        }
    }

    /// The JSON text of the message.
    pub open spec fn spec_text(self) -> Seq<char> {
        message_text(
            self.version as nat,
            self.msg_id as nat,
            self.group_id as nat,
            self.sequence as nat,
            self.data_len as nat,
            match self.cmd_object {
                Some(v) => Some(json(v)),
                None => None,
            },
        )
    }

    /// Creates a message without a payload.
    pub fn new(msg_id: u32) -> (m: WsMessage)
        ensures
            m == WsMessage::bare(msg_id),
    {
        WsMessage { version: 1, msg_id, group_id: 0, sequence: 0, data_len: 0, cmd_object: None }
    }

    /// Creates a message with the payload `cmd`.
    ///
    /// This is the form of a request, and of the few responses whose payload
    /// the client reads from `cmdObject`. The other responses are flat: see
    /// `with_response`.
    pub fn with_cmd(msg_id: u32, cmd: serde_json::Value) -> (m: WsMessage)
        ensures
            m == (WsMessage { cmd_object: Some(cmd), ..WsMessage::bare(msg_id) }),
    {
        WsMessage {
            version: 1,
            msg_id,
            group_id: 0,
            sequence: 0,
            data_len: 0,
            cmd_object: Some(cmd),
        }
    }

    /// Builds a flat response: the members of `cmd` stand at the top level,
    /// beside those of the envelope and before them where both have one.
    pub fn with_response(msg_id: u32, cmd: serde_json::Value) -> (v: serde_json::Value)
        ensures
            json(v) == flat_response(msg_id, json(cmd)),
    {
        let mut map = serde_json::Map::new();
        set_int(&mut map, "version", 1);
        set_int(&mut map, "msgid", msg_id as i64);
        set_int(&mut map, "groupId", 0);
        set_int(&mut map, "sequence", 0);
        set_int(&mut map, "dataLen", 0);
        if let Some(cmd_map) = cmd.as_object() {
            merge(&mut map, cmd_map);
        }
        object(map)
    }

    /// The JSON text of the message.
    pub fn to_json(&self) -> (s: String)
        ensures
            s@ == self.spec_text(),
    {
        let mut out = "{\"version\":".to_owned();
        push_decimal(&mut out, self.version as u64);
        out.append(",\"msgid\":");
        push_decimal(&mut out, self.msg_id as u64);
        out.append(",\"groupId\":");
        push_decimal(&mut out, self.group_id);
        out.append(",\"sequence\":");
        push_decimal(&mut out, self.sequence as u64);
        out.append(",\"dataLen\":");
        push_decimal(&mut out, self.data_len as u64);
        let ghost head = out@;
        match &self.cmd_object {
            Some(v) => {
                out.append(",\"cmdObject\":");
                out.append(text(v).as_str());
                out.append("}");
                assert(out@ == head + (",\"cmdObject\":"@ + json_text(json(*v)) + "}"@));
            },
            None => {
                out.append("}");
            },
        }
        out
    }
}

/// The text of a flat response.
pub fn response_text(msg_id: u32, cmd: serde_json::Value) -> (s: String)
    ensures
        s@ == json_text(flat_response(msg_id, json(cmd))),
{
    text(&WsMessage::with_response(msg_id, cmd))
}

// --- Service manager messages ---

/// Answer to `CMD_REQUEST_PORT`: the port of the core WebSocket server.
///
/// The client reads the version under the key `seviceVer`.
#[derive(Debug, Clone)]
pub struct PortAssignment {
    /// Port of the core WebSocket server.
    pub dst_port: u16,
    /// Service version that the client compares with its own.
    pub service_ver: String,
}

impl PortAssignment {
    /// What the JSON form of the message holds.
    pub open spec fn fields(self) -> Map<Seq<char>, Json> {
        no_fields().insert("dstPort"@, Json::Int(self.dst_port as int)).insert(
            "seviceVer"@,
            Json::Text(self.service_ver@),
        )
    }

    /// The JSON form of the message.
    pub fn to_value(&self) -> (v: serde_json::Value)
        ensures
            json(v) == Json::Object(self.fields()),
    {
        let mut m = serde_json::Map::new();
        set_int(&mut m, "dstPort", self.dst_port as i64);
        set_text(&mut m, "seviceVer", self.service_ver.as_str());
        object(m)
    }
}

// --- Login messages ---

/// Login command (`WS_REQUEST_LOGIN` and `WS_REQUEST_LOGIN_AGAIN`).
#[derive(Debug, Clone)]
pub struct LoginCmd {
    /// Camera host as the client knows it.
    pub ip: Option<String>,
    /// Dynamic DNS name of the camera.
    pub ddns: Option<String>,
    /// Camera identifier.
    pub uid: Option<String>,
    /// User name.
    pub usr: String,
    /// Password.
    pub pwd: String,
    /// Camera web port.
    pub web_port: Option<u16>,
    /// Camera media (RTSP) port.
    pub media_port: Option<u16>,
    /// Media port behind the dynamic DNS name.
    pub ddns_media: Option<u16>,
    /// Hardware address of the camera.
    pub mac: Option<String>,
    /// Camera type.
    pub ipc_type: Option<u32>,
    /// Connection type.
    pub connect_type: Option<u32>,
    /// Stream that the client prefers.
    pub stream_type: Option<u32>,
    /// Time limit in milliseconds.
    pub timeout: Option<u32>,
    /// Service type.
    pub service_type: Option<u32>,
}

impl Default for LoginCmd {
    fn default() -> (r: LoginCmd)
        ensures
            r.ip is None && r.ddns is None && r.uid is None && r.mac is None,
            r.usr@ == Seq::<char>::empty() && r.pwd@ == Seq::<char>::empty(),
            r.web_port is None && r.media_port is None && r.ddns_media is None,
            r.ipc_type is None && r.connect_type is None && r.stream_type is None,
            r.timeout is None && r.service_type is None,
    {
        LoginCmd {
            ip: None,
            ddns: None,
            uid: None,
            usr: String::new(),
            pwd: String::new(),
            web_port: None,
            media_port: None,
            ddns_media: None,
            mac: None,
            ipc_type: None,
            connect_type: None,
            stream_type: None,
            timeout: None,
            service_type: None,
        }
    }
}

/// The characters of an optional string.
pub open spec fn opt_chars(s: Option<String>) -> Option<Seq<char>> {
    match s {
        Some(t) => Some(t@),
        None => None,
    }
}

/// An optional port as an integer.
pub open spec fn opt_port(p: Option<u16>) -> Option<int> {
    match p {
        Some(n) => Some(n as int),
        None => None,
    }
}

/// An optional number as an integer.
pub open spec fn opt_number(p: Option<u32>) -> Option<int> {
    match p {
        Some(n) => Some(n as int),
        None => None,
    }
}

fn widened(p: Option<u16>) -> (r: Option<u32>)
    ensures
        opt_number(r) == opt_port(p),
{
    match p {
        Some(n) => Some(n as u32),
        None => None,
    }
}

impl LoginCmd {
    /// What the JSON form of the message holds.
    pub open spec fn fields(self) -> Map<Seq<char>, Json> {
        no_fields()
            .insert("ip"@, text_or_null(opt_chars(self.ip)))
            .insert("ddns"@, text_or_null(opt_chars(self.ddns)))
            .insert("uid"@, text_or_null(opt_chars(self.uid)))
            .insert("usr"@, Json::Text(self.usr@))
            .insert("pwd"@, Json::Text(self.pwd@))
            .insert("webPort"@, int_or_null(opt_port(self.web_port)))
            .insert("mediaPort"@, int_or_null(opt_port(self.media_port)))
            .insert("ddnsMedia"@, int_or_null(opt_port(self.ddns_media)))
            .insert("mac"@, text_or_null(opt_chars(self.mac)))
            .insert("ipcType"@, int_or_null(opt_number(self.ipc_type)))
            .insert("connectType"@, int_or_null(opt_number(self.connect_type)))
            .insert("streamType"@, int_or_null(opt_number(self.stream_type)))
            .insert("timeout"@, int_or_null(opt_number(self.timeout)))
            .insert("serviceType"@, int_or_null(opt_number(self.service_type)))
    }

    /// The JSON form of the message.
    pub fn to_value(&self) -> (v: serde_json::Value)
        ensures
            json(v) == Json::Object(self.fields()),
    {
        let mut m = serde_json::Map::new();
        set_opt_text(&mut m, "ip", &self.ip);
        set_opt_text(&mut m, "ddns", &self.ddns);
        set_opt_text(&mut m, "uid", &self.uid);
        set_text(&mut m, "usr", self.usr.as_str());
        set_text(&mut m, "pwd", self.pwd.as_str());
        set_opt_int(&mut m, "webPort", widened(self.web_port));
        set_opt_int(&mut m, "mediaPort", widened(self.media_port));
        set_opt_int(&mut m, "ddnsMedia", widened(self.ddns_media));
        set_opt_text(&mut m, "mac", &self.mac);
        set_opt_int(&mut m, "ipcType", self.ipc_type);
        set_opt_int(&mut m, "connectType", self.connect_type);
        set_opt_int(&mut m, "streamType", self.stream_type);
        set_opt_int(&mut m, "timeout", self.timeout);
        set_opt_int(&mut m, "serviceType", self.service_type);
        object(m)
    }
}

/// Payload that holds a time limit only (heartbeat, hello response).
#[derive(Debug, Clone)]
pub struct TimeoutCmd {
    /// Time limit in milliseconds.
    pub timeout: u32,
}

// --- CGI messages ---

/// CGI request to be passed on to the camera (`WS_REQUEST_CGI`).
#[derive(Debug, Clone)]
pub struct CgiCmd {
    /// CGI command, such as `setWifiSetting&isEnable=1&ssid=MyWiFi`.
    pub cgi: String,
    /// Time limit in milliseconds.
    pub timeout: u32,
}

/// Answer to a CGI request (`RESPONSE_REQUEST_CGI`).
#[derive(Debug, Clone)]
pub struct CgiResponse {
    /// 0 on success.
    pub result: i32,
    /// XML that the camera answered.
    pub response: String,
}

/// The members of the answer to a CGI request.
pub open spec fn cgi_fields(result: int, response: Seq<char>) -> Map<Seq<char>, Json> {
    no_fields().insert("result"@, Json::Int(result)).insert("response"@, Json::Text(response))
}

impl CgiResponse {
    /// What the JSON form of the message holds.
    pub open spec fn fields(self) -> Map<Seq<char>, Json> {
        cgi_fields(self.result as int, self.response@)
    }

    /// The JSON form of the message.
    pub fn to_value(&self) -> (v: serde_json::Value)
        ensures
            json(v) == Json::Object(self.fields()),
    {
        let mut m = serde_json::Map::new();
        set_int(&mut m, "result", self.result as i64);
        set_text(&mut m, "response", self.response.as_str());
        object(m)
    }
}

// --- Messages after a login ---

/// Product info (`RESPONSE_REQUEST_LOGIN_PRODUCT_INFO`): the XML of the CGI
/// command `getProductAllInfo`, as it came.
#[derive(Debug, Clone)]
pub struct ProductInfo {
    /// XML that the camera answered.
    pub response: String,
}

/// The members of the product info.
pub open spec fn product_fields(xml: Seq<char>) -> Map<Seq<char>, Json> {
    no_fields().insert("response"@, Json::Text(xml))
}

impl ProductInfo {
    /// What the JSON form of the message holds.
    pub open spec fn fields(self) -> Map<Seq<char>, Json> {
        product_fields(self.response@)
    }

    /// The JSON form of the message.
    pub fn to_value(&self) -> (v: serde_json::Value)
        ensures
            json(v) == Json::Object(self.fields()),
    {
        let mut m = serde_json::Map::new();
        set_text(&mut m, "response", self.response.as_str());
        object(m)
    }
}

/// Initial state after a login (`RESPONSE_REQUEST_LOGIN_MSG_INIT_INFO`).
#[derive(Debug, Clone)]
pub struct InitInfo {
    /// 0 on success.
    pub result: i32,
    /// RTMP server port (0 if not available).
    pub rtmp_port: u16,
    /// HTTP port of the live stream (0 if not available).
    pub live_port: u16,
    /// 0 while nothing is recorded.
    pub record_state: u32,
    /// 0 while buffering is off.
    pub flash_enable_buffer: u32,
    /// 1 when muted.
    pub is_mute: u32,
    /// Audio volume (0 to 100).
    pub volume: u32,
    /// Infrared light: 0 off, 1 on.
    pub led_state: u32,
    /// Number of preset points (0 for a fixed camera).
    pub preset_point_cnt: u32,
    /// Number of cruise maps (0 for a fixed camera).
    pub cruise_map_cnt: u32,
    /// Current cruise map.
    pub cru_cruise_map: u32,
    /// Codec of the main stream: 0 H.264, 1 MJPEG.
    pub main_stream_type: u32,
    /// Codec of the sub stream: 0 H.264, 1 MJPEG.
    pub sub_stream_type: u32,
    /// Four streams of five values each: resolution, bit rate, frame rate,
    /// GOP, variable bit rate.
    pub stream_param: Vec<u32>,
    /// Image brightness (0 to 100).
    pub brightness: u32,
    /// Image contrast (0 to 100).
    pub contrast: u32,
    /// Image hue.
    pub hue: u32,
    /// Image saturation.
    pub saturation: u32,
    /// Image sharpness.
    pub sharpness: u32,
    /// 1 when mirrored.
    pub is_mirror: u32,
    /// 1 when flipped.
    pub is_flip: u32,
    /// 1 while an alarm is active.
    pub is_alarming: u32,
    /// Alarm type (0 for none).
    pub alarm_type: u32,
    /// Power frequency: 0 for 50 Hz, 1 for 60 Hz.
    pub pwr_freq: u32,
    /// Infrared light mode: 0 automatic, 1 manual.
    pub infra_led_mode: u32,
    /// Infrared light: 0 off, 1 on.
    pub infra_led_state: u32,
    /// Privilege level of the user (2 for an administrator).
    pub usr_privilege: u32,
}

/// What the initial state holds.
#[verifier::ext_equal]
pub struct InitInfoView {
    pub result: int,
    pub rtmp_port: int,
    pub live_port: int,
    pub record_state: int,
    pub flash_enable_buffer: int,
    pub is_mute: int,
    pub volume: int,
    pub led_state: int,
    pub preset_point_cnt: int,
    pub cruise_map_cnt: int,
    pub cru_cruise_map: int,
    pub main_stream_type: int,
    pub sub_stream_type: int,
    pub stream_param: Seq<nat>,
    pub brightness: int,
    pub contrast: int,
    pub hue: int,
    pub saturation: int,
    pub sharpness: int,
    pub is_mirror: int,
    pub is_flip: int,
    pub is_alarming: int,
    pub alarm_type: int,
    pub pwr_freq: int,
    pub infra_led_mode: int,
    pub infra_led_state: int,
    pub usr_privilege: int,
}

impl InitInfoView {
    /// The state that tells the client nothing but the live port.
    pub open spec fn blank(live_port: u16) -> InitInfoView {
        InitInfoView {
            result: 0,
            rtmp_port: 0,
            live_port: live_port as int,
            record_state: 0,
            flash_enable_buffer: 0,
            is_mute: 0,
            volume: 0,
            led_state: 0,
            preset_point_cnt: 0,
            cruise_map_cnt: 0,
            cru_cruise_map: 0,
            main_stream_type: 0,
            sub_stream_type: 0,
            stream_param: Seq::empty(),
            brightness: 0,
            contrast: 0,
            hue: 0,
            saturation: 0,
            sharpness: 0,
            is_mirror: 0,
            is_flip: 0,
            is_alarming: 0,
            alarm_type: 0,
            pwr_freq: 0,
            infra_led_mode: 0,
            infra_led_state: 0,
            usr_privilege: 0,
        }
    }

    /// What the JSON form of the message holds.
    pub open spec fn fields(self) -> Map<Seq<char>, Json> {
        no_fields()
            .insert("result"@, Json::Int(self.result))
            .insert("rtmpPort"@, Json::Int(self.rtmp_port))
            .insert("livePort"@, Json::Int(self.live_port))
            .insert("recordState"@, Json::Int(self.record_state))
            .insert("flashEnableBuffer"@, Json::Int(self.flash_enable_buffer))
            .insert("isMute"@, Json::Int(self.is_mute))
            .insert("volume"@, Json::Int(self.volume))
            .insert("ledState"@, Json::Int(self.led_state))
            .insert("presetPointCnt"@, Json::Int(self.preset_point_cnt))
            .insert("cruiseMapCnt"@, Json::Int(self.cruise_map_cnt))
            .insert("cruCruiseMap"@, Json::Int(self.cru_cruise_map))
            .insert("mainStreamType"@, Json::Int(self.main_stream_type))
            .insert("subStreamType"@, Json::Int(self.sub_stream_type))
            .insert("streamParam"@, number_array(self.stream_param))
            .insert("brightness"@, Json::Int(self.brightness))
            .insert("contrast"@, Json::Int(self.contrast))
            .insert("hue"@, Json::Int(self.hue))
            .insert("saturation"@, Json::Int(self.saturation))
            .insert("sharpness"@, Json::Int(self.sharpness))
            .insert("isMirror"@, Json::Int(self.is_mirror))
            .insert("isFlip"@, Json::Int(self.is_flip))
            .insert("isAlarming"@, Json::Int(self.is_alarming))
            .insert("alarmType"@, Json::Int(self.alarm_type))
            .insert("pwrFreq"@, Json::Int(self.pwr_freq))
            .insert("infraLedMode"@, Json::Int(self.infra_led_mode))
            .insert("infraLedState"@, Json::Int(self.infra_led_state))
            .insert("usrPrivilege"@, Json::Int(self.usr_privilege))
    }
}

impl View for InitInfo {
    type V = InitInfoView;

    open spec fn view(&self) -> InitInfoView {
        InitInfoView {
            result: self.result as int,
            rtmp_port: self.rtmp_port as int,
            live_port: self.live_port as int,
            record_state: self.record_state as int,
            flash_enable_buffer: self.flash_enable_buffer as int,
            is_mute: self.is_mute as int,
            volume: self.volume as int,
            led_state: self.led_state as int,
            preset_point_cnt: self.preset_point_cnt as int,
            cruise_map_cnt: self.cruise_map_cnt as int,
            cru_cruise_map: self.cru_cruise_map as int,
            main_stream_type: self.main_stream_type as int,
            sub_stream_type: self.sub_stream_type as int,
            stream_param: nats(self.stream_param@),
            brightness: self.brightness as int,
            contrast: self.contrast as int,
            hue: self.hue as int,
            saturation: self.saturation as int,
            sharpness: self.sharpness as int,
            is_mirror: self.is_mirror as int,
            is_flip: self.is_flip as int,
            is_alarming: self.is_alarming as int,
            alarm_type: self.alarm_type as int,
            pwr_freq: self.pwr_freq as int,
            infra_led_mode: self.infra_led_mode as int,
            infra_led_state: self.infra_led_state as int,
            usr_privilege: self.usr_privilege as int,
        }
    }
}

impl Default for InitInfo {
    fn default() -> (r: InitInfo)
        ensures
            r@ == InitInfoView::blank(0),
    {
        InitInfo {
            result: 0,
            rtmp_port: 0,
            live_port: 0,
            record_state: 0,
            flash_enable_buffer: 0,
            is_mute: 0,
            volume: 0,
            led_state: 0,
            preset_point_cnt: 0,
            cruise_map_cnt: 0,
            cru_cruise_map: 0,
            main_stream_type: 0,
            sub_stream_type: 0,
            stream_param: Vec::new(),
            brightness: 0,
            contrast: 0,
            hue: 0,
            saturation: 0,
            sharpness: 0,
            is_mirror: 0,
            is_flip: 0,
            is_alarming: 0,
            alarm_type: 0,
            pwr_freq: 0,
            infra_led_mode: 0,
            infra_led_state: 0,
            usr_privilege: 0,
        }
    }
}

impl InitInfo {
    /// The JSON form of the message.
    pub fn to_value(&self) -> (v: serde_json::Value)
        ensures
            json(v) == Json::Object(self@.fields()),
    {
        let mut m = serde_json::Map::new();
        set_int(&mut m, "result", self.result as i64);
        set_int(&mut m, "rtmpPort", self.rtmp_port as i64);
        set_int(&mut m, "livePort", self.live_port as i64);
        set_int(&mut m, "recordState", self.record_state as i64);
        set_int(&mut m, "flashEnableBuffer", self.flash_enable_buffer as i64);
        set_int(&mut m, "isMute", self.is_mute as i64);
        set_int(&mut m, "volume", self.volume as i64);
        set_int(&mut m, "ledState", self.led_state as i64);
        set_int(&mut m, "presetPointCnt", self.preset_point_cnt as i64);
        set_int(&mut m, "cruiseMapCnt", self.cruise_map_cnt as i64);
        set_int(&mut m, "cruCruiseMap", self.cru_cruise_map as i64);
        set_int(&mut m, "mainStreamType", self.main_stream_type as i64);
        set_int(&mut m, "subStreamType", self.sub_stream_type as i64);
        set_numbers(&mut m, "streamParam", &self.stream_param);
        set_int(&mut m, "brightness", self.brightness as i64);
        set_int(&mut m, "contrast", self.contrast as i64);
        set_int(&mut m, "hue", self.hue as i64);
        set_int(&mut m, "saturation", self.saturation as i64);
        set_int(&mut m, "sharpness", self.sharpness as i64);
        set_int(&mut m, "isMirror", self.is_mirror as i64);
        set_int(&mut m, "isFlip", self.is_flip as i64);
        set_int(&mut m, "isAlarming", self.is_alarming as i64);
        set_int(&mut m, "alarmType", self.alarm_type as i64);
        set_int(&mut m, "pwrFreq", self.pwr_freq as i64);
        set_int(&mut m, "infraLedMode", self.infra_led_mode as i64);
        set_int(&mut m, "infraLedState", self.infra_led_state as i64);
        set_int(&mut m, "usrPrivilege", self.usr_privilege as i64);
        object(m)
    }
}

// --- Video messages ---

/// Request to open a video stream (`WS_REQUEST_OPEN_VIDEO`).
#[derive(Debug, Clone)]
pub struct VideoPlayCmd {
    /// 0 for the main stream, 1 for the sub stream.
    pub stream_type: u32,
    /// Time limit in milliseconds.
    pub timeout: u32,
}

impl Default for VideoPlayCmd {
    fn default() -> (r: VideoPlayCmd)
        ensures
            r == (VideoPlayCmd { stream_type: 0, timeout: 0 }),
    {
        VideoPlayCmd { stream_type: 0, timeout: 0 }
    }
}

impl VideoPlayCmd {
    /// What the JSON form of the message holds.
    pub open spec fn fields(self) -> Map<Seq<char>, Json> {
        no_fields().insert("streamType"@, Json::Int(self.stream_type as int)).insert(
            "timeout"@,
            Json::Int(self.timeout as int),
        )
    }

    /// The JSON form of the message.
    pub fn to_value(&self) -> (v: serde_json::Value)
        ensures
            json(v) == Json::Object(self.fields()),
    {
        let mut m = serde_json::Map::new();
        set_int(&mut m, "streamType", self.stream_type as i64);
        set_int(&mut m, "timeout", self.timeout as i64);
        object(m)
    }
}

/// Announcement of an open video stream
/// (`RESPONSE_REQUEST_OPEN_VIDEO_SUCCESS`).
#[derive(Debug, Clone)]
pub struct VideoOpenSuccess {
    pub channel: u32,
    pub dev_name: String,
    pub privilege: u32,
    pub enable_talk: u32,
    pub enable_audio: u32,
    pub model_name: String,
    pub ip: String,
    pub web_port: u16,
    pub usr: String,
    pub pwd: String,
    pub product_all_info: String,
}

/// What the announcement of an open video stream holds.
#[verifier::ext_equal]
pub struct VideoOpenView {
    pub channel: int,
    pub dev_name: Seq<char>,
    pub privilege: int,
    pub enable_talk: int,
    pub enable_audio: int,
    pub model_name: Seq<char>,
    pub ip: Seq<char>,
    pub web_port: int,
    pub usr: Seq<char>,
    pub pwd: Seq<char>,
    pub product_all_info: Seq<char>,
}

impl View for VideoOpenSuccess {
    type V = VideoOpenView;

    open spec fn view(&self) -> VideoOpenView {
        VideoOpenView {
            channel: self.channel as int,
            dev_name: self.dev_name@,
            privilege: self.privilege as int,
            enable_talk: self.enable_talk as int,
            enable_audio: self.enable_audio as int,
            model_name: self.model_name@,
            ip: self.ip@,
            web_port: self.web_port as int,
            usr: self.usr@,
            pwd: self.pwd@,
            product_all_info: self.product_all_info@,
        }
    }
}

impl VideoOpenView {
    /// What the JSON form of the message holds.
    pub open spec fn fields(self) -> Map<Seq<char>, Json> {
        no_fields()
            .insert("channel"@, Json::Int(self.channel))
            .insert("dev_name"@, Json::Text(self.dev_name))
            .insert("privilege"@, Json::Int(self.privilege))
            .insert("enable_talk"@, Json::Int(self.enable_talk))
            .insert("enable_audio"@, Json::Int(self.enable_audio))
            .insert("model_name"@, Json::Text(self.model_name))
            .insert("ip"@, Json::Text(self.ip))
            .insert("webPort"@, Json::Int(self.web_port))
            .insert("usr"@, Json::Text(self.usr))
            .insert("pwd"@, Json::Text(self.pwd))
            .insert("productAllInfo"@, Json::Text(self.product_all_info))
    }
}

impl VideoOpenSuccess {
    /// The JSON form of the message.
    pub fn to_value(&self) -> (v: serde_json::Value)
        ensures
            json(v) == Json::Object(self@.fields()),
    {
        let mut m = serde_json::Map::new();
        set_int(&mut m, "channel", self.channel as i64);
        set_text(&mut m, "dev_name", self.dev_name.as_str());
        set_int(&mut m, "privilege", self.privilege as i64);
        set_int(&mut m, "enable_talk", self.enable_talk as i64);
        set_int(&mut m, "enable_audio", self.enable_audio as i64);
        set_text(&mut m, "model_name", self.model_name.as_str());
        set_text(&mut m, "ip", self.ip.as_str());
        set_int(&mut m, "webPort", self.web_port as i64);
        set_text(&mut m, "usr", self.usr.as_str());
        set_text(&mut m, "pwd", self.pwd.as_str());
        set_text(&mut m, "productAllInfo", self.product_all_info.as_str());
        object(m)
    }
}

// --- Snapshot messages ---

/// Answer to a snapshot request (`RESPONSE_REQUEST_SNAP`).
#[derive(Debug, Clone)]
pub struct SnapResponse {
    /// 0 on success.
    pub result: i32,
    /// JPEG image in base64.
    pub img: String,
}

/// The members of the answer to a snapshot request.
pub open spec fn snap_fields(result: int, img: Seq<char>) -> Map<Seq<char>, Json> {
    no_fields().insert("result"@, Json::Int(result)).insert("img"@, Json::Text(img))
}

impl SnapResponse {
    /// What the JSON form of the message holds.
    pub open spec fn fields(self) -> Map<Seq<char>, Json> {
        snap_fields(self.result as int, self.img@)
    }

    /// The JSON form of the message.
    pub fn to_value(&self) -> (v: serde_json::Value)
        ensures
            json(v) == Json::Object(self.fields()),
    {
        let mut m = serde_json::Map::new();
        set_int(&mut m, "result", self.result as i64);
        set_text(&mut m, "img", self.img.as_str());
        object(m)
    }
}

// --- Audio, talk, recording, storage and upgrade messages ---

/// Audio control (`WS_REQUEST_AUDIO`).
#[derive(Debug, Clone)]
pub struct AudioCmd {
    /// 0 for the main stream, 1 for the sub stream.
    pub stream_type: u32,
    /// 1 opens, anything else closes.
    pub operation: u32,
    /// Time limit in milliseconds.
    pub timeout: u32,
}

/// Talkback control (`WS_REQUEST_TALK`).
#[derive(Debug, Clone)]
pub struct TalkCmd {
    /// 1 opens, anything else closes.
    pub operation: u32,
    /// Time limit in milliseconds.
    pub timeout: u32,
}

/// Recording control (`WS_REQUEST_RECORD`).
#[derive(Debug, Clone)]
pub struct RecordCmd {
    /// 1 starts, 0 stops.
    pub operation: u32,
    /// Recording type (`type` in the JSON form).
    pub record_type: u32,
    /// Time limit in milliseconds.
    pub timeout: u32,
}

/// Storage card management (`WS_REQUEST_SD_MANAGER`).
#[derive(Debug, Clone)]
pub struct SdManageCmd {
    /// Time limit in milliseconds.
    pub timeout: u32,
    /// Camera address.
    pub ip: Option<String>,
}

/// Upgrade prompt control (`WS_REQUEST_UPGRADE_PROMPT_ENABLE`).
#[derive(Debug, Clone)]
pub struct UpgradePromptCmd {
    /// What is asked for.
    pub operation: u32,
    /// Plugin version of the client.
    pub plugin_ver: Option<String>,
    /// Whether the prompt is to be shown.
    pub enable: Option<bool>,
}

/// Initial state of a client, without stream parameters.
#[derive(Debug, Clone, PartialEq, Eq)]
pub struct InitInfoResponse {
    pub result: i32,
    pub rtmp_port: u16,
    pub record_state: u32,
    pub flash_enable_buffer: u32,
    pub live_port: u16,
    pub is_mute: u32,
    pub volume: u32,
    pub led_state: u32,
    pub preset_point_cnt: u32,
    pub cruise_map_cnt: u32,
    pub cru_cruise_map: u32,
    pub main_stream_type: u32,
    pub sub_stream_type: u32,
    pub brightness: u32,
    pub contrast: u32,
    pub hue: u32,
    pub saturation: u32,
    pub sharpness: u32,
    pub is_mirror: u32,
    pub is_flip: u32,
    pub is_alarming: u32,
    pub alarm_type: u32,
    pub pwr_freq: u32,
    pub infra_led_mode: u32,
    pub infra_led_state: u32,
    pub usr_privilege: u32,
}

impl Default for InitInfoResponse {
    /// Volume, brightness, contrast, saturation and sharpness stand at their
    /// middle; everything else is zero.
    fn default() -> (r: InitInfoResponse)
        ensures
            r == (InitInfoResponse {
                result: 0,
                rtmp_port: 0,
                record_state: 0,
                flash_enable_buffer: 0,
                live_port: 0,
                is_mute: 0,
                volume: 50,
                led_state: 0,
                preset_point_cnt: 0,
                cruise_map_cnt: 0,
                cru_cruise_map: 0,
                main_stream_type: 0,
                sub_stream_type: 0,
                brightness: 50,
                contrast: 50,
                hue: 0,
                saturation: 50,
                sharpness: 50,
                is_mirror: 0,
                is_flip: 0,
                is_alarming: 0,
                alarm_type: 0,
                pwr_freq: 0,
                infra_led_mode: 0,
                infra_led_state: 0,
                usr_privilege: 0,
            }),
    {
        InitInfoResponse {
            result: 0,
            rtmp_port: 0,
            record_state: 0,
            flash_enable_buffer: 0,
            live_port: 0,
            is_mute: 0,
            volume: 50,
            led_state: 0,
            preset_point_cnt: 0,
            cruise_map_cnt: 0,
            cru_cruise_map: 0,
            main_stream_type: 0,
            sub_stream_type: 0,
            brightness: 50,
            contrast: 50,
            hue: 0,
            saturation: 50,
            sharpness: 50,
            is_mirror: 0,
            is_flip: 0,
            is_alarming: 0,
            alarm_type: 0,
            pwr_freq: 0,
            infra_led_mode: 0,
            infra_led_state: 0,
            usr_privilege: 0,
        }
    }
}

impl InitInfoResponse {
    /// What the JSON form of the message holds.
    pub open spec fn fields(self) -> Map<Seq<char>, Json> {
        no_fields()
            .insert("result"@, Json::Int(self.result as int))
            .insert("rtmpPort"@, Json::Int(self.rtmp_port as int))
            .insert("recordState"@, Json::Int(self.record_state as int))
            .insert("flashEnableBuffer"@, Json::Int(self.flash_enable_buffer as int))
            .insert("livePort"@, Json::Int(self.live_port as int))
            .insert("isMute"@, Json::Int(self.is_mute as int))
            .insert("volume"@, Json::Int(self.volume as int))
            .insert("ledState"@, Json::Int(self.led_state as int))
            .insert("presetPointCnt"@, Json::Int(self.preset_point_cnt as int))
            .insert("cruiseMapCnt"@, Json::Int(self.cruise_map_cnt as int))
            .insert("cruCruiseMap"@, Json::Int(self.cru_cruise_map as int))
            .insert("mainStreamType"@, Json::Int(self.main_stream_type as int))
            .insert("subStreamType"@, Json::Int(self.sub_stream_type as int))
            .insert("brightness"@, Json::Int(self.brightness as int))
            .insert("contrast"@, Json::Int(self.contrast as int))
            .insert("hue"@, Json::Int(self.hue as int))
            .insert("saturation"@, Json::Int(self.saturation as int))
            .insert("sharpness"@, Json::Int(self.sharpness as int))
            .insert("isMirror"@, Json::Int(self.is_mirror as int))
            .insert("isFlip"@, Json::Int(self.is_flip as int))
            .insert("isAlarming"@, Json::Int(self.is_alarming as int))
            .insert("alarmType"@, Json::Int(self.alarm_type as int))
            .insert("pwrFreq"@, Json::Int(self.pwr_freq as int))
            .insert("infraLedMode"@, Json::Int(self.infra_led_mode as int))
            .insert("infraLedState"@, Json::Int(self.infra_led_state as int))
            .insert("usrPrivilege"@, Json::Int(self.usr_privilege as int))
    }

    /// The JSON form of the message.
    pub fn to_value(&self) -> (v: serde_json::Value)
        ensures
            json(v) == Json::Object(self.fields()),
    {
        let mut m = serde_json::Map::new();
        set_int(&mut m, "result", self.result as i64);
        set_int(&mut m, "rtmpPort", self.rtmp_port as i64);
        set_int(&mut m, "recordState", self.record_state as i64);
        set_int(&mut m, "flashEnableBuffer", self.flash_enable_buffer as i64);
        set_int(&mut m, "livePort", self.live_port as i64);
        set_int(&mut m, "isMute", self.is_mute as i64);
        set_int(&mut m, "volume", self.volume as i64);
        set_int(&mut m, "ledState", self.led_state as i64);
        set_int(&mut m, "presetPointCnt", self.preset_point_cnt as i64);
        set_int(&mut m, "cruiseMapCnt", self.cruise_map_cnt as i64);
        set_int(&mut m, "cruCruiseMap", self.cru_cruise_map as i64);
        set_int(&mut m, "mainStreamType", self.main_stream_type as i64);
        set_int(&mut m, "subStreamType", self.sub_stream_type as i64);
        set_int(&mut m, "brightness", self.brightness as i64);
        set_int(&mut m, "contrast", self.contrast as i64);
        set_int(&mut m, "hue", self.hue as i64);
        set_int(&mut m, "saturation", self.saturation as i64);
        set_int(&mut m, "sharpness", self.sharpness as i64);
        set_int(&mut m, "isMirror", self.is_mirror as i64);
        set_int(&mut m, "isFlip", self.is_flip as i64);
        set_int(&mut m, "isAlarming", self.is_alarming as i64);
        set_int(&mut m, "alarmType", self.alarm_type as i64);
        set_int(&mut m, "pwrFreq", self.pwr_freq as i64);
        set_int(&mut m, "infraLedMode", self.infra_led_mode as i64);
        set_int(&mut m, "infraLedState", self.infra_led_state as i64);
        set_int(&mut m, "usrPrivilege", self.usr_privilege as i64);
        object(m)
    }
}

// --- Laws ---

/// A flat response carries every member of the payload as it is, and the
/// members of the envelope that the payload does not have.
pub proof fn law_flat_response_members(msg_id: u32, m: Map<Seq<char>, Json>, key: Seq<char>)
    ensures
        flat_response(msg_id, Json::Object(m)) is Object,
        m.contains_key(key) ==> member_of(
            flat_response(msg_id, Json::Object(m)),
            key,
        ) == Some(m[key]),
        !m.contains_key(key) ==> member_of(
            flat_response(msg_id, Json::Object(m)),
            key,
        ) == member_of(Json::Object(envelope(msg_id)), key),
{
}

/// The client finds every part of the initial state under its own name, and no
/// number of a message among them.
#[verifier::spinoff_prover]
pub proof fn law_initial_state_by_name(v: InitInfoView)
    ensures
        !v.fields().contains_key("msgid"@),
        v.fields()["result"@] == Json::Int(v.result),
        v.fields()["rtmpPort"@] == Json::Int(v.rtmp_port),
        v.fields()["livePort"@] == Json::Int(v.live_port),
        v.fields()["recordState"@] == Json::Int(v.record_state),
        v.fields()["flashEnableBuffer"@] == Json::Int(v.flash_enable_buffer),
        v.fields()["isMute"@] == Json::Int(v.is_mute),
        v.fields()["volume"@] == Json::Int(v.volume),
        v.fields()["ledState"@] == Json::Int(v.led_state),
        v.fields()["presetPointCnt"@] == Json::Int(v.preset_point_cnt),
        v.fields()["cruiseMapCnt"@] == Json::Int(v.cruise_map_cnt),
        v.fields()["cruCruiseMap"@] == Json::Int(v.cru_cruise_map),
        v.fields()["mainStreamType"@] == Json::Int(v.main_stream_type),
        v.fields()["subStreamType"@] == Json::Int(v.sub_stream_type),
        v.fields()["streamParam"@] == Json::Array(
            v.stream_param.map_values(|n: nat| Json::Int(n as int)),
        ),
        v.fields()["brightness"@] == Json::Int(v.brightness),
        v.fields()["contrast"@] == Json::Int(v.contrast),
        v.fields()["hue"@] == Json::Int(v.hue),
        v.fields()["saturation"@] == Json::Int(v.saturation),
        v.fields()["sharpness"@] == Json::Int(v.sharpness),
        v.fields()["isMirror"@] == Json::Int(v.is_mirror),
        v.fields()["isFlip"@] == Json::Int(v.is_flip),
        v.fields()["isAlarming"@] == Json::Int(v.is_alarming),
        v.fields()["alarmType"@] == Json::Int(v.alarm_type),
        v.fields()["pwrFreq"@] == Json::Int(v.pwr_freq),
        v.fields()["infraLedMode"@] == Json::Int(v.infra_led_mode),
        v.fields()["infraLedState"@] == Json::Int(v.infra_led_state),
        v.fields()["usrPrivilege"@] == Json::Int(v.usr_privilege),
        v.fields().contains_key("result"@),
        v.fields().contains_key("livePort"@),
{
    reveal_strlit("msgid");
    reveal_strlit("result");
    reveal_strlit("rtmpPort");
    reveal_strlit("livePort");
    reveal_strlit("recordState");
    reveal_strlit("flashEnableBuffer");
    reveal_strlit("isMute");
    reveal_strlit("volume");
    reveal_strlit("ledState");
    reveal_strlit("presetPointCnt");
    reveal_strlit("cruiseMapCnt");
    reveal_strlit("cruCruiseMap");
    reveal_strlit("mainStreamType");
    reveal_strlit("subStreamType");
    reveal_strlit("streamParam");
    reveal_strlit("brightness");
    reveal_strlit("contrast");
    reveal_strlit("hue");
    reveal_strlit("saturation");
    reveal_strlit("sharpness");
    reveal_strlit("isMirror");
    reveal_strlit("isFlip");
    reveal_strlit("isAlarming");
    reveal_strlit("alarmType");
    reveal_strlit("pwrFreq");
    reveal_strlit("infraLedMode");
    reveal_strlit("infraLedState");
    reveal_strlit("usrPrivilege");
    assert("hue"@.len() == 3);
    assert("msgid"@.len() == 5);
    assert("result"@.len() == 6);
    assert("isMute"@.len() == 6);
    assert("volume"@.len() == 6);
    assert("isFlip"@.len() == 6);
    assert("result"@[0] != "isMute"@[0]);
    assert("result"@[0] != "volume"@[0]);
    assert("result"@[0] != "isFlip"@[0]);
    assert("isMute"@[0] != "volume"@[0]);
    assert("isMute"@[2] != "isFlip"@[2]);
    assert("volume"@[0] != "isFlip"@[0]);
    assert("pwrFreq"@.len() == 7);
    assert("rtmpPort"@.len() == 8);
    assert("livePort"@.len() == 8);
    assert("ledState"@.len() == 8);
    assert("contrast"@.len() == 8);
    assert("isMirror"@.len() == 8);
    assert("rtmpPort"@[0] != "livePort"@[0]);
    assert("rtmpPort"@[0] != "ledState"@[0]);
    assert("rtmpPort"@[0] != "contrast"@[0]);
    assert("rtmpPort"@[0] != "isMirror"@[0]);
    assert("livePort"@[1] != "ledState"@[1]);
    assert("livePort"@[0] != "contrast"@[0]);
    assert("livePort"@[0] != "isMirror"@[0]);
    assert("ledState"@[0] != "contrast"@[0]);
    assert("ledState"@[0] != "isMirror"@[0]);
    assert("contrast"@[0] != "isMirror"@[0]);
    assert("sharpness"@.len() == 9);
    assert("alarmType"@.len() == 9);
    assert("sharpness"@[0] != "alarmType"@[0]);
    assert("brightness"@.len() == 10);
    assert("saturation"@.len() == 10);
    assert("isAlarming"@.len() == 10);
    assert("brightness"@[0] != "saturation"@[0]);
    assert("brightness"@[0] != "isAlarming"@[0]);
    assert("saturation"@[0] != "isAlarming"@[0]);
    assert("recordState"@.len() == 11);
    assert("streamParam"@.len() == 11);
    assert("recordState"@[0] != "streamParam"@[0]);
    assert("cruiseMapCnt"@.len() == 12);
    assert("cruCruiseMap"@.len() == 12);
    assert("infraLedMode"@.len() == 12);
    assert("usrPrivilege"@.len() == 12);
    assert("cruiseMapCnt"@[3] != "cruCruiseMap"@[3]);
    assert("cruiseMapCnt"@[0] != "infraLedMode"@[0]);
    assert("cruiseMapCnt"@[0] != "usrPrivilege"@[0]);
    assert("cruCruiseMap"@[0] != "infraLedMode"@[0]);
    assert("cruCruiseMap"@[0] != "usrPrivilege"@[0]);
    assert("infraLedMode"@[0] != "usrPrivilege"@[0]);
    assert("subStreamType"@.len() == 13);
    assert("infraLedState"@.len() == 13);
    assert("subStreamType"@[0] != "infraLedState"@[0]);
    assert("presetPointCnt"@.len() == 14);
    assert("mainStreamType"@.len() == 14);
    assert("presetPointCnt"@[0] != "mainStreamType"@[0]);
    assert("flashEnableBuffer"@.len() == 17);
}

/// What stands under each name is the part of the message itself.
pub proof fn law_initial_state_is_sent_as_it_is(x: InitInfo)
    ensures
        x@.fields()["result"@] == Json::Int(x.result as int),
        x@.fields()["rtmpPort"@] == Json::Int(x.rtmp_port as int),
        x@.fields()["livePort"@] == Json::Int(x.live_port as int),
        x@.fields()["recordState"@] == Json::Int(x.record_state as int),
        x@.fields()["flashEnableBuffer"@] == Json::Int(x.flash_enable_buffer as int),
        x@.fields()["isMute"@] == Json::Int(x.is_mute as int),
        x@.fields()["volume"@] == Json::Int(x.volume as int),
        x@.fields()["ledState"@] == Json::Int(x.led_state as int),
        x@.fields()["presetPointCnt"@] == Json::Int(x.preset_point_cnt as int),
        x@.fields()["cruiseMapCnt"@] == Json::Int(x.cruise_map_cnt as int),
        x@.fields()["cruCruiseMap"@] == Json::Int(x.cru_cruise_map as int),
        x@.fields()["mainStreamType"@] == Json::Int(x.main_stream_type as int),
        x@.fields()["subStreamType"@] == Json::Int(x.sub_stream_type as int),
        x@.fields()["streamParam"@] matches Json::Array(a) && a.len() == x.stream_param@.len() && (
        forall|i: int|
            0 <= i < a.len() ==> #[trigger] a[i] == Json::Int(x.stream_param@[i] as int)),
        x@.fields()["brightness"@] == Json::Int(x.brightness as int),
        x@.fields()["contrast"@] == Json::Int(x.contrast as int),
        x@.fields()["hue"@] == Json::Int(x.hue as int),
        x@.fields()["saturation"@] == Json::Int(x.saturation as int),
        x@.fields()["sharpness"@] == Json::Int(x.sharpness as int),
        x@.fields()["isMirror"@] == Json::Int(x.is_mirror as int),
        x@.fields()["isFlip"@] == Json::Int(x.is_flip as int),
        x@.fields()["isAlarming"@] == Json::Int(x.is_alarming as int),
        x@.fields()["alarmType"@] == Json::Int(x.alarm_type as int),
        x@.fields()["pwrFreq"@] == Json::Int(x.pwr_freq as int),
        x@.fields()["infraLedMode"@] == Json::Int(x.infra_led_mode as int),
        x@.fields()["infraLedState"@] == Json::Int(x.infra_led_state as int),
        x@.fields()["usrPrivilege"@] == Json::Int(x.usr_privilege as int),
{
    law_initial_state_by_name(x@);
}

/// The initial state that tells of nothing but the live port has zeros in every
/// other place.
pub proof fn law_blank_state_tells_the_port(live_port: u16)
    ensures
        ({
            let v = InitInfoView::blank(live_port);
            &&& v.live_port == live_port
            &&& v.result == 0
            &&& v.rtmp_port == 0
            &&& v.record_state == 0
            &&& v.flash_enable_buffer == 0
            &&& v.is_mute == 0
            &&& v.volume == 0
            &&& v.led_state == 0
            &&& v.preset_point_cnt == 0
            &&& v.cruise_map_cnt == 0
            &&& v.cru_cruise_map == 0
            &&& v.main_stream_type == 0
            &&& v.sub_stream_type == 0
            &&& v.brightness == 0
            &&& v.contrast == 0
            &&& v.hue == 0
            &&& v.saturation == 0
            &&& v.sharpness == 0
            &&& v.is_mirror == 0
            &&& v.is_flip == 0
            &&& v.is_alarming == 0
            &&& v.alarm_type == 0
            &&& v.pwr_freq == 0
            &&& v.infra_led_mode == 0
            &&& v.infra_led_state == 0
            &&& v.usr_privilege == 0
            &&& v.stream_param.len() == 0
        }),
{
}

/// The same of the initial state without stream parameters.
#[verifier::spinoff_prover]
pub proof fn law_short_initial_state_by_name(x: InitInfoResponse)
    ensures
        x.fields()["result"@] == Json::Int(x.result as int),
        x.fields()["rtmpPort"@] == Json::Int(x.rtmp_port as int),
        x.fields()["livePort"@] == Json::Int(x.live_port as int),
        x.fields()["recordState"@] == Json::Int(x.record_state as int),
        x.fields()["flashEnableBuffer"@] == Json::Int(x.flash_enable_buffer as int),
        x.fields()["isMute"@] == Json::Int(x.is_mute as int),
        x.fields()["volume"@] == Json::Int(x.volume as int),
        x.fields()["ledState"@] == Json::Int(x.led_state as int),
        x.fields()["presetPointCnt"@] == Json::Int(x.preset_point_cnt as int),
        x.fields()["cruiseMapCnt"@] == Json::Int(x.cruise_map_cnt as int),
        x.fields()["cruCruiseMap"@] == Json::Int(x.cru_cruise_map as int),
        x.fields()["mainStreamType"@] == Json::Int(x.main_stream_type as int),
        x.fields()["subStreamType"@] == Json::Int(x.sub_stream_type as int),
        x.fields()["brightness"@] == Json::Int(x.brightness as int),
        x.fields()["contrast"@] == Json::Int(x.contrast as int),
        x.fields()["hue"@] == Json::Int(x.hue as int),
        x.fields()["saturation"@] == Json::Int(x.saturation as int),
        x.fields()["sharpness"@] == Json::Int(x.sharpness as int),
        x.fields()["isMirror"@] == Json::Int(x.is_mirror as int),
        x.fields()["isFlip"@] == Json::Int(x.is_flip as int),
        x.fields()["isAlarming"@] == Json::Int(x.is_alarming as int),
        x.fields()["alarmType"@] == Json::Int(x.alarm_type as int),
        x.fields()["pwrFreq"@] == Json::Int(x.pwr_freq as int),
        x.fields()["infraLedMode"@] == Json::Int(x.infra_led_mode as int),
        x.fields()["infraLedState"@] == Json::Int(x.infra_led_state as int),
        x.fields()["usrPrivilege"@] == Json::Int(x.usr_privilege as int),
{
    reveal_strlit("result");
    reveal_strlit("rtmpPort");
    reveal_strlit("livePort");
    reveal_strlit("recordState");
    reveal_strlit("flashEnableBuffer");
    reveal_strlit("isMute");
    reveal_strlit("volume");
    reveal_strlit("ledState");
    reveal_strlit("presetPointCnt");
    reveal_strlit("cruiseMapCnt");
    reveal_strlit("cruCruiseMap");
    reveal_strlit("mainStreamType");
    reveal_strlit("subStreamType");
    reveal_strlit("brightness");
    reveal_strlit("contrast");
    reveal_strlit("hue");
    reveal_strlit("saturation");
    reveal_strlit("sharpness");
    reveal_strlit("isMirror");
    reveal_strlit("isFlip");
    reveal_strlit("isAlarming");
    reveal_strlit("alarmType");
    reveal_strlit("pwrFreq");
    reveal_strlit("infraLedMode");
    reveal_strlit("infraLedState");
    reveal_strlit("usrPrivilege");
    assert("hue"@.len() == 3);
    assert("result"@.len() == 6);
    assert("isMute"@.len() == 6);
    assert("volume"@.len() == 6);
    assert("isFlip"@.len() == 6);
    assert("result"@[0] != "isMute"@[0]);
    assert("result"@[0] != "volume"@[0]);
    assert("result"@[0] != "isFlip"@[0]);
    assert("isMute"@[0] != "volume"@[0]);
    assert("isMute"@[2] != "isFlip"@[2]);
    assert("volume"@[0] != "isFlip"@[0]);
    assert("pwrFreq"@.len() == 7);
    assert("rtmpPort"@.len() == 8);
    assert("livePort"@.len() == 8);
    assert("ledState"@.len() == 8);
    assert("contrast"@.len() == 8);
    assert("isMirror"@.len() == 8);
    assert("rtmpPort"@[0] != "livePort"@[0]);
    assert("rtmpPort"@[0] != "ledState"@[0]);
    assert("rtmpPort"@[0] != "contrast"@[0]);
    assert("rtmpPort"@[0] != "isMirror"@[0]);
    assert("livePort"@[1] != "ledState"@[1]);
    assert("livePort"@[0] != "contrast"@[0]);
    assert("livePort"@[0] != "isMirror"@[0]);
    assert("ledState"@[0] != "contrast"@[0]);
    assert("ledState"@[0] != "isMirror"@[0]);
    assert("contrast"@[0] != "isMirror"@[0]);
    assert("sharpness"@.len() == 9);
    assert("alarmType"@.len() == 9);
    assert("sharpness"@[0] != "alarmType"@[0]);
    assert("brightness"@.len() == 10);
    assert("saturation"@.len() == 10);
    assert("isAlarming"@.len() == 10);
    assert("brightness"@[0] != "saturation"@[0]);
    assert("brightness"@[0] != "isAlarming"@[0]);
    assert("saturation"@[0] != "isAlarming"@[0]);
    assert("recordState"@.len() == 11);
    assert("cruiseMapCnt"@.len() == 12);
    assert("cruCruiseMap"@.len() == 12);
    assert("infraLedMode"@.len() == 12);
    assert("usrPrivilege"@.len() == 12);
    assert("cruiseMapCnt"@[3] != "cruCruiseMap"@[3]);
    assert("cruiseMapCnt"@[0] != "infraLedMode"@[0]);
    assert("cruiseMapCnt"@[0] != "usrPrivilege"@[0]);
    assert("cruCruiseMap"@[0] != "infraLedMode"@[0]);
    assert("cruCruiseMap"@[0] != "usrPrivilege"@[0]);
    assert("infraLedMode"@[0] != "usrPrivilege"@[0]);
    assert("subStreamType"@.len() == 13);
    assert("infraLedState"@.len() == 13);
    assert("subStreamType"@[0] != "infraLedState"@[0]);
    assert("presetPointCnt"@.len() == 14);
    assert("mainStreamType"@.len() == 14);
    assert("presetPointCnt"@[0] != "mainStreamType"@[0]);
    assert("flashEnableBuffer"@.len() == 17);
}

/// The client finds every part of the announcement of a stream under its own
/// name.
pub proof fn law_announcement_by_name(v: VideoOpenView)
    ensures
        v.fields()["channel"@] == Json::Int(v.channel),
        v.fields()["dev_name"@] == Json::Text(v.dev_name),
        v.fields()["privilege"@] == Json::Int(v.privilege),
        v.fields()["enable_talk"@] == Json::Int(v.enable_talk),
        v.fields()["enable_audio"@] == Json::Int(v.enable_audio),
        v.fields()["model_name"@] == Json::Text(v.model_name),
        v.fields()["ip"@] == Json::Text(v.ip),
        v.fields()["webPort"@] == Json::Int(v.web_port),
        v.fields()["usr"@] == Json::Text(v.usr),
        v.fields()["pwd"@] == Json::Text(v.pwd),
        v.fields()["productAllInfo"@] == Json::Text(v.product_all_info),
        !v.fields().contains_key("msgid"@),
        v.fields().contains_key("channel"@),
        v.fields().contains_key("ip"@),
        v.fields().contains_key("webPort"@),
        v.fields().contains_key("usr"@),
        v.fields().contains_key("pwd"@),
        v.fields().contains_key("productAllInfo"@),
{
    reveal_strlit("channel");
    reveal_strlit("dev_name");
    reveal_strlit("privilege");
    reveal_strlit("enable_talk");
    reveal_strlit("enable_audio");
    reveal_strlit("model_name");
    reveal_strlit("ip");
    reveal_strlit("webPort");
    reveal_strlit("usr");
    reveal_strlit("pwd");
    reveal_strlit("productAllInfo");
    reveal_strlit("msgid");
    assert("ip"@.len() == 2);
    assert("usr"@.len() == 3);
    assert("pwd"@.len() == 3);
    assert("usr"@[0] != "pwd"@[0]);
    assert("msgid"@.len() == 5);
    assert("channel"@.len() == 7);
    assert("webPort"@.len() == 7);
    assert("channel"@[0] != "webPort"@[0]);
    assert("dev_name"@.len() == 8);
    assert("privilege"@.len() == 9);
    assert("model_name"@.len() == 10);
    assert("enable_talk"@.len() == 11);
    assert("enable_audio"@.len() == 12);
    assert("productAllInfo"@.len() == 14);
}

/// What stands under each name is the part of the announcement itself.
pub proof fn law_announcement_is_sent_as_it_is(x: VideoOpenSuccess)
    ensures
        x@.fields()["channel"@] == Json::Int(x.channel as int),
        x@.fields()["dev_name"@] == Json::Text(x.dev_name@),
        x@.fields()["privilege"@] == Json::Int(x.privilege as int),
        x@.fields()["enable_talk"@] == Json::Int(x.enable_talk as int),
        x@.fields()["enable_audio"@] == Json::Int(x.enable_audio as int),
        x@.fields()["model_name"@] == Json::Text(x.model_name@),
        x@.fields()["ip"@] == Json::Text(x.ip@),
        x@.fields()["webPort"@] == Json::Int(x.web_port as int),
        x@.fields()["usr"@] == Json::Text(x.usr@),
        x@.fields()["pwd"@] == Json::Text(x.pwd@),
        x@.fields()["productAllInfo"@] == Json::Text(x.product_all_info@),
{
    law_announcement_by_name(x@);
}

/// The parts of a login command stand under their own names, and those that are
/// not there are `null`.
pub proof fn law_login_command_by_name(x: LoginCmd)
    ensures
        x.fields()["usr"@] == Json::Text(x.usr@),
        x.fields()["pwd"@] == Json::Text(x.pwd@),
        x.fields()["ip"@] == match x.ip {
            Some(s) => Json::Text(s@),
            None => Json::Null,
        },
        x.fields()["ddns"@] == match x.ddns {
            Some(s) => Json::Text(s@),
            None => Json::Null,
        },
        x.fields()["uid"@] == match x.uid {
            Some(s) => Json::Text(s@),
            None => Json::Null,
        },
        x.fields()["webPort"@] == match x.web_port {
            Some(n) => Json::Int(n as int),
            None => Json::Null,
        },
        x.fields()["mediaPort"@] == match x.media_port {
            Some(n) => Json::Int(n as int),
            None => Json::Null,
        },
        x.fields()["ddnsMedia"@] == match x.ddns_media {
            Some(n) => Json::Int(n as int),
            None => Json::Null,
        },
        x.fields()["mac"@] == match x.mac {
            Some(s) => Json::Text(s@),
            None => Json::Null,
        },
        x.fields()["ipcType"@] == match x.ipc_type {
            Some(n) => Json::Int(n as int),
            None => Json::Null,
        },
        x.fields()["connectType"@] == match x.connect_type {
            Some(n) => Json::Int(n as int),
            None => Json::Null,
        },
        x.fields()["streamType"@] == match x.stream_type {
            Some(n) => Json::Int(n as int),
            None => Json::Null,
        },
        x.fields()["timeout"@] == match x.timeout {
            Some(n) => Json::Int(n as int),
            None => Json::Null,
        },
        x.fields()["serviceType"@] == match x.service_type {
            Some(n) => Json::Int(n as int),
            None => Json::Null,
        },
{
    reveal_strlit("ip");
    reveal_strlit("ddns");
    reveal_strlit("uid");
    reveal_strlit("usr");
    reveal_strlit("pwd");
    reveal_strlit("webPort");
    reveal_strlit("mediaPort");
    reveal_strlit("ddnsMedia");
    reveal_strlit("mac");
    reveal_strlit("ipcType");
    reveal_strlit("connectType");
    reveal_strlit("streamType");
    reveal_strlit("timeout");
    reveal_strlit("serviceType");
    assert("ip"@.len() == 2);
    assert("uid"@.len() == 3);
    assert("usr"@.len() == 3);
    assert("pwd"@.len() == 3);
    assert("mac"@.len() == 3);
    assert("uid"@[1] != "usr"@[1]);
    assert("uid"@[0] != "pwd"@[0]);
    assert("uid"@[0] != "mac"@[0]);
    assert("usr"@[0] != "pwd"@[0]);
    assert("usr"@[0] != "mac"@[0]);
    assert("pwd"@[0] != "mac"@[0]);
    assert("ddns"@.len() == 4);
    assert("webPort"@.len() == 7);
    assert("ipcType"@.len() == 7);
    assert("timeout"@.len() == 7);
    assert("webPort"@[0] != "ipcType"@[0]);
    assert("webPort"@[0] != "timeout"@[0]);
    assert("ipcType"@[0] != "timeout"@[0]);
    assert("mediaPort"@.len() == 9);
    assert("ddnsMedia"@.len() == 9);
    assert("mediaPort"@[0] != "ddnsMedia"@[0]);
    assert("streamType"@.len() == 10);
    assert("connectType"@.len() == 11);
    assert("serviceType"@.len() == 11);
    assert("connectType"@[0] != "serviceType"@[0]);
}

/// The parts of the other payloads stand under their own names.
pub proof fn law_payloads_by_name(
    port: PortAssignment,
    cgi: CgiResponse,
    product: ProductInfo,
    play: VideoPlayCmd,
    snap: SnapResponse,
)
    ensures
        port.fields()["dstPort"@] == Json::Int(port.dst_port as int),
        port.fields()["seviceVer"@] == Json::Text(port.service_ver@),
        port.fields().dom() =~= set!["dstPort"@, "seviceVer"@],
        cgi.fields()["result"@] == Json::Int(cgi.result as int),
        cgi.fields()["response"@] == Json::Text(cgi.response@),
        cgi.fields().dom() =~= set!["result"@, "response"@],
        product.fields()["response"@] == Json::Text(product.response@),
        product.fields().dom() =~= set!["response"@],
        play.fields()["streamType"@] == Json::Int(play.stream_type as int),
        play.fields()["timeout"@] == Json::Int(play.timeout as int),
        play.fields().dom() =~= set!["streamType"@, "timeout"@],
        snap.fields()["result"@] == Json::Int(snap.result as int),
        snap.fields()["img"@] == Json::Text(snap.img@),
        snap.fields().dom() =~= set!["result"@, "img"@],
{
    reveal_strlit("dstPort");
    reveal_strlit("seviceVer");
    reveal_strlit("result");
    reveal_strlit("response");
    reveal_strlit("streamType");
    reveal_strlit("timeout");
    reveal_strlit("img");
    assert("img"@.len() == 3);
    assert("result"@.len() == 6);
    assert("dstPort"@.len() == 7);
    assert("timeout"@.len() == 7);
    assert("dstPort"@[0] != "timeout"@[0]);
    assert("response"@.len() == 8);
    assert("seviceVer"@.len() == 9);
    assert("streamType"@.len() == 10);
}

/// A flat response has the number of the message under `msgid` and the version 1,
/// with zeros for group, sequence and length, unless the payload says otherwise;
/// everything else in it is of the payload.
pub proof fn law_flat_response_tells_its_number(
    msg_id: u32,
    m: Map<Seq<char>, Json>,
    key: Seq<char>,
)
    ensures
        ({
            let j = flat_response(msg_id, Json::Object(m));
            &&& m.contains_key(key) ==> member_of(j, key) == Some(m[key])
            &&& !m.contains_key("msgid"@) ==> member_of(j, "msgid"@) == Some(
                Json::Int(msg_id as int),
            )
            &&& !m.contains_key("version"@) ==> member_of(j, "version"@) == Some(Json::Int(1))
            &&& !m.contains_key("groupId"@) ==> member_of(j, "groupId"@) == Some(Json::Int(0))
            &&& !m.contains_key("sequence"@) ==> member_of(j, "sequence"@) == Some(Json::Int(0))
            &&& !m.contains_key("dataLen"@) ==> member_of(j, "dataLen"@) == Some(Json::Int(0))
            &&& member_of(j, key) is Some ==> m.contains_key(key) || key == "msgid"@ || key
                == "version"@ || key == "groupId"@ || key == "sequence"@ || key == "dataLen"@
        }),
{
    reveal_strlit("version");
    reveal_strlit("msgid");
    reveal_strlit("groupId");
    reveal_strlit("sequence");
    reveal_strlit("dataLen");
    assert("msgid"@.len() == 5);
    assert("version"@.len() == 7);
    assert("groupId"@.len() == 7);
    assert("dataLen"@.len() == 7);
    assert("version"@[0] != "groupId"@[0]);
    assert("version"@[0] != "dataLen"@[0]);
    assert("groupId"@[0] != "dataLen"@[0]);
    assert("sequence"@.len() == 8);
}

proof fn lemma_small_decimals()
    ensures
        decimal(0) == "0"@,
        decimal(1) == "1"@,
{
    reveal_strlit("0");
    reveal_strlit("1");
    assert(decimal(0) =~= "0"@);
    assert(decimal(1) =~= "1"@);
}

/// A message without a payload is its number among the fixed parts of every
/// message, and one with a payload has the text of that behind them.
pub proof fn law_plain_message_text(msg_id: u32, payload: Json)
    ensures
        plain_text(msg_id, None) == "{\"version\":1,\"msgid\":"@ + decimal(msg_id as nat)
            + ",\"groupId\":0,\"sequence\":0,\"dataLen\":0}"@,
        plain_text(msg_id, Some(payload)) == "{\"version\":1,\"msgid\":"@ + decimal(msg_id as nat)
            + ",\"groupId\":0,\"sequence\":0,\"dataLen\":0,\"cmdObject\":"@ + json_text(payload)
            + "}"@,
{
    lemma_small_decimals();
    let a = "{\"version\":1,\"msgid\":"@;
    let b = ",\"groupId\":0,\"sequence\":0,\"dataLen\":0"@;
    let c = ",\"cmdObject\":"@;
    assert(a =~= "{\"version\":"@ + "1"@ + ",\"msgid\":"@) by {
        reveal_strlit("{\"version\":1,\"msgid\":");
        reveal_strlit("{\"version\":");
        reveal_strlit("1");
        reveal_strlit(",\"msgid\":");
    }
    assert(b =~= ",\"groupId\":"@ + "0"@ + ",\"sequence\":"@ + "0"@ + ",\"dataLen\":"@ + "0"@) by {
        reveal_strlit(",\"groupId\":0,\"sequence\":0,\"dataLen\":0");
        reveal_strlit(",\"groupId\":");
        reveal_strlit(",\"sequence\":");
        reveal_strlit(",\"dataLen\":");
        reveal_strlit("0");
    }
    assert(",\"groupId\":0,\"sequence\":0,\"dataLen\":0}"@ =~= b + "}"@) by {
        reveal_strlit(",\"groupId\":0,\"sequence\":0,\"dataLen\":0}");
        reveal_strlit(",\"groupId\":0,\"sequence\":0,\"dataLen\":0");
        reveal_strlit("}");
    }
    assert(",\"groupId\":0,\"sequence\":0,\"dataLen\":0,\"cmdObject\":"@ =~= b + c) by {
        reveal_strlit(",\"groupId\":0,\"sequence\":0,\"dataLen\":0,\"cmdObject\":");
        reveal_strlit(",\"groupId\":0,\"sequence\":0,\"dataLen\":0");
        reveal_strlit(",\"cmdObject\":");
    }
    let d = decimal(msg_id as nat);
    let t = json_text(payload);
    assert(plain_text(msg_id, None) =~= a + d + (b + "}"@));
    assert(plain_text(msg_id, Some(payload)) =~= a + d + (b + c) + t + "}"@);
}

/// The text of a message has its five numbers by name and in order, and the payload
/// behind them if there is one.
pub proof fn law_message_text_tells_all(msg: WsMessage)
    ensures
        ({
            let head = "{\"version\":"@ + decimal(msg.version as nat) + ",\"msgid\":"@ + decimal(
                msg.msg_id as nat,
            ) + ",\"groupId\":"@ + decimal(msg.group_id as nat) + ",\"sequence\":"@ + decimal(
                msg.sequence as nat,
            ) + ",\"dataLen\":"@ + decimal(msg.data_len as nat);
            msg.spec_text() == match msg.cmd_object {
                Some(v) => head + (",\"cmdObject\":"@ + json_text(json(v)) + "}"@),
                None => head + "}"@,
            }
        }),
{
}

/// A message that is made of its number has the version 1, and zeros and no payload
/// otherwise.
pub proof fn law_new_message_is_bare(msg_id: u32)
    ensures
        WsMessage::bare(msg_id) == (WsMessage {
            version: 1,
            msg_id,
            group_id: 0,
            sequence: 0,
            data_len: 0,
            cmd_object: None,
        }),
{
}

} // verus!
