//! The session of one browser connection, as a state machine.
//!
//! A message from the client is answered in steps. [`dispatch_message`] takes
//! it as far as it can be taken without the camera; what it returns says what
//! has to be asked of the network. The answer goes to the function that the
//! step names, and so on until there is a [`DispatchAction`], which
//! [`SessionState::apply`] carries out.

use vstd::prelude::*;
use vstd::utf8::{decode_utf8, encode_scalar, encode_utf8, valid_utf8};

use crate::json::{get, json, json_text, member_of, no_fields, object, set_int, Json};
use crate::net::{
    blocked, law_no_blocked_address_is_dialed, origin_matches, resolved, IpAddr, OriginInfo,
    SocketAddr,
};
use crate::protocol::constants::{
    HEARTBEAT_MSG_ID, HELLO_CMD, HELLO_RESPONSE, RESPONSE_REQUEST_AUDIO, RESPONSE_REQUEST_CGI,
    RESPONSE_REQUEST_CLOSE_VIDEO, RESPONSE_REQUEST_LOGIN, RESPONSE_REQUEST_LOGIN_AGAIN,
    RESPONSE_REQUEST_LOGIN_MSG_INIT_INFO, RESPONSE_REQUEST_LOGIN_PRODUCT_INFO,
    RESPONSE_REQUEST_LOGOUT, RESPONSE_REQUEST_OPEN_VIDEO_SUCCESS, RESPONSE_REQUEST_RECORD,
    RESPONSE_REQUEST_SET_WEB_UPGRADE_PROMPT_ENABLE, RESPONSE_REQUEST_SNAP, RESPONSE_REQUEST_TALK,
    WS_REQUEST_AUDIO, WS_REQUEST_CGI, WS_REQUEST_CLOSE_VIDEO, WS_REQUEST_LOGIN,
    WS_REQUEST_LOGIN_AGAIN, WS_REQUEST_LOGOUT, WS_REQUEST_OPEN_VIDEO, WS_REQUEST_RECORD,
    WS_REQUEST_SNAP, WS_REQUEST_TALK, WS_REQUEST_UPGRADE_PROMPT_ENABLE,
};
use crate::protocol::messages::{
    cgi_fields, flat_response, law_announcement_by_name, law_flat_response_tells_its_number,
    law_initial_state_by_name, message_text, plain_text, product_fields, response_text,
    snap_fields, CgiCmd, CgiResponse, InitInfo, InitInfoView, LoginCmd, ProductInfo, SnapResponse,
    VideoOpenSuccess, VideoOpenView, VideoPlayCmd, WsMessage,
};
use crate::proxy::cgi::{
    base64_encode, base64_text, cgi_url, cgi_url_text, error_report, error_xml, full_path_url,
};
use crate::text::{
    ascii_lowercase, chars_of, decimal, is_at, push_decimal, stands_at, string_of, strip_front,
    to_ascii_lowercase, trim, trim_start_char, trimmed,
};

verus! {

// ---------------------------------------------------------------------------
// State
// ---------------------------------------------------------------------------

/// The characters of an optional string.
pub open spec fn opt_text(s: Option<String>) -> Option<Seq<char>> {
    match s {
        Some(t) => Some(t@),
        None => None,
    }
}

/// The characters of each of the strings.
pub open spec fn texts(v: Seq<String>) -> Seq<Seq<char>> {
    v.map_values(|s: String| s@)
}

/// The camera of a session, as the client's login named it.
///
/// `addr` is pinned: it was resolved and validated once, at login, and every
/// later dial goes there. Resolving the host again for each dial would let a
/// changed DNS answer steer a dial, with the credentials in it, at another
/// host.
#[derive(Debug, Clone)]
pub struct CameraInfo {
    /// Claimed host.
    pub ip: String,
    /// Claimed HTTP port.
    pub http_port: u16,
    /// Claimed RTSP port.
    pub rtsp_port: u16,
    /// Pinned address, with the HTTP port.
    pub addr: SocketAddr,
}

/// What a `CameraInfo` holds.
#[verifier::ext_equal]
pub struct CameraView {
    pub ip: Seq<char>,
    pub http_port: u16,
    pub rtsp_port: u16,
    pub addr: SocketAddr,
}

impl View for CameraInfo {
    type V = CameraView;

    open spec fn view(&self) -> CameraView {
        CameraView {
            ip: self.ip@,
            http_port: self.http_port,
            rtsp_port: self.rtsp_port,
            addr: self.addr,
        }
    }
}

/// What an optional `CameraInfo` holds.
pub open spec fn opt_camera(c: Option<CameraInfo>) -> Option<CameraView> {
    match c {
        Some(x) => Some(x@),
        None => None,
    }
}

/// What a message leads to: changes of the session, and the responses.
#[derive(Debug)]
pub struct DispatchAction {
    /// Camera of a successful login.
    pub new_camera: Option<CameraInfo>,
    /// User and password of a successful login.
    pub new_auth: Option<(String, String)>,
    /// Live port that a login took from the pool.
    pub new_video: Option<u16>,
    /// Responses to the client, in order.
    pub responses: Vec<String>,
}

/// What a `DispatchAction` holds.
#[verifier::ext_equal]
pub struct ActionView {
    pub new_camera: Option<CameraView>,
    pub new_auth: Option<(Seq<char>, Seq<char>)>,
    pub new_video: Option<u16>,
    pub responses: Seq<Seq<char>>,
}

impl View for DispatchAction {
    type V = ActionView;

    open spec fn view(&self) -> ActionView {
        ActionView {
            new_camera: opt_camera(self.new_camera),
            new_auth: match self.new_auth {
                Some((u, p)) => Some((u@, p@)),
                None => None,
            },
            new_video: self.new_video,
            responses: texts(self.responses@),
        }
    }
}

impl ActionView {
    /// The action that changes nothing and says nothing.
    pub open spec fn nothing() -> ActionView {
        ActionView { new_camera: None, new_auth: None, new_video: None, responses: Seq::empty() }
    }

    /// The action that only sends `response`.
    pub open spec fn reply(response: Seq<char>) -> ActionView {
        ActionView {
            new_camera: None,
            new_auth: None,
            new_video: None,
            responses: seq![response],
        }
    }
}

impl Default for DispatchAction {
    fn default() -> (r: DispatchAction)
        ensures
            r@ == ActionView::nothing(),
    {
        let r = DispatchAction {
            new_camera: None,
            new_auth: None,
            new_video: None,
            responses: Vec::new(),
        };
        assert(texts(r.responses@) =~= Seq::empty());
        r
    }
}

impl DispatchAction {
    /// The action that only sends `response`.
    pub fn reply(response: String) -> (r: DispatchAction)
        ensures
            r@ == ActionView::reply(response@),
    {
        let mut responses: Vec<String> = Vec::new();
        responses.push(response);
        assert(texts(responses@) =~= seq![response@]);
        DispatchAction { new_camera: None, new_auth: None, new_video: None, responses }
    }
}

/// The state of a session.
///
/// The video plane (a live port with its HTTP listener and its pipeline) comes
/// with the first successful login and goes with the logout or the end of the
/// connection; it is there while `live_port` is.
#[derive(Debug, Clone)]
pub struct SessionState {
    /// Camera of the session.
    pub camera: Option<CameraInfo>,
    /// User that logged in.
    pub user: Option<String>,
    /// Password of the user.
    pub pwd: Option<String>,
    /// Stream that was last asked for: 0 main, 1 sub.
    pub stream_type: u32,
    /// Live port of the session's video plane.
    pub live_port: Option<u16>,
}

/// What a `SessionState` holds.
#[verifier::ext_equal]
pub struct SessionView {
    pub camera: Option<CameraView>,
    pub user: Option<Seq<char>>,
    pub pwd: Option<Seq<char>>,
    pub stream_type: u32,
    pub live_port: Option<u16>,
}

impl View for SessionState {
    type V = SessionView;

    open spec fn view(&self) -> SessionView {
        SessionView {
            camera: opt_camera(self.camera),
            user: opt_text(self.user),
            pwd: opt_text(self.pwd),
            stream_type: self.stream_type,
            live_port: self.live_port,
        }
    }
}

impl SessionView {
    /// The state of a session before any login.
    pub open spec fn fresh() -> SessionView {
        SessionView { camera: None, user: None, pwd: None, stream_type: 0, live_port: None }
    }

    /// The state after a logout: only the video plane is left.
    pub open spec fn logged_out(self) -> SessionView {
        SessionView { live_port: self.live_port, ..SessionView::fresh() }
    }

    /// The state without its video plane.
    pub open spec fn torn_down(self) -> SessionView {
        SessionView { live_port: None, ..self }
    }

    /// The state after the action `a` on a message with the number `msg_id`
    /// that asks for the stream `stream_type`.
    pub open spec fn after(self, msg_id: u32, stream_type: u32, a: ActionView) -> SessionView {
        let with_camera = SessionView {
            camera: if self.camera is Some {
                self.camera
            } else {
                a.new_camera
            },
            live_port: if a.new_video is Some {
                a.new_video
            } else {
                self.live_port
            },
            ..self
        };
        let with_auth = match a.new_auth {
            Some((u, p)) => SessionView { user: Some(u), pwd: Some(p), ..with_camera },
            None => if msg_id == WS_REQUEST_LOGOUT {
                with_camera.logged_out().torn_down()
            } else {
                with_camera
            },
        };
        if msg_id == WS_REQUEST_OPEN_VIDEO {
            SessionView { stream_type, ..with_auth }
        } else {
            with_auth
        }
    }

    /// The port that the action `a` on a message with the number `msg_id`
    /// gives back to the pool.
    pub open spec fn released_by(self, msg_id: u32, a: ActionView) -> Option<u16> {
        if msg_id == WS_REQUEST_LOGOUT && a.new_auth is None {
            if a.new_video is Some {
                a.new_video
            } else {
                self.live_port
            }
        } else {
            None
        }
    }
}

impl SessionState {
    /// Creates the state of a session before any login.
    pub fn new() -> (s: SessionState)
        ensures
            s@ == SessionView::fresh(),
    {
        SessionState { camera: None, user: None, pwd: None, stream_type: 0, live_port: None }
    }

    /// Forgets camera, credentials and stream type.
    pub fn logout(&mut self)
        ensures
            final(self)@ == old(self)@.logged_out(),
    {
        self.camera = None;
        self.user = None;
        self.pwd = None;
        self.stream_type = 0;
    }

    /// Gives up the session's video plane. The port that is handed out goes
    /// back to the pool, after its pipeline and its listener were stopped;
    /// there is none if the session has no video plane, so a second call does
    /// nothing.
    pub fn teardown_video(&mut self) -> (released: Option<u16>)
        ensures
            final(self)@ == old(self)@.torn_down(),
            released == old(self)@.live_port,
    {
        self.live_port.take()
    }

    /// Carries out the action that `msg` led to. Hands out the responses to
    /// send, and the port whose video plane is to be stopped and given back.
    pub fn apply(&mut self, msg: &WsMessage, action: DispatchAction) -> (r: (
        Vec<String>,
        Option<u16>,
    ))
        ensures
            final(self)@ == old(self)@.after(msg.msg_id, stream_type_of(*msg), action@),
            texts(r.0@) == action@.responses,
            r.1 == old(self)@.released_by(msg.msg_id, action@),
    {
        if self.camera.is_none() {
            self.camera = action.new_camera;
        }
        if let Some(port) = action.new_video {
            self.live_port = Some(port);
        }
        let mut released: Option<u16> = None;
        match action.new_auth {
            Some((user, pwd)) => {
                self.user = Some(user);
                self.pwd = Some(pwd);
            },
            None => {
                if msg.msg_id == WS_REQUEST_LOGOUT {
                    self.logout();
                    released = self.teardown_video();
                }
            },
        }
        if msg.msg_id == WS_REQUEST_OPEN_VIDEO {
            self.stream_type = extract_stream_type(msg);
        }
        (action.responses, released)
    }
}

// ---------------------------------------------------------------------------
// Payloads
// ---------------------------------------------------------------------------

/// The payload of a message, read as each of the commands that have a use for
/// it: there where the payload has the form of the command.
#[derive(Debug)]
pub struct CmdObject {
    pub login: Option<LoginCmd>,
    pub cgi: Option<CgiCmd>,
    pub play: Option<VideoPlayCmd>,
}

/// The member `key` of the payload of a message.
pub open spec fn payload_member(msg: WsMessage, key: Seq<char>) -> Option<Json> {
    match msg.cmd_object {
        Some(v) => member_of(json(v), key),
        None => None,
    }
}

/// The stream that the payload of a message asks for: its `streamType` in 32
/// bits, or 0 if that is no unsigned integer of 64 bits.
pub open spec fn stream_type_of(msg: WsMessage) -> u32 {
    match payload_member(msg, "streamType"@) {
        Some(Json::Int(n)) => if 0 <= n <= u64::MAX {
            (n % 0x1_0000_0000) as u32
        } else {
            0
        },
        _ => 0,
    }
}

/// The text under `key` in the payload of a message.
pub open spec fn payload_text(msg: WsMessage, key: Seq<char>) -> Option<Seq<char>> {
    match payload_member(msg, key) {
        Some(Json::Text(s)) => Some(s),
        _ => None,
    }
}

/// Extracts the stream type from the payload of a message.
pub fn extract_stream_type(msg: &WsMessage) -> (r: u32)
    ensures
        r == stream_type_of(*msg),
{
    match &msg.cmd_object {
        Some(v) => match get(v, "streamType") {
            Some(x) => match x.as_u64() {
                Some(n) => {
                    assert(n as u32 == n % 0x1_0000_0000) by (bit_vector);
                    #[verifier::truncate]
                    (n as u32)
                },
                None => 0,
            },
            None => 0,
        },
        None => 0,
    }
}

fn extract_text(msg: &WsMessage, key: &str) -> (r: Option<String>)
    ensures
        opt_text(r) == payload_text(*msg, key@),
{
    match &msg.cmd_object {
        Some(v) => match get(v, key) {
            Some(x) => match x.as_str() {
                Some(s) => Some(s.to_owned()),
                None => None,
            },
            None => None,
        },
        None => None,
    }
}

/// Extracts the user name from the payload of a login.
pub fn extract_login_user(msg: &WsMessage) -> (r: Option<String>)
    ensures
        opt_text(r) == payload_text(*msg, "usr"@),
{
    extract_text(msg, "usr")
}

/// Extracts the password from the payload of a login.
pub fn extract_login_pwd(msg: &WsMessage) -> (r: Option<String>)
    ensures
        opt_text(r) == payload_text(*msg, "pwd"@),
{
    extract_text(msg, "pwd")
}

// ---------------------------------------------------------------------------
// Responses
// ---------------------------------------------------------------------------

/// The message that greets a client when it connects.
pub fn hello_message() -> (s: String)
    ensures
        s@ == plain_text(HELLO_CMD, None),
        s@ == plain_text(1_000_000, None),
{
    WsMessage::new(HELLO_CMD).to_json()
}

/// The flat response with the members of an answer to a CGI request.
pub open spec fn cgi_reply_text(msg_id: u32, result: int, response: Seq<char>) -> Seq<char> {
    json_text(flat_response(msg_id, Json::Object(cgi_fields(result, response))))
}

/// The action on a login that is refused.
pub open spec fn login_refused(msg_id: u32, reason: Seq<char>) -> ActionView {
    ActionView::reply(cgi_reply_text(msg_id, -1, error_xml(reason)))
}

/// Builds the action on a login that is refused: one response with the result
/// -1, and neither camera nor credentials, so that the session stays unarmed.
pub fn failed_login_action(msg_id: u32, reason: &str) -> (r: DispatchAction)
    ensures
        r@ == login_refused(msg_id, reason@),
{
    let fail = CgiResponse { result: -1, response: error_report(reason) };
    DispatchAction::reply(response_text(msg_id, fail.to_value()))
}

/// The text of the message that reports a failure under `msg_id`.
pub open spec fn error_text(msg_id: u32, error_msg: Seq<char>) -> Seq<char> {
    plain_text(msg_id, Some(Json::Object(cgi_fields(-1, error_xml(error_msg)))))
}

/// Builds the response that reports a failure.
pub fn error_response(msg_id: u32, error_msg: &str) -> (s: String)
    ensures
        s@ == error_text(msg_id, error_msg@),
{
    let resp = CgiResponse { result: -1, response: error_report(error_msg) };
    WsMessage::with_cmd(msg_id, resp.to_value()).to_json()
}

/// Answers a logout.
pub fn handle_logout() -> (s: String)
    ensures
        s@ == plain_text(RESPONSE_REQUEST_LOGOUT, None),
{
    WsMessage::new(RESPONSE_REQUEST_LOGOUT).to_json()
}

/// Answers an audio request: the audio comes with the video stream, so there is
/// nothing to do.
pub fn handle_audio() -> (s: String)
    ensures
        s@ == plain_text(RESPONSE_REQUEST_AUDIO, None),
{
    WsMessage::new(RESPONSE_REQUEST_AUDIO).to_json()
}

/// Answers a talkback request with an empty success.
pub fn handle_talk() -> (s: String)
    ensures
        s@ == cgi_reply_text(RESPONSE_REQUEST_TALK, 0, Seq::empty()),
{
    let resp = CgiResponse { result: 0, response: String::new() };
    assert(resp.response@ =~= Seq::empty());
    response_text(RESPONSE_REQUEST_TALK, resp.to_value())
}

/// Answers a recording request.
pub fn handle_record() -> (s: String)
    ensures
        s@ == plain_text(RESPONSE_REQUEST_RECORD, None),
{
    WsMessage::new(RESPONSE_REQUEST_RECORD).to_json()
}

/// The text of the answer to a request about the upgrade prompt, which is
/// always on. It carries the group and the sequence number of the request.
pub open spec fn upgrade_prompt_text(msg: WsMessage) -> Seq<char> {
    message_text(
        1,
        RESPONSE_REQUEST_SET_WEB_UPGRADE_PROMPT_ENABLE as nat,
        msg.group_id as nat,
        msg.sequence as nat,
        0,
        Some(Json::Object(no_fields().insert("enable"@, Json::Int(1)))),
    )
}

/// Answers a request about the upgrade prompt.
pub fn handle_upgrade_prompt(msg: &WsMessage) -> (s: String)
    ensures
        s@ == upgrade_prompt_text(*msg),
{
    let mut payload = serde_json::Map::new();
    set_int(&mut payload, "enable", 1);
    WsMessage {
        version: 1,
        msg_id: RESPONSE_REQUEST_SET_WEB_UPGRADE_PROMPT_ENABLE,
        group_id: msg.group_id,
        sequence: msg.sequence,
        data_len: 0,
        cmd_object: Some(object(payload)),
    }.to_json()
}

// ---------------------------------------------------------------------------
// Login
// ---------------------------------------------------------------------------

/// A login on its way: what the client said, with defaults in place.
#[derive(Debug, Clone)]
pub struct Login {
    /// Whether the client logs in again after a reconnection.
    pub is_relogin: bool,
    /// User name.
    pub user: String,
    /// Password.
    pub pwd: String,
    /// Claimed host of the camera.
    pub camera_ip: String,
    /// Claimed HTTP port of the camera.
    pub http_port: u16,
    /// Claimed RTSP port of the camera.
    pub rtsp_port: u16,
}

/// What a `Login` holds.
#[verifier::ext_equal]
pub struct LoginView {
    pub is_relogin: bool,
    pub user: Seq<char>,
    pub pwd: Seq<char>,
    pub camera_ip: Seq<char>,
    pub http_port: u16,
    pub rtsp_port: u16,
}

impl View for Login {
    type V = LoginView;

    open spec fn view(&self) -> LoginView {
        LoginView {
            is_relogin: self.is_relogin,
            user: self.user@,
            pwd: self.pwd@,
            camera_ip: self.camera_ip@,
            http_port: self.http_port,
            rtsp_port: self.rtsp_port,
        }
    }
}

/// What a login waits for, or what it has led to.
#[derive(Debug)]
pub enum LoginStep {
    /// The claimed host has to be resolved: see `Login::resolved`.
    Resolve(Login),
    /// The camera has to be asked to authenticate the user, at the pinned
    /// address: see `Login::authenticated`.
    Authenticate(Login, SocketAddr),
    /// A live port has to be taken from the pool: see `Login::allocated`.
    AllocatePort(Login, SocketAddr, CgiResponse),
    /// The camera has to be asked for its settings, with the live port in hand
    /// and whether it is new: see `Login::gathered`.
    Gather(Login, SocketAddr, CgiResponse, u16, bool),
    /// The login is over.
    Finished(DispatchAction),
}

/// What a `LoginStep` holds.
pub enum LoginStepView {
    Resolve(LoginView),
    Authenticate(LoginView, SocketAddr),
    AllocatePort(LoginView, SocketAddr, int, Seq<char>),
    Gather(LoginView, SocketAddr, int, Seq<char>, u16, bool),
    Finished(ActionView),
}

impl View for LoginStep {
    type V = LoginStepView;

    open spec fn view(&self) -> LoginStepView {
        match self {
            LoginStep::Resolve(l) => LoginStepView::Resolve(l@),
            LoginStep::Authenticate(l, a) => LoginStepView::Authenticate(l@, *a),
            LoginStep::AllocatePort(l, a, r) => LoginStepView::AllocatePort(
                l@,
                *a,
                r.result as int,
                r.response@,
            ),
            LoginStep::Gather(l, a, r, p, new) => LoginStepView::Gather(
                l@,
                *a,
                r.result as int,
                r.response@,
                *p,
                *new,
            ),
            LoginStep::Finished(d) => LoginStepView::Finished(d@),
        }
    }
}

/// What a login command asks for.
pub open spec fn login_of(cmd: LoginCmd, is_relogin: bool) -> LoginView {
    LoginView {
        is_relogin,
        user: cmd.usr@,
        pwd: cmd.pwd@,
        camera_ip: match cmd.ip {
            Some(ip) => ip@,
            None => Seq::empty(),
        },
        http_port: match cmd.web_port {
            Some(p) => p,
            None => 88,
        },
        rtsp_port: match cmd.media_port {
            Some(p) => p,
            None => 88,
        },
    }
}

/// Starts a login. A payload that is no login command is not answered.
pub fn handle_login(cmd: Option<LoginCmd>, is_relogin: bool) -> (r: LoginStep)
    ensures
        r@ == match cmd {
            Some(c) => LoginStepView::Resolve(login_of(c, is_relogin)),
            None => LoginStepView::Finished(ActionView::nothing()),
        },
{
    match cmd {
        Some(cmd) => {
            let camera_ip = match cmd.ip {
                Some(ip) => ip,
                None => String::new(),
            };
            assert(camera_ip@ =~= login_of(cmd, is_relogin).camera_ip);
            LoginStep::Resolve(
                Login {
                    is_relogin,
                    user: cmd.usr,
                    pwd: cmd.pwd,
                    camera_ip,
                    http_port: match cmd.web_port {
                        Some(p) => p,
                        None => 88,
                    },
                    rtsp_port: match cmd.media_port {
                        Some(p) => p,
                        None => 88,
                    },
                },
            )
        },
        None => LoginStep::Finished(DispatchAction::default()),
    }
}

impl LoginView {
    /// The number of the response to the login.
    pub open spec fn response_id(self) -> u32 {
        if self.is_relogin {
            RESPONSE_REQUEST_LOGIN_AGAIN
        } else {
            RESPONSE_REQUEST_LOGIN
        }
    }

    /// The login is refused for `reason`.
    pub open spec fn refused(self, reason: Seq<char>) -> LoginStepView {
        LoginStepView::Finished(login_refused(self.response_id(), reason))
    }

    /// What follows on the resolution of the claimed host, for a client whose
    /// page has the origin `origin`.
    pub open spec fn resolved(
        self,
        pinned: Option<SocketAddr>,
        origin: Option<&OriginInfo>,
    ) -> LoginStepView {
        match pinned {
            None => self.refused("camera unreachable"@),
            Some(addr) => match origin {
                None => self.refused("no origin"@),
                Some(o) => if origin_matches(o.host@, o.port, self.camera_ip, self.http_port) {
                    LoginStepView::Authenticate(self, addr)
                } else {
                    self.refused("origin does not match claimed camera"@)
                },
            },
        }
    }

    /// What follows on the camera's answer to the authentication, in a session
    /// that has the live port `live_port`, if any. The answer itself is passed
    /// on to the client, whatever it says; one that reports a failure ends the
    /// login, and leaves the session unarmed.
    pub open spec fn authenticated(
        self,
        pinned: SocketAddr,
        answer: Option<(int, Seq<char>)>,
        live_port: Option<u16>,
    ) -> LoginStepView {
        match answer {
            None => self.refused("camera unreachable"@),
            Some((result, xml)) => if result != 0 {
                LoginStepView::Finished(
                    ActionView::reply(cgi_reply_text(self.response_id(), result, xml)),
                )
            } else {
                match live_port {
                    Some(port) => self.with_port(pinned, result, xml, port, false),
                    None => LoginStepView::AllocatePort(self, pinned, result, xml),
                }
            },
        }
    }

    /// What follows on the answer of the port pool.
    pub open spec fn allocated(
        self,
        pinned: SocketAddr,
        result: int,
        xml: Seq<char>,
        port: Option<u16>,
    ) -> LoginStepView {
        match port {
            None => self.refused("too many concurrent video sessions"@),
            Some(p) => self.with_port(pinned, result, xml, p, true),
        }
    }

    /// What follows once there is a live port: a first login asks the camera
    /// for its settings, a later one is over.
    pub open spec fn with_port(
        self,
        pinned: SocketAddr,
        result: int,
        xml: Seq<char>,
        port: u16,
        new: bool,
    ) -> LoginStepView {
        if self.is_relogin {
            LoginStepView::Finished(
                self.accepted(pinned, result, xml, port, new, None, InitInfoView::blank(port)),
            )
        } else {
            LoginStepView::Gather(self, pinned, result, xml, port, new)
        }
    }

    /// The camera that a successful login leaves in the session.
    pub open spec fn camera(self, pinned: SocketAddr) -> CameraView {
        CameraView {
            ip: self.camera_ip,
            http_port: self.http_port,
            rtsp_port: self.rtsp_port,
            addr: pinned,
        }
    }

    /// The action on a login that went through: the camera's answer, the
    /// product info if the camera gave it, and the initial state.
    pub open spec fn accepted(
        self,
        pinned: SocketAddr,
        result: int,
        xml: Seq<char>,
        port: u16,
        new: bool,
        product_xml: Option<Seq<char>>,
        init_info: InitInfoView,
    ) -> ActionView {
        let first = seq![cgi_reply_text(self.response_id(), result, xml)];
        let second = match product_xml {
            Some(p) => first.push(
                json_text(
                    flat_response(
                        RESPONSE_REQUEST_LOGIN_PRODUCT_INFO,
                        Json::Object(product_fields(p)),
                    ),
                ),
            ),
            None => first,
        };
        ActionView {
            new_camera: Some(self.camera(pinned)),
            new_auth: Some((self.user, self.pwd)),
            new_video: if new {
                Some(port)
            } else {
                None
            },
            responses: second.push(
                json_text(
                    flat_response(
                        RESPONSE_REQUEST_LOGIN_MSG_INIT_INFO,
                        Json::Object(init_info.fields()),
                    ),
                ),
            ),
        }
    }
}

/// What the camera answered to an authentication, if it answered.
pub open spec fn answer_view(r: Option<CgiResponse>) -> Option<(int, Seq<char>)> {
    match r {
        Some(c) => Some((c.result as int, c.response@)),
        None => None,
    }
}

impl Login {
    /// The number of the response to the login.
    fn response_id(&self) -> (r: u32)
        ensures
            r == self@.response_id(),
    {
        if self.is_relogin {
            RESPONSE_REQUEST_LOGIN_AGAIN
        } else {
            RESPONSE_REQUEST_LOGIN
        }
    }

    fn refuse(&self, reason: &str) -> (r: LoginStep)
        ensures
            r@ == self@.refused(reason@),
    {
        LoginStep::Finished(failed_login_action(self.response_id(), reason))
    }

    /// Goes on once the claimed host was resolved and validated, or was not:
    /// the page that sent the login must be served by the camera that it
    /// claims. The page of a camera knows both from its own URL, so they agree
    /// there; a page from anywhere else cannot present the camera's origin.
    pub fn resolved(self, pinned: Option<SocketAddr>, origin: Option<&OriginInfo>) -> (r: LoginStep)
        ensures
            r@ == self@.resolved(pinned, origin),
    {
        match pinned {
            None => self.refuse("camera unreachable"),
            Some(addr) => match origin {
                None => self.refuse("no origin"),
                Some(o) => {
                    if o.matches(self.camera_ip.as_str(), self.http_port) {
                        LoginStep::Authenticate(self, addr)
                    } else {
                        self.refuse("origin does not match claimed camera")
                    }
                },
            },
        }
    }

    /// Goes on once the camera answered the authentication, or did not.
    pub fn authenticated(
        self,
        pinned: SocketAddr,
        answer: Option<CgiResponse>,
        session: &SessionState,
    ) -> (r: LoginStep)
        ensures
            r@ == self@.authenticated(pinned, answer_view(answer), session@.live_port),
    {
        match answer {
            None => self.refuse("camera unreachable"),
            Some(auth) => {
                if auth.result != 0 {
                    let reply = response_text(self.response_id(), auth.to_value());
                    return LoginStep::Finished(DispatchAction::reply(reply));
                }
                match session.live_port {
                    Some(port) => self.with_port(pinned, auth, port, false),
                    None => LoginStep::AllocatePort(self, pinned, auth),
                }
            },
        }
    }

    /// Goes on once the pool gave a live port, or had none.
    pub fn allocated(self, pinned: SocketAddr, auth: CgiResponse, port: Option<u16>) -> (r:
        LoginStep)
        ensures
            r@ == self@.allocated(pinned, auth.result as int, auth.response@, port),
    {
        match port {
            None => self.refuse("too many concurrent video sessions"),
            Some(p) => self.with_port(pinned, auth, p, true),
        }
    }

    fn with_port(self, pinned: SocketAddr, auth: CgiResponse, port: u16, new: bool) -> (r:
        LoginStep)
        ensures
            r@ == self@.with_port(pinned, auth.result as int, auth.response@, port, new),
    {
        if self.is_relogin {
            let mut init_info = InitInfo::default();
            init_info.live_port = port;
            assert(init_info@ =~= InitInfoView::blank(port));
            LoginStep::Finished(self.gathered(pinned, auth, port, new, None, init_info))
        } else {
            LoginStep::Gather(self, pinned, auth, port, new)
        }
    }

    /// Ends a login that went through.
    pub fn gathered(
        self,
        pinned: SocketAddr,
        auth: CgiResponse,
        port: u16,
        new: bool,
        product_xml: Option<String>,
        init_info: InitInfo,
    ) -> (r: DispatchAction)
        ensures
            r@ == self@.accepted(
                pinned,
                auth.result as int,
                auth.response@,
                port,
                new,
                opt_text(product_xml),
                init_info@,
            ),
    {
        let mut responses: Vec<String> = Vec::new();
        responses.push(response_text(self.response_id(), auth.to_value()));
        if let Some(xml) = product_xml {
            let product = ProductInfo { response: xml };
            responses.push(response_text(RESPONSE_REQUEST_LOGIN_PRODUCT_INFO, product.to_value()));
        }
        responses.push(response_text(RESPONSE_REQUEST_LOGIN_MSG_INIT_INFO, init_info.to_value()));
        let r = DispatchAction {
            new_camera: Some(
                CameraInfo {
                    ip: self.camera_ip,
                    http_port: self.http_port,
                    rtsp_port: self.rtsp_port,
                    addr: pinned,
                },
            ),
            new_auth: Some((self.user, self.pwd)),
            new_video: if new {
                Some(port)
            } else {
                None
            },
            responses,
        };
        assert(r@.responses =~= self@.accepted(
            pinned,
            auth.result as int,
            auth.response@,
            port,
            new,
            opt_text(product_xml),
            init_info@,
        ).responses);
        r
    }
}

// ---------------------------------------------------------------------------
// CGI requests and snapshots
// ---------------------------------------------------------------------------

/// The number that a hexadecimal digit writes.
pub open spec fn hex_value(digit: u8) -> Option<int> {
    if 0x30 <= digit <= 0x39 {
        Some(digit - 0x30)
    } else if 0x41 <= digit <= 0x46 {
        Some(digit - 0x41 + 10)
    } else if 0x61 <= digit <= 0x66 {
        Some(digit - 0x61 + 10)
    } else {
        None
    }
}

/// The bytes that percent-encoded bytes stand for: every `%` (0x25) and two
/// hexadecimal digits stand for the byte that the digits write, and any other
/// byte for itself.
pub open spec fn percent_bytes(b: Seq<u8>) -> Seq<u8>
    decreases b.len(),
{
    if b.len() == 0 {
        Seq::empty()
    } else if b.len() >= 3 && b[0] == 0x25 && hex_value(b[1]) is Some && hex_value(b[2]) is Some {
        seq![(hex_value(b[1])->0 * 16 + hex_value(b[2])->0) as u8] + percent_bytes(b.skip(3))
    } else {
        seq![b[0]] + percent_bytes(b.skip(1))
    }
}

/// What a percent-encoded text stands for, if that is text again.
pub open spec fn percent_decoded(s: Seq<char>) -> Option<Seq<char>> {
    let b = percent_bytes(encode_utf8(s));
    if valid_utf8(b) {
        Some(decode_utf8(b))
    } else {
        None
    }
}

/// `urlencoding::decode` replaces every `%` and two hexadecimal digits by the
/// byte that they write, and fails if what comes out is not UTF-8.
#[verifier::external_body]
fn url_decode(s: &str) -> (r: Option<String>)
    ensures
        opt_text(r) == percent_decoded(s@),
{
    match urlencoding::decode(s) {
        Ok(t) => Some(t.into_owned()),
        Err(_) => None,
    }
}

/// A request to the camera's CGI interface.
#[derive(Debug, Clone)]
pub enum CgiRequest {
    /// The path that the client wrote out whole, without the slash before it.
    FullPath(SocketAddr, String),
    /// A command, to be sent with the credentials of the session.
    Command(SocketAddr, String, String, String),
}

/// What a `CgiRequest` holds.
pub enum CgiRequestView {
    FullPath(SocketAddr, Seq<char>),
    Command(SocketAddr, Seq<char>, Seq<char>, Seq<char>),
}

impl View for CgiRequest {
    type V = CgiRequestView;

    open spec fn view(&self) -> CgiRequestView {
        match self {
            CgiRequest::FullPath(a, path) => CgiRequestView::FullPath(*a, path@),
            CgiRequest::Command(a, u, p, c) => CgiRequestView::Command(*a, u@, p@, c@),
        }
    }
}

impl CgiRequestView {
    /// The address that is dialed.
    pub open spec fn addr(self) -> SocketAddr {
        match self {
            CgiRequestView::FullPath(a, _) => a,
            CgiRequestView::Command(a, _, _, _) => a,
        }
    }

    /// The URL of the request to a camera whose address reads `camera`.
    pub open spec fn url(self, camera: Seq<char>) -> Seq<char> {
        match self {
            CgiRequestView::FullPath(_, path) => "http://"@ + camera + "/"@ + path,
            CgiRequestView::Command(_, user, pwd, cmd) => cgi_url_text(camera, user, pwd, cmd),
        }
    }
}

impl CgiRequest {
    /// The URL of the request to a camera whose address reads `camera`.
    pub fn url(&self, camera: &str) -> (url: String)
        ensures
            url@ == self@.url(camera@),
    {
        match self {
            CgiRequest::FullPath(_, path) => full_path_url(camera, path.as_str()),
            CgiRequest::Command(_, user, pwd, cmd) => cgi_url(
                camera,
                user.as_str(),
                pwd.as_str(),
                cmd.as_str(),
            ),
        }
    }
}

/// Whether a decoded CGI text is a path rather than a command.
pub open spec fn is_cgi_path(decoded: Seq<char>) -> bool {
    stands_at(decoded, "/cgi-bin/"@, 0) || stands_at(decoded, "/CGIProxy"@, 0)
}

/// The request that the CGI text `cgi` makes, where `decoded` is what it stands
/// for, if that is text.
pub open spec fn cgi_request_of(
    cgi: Seq<char>,
    decoded: Option<Seq<char>>,
    addr: SocketAddr,
    user: Seq<char>,
    pwd: Seq<char>,
) -> CgiRequestView {
    match decoded {
        Some(path) => if is_cgi_path(path) {
            CgiRequestView::FullPath(addr, strip_front(path, '/'))
        } else {
            CgiRequestView::Command(addr, user, pwd, cgi)
        },
        None => CgiRequestView::Command(addr, user, pwd, cgi),
    }
}

/// Makes the request for a CGI text: a text that stands for a path is asked for
/// as it is, and any other is a command.
pub fn route_cgi(
    cgi: &str,
    decoded: Option<String>,
    addr: SocketAddr,
    user: &str,
    pwd: &str,
) -> (r: CgiRequest)
    ensures
        r@ == cgi_request_of(cgi@, opt_text(decoded), addr, user@, pwd@),
{
    if let Some(path) = decoded {
        let cs = chars_of(path.as_str());
        if is_at(cs.as_slice(), chars_of("/cgi-bin/").as_slice(), 0) || is_at(
            cs.as_slice(),
            chars_of("/CGIProxy").as_slice(),
            0,
        ) {
            return CgiRequest::FullPath(
                addr,
                string_of(trim_start_char(cs.as_slice(), '/')),
            );
        }
    }
    CgiRequest::Command(addr, user.to_owned(), pwd.to_owned(), cgi.to_owned())
}

/// Why a request of a session cannot be made.
#[derive(Debug, Clone, Copy, PartialEq, Eq, Structural)]
pub enum SessionError {
    /// The payload is no CGI command.
    BadCgiCommand,
    /// Nobody has logged in.
    NotAuthenticated,
    /// The session has no camera.
    NoCamera,
    /// The session has no video plane.
    NoVideo,
}

impl SessionError {
    /// What the client is told.
    pub open spec fn text(self) -> Seq<char> {
        match self {
            SessionError::BadCgiCommand => "missing or invalid CGI cmdObject"@,
            SessionError::NotAuthenticated => "not authenticated"@,
            SessionError::NoCamera => "no camera configured (login first)"@,
            SessionError::NoVideo => "no video session (login first)"@,
        }
    }

    /// What the client is told.
    pub fn message(&self) -> (s: &'static str)
        ensures
            s@ == self.text(),
    {
        match self {
            SessionError::BadCgiCommand => "missing or invalid CGI cmdObject",
            SessionError::NotAuthenticated => "not authenticated",
            SessionError::NoCamera => "no camera configured (login first)",
            SessionError::NoVideo => "no video session (login first)",
        }
    }
}

/// The pinned address and the credentials of a session.
#[verifier::ext_equal]
pub struct AccessView {
    pub addr: SocketAddr,
    pub user: Seq<char>,
    pub pwd: Seq<char>,
}

/// The pinned address and the credentials of a session.
#[derive(Debug, Clone)]
pub struct Access {
    pub addr: SocketAddr,
    pub user: String,
    pub pwd: String,
}

impl View for Access {
    type V = AccessView;

    open spec fn view(&self) -> AccessView {
        AccessView { addr: self.addr, user: self.user@, pwd: self.pwd@ }
    }
}

impl SessionView {
    /// What a request to the camera goes out with: nobody who has not logged
    /// in gets anything.
    pub open spec fn access(self) -> Result<AccessView, SessionError> {
        match (self.user, self.pwd) {
            (Some(user), Some(pwd)) => match self.camera {
                Some(c) => Ok(AccessView { addr: c.addr, user, pwd }),
                None => Err(SessionError::NoCamera),
            },
            _ => Err(SessionError::NotAuthenticated),
        }
    }
}

impl SessionState {
    /// What a request to the camera goes out with.
    pub fn access(&self) -> (r: Result<Access, SessionError>)
        ensures
            match r {
                Ok(a) => self@.access() == Ok::<AccessView, SessionError>(a@),
                Err(e) => self@.access() == Err::<AccessView, SessionError>(e),
            },
    {
        match (&self.user, &self.pwd) {
            (Some(user), Some(pwd)) => match &self.camera {
                Some(c) => Ok(Access { addr: c.addr, user: user.clone(), pwd: pwd.clone() }),
                None => Err(SessionError::NoCamera),
            },
            _ => Err(SessionError::NotAuthenticated),
        }
    }
}

/// The request that a CGI message leads to in the session `s`.
pub open spec fn cgi_outcome(cmd: Option<CgiCmd>, s: SessionView) -> Result<
    CgiRequestView,
    SessionError,
> {
    match cmd {
        None => Err(SessionError::BadCgiCommand),
        Some(c) => match s.access() {
            Ok(a) => Ok(cgi_request_of(c.cgi@, percent_decoded(c.cgi@), a.addr, a.user, a.pwd)),
            Err(e) => Err(e),
        },
    }
}

/// Makes the request that a CGI message leads to.
pub fn handle_cgi(cmd: Option<CgiCmd>, session: &SessionState) -> (r: Result<
    CgiRequest,
    SessionError,
>)
    ensures
        match r {
            Ok(q) => cgi_outcome(cmd, session@) == Ok::<CgiRequestView, SessionError>(q@),
            Err(e) => cgi_outcome(cmd, session@) == Err::<CgiRequestView, SessionError>(e),
        },
{
    match cmd {
        None => Err(SessionError::BadCgiCommand),
        Some(c) => match session.access() {
            Ok(a) => Ok(
                route_cgi(
                    c.cgi.as_str(),
                    url_decode(c.cgi.as_str()),
                    a.addr,
                    a.user.as_str(),
                    a.pwd.as_str(),
                ),
            ),
            Err(e) => Err(e),
        },
    }
}

/// The text of the response to a CGI message that the camera answered, or
/// whose request failed for the reason in `answer`.
pub open spec fn cgi_reply_of(answer: Result<(int, Seq<char>), Seq<char>>) -> Seq<char> {
    match answer {
        Ok((result, xml)) => cgi_reply_text(RESPONSE_REQUEST_CGI, result, xml),
        Err(reason) => error_text(RESPONSE_REQUEST_CGI, reason),
    }
}

/// Answers a CGI message once its request was answered, or failed.
pub fn cgi_reply(answer: Result<CgiResponse, String>) -> (r: DispatchAction)
    ensures
        r@ == ActionView::reply(
            cgi_reply_of(
                match answer {
                    Ok(c) => Ok((c.result as int, c.response@)),
                    Err(e) => Err(e@),
                },
            ),
        ),
{
    match answer {
        Ok(c) => DispatchAction::reply(response_text(RESPONSE_REQUEST_CGI, c.to_value())),
        Err(e) => DispatchAction::reply(error_response(RESPONSE_REQUEST_CGI, e.as_str())),
    }
}

/// The text of the response to a snapshot request: the image that came, or a
/// failure without one.
pub open spec fn snapshot_text(image: Option<Seq<u8>>) -> Seq<char> {
    json_text(
        flat_response(
            RESPONSE_REQUEST_SNAP,
            Json::Object(
                match image {
                    Some(bytes) => snap_fields(0, base64_text(bytes)),
                    None => snap_fields(-1, Seq::empty()),
                },
            ),
        ),
    )
}

/// Answers a snapshot request once the image came, or did not.
pub fn snapshot_reply(image: Option<&[u8]>) -> (r: DispatchAction)
    ensures
        r@ == ActionView::reply(
            snapshot_text(
                match image {
                    Some(b) => Some(b@),
                    None => None,
                },
            ),
        ),
{
    let resp = match image {
        Some(bytes) => SnapResponse { result: 0, img: base64_encode(bytes) },
        None => SnapResponse { result: -1, img: String::new() },
    };
    assert(image is None ==> resp.img@ =~= Seq::empty());
    DispatchAction::reply(response_text(RESPONSE_REQUEST_SNAP, resp.to_value()))
}

// ---------------------------------------------------------------------------
// Video
// ---------------------------------------------------------------------------

/// What a video pipeline is started with.
#[derive(Debug, Clone)]
pub struct VideoStart {
    /// Pinned address and RTSP port of the camera.
    pub dial: SocketAddr,
    /// 0 for the main stream, 1 for the sub stream.
    pub stream_type: u32,
    /// User, empty if nobody has logged in.
    pub user: String,
    /// Password of the user.
    pub pwd: String,
    /// The only page that may fetch the stream: the camera's own.
    pub origin: OriginInfo,
}

/// What a `VideoStart` holds.
#[verifier::ext_equal]
pub struct VideoStartView {
    pub dial: SocketAddr,
    pub stream_type: u32,
    pub user: Seq<char>,
    pub pwd: Seq<char>,
    pub origin_host: Seq<char>,
    pub origin_port: u16,
}

impl View for VideoStart {
    type V = VideoStartView;

    open spec fn view(&self) -> VideoStartView {
        VideoStartView {
            dial: self.dial,
            stream_type: self.stream_type,
            user: self.user@,
            pwd: self.pwd@,
            origin_host: self.origin.host@,
            origin_port: self.origin.port,
        }
    }
}

/// The text, or none.
pub open spec fn text_or_empty(s: Option<Seq<char>>) -> Seq<char> {
    match s {
        Some(t) => t,
        None => Seq::empty(),
    }
}

fn string_or_empty(s: &Option<String>) -> (r: String)
    ensures
        r@ == text_or_empty(opt_text(*s)),
{
    match s {
        Some(t) => t.clone(),
        None => {
            let r = String::new();
            assert(r@ =~= Seq::empty());
            r
        },
    }
}

impl SessionView {
    /// The pipeline that a request for the stream `stream_type` starts.
    pub open spec fn video_start(self, camera: CameraView, stream_type: u32) -> VideoStartView {
        VideoStartView {
            dial: SocketAddr { ip: camera.addr.ip, port: camera.rtsp_port },
            stream_type,
            user: text_or_empty(self.user),
            pwd: text_or_empty(self.pwd),
            origin_host: ascii_lowercase(trimmed(camera.ip)),
            origin_port: camera.http_port,
        }
    }

    /// What the client is told when a stream is opened.
    pub open spec fn video_opened(self, camera: CameraView) -> VideoOpenView {
        VideoOpenView {
            channel: 0,
            dev_name: "camera"@,
            privilege: 1,
            enable_talk: 0,
            enable_audio: 0,
            model_name: "IP Camera"@,
            ip: camera.ip,
            web_port: camera.http_port as int,
            usr: text_or_empty(self.user),
            pwd: text_or_empty(self.pwd),
            product_all_info: "<CGI_Result><code>0</code><model>IP Camera</model><ip>"@ + camera.ip
                + "</ip><webPort>"@ + decimal(camera.http_port as nat) + "</webPort></CGI_Result>"@,
        }
    }
}

/// What a request to open a stream leads to: the pipeline to start and the text
/// of the response.
pub open spec fn open_video_outcome(stream_type: u32, s: SessionView) -> Result<
    (VideoStartView, Seq<char>),
    SessionError,
> {
    match s.camera {
        None => Err(SessionError::NoCamera),
        Some(c) => if s.live_port is None {
            Err(SessionError::NoVideo)
        } else {
            Ok(
                (
                    s.video_start(c, stream_type),
                    json_text(
                        flat_response(
                            RESPONSE_REQUEST_OPEN_VIDEO_SUCCESS,
                            Json::Object(s.video_opened(c).fields()),
                        ),
                    ),
                ),
            )
        },
    }
}

/// Answers a request to open a stream. The pipeline dials the pinned address,
/// and only the camera's own page may fetch what it gives.
pub fn handle_open_video(stream_type: u32, session: &SessionState) -> (r: Result<
    (VideoStart, String),
    SessionError,
>)
    ensures
        match r {
            Ok((start, text)) => open_video_outcome(stream_type, session@) == Ok::<
                (VideoStartView, Seq<char>),
                SessionError,
            >((start@, text@)),
            Err(e) => open_video_outcome(stream_type, session@) == Err::<
                (VideoStartView, Seq<char>),
                SessionError,
            >(e),
        },
{
    let camera = match &session.camera {
        Some(c) => c,
        None => {
            return Err(SessionError::NoCamera);
        },
    };
    if session.live_port.is_none() {
        return Err(SessionError::NoVideo);
    }
    let host = chars_of(camera.ip.as_str());
    let lower = to_ascii_lowercase(trim(host.as_slice()));
    let origin = OriginInfo { host: string_of(lower.as_slice()), port: camera.http_port };
    let start = VideoStart {
        dial: SocketAddr { ip: camera.addr.ip, port: camera.rtsp_port },
        stream_type,
        user: string_or_empty(&session.user),
        pwd: string_or_empty(&session.pwd),
        origin,
    };
    let mut product_info = "<CGI_Result><code>0</code><model>IP Camera</model><ip>".to_owned();
    product_info.append(camera.ip.as_str());
    product_info.append("</ip><webPort>");
    push_decimal(&mut product_info, camera.http_port as u64);
    product_info.append("</webPort></CGI_Result>");
    let resp = VideoOpenSuccess {
        channel: 0,
        dev_name: "camera".to_owned(),
        privilege: 1,
        enable_talk: 0,
        enable_audio: 0,
        model_name: "IP Camera".to_owned(),
        ip: camera.ip.clone(),
        web_port: camera.http_port,
        usr: string_or_empty(&session.user),
        pwd: string_or_empty(&session.pwd),
        product_all_info: product_info,
    };
    assert(resp@ =~= session@.video_opened(camera@));
    assert(start@ =~= session@.video_start(camera@, stream_type));
    Ok((start, response_text(RESPONSE_REQUEST_OPEN_VIDEO_SUCCESS, resp.to_value())))
}

/// Answers a request to close the stream.
pub fn handle_close_video(session: &SessionState) -> (r: Result<String, SessionError>)
    ensures
        match r {
            Ok(text) => session@.live_port is Some && text@ == plain_text(
                RESPONSE_REQUEST_CLOSE_VIDEO,
                None,
            ),
            Err(e) => session@.live_port is None && e == SessionError::NoVideo,
        },
{
    if session.live_port.is_none() {
        return Err(SessionError::NoVideo);
    }
    Ok(WsMessage::new(RESPONSE_REQUEST_CLOSE_VIDEO).to_json())
}

// ---------------------------------------------------------------------------
// Dispatch
// ---------------------------------------------------------------------------

/// What a message leads to next.
#[derive(Debug)]
pub enum Next {
    /// The message is answered.
    Finished(DispatchAction),
    /// A login has begun.
    Login(LoginStep),
    /// The camera has to be asked: see `cgi_reply`.
    Cgi(CgiRequest),
    /// A snapshot has to be fetched: see `snapshot_reply`.
    Snapshot(Access),
    /// A pipeline has to be started, and the message is answered.
    OpenVideo(VideoStart, DispatchAction),
    /// The pipeline has to be stopped, and the message is answered.
    CloseVideo(DispatchAction),
}

/// What a `Next` holds.
pub enum NextView {
    Finished(ActionView),
    Login(LoginStepView),
    Cgi(CgiRequestView),
    Snapshot(AccessView),
    OpenVideo(VideoStartView, ActionView),
    CloseVideo(ActionView),
}

impl View for Next {
    type V = NextView;

    open spec fn view(&self) -> NextView {
        match self {
            Next::Finished(a) => NextView::Finished(a@),
            Next::Login(l) => NextView::Login(l@),
            Next::Cgi(q) => NextView::Cgi(q@),
            Next::Snapshot(a) => NextView::Snapshot(a@),
            Next::OpenVideo(v, a) => NextView::OpenVideo(v@, a@),
            Next::CloseVideo(a) => NextView::CloseVideo(a@),
        }
    }
}

/// What the message `msg` with the payload `cmd` leads to in the session `s`.
pub open spec fn dispatched(msg: WsMessage, cmd: CmdObject, s: SessionView) -> NextView {
    let id = msg.msg_id;
    if id == WS_REQUEST_LOGIN || id == WS_REQUEST_LOGIN_AGAIN {
        NextView::Login(
            match cmd.login {
                Some(c) => LoginStepView::Resolve(login_of(c, id == WS_REQUEST_LOGIN_AGAIN)),
                None => LoginStepView::Finished(ActionView::nothing()),
            },
        )
    } else if id == WS_REQUEST_LOGOUT {
        NextView::Finished(ActionView::reply(plain_text(RESPONSE_REQUEST_LOGOUT, None)))
    } else if id == WS_REQUEST_CGI {
        match cgi_outcome(cmd.cgi, s) {
            Ok(q) => NextView::Cgi(q),
            Err(e) => NextView::Finished(
                ActionView::reply(error_text(RESPONSE_REQUEST_CGI, e.text())),
            ),
        }
    } else if id == WS_REQUEST_SNAP {
        match s.access() {
            Ok(a) => NextView::Snapshot(a),
            Err(e) => NextView::Finished(
                ActionView::reply(error_text(RESPONSE_REQUEST_SNAP, e.text())),
            ),
        }
    } else if id == WS_REQUEST_OPEN_VIDEO {
        let stream_type = match cmd.play {
            Some(p) => p.stream_type,
            None => 0,
        };
        match open_video_outcome(stream_type, s) {
            Ok((start, text)) => NextView::OpenVideo(start, ActionView::reply(text)),
            Err(_) => NextView::Finished(ActionView::nothing()),
        }
    } else if id == WS_REQUEST_CLOSE_VIDEO {
        if s.live_port is Some {
            NextView::CloseVideo(
                ActionView::reply(plain_text(RESPONSE_REQUEST_CLOSE_VIDEO, None)),
            )
        } else {
            NextView::Finished(ActionView::nothing())
        }
    } else if id == WS_REQUEST_AUDIO {
        NextView::Finished(ActionView::reply(plain_text(RESPONSE_REQUEST_AUDIO, None)))
    } else if id == WS_REQUEST_TALK {
        NextView::Finished(
            ActionView::reply(cgi_reply_text(RESPONSE_REQUEST_TALK, 0, Seq::empty())),
        )
    } else if id == WS_REQUEST_RECORD {
        NextView::Finished(ActionView::reply(plain_text(RESPONSE_REQUEST_RECORD, None)))
    } else if id == WS_REQUEST_UPGRADE_PROMPT_ENABLE {
        NextView::Finished(ActionView::reply(upgrade_prompt_text(msg)))
    } else {
        NextView::Finished(ActionView::nothing())
    }
}

/// Routes a message to its handler. Greetings, heartbeats and unknown messages
/// lead to nothing, and so do requests about video in a session that has none.
pub fn dispatch_message(msg: &WsMessage, cmd: CmdObject, session: &SessionState) -> (r: Next)
    ensures
        r@ == dispatched(*msg, cmd, session@),
{
    let id: u32 = msg.msg_id;
    if id == HELLO_RESPONSE || id == HEARTBEAT_MSG_ID {
        Next::Finished(DispatchAction::default())
    } else if id == WS_REQUEST_LOGIN || id == WS_REQUEST_LOGIN_AGAIN {
        Next::Login(handle_login(cmd.login, id == WS_REQUEST_LOGIN_AGAIN))
    } else if id == WS_REQUEST_LOGOUT {
        Next::Finished(DispatchAction::reply(handle_logout()))
    } else if id == WS_REQUEST_CGI {
        match handle_cgi(cmd.cgi, session) {
            Ok(q) => Next::Cgi(q),
            Err(e) => Next::Finished(
                DispatchAction::reply(error_response(RESPONSE_REQUEST_CGI, e.message())),
            ),
        }
    } else if id == WS_REQUEST_SNAP {
        match session.access() {
            Ok(a) => Next::Snapshot(a),
            Err(e) => Next::Finished(
                DispatchAction::reply(error_response(RESPONSE_REQUEST_SNAP, e.message())),
            ),
        }
    } else if id == WS_REQUEST_OPEN_VIDEO {
        let stream_type: u32 = match cmd.play {
            Some(p) => p.stream_type,
            None => 0,
        };
        match handle_open_video(stream_type, session) {
            Ok((start, text)) => Next::OpenVideo(start, DispatchAction::reply(text)),
            Err(_) => Next::Finished(DispatchAction::default()),
        }
    } else if id == WS_REQUEST_CLOSE_VIDEO {
        match handle_close_video(session) {
            Ok(text) => Next::CloseVideo(DispatchAction::reply(text)),
            Err(_) => Next::Finished(DispatchAction::default()),
        }
    } else if id == WS_REQUEST_AUDIO {
        Next::Finished(DispatchAction::reply(handle_audio()))
    } else if id == WS_REQUEST_TALK {
        Next::Finished(DispatchAction::reply(handle_talk()))
    } else if id == WS_REQUEST_RECORD {
        Next::Finished(DispatchAction::reply(handle_record()))
    } else if id == WS_REQUEST_UPGRADE_PROMPT_ENABLE {
        Next::Finished(DispatchAction::reply(handle_upgrade_prompt(msg)))
    } else {
        Next::Finished(DispatchAction::default())
    }
}

// ---------------------------------------------------------------------------
// Laws
// ---------------------------------------------------------------------------

/// What the network answers in the course of a login.
pub struct LoginAnswers {
    /// The address that the claimed host resolves to, if it may be dialed.
    pub pinned: Option<SocketAddr>,
    /// What the camera answers to the authentication.
    pub auth: Option<(int, Seq<char>)>,
    /// The port that the pool gives.
    pub port: Option<u16>,
    /// The product info that the camera gives.
    pub product_xml: Option<Seq<char>>,
    /// The initial state that the camera's answers give.
    pub init_info: InitInfoView,
}

/// What a login step leads to in the end, in the session `s` of a client whose
/// page has the origin `origin`.
pub open spec fn login_outcome(
    step: LoginStepView,
    s: SessionView,
    origin: Option<&OriginInfo>,
    answers: LoginAnswers,
) -> ActionView {
    let resolved = match step {
        LoginStepView::Resolve(l) => l.resolved(answers.pinned, origin),
        other => other,
    };
    let authenticated = match resolved {
        LoginStepView::Authenticate(l, addr) => l.authenticated(addr, answers.auth, s.live_port),
        other => other,
    };
    let allocated = match authenticated {
        LoginStepView::AllocatePort(l, addr, result, xml) => l.allocated(
            addr,
            result,
            xml,
            answers.port,
        ),
        other => other,
    };
    match allocated {
        LoginStepView::Gather(l, addr, result, xml, port, new) => l.accepted(
            addr,
            result,
            xml,
            port,
            new,
            answers.product_xml,
            answers.init_info,
        ),
        LoginStepView::Finished(a) => a,
        _ => ActionView::nothing(),
    }
}

/// Whether the network and the page let the login through.
pub open spec fn login_goes_through(
    l: LoginView,
    s: SessionView,
    origin: Option<&OriginInfo>,
    answers: LoginAnswers,
) -> bool {
    &&& answers.pinned is Some
    &&& origin matches Some(o) && origin_matches(o.host@, o.port, l.camera_ip, l.http_port)
    &&& answers.auth matches Some((result, _)) && result == 0
    &&& s.live_port is Some || answers.port is Some
}

/// A login arms the session exactly when the claimed camera may be dialed, the
/// page that sent it is the camera's own, the camera answers that the user is
/// authenticated, and there is a live port. Any other login is answered by one
/// response that reports a failure, and leaves camera, credentials and ports
/// alone.
pub proof fn law_login_arms_or_is_refused(
    l: LoginView,
    s: SessionView,
    origin: Option<&OriginInfo>,
    answers: LoginAnswers,
)
    ensures
        ({
            let a = login_outcome(LoginStepView::Resolve(l), s, origin, answers);
            if login_goes_through(l, s, origin, answers) {
                &&& a.new_camera == Some(l.camera(answers.pinned->0))
                &&& a.new_auth == Some((l.user, l.pwd))
                &&& a.new_video is Some <==> s.live_port is None
                &&& a.responses.len() >= 2
            } else {
                exists|result: int, xml: Seq<char>|
                    result != 0 && a == ActionView::reply(
                        #[trigger] cgi_reply_text(l.response_id(), result, xml),
                    )
            }
        }),
{
    if !(answers.pinned is Some) {
        assert(login_outcome(LoginStepView::Resolve(l), s, origin, answers) == login_refused(
            l.response_id(),
            "camera unreachable"@,
        ));
    } else if !(origin is Some) {
        assert(login_outcome(LoginStepView::Resolve(l), s, origin, answers) == login_refused(
            l.response_id(),
            "no origin"@,
        ));
    } else if !origin_matches(origin->0.host@, origin->0.port, l.camera_ip, l.http_port) {
        assert(login_outcome(LoginStepView::Resolve(l), s, origin, answers) == login_refused(
            l.response_id(),
            "origin does not match claimed camera"@,
        ));
    } else if !(answers.auth is Some) {
        assert(login_outcome(LoginStepView::Resolve(l), s, origin, answers) == login_refused(
            l.response_id(),
            "camera unreachable"@,
        ));
    } else if (answers.auth->0).0 != 0 {
        let (result, xml) = answers.auth->0;
        assert(login_outcome(LoginStepView::Resolve(l), s, origin, answers) == ActionView::reply(
            cgi_reply_text(l.response_id(), result, xml),
        ));
    } else if s.live_port is None && answers.port is None {
        assert(login_outcome(LoginStepView::Resolve(l), s, origin, answers) == login_refused(
            l.response_id(),
            "too many concurrent video sessions"@,
        ));
    }
}

/// A login that does not go through changes nothing in the session.
pub proof fn law_refused_login_changes_nothing(
    l: LoginView,
    s: SessionView,
    origin: Option<&OriginInfo>,
    answers: LoginAnswers,
    stream_type: u32,
)
    requires
        !login_goes_through(l, s, origin, answers),
    ensures
        ({
            let id = if l.is_relogin {
                WS_REQUEST_LOGIN_AGAIN
            } else {
                WS_REQUEST_LOGIN
            };
            let a = login_outcome(LoginStepView::Resolve(l), s, origin, answers);
            s.after(id, stream_type, a) == s && s.released_by(id, a) is None
        }),
{
    law_login_arms_or_is_refused(l, s, origin, answers);
}

/// The camera of a session is pinned: once there, neither a login nor any other
/// message but a logout changes it, whatever the message leads to.
pub proof fn law_camera_is_pinned(s: SessionView, msg_id: u32, stream_type: u32, a: ActionView)
    requires
        s.camera is Some,
        msg_id != WS_REQUEST_LOGOUT,
    ensures
        s.after(msg_id, stream_type, a).camera == s.camera,
{
}

/// A logout leaves the session as it was before any login, and gives back the
/// live port that the session had.
pub proof fn law_logout_clears_the_session(s: SessionView, stream_type: u32, response: Seq<char>)
    ensures
        s.after(WS_REQUEST_LOGOUT, stream_type, ActionView::reply(response))
            == SessionView::fresh(),
        s.released_by(WS_REQUEST_LOGOUT, ActionView::reply(response)) == s.live_port,
{
}

/// Giving up the video plane twice is giving it up once: there is no port to
/// give back the second time.
pub proof fn law_teardown_twice_is_once(s: SessionView)
    ensures
        s.torn_down().torn_down() == s.torn_down(),
        s.torn_down().live_port is None,
{
}

/// A port that is given back is no longer the session's.
pub proof fn law_released_port_is_gone(
    s: SessionView,
    msg_id: u32,
    stream_type: u32,
    a: ActionView,
)
    ensures
        s.released_by(msg_id, a) is Some ==> s.after(msg_id, stream_type, a).live_port is None,
{
}

/// Nobody who has not logged in gets anything from the camera: without a user
/// or a password, no message leads to a request to it for CGI or a snapshot,
/// and such a message is answered by a failure.
pub proof fn law_nothing_without_login(msg: WsMessage, cmd: CmdObject, s: SessionView)
    requires
        s.user is None || s.pwd is None,
    ensures
        !(dispatched(msg, cmd, s) is Cgi),
        !(dispatched(msg, cmd, s) is Snapshot),
        msg.msg_id == WS_REQUEST_SNAP ==> dispatched(msg, cmd, s) == NextView::Finished(
            ActionView::reply(error_text(RESPONSE_REQUEST_SNAP, "not authenticated"@)),
        ),
        msg.msg_id == WS_REQUEST_CGI && cmd.cgi is Some ==> dispatched(msg, cmd, s)
            == NextView::Finished(
            ActionView::reply(error_text(RESPONSE_REQUEST_CGI, "not authenticated"@)),
        ),
{
}

/// Every dial of a session goes to the address that was pinned at its login.
pub proof fn law_dials_go_to_the_pinned_address(msg: WsMessage, cmd: CmdObject, s: SessionView)
    ensures
        dispatched(msg, cmd, s) matches NextView::Cgi(q) ==> s.camera matches Some(c) && q.addr()
            == c.addr,
        dispatched(msg, cmd, s) matches NextView::Snapshot(a) ==> s.camera matches Some(c)
            && a.addr == c.addr,
        dispatched(msg, cmd, s) matches NextView::OpenVideo(v, _) ==> s.camera matches Some(c)
            && v.dial.ip == c.addr.ip,
{
}

/// Whether the camera of a session, if there is one, may be dialed.
pub open spec fn camera_may_be_dialed(s: SessionView) -> bool {
    s.camera matches Some(c) ==> !blocked(c.addr.ip)
}

/// No session ever has a camera at a blocked address: a login whose host
/// resolves as `resolved` says keeps it so, whatever else is answered.
pub proof fn law_session_camera_is_never_blocked(
    l: LoginView,
    s: SessionView,
    origin: Option<&OriginInfo>,
    answers: LoginAnswers,
    literal: Option<IpAddr>,
    lookup: Option<Seq<SocketAddr>>,
    msg_id: u32,
    stream_type: u32,
)
    requires
        camera_may_be_dialed(s),
        answers.pinned == match resolved(l.camera_ip, l.http_port, literal, lookup) {
            Ok(addr) => Some(addr),
            Err(_) => None,
        },
    ensures
        camera_may_be_dialed(
            s.after(
                msg_id,
                stream_type,
                login_outcome(LoginStepView::Resolve(l), s, origin, answers),
            ),
        ),
{
    law_no_blocked_address_is_dialed(l.camera_ip, l.http_port, literal, lookup);
    law_login_arms_or_is_refused(l, s, origin, answers);
}

/// A session takes at most one port from the pool: one that has a live port
/// does not ask for another.
pub proof fn law_one_port_for_a_session(
    l: LoginView,
    s: SessionView,
    origin: Option<&OriginInfo>,
    answers: LoginAnswers,
)
    requires
        s.live_port is Some,
    ensures
        login_outcome(LoginStepView::Resolve(l), s, origin, answers).new_video is None,
        forall|addr: SocketAddr, answer: Option<(int, Seq<char>)>| !((#[trigger] l.authenticated(
            addr,
            answer,
            s.live_port,
        )) is AllocatePort),
{
}

/// Whether every session has a live port of its own, out of the ports `in_use`
/// that the pool has handed out.
pub open spec fn own_ports(sessions: Seq<SessionView>, in_use: Set<u16>) -> bool {
    &&& forall|i: int|
        0 <= i < sessions.len() ==> ((#[trigger] sessions[i]).live_port matches Some(p)
            ==> in_use.contains(p))
    &&& forall|i: int, j: int|
        0 <= i < j < sessions.len() && (#[trigger] sessions[i]).live_port is Some && (
        #[trigger] sessions[j]).live_port is Some ==> sessions[i].live_port
            != sessions[j].live_port
}

/// The ports that are handed out once the port `released` was given back.
pub open spec fn given_back(in_use: Set<u16>, released: Option<u16>) -> Set<u16> {
    match released {
        Some(p) => in_use.remove(p),
        None => in_use,
    }
}

/// Sessions run side by side without sharing a video plane: whatever a message
/// leads to in one session, every session keeps a live port of its own. The
/// port that a login brings is one that the pool had not handed out, as
/// `PortPool::allocate` gives it.
pub proof fn law_sessions_never_share_a_port(
    sessions: Seq<SessionView>,
    in_use: Set<u16>,
    i: int,
    msg_id: u32,
    stream_type: u32,
    a: ActionView,
)
    requires
        own_ports(sessions, in_use),
        0 <= i < sessions.len(),
        a.new_video matches Some(p) ==> sessions[i].live_port is None && !in_use.contains(p),
    ensures
        ({
            let with_new = match a.new_video {
                Some(p) => in_use.insert(p),
                None => in_use,
            };
            own_ports(
                sessions.update(i, sessions[i].after(msg_id, stream_type, a)),
                given_back(with_new, sessions[i].released_by(msg_id, a)),
            )
        }),
{
}

/// A session that ends takes down its own video plane and no other: its port
/// goes back to the pool, and every other session keeps its own.
pub proof fn law_ending_frees_only_its_own_port(
    sessions: Seq<SessionView>,
    in_use: Set<u16>,
    i: int,
)
    requires
        own_ports(sessions, in_use),
        0 <= i < sessions.len(),
    ensures
        own_ports(
            sessions.update(i, sessions[i].torn_down()),
            given_back(in_use, sessions[i].live_port),
        ),
        sessions[i].live_port matches Some(p) ==> !given_back(
            in_use,
            sessions[i].live_port,
        ).contains(p),
        forall|j: int|
            0 <= j < sessions.len() && j != i && (#[trigger] sessions[j]).live_port is Some
                ==> given_back(in_use, sessions[i].live_port).contains(sessions[j].live_port->0),
{
}

/// The client finds the number of the message and the result in the response
/// to a login or a CGI request, at the top level.
pub proof fn law_reply_tells_number_and_result(msg_id: u32, result: int, response: Seq<char>)
    ensures
        ({
            let reply = flat_response(msg_id, Json::Object(cgi_fields(result, response)));
            &&& member_of(reply, "msgid"@) == Some(Json::Int(msg_id as int))
            &&& member_of(reply, "result"@) == Some(Json::Int(result))
            &&& member_of(reply, "response"@) == Some(Json::Text(response))
        }),
{
    reveal_strlit("version");
    reveal_strlit("msgid");
    reveal_strlit("groupId");
    reveal_strlit("sequence");
    reveal_strlit("dataLen");
    reveal_strlit("result");
    reveal_strlit("response");
    let m = "msgid"@;
    assert(m.len() == 5);
    assert(m != "result"@ && m != "response"@ && m != "version"@ && m != "groupId"@ && m
        != "sequence"@ && m != "dataLen"@);
    let r = "result"@;
    assert(r.len() == 6);
    assert(r != "response"@);
}

proof fn lemma_no_percent_in_scalar(scalar: u32)
    requires
        scalar != 0x25,
    ensures
        forall|i: int|
            0 <= i < encode_scalar(scalar).len() ==> #[trigger] encode_scalar(scalar)[i] != 0x25,
{
    assert(scalar <= 0x7f ==> (scalar & 0x7f) as u8 == scalar) by (bit_vector);
    assert(0xc0u8 | ((scalar >> 6) & 0x1f) as u8 >= 0x80) by (bit_vector);
    assert(0xe0u8 | ((scalar >> 12) & 0x0f) as u8 >= 0x80) by (bit_vector);
    assert(0xf0u8 | ((scalar >> 18) & 0x7) as u8 >= 0x80) by (bit_vector);
    assert(0x80u8 | (scalar & 0x3f) as u8 >= 0x80) by (bit_vector);
    assert(0x80u8 | ((scalar >> 6) & 0x3f) as u8 >= 0x80) by (bit_vector);
    assert(0x80u8 | ((scalar >> 12) & 0x3f) as u8 >= 0x80) by (bit_vector);
}

proof fn lemma_no_percent_in_bytes(s: Seq<char>)
    requires
        !s.contains('%'),
    ensures
        forall|i: int| 0 <= i < encode_utf8(s).len() ==> #[trigger] encode_utf8(s)[i] != 0x25,
    decreases s.len(),
{
    if s.len() > 0 {
        let rest = s.drop_first();
        assert(s.contains(s[0]));
        assert forall|i: int| 0 <= i < rest.len() implies rest[i] != '%' by {
            assert(s.contains(s[i + 1]));
        }
        let first = encode_scalar(s[0] as u32);
        vstd::utf8::char_u32_cast(s[0], s[0] as u32);
        lemma_no_percent_in_scalar(s[0] as u32);
        lemma_no_percent_in_bytes(rest);
        assert forall|i: int| 0 <= i < encode_utf8(s).len() implies #[trigger] encode_utf8(s)[i]
            != 0x25 by {
            if i < first.len() {
                assert(encode_utf8(s)[i] == first[i]);
            } else {
                assert(encode_utf8(s)[i] == encode_utf8(rest)[i - first.len()]);
            }
        }
    }
}

proof fn lemma_percent_bytes_without_percent(b: Seq<u8>)
    requires
        forall|i: int| 0 <= i < b.len() ==> #[trigger] b[i] != 0x25,
    ensures
        percent_bytes(b) == b,
    decreases b.len(),
{
    if b.len() > 0 {
        lemma_percent_bytes_without_percent(b.skip(1));
        assert(seq![b[0]] + b.skip(1) =~= b);
    }
}

/// A text without `%` in it stands for itself.
pub proof fn law_plain_text_stands_for_itself(s: Seq<char>)
    requires
        !s.contains('%'),
    ensures
        percent_decoded(s) == Some(s),
{
    lemma_no_percent_in_bytes(s);
    lemma_percent_bytes_without_percent(encode_utf8(s));
    vstd::utf8::encode_utf8_valid_utf8(s);
    vstd::utf8::encode_utf8_decode_utf8(s);
}

/// What a login with the command `login` claims of the camera, with the pinned
/// address `addr`: the host and the two ports that the command names, each of the
/// ports by itself, and 88 for a port that it does not name.
pub open spec fn is_claimed_camera(c: CameraView, login: LoginCmd, addr: SocketAddr) -> bool {
    &&& c.ip == match login.ip {
        Some(ip) => ip@,
        None => Seq::empty(),
    }
    &&& c.http_port == match login.web_port {
        Some(p) => p,
        None => 88,
    }
    &&& c.rtsp_port == match login.media_port {
        Some(p) => p,
        None => 88,
    }
    &&& c.addr == addr
}

/// Whether the page with the origin `origin` is that of the host and the web port
/// that the command claims.
pub open spec fn is_own_page(origin: Option<&OriginInfo>, login: LoginCmd) -> bool {
    origin matches Some(o) && origin_matches(
        o.host@,
        o.port,
        match login.ip {
            Some(ip) => ip@,
            None => Seq::empty(),
        },
        match login.web_port {
            Some(p) => p,
            None => 88,
        },
    )
}

/// A login that goes through leaves in the session what its command says: the
/// claimed camera at the pinned address, user and password, and a live port, the
/// one that the session had or the one that the pool gave. To open video in that
/// session dials the pinned IP at the claimed media port, with those credentials
/// and for the stream that is asked for, and only the page at the claimed host and
/// web port may fetch it.
pub proof fn law_login_is_for_the_claimed_camera(
    msg: WsMessage,
    cmd: CmdObject,
    login: LoginCmd,
    s: SessionView,
    origin: Option<&OriginInfo>,
    answers: LoginAnswers,
    addr: SocketAddr,
    xml: Seq<char>,
    open: WsMessage,
    open_cmd: CmdObject,
    stream_type: u32,
)
    requires
        msg.msg_id == 20001 || msg.msg_id == 20020,
        cmd.login == Some(login),
        s.camera is None,
        answers.pinned == Some(addr),
        is_own_page(origin, login),
        answers.auth == Some((0int, xml)),
        s.live_port is Some || answers.port is Some,
        open.msg_id == 20007,
    ensures
        dispatched(msg, cmd, s) is Login,
        ({
            let a = login_outcome(dispatched(msg, cmd, s)->Login_0, s, origin, answers);
            let after = s.after(msg.msg_id, stream_type, a);
            let port = if s.live_port is Some {
                s.live_port
            } else {
                answers.port
            };
            let opened = dispatched(open, open_cmd, after);
            &&& after.camera matches Some(c) && is_claimed_camera(c, login, addr)
            &&& after.user == Some(login.usr@)
            &&& after.pwd == Some(login.pwd@)
            &&& after.live_port == port
            &&& after.stream_type == s.stream_type
            &&& a.new_video == if s.live_port is Some {
                None
            } else {
                answers.port
            }
            &&& opened matches NextView::OpenVideo(v, reply) && {
                &&& v.dial.ip == addr.ip
                &&& v.dial.port == match login.media_port {
                    Some(p) => p,
                    None => 88,
                }
                &&& v.user == login.usr@
                &&& v.pwd == login.pwd@
                &&& v.stream_type == match open_cmd.play {
                    Some(p) => p.stream_type,
                    None => 0,
                }
                &&& v.origin_host == ascii_lowercase(
                    trimmed(
                        match login.ip {
                            Some(ip) => ip@,
                            None => Seq::empty(),
                        },
                    ),
                )
                &&& v.origin_port == match login.web_port {
                    Some(p) => p,
                    None => 88,
                }
                &&& reply.responses.len() == 1
                &&& reply.new_camera is None && reply.new_auth is None && reply.new_video is None
            }
        }),
{
}

/// Whether `text` is the text of a JSON object with the member `key`, which is
/// `value`.
pub open spec fn tells(text: Seq<char>, key: Seq<char>, value: Json) -> bool {
    exists|j: Json| text == #[trigger] json_text(j) && member_of(j, key) == Some(value)
}

proof fn lemma_reply_tells(msg_id: u32, result: int, response: Seq<char>)
    ensures
        tells(cgi_reply_text(msg_id, result, response), "msgid"@, Json::Int(msg_id as int)),
        tells(cgi_reply_text(msg_id, result, response), "result"@, Json::Int(result)),
        tells(cgi_reply_text(msg_id, result, response), "response"@, Json::Text(response)),
{
    law_reply_tells_number_and_result(msg_id, result, response);
    let j = flat_response(msg_id, Json::Object(cgi_fields(result, response)));
    assert(cgi_reply_text(msg_id, result, response) == json_text(j));
}

/// A login that goes through is answered: first with what the camera said to it,
/// under the number of the response to a login or to a repeated one, then, if the
/// camera told of its product, with that, and last with the initial state, which
/// has the live port in it. A repeated login asks the camera for nothing more.
pub proof fn law_login_is_answered(
    msg: WsMessage,
    cmd: CmdObject,
    login: LoginCmd,
    s: SessionView,
    origin: Option<&OriginInfo>,
    answers: LoginAnswers,
    addr: SocketAddr,
    xml: Seq<char>,
    port: u16,
)
    requires
        msg.msg_id == 20001 || msg.msg_id == 20020,
        cmd.login == Some(login),
        answers.pinned == Some(addr),
        is_own_page(origin, login),
        answers.auth == Some((0int, xml)),
        s.live_port == Some(port) || s.live_port is None && answers.port == Some(port),
    ensures
        ({
            let again = msg.msg_id == 20020;
            let r = login_outcome(
                dispatched(msg, cmd, s)->Login_0,
                s,
                origin,
                answers,
            ).responses;
            let product = !again && answers.product_xml is Some;
            &&& r.len() == if product {
                3int
            } else {
                2int
            }
            &&& tells(
                r[0],
                "msgid"@,
                Json::Int(
                    if again {
                        50026
                    } else {
                        50001
                    },
                ),
            )
            &&& tells(r[0], "result"@, Json::Int(0))
            &&& tells(r[0], "response"@, Json::Text(xml))
            &&& product ==> tells(r[1], "msgid"@, Json::Int(50008)) && tells(
                r[1],
                "response"@,
                Json::Text(answers.product_xml->0),
            )
            &&& tells(r.last(), "msgid"@, Json::Int(50009))
            &&& tells(
                r.last(),
                "livePort"@,
                Json::Int(
                    if again {
                        port as int
                    } else {
                        answers.init_info.live_port
                    },
                ),
            )
            &&& !again ==> r.last() == json_text(
                flat_response(50009, Json::Object(answers.init_info.fields())),
            )
        }),
{
    let again = msg.msg_id == 20020;
    lemma_reply_tells(
        if again {
            50026
        } else {
            50001
        },
        0,
        xml,
    );
    let info = if again {
        InitInfoView::blank(port)
    } else {
        answers.init_info
    };
    let last = flat_response(50009, Json::Object(info.fields()));
    law_initial_state_by_name(info);
    law_flat_response_tells_its_number(50009, info.fields(), "livePort"@);
    assert(member_of(last, "msgid"@) == Some(Json::Int(50009)));
    assert(member_of(last, "livePort"@) == Some(Json::Int(info.live_port)));
    if let Some(p) = answers.product_xml {
        let second = flat_response(50008, Json::Object(product_fields(p)));
        reveal_strlit("msgid");
        reveal_strlit("response");
        assert("msgid"@.len() != "response"@.len());
        law_flat_response_tells_its_number(50008, product_fields(p), "response"@);
        assert(member_of(second, "msgid"@) == Some(Json::Int(50008)));
        assert(member_of(second, "response"@) == Some(Json::Text(p)));
    }
}

/// Why a login is refused, in the words that the client is told; nothing if it
/// goes through or if the camera itself refuses it.
pub open spec fn refusal(
    s: SessionView,
    origin: Option<&OriginInfo>,
    login: LoginCmd,
    answers: LoginAnswers,
) -> Option<Seq<char>> {
    if answers.pinned is None {
        Some("camera unreachable"@)
    } else if origin is None {
        Some("no origin"@)
    } else if !is_own_page(origin, login) {
        Some("origin does not match claimed camera"@)
    } else if answers.auth is None {
        Some("camera unreachable"@)
    } else if (answers.auth->0).0 == 0 && s.live_port is None && answers.port is None {
        Some("too many concurrent video sessions"@)
    } else {
        None
    }
}

/// A login that is refused is answered with the reason, and one that the camera
/// refuses with what the camera said; either way that is all that it leads to.
pub proof fn law_refused_login_is_told_why(
    msg: WsMessage,
    cmd: CmdObject,
    login: LoginCmd,
    s: SessionView,
    origin: Option<&OriginInfo>,
    answers: LoginAnswers,
)
    requires
        msg.msg_id == 20001 || msg.msg_id == 20020,
        cmd.login == Some(login),
    ensures
        dispatched(msg, cmd, s) is Login,
        ({
            let a = login_outcome(dispatched(msg, cmd, s)->Login_0, s, origin, answers);
            let number = if msg.msg_id == 20020 {
                50026int
            } else {
                50001
            };
            let by_camera = refusal(s, origin, login, answers) is None && (answers.auth->0).0 != 0;
            &&& refusal(s, origin, login, answers) is Some || by_camera ==> a.new_camera is None
                && a.new_auth is None && a.new_video is None && a.responses.len() == 1 && tells(
                a.responses[0],
                "msgid"@,
                Json::Int(number),
            )
            &&& refusal(s, origin, login, answers) matches Some(why) ==> tells(
                a.responses[0],
                "result"@,
                Json::Int(-1),
            ) && tells(
                a.responses[0],
                "response"@,
                Json::Text(
                    "<CGI_Result><code>-1</code><error>"@ + why + "</error></CGI_Result>"@,
                ),
            )
            &&& by_camera ==> tells(a.responses[0], "result"@, Json::Int((answers.auth->0).0))
                && tells(a.responses[0], "response"@, Json::Text((answers.auth->0).1))
        }),
{
    let l = login_of(login, msg.msg_id == 20020);
    let id = if msg.msg_id == 20020 {
        50026u32
    } else {
        50001u32
    };
    assert(l.response_id() == id);
    if let Some(why) = refusal(s, origin, login, answers) {
        lemma_reply_tells(id, -1, error_xml(why));
    } else {
        lemma_reply_tells(id, (answers.auth->0).0, (answers.auth->0).1);
    }
}

/// Every message goes where its number says. What needs neither the camera nor the
/// state is answered under the number that belongs to it; a payload that is no
/// login command, a greeting, a heartbeat and any unknown number lead to nothing.
pub proof fn law_messages_go_where_their_number_says(
    msg: WsMessage,
    cmd: CmdObject,
    s: SessionView,
)
    ensures
        ({
            let id = msg.msg_id;
            let next = dispatched(msg, cmd, s);
            let quiet = next matches NextView::Finished(a) && a == ActionView {
                new_camera: None,
                new_auth: None,
                new_video: None,
                responses: Seq::empty(),
            };
            &&& id == 20001 || id == 20020 ==> (next matches NextView::Login(l) && (cmd.login
                is Some <==> l is Resolve) && (l matches LoginStepView::Resolve(v)
                ==> v.is_relogin == (id == 20020)))
            &&& (id == 20001 || id == 20020) && cmd.login is None ==> (next
                matches NextView::Login(l) && l == LoginStepView::Finished(
                ActionView {
                    new_camera: None,
                    new_auth: None,
                    new_video: None,
                    responses: Seq::empty(),
                },
            ))
            &&& id == 20002 ==> next == NextView::Finished(
                ActionView::reply(plain_text(50002, None)),
            )
            &&& id == 20003 ==> next == NextView::Finished(
                ActionView::reply(plain_text(50004, None)),
            )
            &&& id == 20004 ==> (next matches NextView::Finished(a) && a.responses.len() == 1
                && tells(a.responses[0], "msgid"@, Json::Int(50005)) && tells(
                a.responses[0],
                "result"@,
                Json::Int(0),
            ))
            &&& id == 20017 ==> next == NextView::Finished(
                ActionView::reply(plain_text(50023, None)),
            )
            &&& id == 20021 ==> (next matches NextView::Finished(a) && a.responses.len() == 1
                && exists|j: Json|
                #![trigger json_text(j)]
                member_of(j, "enable"@) == Some(Json::Int(1)) && a.responses[0] == message_text(
                    1,
                    50027,
                    msg.group_id as nat,
                    msg.sequence as nat,
                    0,
                    Some(j),
                ))
            &&& id == 20008 ==> if s.live_port is Some {
                next == NextView::CloseVideo(ActionView::reply(plain_text(50011, None)))
            } else {
                quiet
            }
            &&& id == 20007 && (s.camera is None || s.live_port is None) ==> quiet
            &&& id == 99999 || id == 1000001 ==> quiet
            &&& (id < 20001 || id > 20021) ==> quiet
            &&& 20009 <= id <= 20016 || id == 20018 || id == 20019 ==> quiet
            &&& next is Cgi ==> id == 20005
            &&& next is Snapshot ==> id == 20006
            &&& next is OpenVideo ==> id == 20007
            &&& next is CloseVideo ==> id == 20008
            &&& next is Login ==> id == 20001 || id == 20020
        }),
        ({
            let a = ActionView::reply(plain_text(50002, None));
            a.new_camera is None && a.new_auth is None && a.new_video is None && a.responses
                == seq![plain_text(50002, None)]
        }),
{
    lemma_reply_tells(50005, 0, Seq::empty());
    let j = Json::Object(no_fields().insert("enable"@, Json::Int(1)));
    assert(member_of(j, "enable"@) == Some(Json::Int(1)));
    assert(json_text(j) == json_text(j));
}

/// A request to the camera goes out with what the session holds: to the pinned
/// address and with the credentials of the login. A text that is no path is sent as
/// a command, with the credentials, and one that stands for a path as that path.
pub proof fn law_requests_go_out_with_the_session(
    msg: WsMessage,
    cmd: CmdObject,
    s: SessionView,
    camera: CameraView,
    user: Seq<char>,
    pwd: Seq<char>,
    host: Seq<char>,
    cgi: CgiCmd,
)
    requires
        s.camera == Some(camera),
        s.user == Some(user),
        s.pwd == Some(pwd),
        cmd.cgi == Some(cgi),
    ensures
        msg.msg_id == 20006 ==> (dispatched(msg, cmd, s) matches NextView::Snapshot(a) && a.addr
            == camera.addr && a.user == user && a.pwd == pwd),
        msg.msg_id == 20005 ==> (dispatched(msg, cmd, s) matches NextView::Cgi(q) && q.addr()
            == camera.addr && match percent_decoded(cgi.cgi@) {
            Some(path) => if (path.len() >= 9 && path.take(9) == "/cgi-bin/"@) || (path.len() >= 9
                && path.take(9) == "/CGIProxy"@) {
                q.url(host) == "http://"@ + host + path
            } else {
                q.url(host) == "http://"@ + host + "/cgi-bin/CGIProxy.fcgi?usrName="@ + user
                    + "&pwd="@ + pwd + "&cmd="@ + cgi.cgi@
            },
            None => q.url(host) == "http://"@ + host + "/cgi-bin/CGIProxy.fcgi?usrName="@ + user
                + "&pwd="@ + pwd + "&cmd="@ + cgi.cgi@,
        }),
{
    reveal_strlit("/cgi-bin/");
    reveal_strlit("/CGIProxy");
    reveal_strlit("/");
    if let Some(path) = percent_decoded(cgi.cgi@) {
        if path.len() >= 9 {
            assert(path.subrange(0, 9) =~= path.take(9));
        }
        if is_cgi_path(path) {
            assert(path.take(9)[0] == '/' && path.take(9)[1] != '/');
            assert(path[0] == '/' && path[1] != '/');
            let rest = path.drop_first();
            assert(strip_front(path, '/') == strip_front(rest, '/'));
            assert(strip_front(rest, '/') == rest);
            assert("http://"@ + host + "/"@ + rest =~= "http://"@ + host + path);
        }
    }
}

/// A snapshot that came is sent as base64 with the result 0, and one that did not
/// with the result -1 and no image; a CGI answer is sent as it came, and a failure
/// with its reason.
pub proof fn law_camera_answers_are_passed_on(
    image: Seq<u8>,
    result: int,
    xml: Seq<char>,
    reason: Seq<char>,
)
    ensures
        tells(snapshot_text(Some(image)), "msgid"@, Json::Int(50007)),
        tells(snapshot_text(Some(image)), "result"@, Json::Int(0)),
        tells(snapshot_text(Some(image)), "img"@, Json::Text(base64_text(image))),
        tells(snapshot_text(None), "msgid"@, Json::Int(50007)),
        tells(snapshot_text(None), "result"@, Json::Int(-1)),
        tells(snapshot_text(None), "img"@, Json::Text(Seq::empty())),
        tells(cgi_reply_of(Ok((result, xml))), "msgid"@, Json::Int(50006)),
        tells(cgi_reply_of(Ok((result, xml))), "result"@, Json::Int(result)),
        tells(cgi_reply_of(Ok((result, xml))), "response"@, Json::Text(xml)),
        exists|j: Json|
            #![trigger json_text(j)]
            cgi_reply_of(Err(reason)) == plain_text(50006, Some(j)) && member_of(j, "result"@)
                == Some(Json::Int(-1)) && member_of(j, "response"@) == Some(
                Json::Text(
                    "<CGI_Result><code>-1</code><error>"@ + reason + "</error></CGI_Result>"@,
                ),
            ),
{
    reveal_strlit("msgid");
    reveal_strlit("result");
    reveal_strlit("img");
    reveal_strlit("response");
    assert("msgid"@.len() == 5 && "result"@.len() == 6 && "img"@.len() == 3 && "response"@.len()
        == 8);
    let good = snap_fields(0, base64_text(image));
    let bad = snap_fields(-1, Seq::empty());
    law_flat_response_tells_its_number(50007, good, "result"@);
    law_flat_response_tells_its_number(50007, good, "img"@);
    law_flat_response_tells_its_number(50007, bad, "result"@);
    law_flat_response_tells_its_number(50007, bad, "img"@);
    let g = flat_response(50007, Json::Object(good));
    let b = flat_response(50007, Json::Object(bad));
    assert(member_of(g, "msgid"@) == Some(Json::Int(50007)));
    assert(member_of(b, "msgid"@) == Some(Json::Int(50007)));
    assert(snapshot_text(Some(image)) == json_text(g));
    assert(snapshot_text(None) == json_text(b));
    lemma_reply_tells(50006, result, xml);
    let j = Json::Object(cgi_fields(-1, error_xml(reason)));
    assert(cgi_reply_of(Err(reason)) == plain_text(50006, Some(j)));
    assert(json_text(j) == json_text(j));
}

/// What a message leads to changes the session in these ways only: a login brings
/// credentials, a live port if it took one, and a camera if there was none; a
/// logout takes all of it away; to open video notes the stream. Any other message
/// leaves the session as it is.
pub proof fn law_session_changes_only_so(
    s: SessionView,
    msg_id: u32,
    stream_type: u32,
    a: ActionView,
    user: Seq<char>,
    pwd: Seq<char>,
)
    ensures
        ({
            let after = s.after(msg_id, stream_type, a);
            let silent = a.new_camera is None && a.new_auth is None && a.new_video is None;
            &&& a.new_auth == Some((user, pwd)) ==> after.user == Some(user) && after.pwd == Some(
                pwd,
            )
            &&& a.new_auth == Some((user, pwd)) && s.camera is None ==> after.camera
                == a.new_camera
            &&& a.new_auth == Some((user, pwd)) && a.new_video is Some ==> after.live_port
                == a.new_video
            &&& a.new_video is None && msg_id != 20002 ==> after.live_port == s.live_port
            &&& silent && msg_id == 20002 ==> after == SessionView {
                camera: None,
                user: None,
                pwd: None,
                stream_type: 0,
                live_port: None,
            } && s.released_by(msg_id, a) == s.live_port
            &&& silent && msg_id == 20007 ==> after == SessionView { stream_type, ..s }
            &&& silent && msg_id != 20002 && msg_id != 20007 ==> after == s
            &&& msg_id != 20002 ==> s.released_by(msg_id, a) is None
        }),
        SessionView::fresh() == (SessionView {
            camera: None,
            user: None,
            pwd: None,
            stream_type: 0,
            live_port: None,
        }),
{
}

/// A stream that is opened is announced with the camera that the login claimed, by
/// host and web port, and with the credentials of the session.
pub proof fn law_opened_stream_is_announced(
    msg: WsMessage,
    cmd: CmdObject,
    s: SessionView,
    camera: CameraView,
    user: Seq<char>,
    pwd: Seq<char>,
)
    requires
        msg.msg_id == 20007,
        s.camera == Some(camera),
        s.user == Some(user),
        s.pwd == Some(pwd),
        s.live_port is Some,
    ensures
        dispatched(msg, cmd, s) matches NextView::OpenVideo(v, a) && {
            &&& v.dial == SocketAddr { ip: camera.addr.ip, port: camera.rtsp_port }
            &&& v.stream_type == match cmd.play {
                Some(p) => p.stream_type,
                None => 0,
            }
            &&& v.user == user && v.pwd == pwd
            &&& v.origin_host == ascii_lowercase(trimmed(camera.ip))
            &&& v.origin_port == camera.http_port
            &&& a.responses.len() == 1
            &&& tells(a.responses[0], "msgid"@, Json::Int(50012))
            &&& tells(a.responses[0], "ip"@, Json::Text(camera.ip))
            &&& tells(a.responses[0], "webPort"@, Json::Int(camera.http_port as int))
            &&& tells(a.responses[0], "usr"@, Json::Text(user))
            &&& tells(a.responses[0], "pwd"@, Json::Text(pwd))
            &&& tells(a.responses[0], "channel"@, Json::Int(0))
            &&& tells(
                a.responses[0],
                "productAllInfo"@,
                Json::Text(
                    "<CGI_Result><code>0</code><model>IP Camera</model><ip>"@ + camera.ip
                        + "</ip><webPort>"@ + decimal(camera.http_port as nat)
                        + "</webPort></CGI_Result>"@,
                ),
            )
        },
{
    let v = s.video_opened(camera);
    let m = v.fields();
    law_announcement_by_name(v);
    let j = flat_response(50012, Json::Object(m));
    law_flat_response_tells_its_number(50012, m, "ip"@);
    law_flat_response_tells_its_number(50012, m, "webPort"@);
    law_flat_response_tells_its_number(50012, m, "usr"@);
    law_flat_response_tells_its_number(50012, m, "pwd"@);
    law_flat_response_tells_its_number(50012, m, "channel"@);
    law_flat_response_tells_its_number(50012, m, "productAllInfo"@);
    assert(member_of(j, "msgid"@) == Some(Json::Int(50012)));
    assert(dispatched(msg, cmd, s)->OpenVideo_1.responses[0] == json_text(j));
}

/// The stream that a message asks for is the number under `streamType` in its
/// payload, and the main stream, 0, if there is none; user and password are the
/// texts under `usr` and `pwd`.
pub proof fn law_payload_is_read_by_name(
    msg: WsMessage,
    payload: serde_json::Value,
    n: u32,
    key: Seq<char>,
    text: Seq<char>,
)
    requires
        msg.cmd_object == Some(payload),
    ensures
        member_of(json(payload), "streamType"@) == Some(Json::Int(n as int)) ==> stream_type_of(msg)
            == n,
        member_of(json(payload), "streamType"@) is None ==> stream_type_of(msg) == 0,
        member_of(json(payload), key) == Some(Json::Text(text)) ==> payload_text(msg, key) == Some(
            text,
        ),
        member_of(json(payload), key) is None ==> payload_text(msg, key) is None,
{
}

/// A request that cannot be made is answered with the reason: without a login that
/// nobody is authenticated, without a camera that there is none, and a CGI message
/// that is none with just that.
pub proof fn law_impossible_requests_are_told_why(
    msg: WsMessage,
    cmd: CmdObject,
    s: SessionView,
)
    ensures
        ({
            let why = if msg.msg_id == 20005 && cmd.cgi is None {
                Some("missing or invalid CGI cmdObject"@)
            } else if s.user is None || s.pwd is None {
                Some("not authenticated"@)
            } else if s.camera is None {
                Some("no camera configured (login first)"@)
            } else {
                None
            };
            let number = if msg.msg_id == 20005 {
                50006u32
            } else {
                50007u32
            };
            msg.msg_id == 20005 || msg.msg_id == 20006 ==> match why {
                Some(reason) => dispatched(msg, cmd, s) matches NextView::Finished(a)
                    && a.responses.len() == 1 && a.new_camera is None && a.new_auth is None
                    && a.new_video is None && exists|j: Json|
                    #![trigger json_text(j)]
                    a.responses[0] == plain_text(number, Some(j)) && member_of(j, "result"@)
                        == Some(Json::Int(-1)) && member_of(j, "response"@) == Some(
                        Json::Text(
                            "<CGI_Result><code>-1</code><error>"@ + reason
                                + "</error></CGI_Result>"@,
                        ),
                    ),
                None => dispatched(msg, cmd, s) is Cgi || dispatched(msg, cmd, s) is Snapshot,
            }
        }),
{
    reveal_strlit("result");
    reveal_strlit("response");
    assert("result"@.len() == 6 && "response"@.len() == 8);
    if msg.msg_id == 20005 || msg.msg_id == 20006 {
        if let NextView::Finished(a) = dispatched(msg, cmd, s) {
            let e = if msg.msg_id == 20005 {
                cgi_outcome(cmd.cgi, s)->Err_0
            } else {
                s.access()->Err_0
            };
            let j = Json::Object(cgi_fields(-1, error_xml(e.text())));
            assert(a.responses[0] == plain_text(
                if msg.msg_id == 20005 {
                    50006u32
                } else {
                    50007u32
                },
                Some(j),
            ));
            assert(json_text(j) == json_text(j));
        }
    }
}

/// To give up the video plane takes the live port away and nothing else; to log out
/// takes everything else away and leaves it.
pub proof fn law_teardown_and_logout_part_the_session(s: SessionView)
    ensures
        s.torn_down() == (SessionView { live_port: None, ..s }),
        s.logged_out() == (SessionView {
            camera: None,
            user: None,
            pwd: None,
            stream_type: 0,
            live_port: s.live_port,
        }),
        s.logged_out().torn_down() == SessionView::fresh(),
{
}

/// What is stated of a session, of its camera and of what a message leads to is
/// stated of all that they hold.
pub proof fn law_sessions_and_actions_are_seen_whole(
    s: SessionState,
    c: CameraInfo,
    a: DispatchAction,
)
    ensures
        s.camera matches Some(x) ==> s@.camera == Some(x@),
        s.camera is None ==> s@.camera is None,
        s.user matches Some(x) ==> s@.user == Some(x@),
        s.user is None ==> s@.user is None,
        s.pwd matches Some(x) ==> s@.pwd == Some(x@),
        s.pwd is None ==> s@.pwd is None,
        s@.stream_type == s.stream_type,
        s@.live_port == s.live_port,
        c@.ip == c.ip@,
        c@.http_port == c.http_port,
        c@.rtsp_port == c.rtsp_port,
        c@.addr == c.addr,
        a.new_camera matches Some(x) ==> a@.new_camera == Some(x@),
        a.new_camera is None ==> a@.new_camera is None,
        a.new_auth matches Some((u, p)) ==> a@.new_auth == Some((u@, p@)),
        a.new_auth is None ==> a@.new_auth is None,
        a@.new_video == a.new_video,
        a@.responses.len() == a.responses@.len(),
        forall|i: int|
            0 <= i < a.responses@.len() ==> #[trigger] a@.responses[i] == a.responses@[i]@,
{
}

/// The same of a login on its way.
pub proof fn law_logins_are_seen_whole(l: Login, step: LoginStep, r: CgiResponse)
    ensures
        l@.is_relogin == l.is_relogin,
        l@.user == l.user@,
        l@.pwd == l.pwd@,
        l@.camera_ip == l.camera_ip@,
        l@.http_port == l.http_port,
        l@.rtsp_port == l.rtsp_port,
        step matches LoginStep::Resolve(x) ==> step@ == LoginStepView::Resolve(x@),
        step matches LoginStep::Authenticate(x, a) ==> step@ == LoginStepView::Authenticate(x@, a),
        step matches LoginStep::AllocatePort(x, a, c) ==> step@ == LoginStepView::AllocatePort(
            x@,
            a,
            c.result as int,
            c.response@,
        ),
        step matches LoginStep::Gather(x, a, c, p, new) ==> step@ == LoginStepView::Gather(
            x@,
            a,
            c.result as int,
            c.response@,
            p,
            new,
        ),
        step matches LoginStep::Finished(d) ==> step@ == LoginStepView::Finished(d@),
        answer_view(Some(r)) == Some((r.result as int, r.response@)),
        answer_view(None) is None,
{
}

/// The same of what goes out to the camera.
pub proof fn law_requests_are_seen_whole(
    next: Next,
    q: CgiRequest,
    a: Access,
    v: VideoStart,
    s: String,
)
    ensures
        next matches Next::Finished(x) ==> next@ == NextView::Finished(x@),
        next matches Next::Login(x) ==> next@ == NextView::Login(x@),
        next matches Next::Cgi(x) ==> next@ == NextView::Cgi(x@),
        next matches Next::Snapshot(x) ==> next@ == NextView::Snapshot(x@),
        next matches Next::OpenVideo(x, y) ==> next@ == NextView::OpenVideo(x@, y@),
        next matches Next::CloseVideo(x) ==> next@ == NextView::CloseVideo(x@),
        q matches CgiRequest::FullPath(addr, path) ==> q@ == CgiRequestView::FullPath(addr, path@),
        q matches CgiRequest::Command(addr, u, p, c) ==> q@ == CgiRequestView::Command(
            addr,
            u@,
            p@,
            c@,
        ),
        a@.addr == a.addr,
        a@.user == a.user@,
        a@.pwd == a.pwd@,
        v@.dial == v.dial,
        v@.stream_type == v.stream_type,
        v@.user == v.user@,
        v@.pwd == v.pwd@,
        v@.origin_host == v.origin.host@,
        v@.origin_port == v.origin.port,
        opt_text(Some(s)) == Some(s@),
        opt_text(None) is None,
{
}

/// No port of a video plane is lost, and none is given back that is in use: the
/// port that a session has, or that a message brings it, is the session's after
/// the message or goes back to the pool, and not both.
pub proof fn law_no_port_is_lost(s: SessionView, msg_id: u32, stream_type: u32, a: ActionView)
    ensures
        ({
            let port = if a.new_video is Some {
                a.new_video
            } else {
                s.live_port
            };
            let kept = s.after(msg_id, stream_type, a).live_port;
            let released = s.released_by(msg_id, a);
            ||| kept == port && released is None
            ||| kept is None && released == port
        }),
{
}

} // verus!
