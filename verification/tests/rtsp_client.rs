use fosipcore::video::rtsp_client::{
    cnonce_at, extract_challenge, generate_cnonce, md5_hex, parse_challenge, Awaiting, Interleaved,
    ResponseReader, RtpPacket, RtspClient, RtspResponse, RtspStep,
};
use fosipcore::video::rtsp_text::{
    extract_auth_param, extract_header, parse_sdp_media, RtspError,
};

#[test]
fn test_md5_hex() {
    assert_eq!(md5_hex("hello"), "5d41402abc4b2a76b9719d911017c592");
    assert_eq!(md5_hex(""), "d41d8cd98f00b204e9800998ecf8427e");
}

#[test]
fn test_setup_request_first_track_no_auth() {
    let req = RtspClient::setup_request(
        "rtsp://192.168.1.100:554/live/trackID=1",
        3,
        None, // first SETUP: no Session header
        None, // no Digest auth
        0,
    );
    let expected = "SETUP rtsp://192.168.1.100:554/live/trackID=1 RTSP/1.0\r\n".to_string()
        + "CSeq: 3\r\n"
        + "Transport: RTP/AVP/TCP;unicast;interleaved=0-1\r\n"
        + "\r\n";
    assert_eq!(req, expected);
}

#[test]
fn test_setup_request_second_track_with_session_and_auth() {
    let req = RtspClient::setup_request(
        "rtsp://192.168.1.100:554/live/trackID=2",
        4,
        Some("abc123;timeout=60"),
        Some("Digest username=\"admin\", realm=\"x\", response=\"cafe\""),
        2,
    );
    let expected = "SETUP rtsp://192.168.1.100:554/live/trackID=2 RTSP/1.0\r\n".to_string()
        + "CSeq: 4\r\n"
        + "Session: abc123;timeout=60\r\n"
        + "Authorization: Digest username=\"admin\", realm=\"x\", response=\"cafe\"\r\n"
        + "Transport: RTP/AVP/TCP;unicast;interleaved=2-3\r\n"
        + "\r\n";
    assert_eq!(req, expected);
}

#[test]
fn test_setup_request_session_but_no_auth() {
    // Audio track with a session but plain-text auth (no Digest):
    // exactly one optional header present, no stray blank lines.
    let req = RtspClient::setup_request("rtsp://h/live/track2", 4, Some("s1"), None, 2);
    let expected = "SETUP rtsp://h/live/track2 RTSP/1.0\r\n".to_string()
        + "CSeq: 4\r\n"
        + "Session: s1\r\n"
        + "Transport: RTP/AVP/TCP;unicast;interleaved=2-3\r\n"
        + "\r\n";
    assert_eq!(req, expected);
    // No double CRLF anywhere except the final body separator.
    assert_eq!(req.matches("\r\n\r\n").count(), 1);
}

/// A request that the camera has seen.
struct Req {
    method: String,
    url: String,
    cseq: Option<u32>,
    session: Option<String>,
    auth: Option<String>,
    transport: Option<String>,
}

/// A camera for the client to talk to.
struct Camera {
    /// Challenge, if the camera asks for authentication.
    challenge: Option<String>,
    sdp: String,
    session_id: String,
    /// Whether the camera refuses every answer to its challenge.
    reject_auth: bool,
    /// How many new connections the camera accepts.
    connections: usize,
    seen: Vec<Req>,
}

impl Camera {
    fn new(challenge: Option<&str>, sdp: &str, session_id: &str) -> Camera {
        Camera {
            challenge: challenge.map(str::to_string),
            sdp: sdp.into(),
            session_id: session_id.into(),
            reject_auth: false,
            connections: 10,
            seen: Vec::new(),
        }
    }

    /// The text of the response to a request.
    fn answer(&mut self, request: &str) -> String {
        let (line, headers) = request.split_once("\r\n").unwrap();
        assert!(request.ends_with("\r\n\r\n"));
        let mut it = line.split_whitespace();
        let method = it.next().unwrap_or("").to_string();
        let auth = extract_header(headers, "Authorization").map(str::to_string);
        let refused = self.challenge.is_some() && (auth.is_none() || self.reject_auth);
        self.seen.push(Req {
            method: method.clone(),
            url: it.next().unwrap_or("").to_string(),
            cseq: extract_header(headers, "CSeq").and_then(|v| v.parse().ok()),
            session: extract_header(headers, "Session").map(str::to_string),
            auth,
            transport: extract_header(headers, "Transport").map(str::to_string),
        });
        match method.as_str() {
            "DESCRIBE" | "SETUP" if refused => format!(
                "RTSP/1.0 401 Unauthorized\r\nWWW-Authenticate: {}\r\n\r\n",
                self.challenge.as_ref().unwrap()
            ),
            "DESCRIBE" => format!(
                "RTSP/1.0 200 OK\r\nContent-Length: {}\r\n\r\n{}",
                self.sdp.len(),
                self.sdp
            ),
            "OPTIONS" => "RTSP/1.0 200 OK\r\n\r\n".into(),
            _ => format!("RTSP/1.0 200 OK\r\nSession: {}\r\n\r\n", self.session_id),
        }
    }
}

/// Reads a response out of its text.
fn read(text: &str) -> RtspResponse {
    let mut rest = text;
    let mut line = || {
        let n = rest.find('\n').map_or(rest.len(), |k| k + 1);
        let (l, r) = rest.split_at(n);
        rest = r;
        l
    };
    let mut reader = ResponseReader::start(line()).unwrap();
    let n = loop {
        if let Some(n) = reader.line(line()) {
            break n;
        }
    };
    reader.finish(&rest.as_bytes()[..n])
}

/// Takes the handshake to its end.
fn handshake(client: &mut RtspClient, camera: &mut Camera) -> Result<(), RtspError> {
    let mut step = client.begin();
    loop {
        step = match step {
            RtspStep::Send(awaiting, request) => {
                let response = read(&camera.answer(&request));
                client.advance(awaiting, Ok(response))
            }
            RtspStep::Reconnect(r) => {
                let connected = camera.connections > 0;
                if connected {
                    camera.connections -= 1;
                }
                client.reconnect(r, if connected { Ok(()) } else { Err(RtspError::Reconnect) })
            }
            RtspStep::Done => return Ok(()),
            RtspStep::Fail(e) => return Err(e),
        };
    }
}

const VIDEO_ONLY: &str = "v=0\r\no=- 0 0 IN IP4 127.0.0.1\r\nm=video 0 RTP/AVP 96\r\n";
const AUDIO_AND_VIDEO: &str = "v=0\r\na=control:*\r\nm=video 0 RTP/AVP 96\r\na=control:track1\r\nm=audio 0 RTP/AVP 0\r\na=control:track2\r\n";

#[test]
fn full_handshake_no_auth() {
    let mut camera = Camera::new(None, VIDEO_ONLY, "abc123;timeout=60");
    let mut client = RtspClient::new("127.0.0.1", 554, "videoMain", "admin", "secret");
    handshake(&mut client, &mut camera).expect("handshake");

    let r = &camera.seen;
    let methods: Vec<&str> = r.iter().map(|q| q.method.as_str()).collect();
    assert_eq!(methods, vec!["OPTIONS", "DESCRIBE", "SETUP", "PLAY"]);
    assert_eq!(r[0].cseq, Some(1));
    assert_eq!(r[1].cseq, Some(2));
    assert_eq!(r[2].cseq, Some(3));
    assert_eq!(r[3].cseq, Some(4));
    assert_eq!(r[2].transport.as_deref(), Some("RTP/AVP/TCP;unicast;interleaved=0-1"));
    assert_eq!(r[3].session.as_deref(), Some("abc123;timeout=60"));
}

fn expected_response_qop(
    user: &str,
    realm: &str,
    pwd: &str,
    method: &str,
    uri: &str,
    nonce: &str,
    cnonce: &str,
) -> String {
    let ha1 = md5_hex(&format!("{user}:{realm}:{pwd}"));
    let ha2 = md5_hex(&format!("{method}:{uri}"));
    md5_hex(&format!("{ha1}:{nonce}:00000001:{cnonce}:auth:{ha2}"))
}

fn expected_response_plain(
    user: &str,
    realm: &str,
    pwd: &str,
    method: &str,
    uri: &str,
    nonce: &str,
) -> String {
    let ha1 = md5_hex(&format!("{user}:{realm}:{pwd}"));
    let ha2 = md5_hex(&format!("{method}:{uri}"));
    md5_hex(&format!("{ha1}:{nonce}:{ha2}"))
}

#[test]
fn digest_auth_qop_challenge() {
    let challenge = "Digest realm=\"IPCAM\", nonce=\"n0nc3\", qop=\"auth\"";
    let mut camera = Camera::new(Some(challenge), VIDEO_ONLY, "sess1");
    let mut client = RtspClient::new("127.0.0.1", 88, "videoMain", "admin", "secret");
    handshake(&mut client, &mut camera).expect("digest handshake");

    let uri = "rtsp://127.0.0.1:88/videoMain";
    let describe_auth = camera
        .seen
        .iter()
        .find(|q| q.method == "DESCRIBE" && q.auth.is_some())
        .expect("DESCRIBE with authentication");
    let auth_hdr = describe_auth.auth.as_ref().unwrap();
    let cnonce = extract_auth_param(auth_hdr, "cnonce").expect("cnonce");
    let got = extract_auth_param(auth_hdr, "response").expect("response");
    let want =
        expected_response_qop("admin", "IPCAM", "secret", "DESCRIBE", uri, "n0nc3", cnonce);
    assert_eq!(got, want, "Digest response must match");
    assert!(auth_hdr.contains("qop=auth"));
    assert!(auth_hdr.contains("nc=00000001"));
    // SETUP without authentication is refused, and repeated on a new connection.
    let methods: Vec<&str> = camera.seen.iter().map(|q| q.method.as_str()).collect();
    assert_eq!(
        methods,
        vec!["OPTIONS", "DESCRIBE", "DESCRIBE", "DESCRIBE", "SETUP", "SETUP", "SETUP", "PLAY"]
    );
    assert_eq!(camera.seen[5].cseq, Some(1));
    assert!(camera.seen[5].auth.is_none());
    assert!(camera.seen[6].auth.is_some());
}

#[test]
fn digest_auth_no_qop_challenge() {
    let challenge = "Digest realm=\"CAM\", nonce=\"n0nc3\"";
    let mut camera = Camera::new(Some(challenge), VIDEO_ONLY, "sess1");
    let mut client = RtspClient::new("127.0.0.1", 88, "live", "admin", "pw");
    handshake(&mut client, &mut camera).expect("digest handshake");

    let describe_auth = camera
        .seen
        .iter()
        .find(|q| q.method == "DESCRIBE" && q.auth.is_some())
        .expect("DESCRIBE with authentication");
    let auth_hdr = describe_auth.auth.as_ref().unwrap();
    let got = extract_auth_param(auth_hdr, "response").expect("response");
    let uri = "rtsp://127.0.0.1:88/live";
    let want = expected_response_plain("admin", "CAM", "pw", "DESCRIBE", uri, "n0nc3");
    assert_eq!(got, want);
    assert!(!auth_hdr.contains("qop="));
    assert!(!auth_hdr.contains("cnonce="));
}

#[test]
fn audio_track_setup_two_setups() {
    let mut camera = Camera::new(None, AUDIO_AND_VIDEO, "avsess");
    let mut client = RtspClient::new("127.0.0.1", 554, "stream", "admin", "pw");
    handshake(&mut client, &mut camera).expect("handshake");

    let setups: Vec<&Req> = camera.seen.iter().filter(|q| q.method == "SETUP").collect();
    assert_eq!(setups.len(), 2, "one SETUP per media section");
    assert_eq!(setups[0].transport.as_deref(), Some("RTP/AVP/TCP;unicast;interleaved=0-1"));
    assert_eq!(setups[1].transport.as_deref(), Some("RTP/AVP/TCP;unicast;interleaved=2-3"));
    let base = "rtsp://127.0.0.1:554/stream";
    assert_eq!(setups[0].url, format!("{base}/track1"));
    assert_eq!(setups[1].url, format!("{base}/track2"));
    assert_eq!(setups[1].session.as_deref(), Some("avsess"));
    let play = camera.seen.iter().find(|q| q.method == "PLAY").expect("PLAY");
    assert_eq!(play.session.as_deref(), Some("avsess"));
}

#[test]
fn digest_rejected_is_an_error() {
    let mut camera = Camera::new(Some("Digest realm=\"R\", nonce=\"n\""), VIDEO_ONLY, "s");
    camera.reject_auth = true;
    let mut client = RtspClient::new("127.0.0.1", 88, "v", "admin", "wrong");
    assert_eq!(handshake(&mut client, &mut camera), Err(RtspError::AuthRejected(401)));
    assert_eq!(camera.connections, 9);
}

#[test]
fn handshakes_that_fail() {
    let mut client = RtspClient::new("h", 88, "v", "u", "p");
    // No new connection.
    let mut camera = Camera::new(Some("Digest realm=\"R\""), VIDEO_ONLY, "s");
    camera.connections = 0;
    assert_eq!(handshake(&mut client, &mut camera), Err(RtspError::Reconnect));
    // A challenge without a nonce, and without a realm.
    for (challenge, e) in [
        ("Digest realm=\"R\"", RtspError::MissingNonce),
        ("Digest nonce=\"n\"", RtspError::MissingRealm),
    ] {
        let mut camera = Camera::new(Some(challenge), VIDEO_ONLY, "s");
        assert_eq!(handshake(&mut client, &mut camera), Err(e));
    }
    // No media.
    let mut camera = Camera::new(None, "v=0\r\n", "s");
    assert_eq!(handshake(&mut client, &mut camera), Err(RtspError::NoMedia));
    // A control URL that points elsewhere: no request goes there.
    let sdp = "m=video 0 RTP/AVP 96\r\na=control:rtsp://evil/x\r\n";
    let mut camera = Camera::new(None, sdp, "s");
    assert_eq!(handshake(&mut client, &mut camera), Err(RtspError::ForeignControlUrl("evil".into(), "h".into(), 88)));
    assert!(camera.seen.iter().all(|q| q.method != "SETUP"));
}

#[test]
fn steps_without_a_response() {
    let mut c = RtspClient::new("h", 88, "v", "u", "p");
    assert!(matches!(c.step(Awaiting::Options, Err(RtspError::Send), "c"), RtspStep::Fail(RtspError::Send)));
    assert!(matches!(c.step(Awaiting::Play, Err(RtspError::Send), "c"), RtspStep::Fail(RtspError::Send)));
    assert!(matches!(
        c.step(Awaiting::Describe, Err(RtspError::Send), "c"),
        RtspStep::Send(Awaiting::Challenge(false), _)
    ));
    assert!(matches!(c.step(Awaiting::Challenge(false), Err(RtspError::Send), "c"), RtspStep::Reconnect(_)));
    assert!(matches!(
        c.step(Awaiting::Authorized(true), Err(RtspError::Send), "c"),
        RtspStep::Fail(RtspError::Send)
    ));
    assert!(matches!(c.step(Awaiting::Setup(vec![], 0, None), Err(RtspError::Send), "c"), RtspStep::Reconnect(_)));
    assert_eq!(Awaiting::Authorized(false).time_limit(), Some(3));
    assert_eq!(Awaiting::Play.time_limit(), None);
}

#[test]
fn authorization_header_in_full() {
    let c = RtspClient::new("h", 88, "v", "Mufasa", "Circle Of Life");
    let challenge = "Digest realm=\"testrealm@host.com\", qop=\"auth\", nonce=\"dcd98b7102dd2f0e8b11d0f600bfb0c093\", opaque=\"5ccc069c403ebaf9f0171e9517f40e41\", algorithm=MD5";
    let got = c
        .digest_auth_header_with("GET", "/dir/index.html", challenge, "0a4f113b")
        .unwrap();
    assert_eq!(
        got,
        "Digest username=\"Mufasa\", realm=\"testrealm@host.com\", nonce=\"dcd98b7102dd2f0e8b11d0f600bfb0c093\", uri=\"/dir/index.html\", response=\"6629fae49393a05397450978507c4ef1\", algorithm=MD5, opaque=\"5ccc069c403ebaf9f0171e9517f40e41\", qop=auth, cnonce=\"0a4f113b\", nc=00000001"
    );
    assert!(c.digest_auth_header("GET", "/", challenge).unwrap().contains("qop=auth"));
    assert_eq!(
        c.digest_auth_header("GET", "/", "Digest realm=x"),
        Err(RtspError::MissingNonce)
    );
}

#[test]
fn session_algorithm_covers_both_nonces() {
    let challenge = "Digest realm=\"r\", nonce=\"n\", qop=auth, algorithm=\"MD5-sess\"";
    let c = parse_challenge(challenge).unwrap();
    let plain = md5_hex("u:r:p");
    let ha1 = md5_hex(&format!("{plain}:n:cc"));
    let ha2 = md5_hex("SETUP:/x");
    let want = md5_hex(&format!("{ha1}:n:00000001:cc:auth:{ha2}"));
    assert_eq!(c.response("u", "p", "SETUP", "/x", "cc"), want);
    assert!(c.authorization("u", "p", "SETUP", "/x", "cc").contains(", algorithm=MD5-sess,"));
}

#[test]
fn another_quality_of_protection() {
    // Another quality than `auth` is answered as if there were none.
    let c = parse_challenge("Digest realm=\"r\", nonce=\"n\", qop=\"auth-int\"").unwrap();
    let want = expected_response_plain("u", "r", "p", "M", "/", "n");
    assert_eq!(c.response("u", "p", "M", "/", "cc"), want);
    assert!(!c.authorization("u", "p", "M", "/", "cc").contains("qop="));
}

#[test]
fn auth_is_taken_out_of_the_list() {
    for list in ["auth,auth-int", "auth-int, auth", " auth "] {
        let challenge = format!("Digest realm=\"r\", nonce=\"n\", qop=\"{list}\"");
        let c = parse_challenge(&challenge).unwrap();
        let want = expected_response_qop("u", "r", "p", "M", "/", "n", "cc");
        assert_eq!(c.response("u", "p", "M", "/", "cc"), want);
        assert!(c
            .authorization("u", "p", "M", "/", "cc")
            .ends_with(", qop=auth, cnonce=\"cc\", nc=00000001"));
    }
}

#[test]
fn a_new_connection_has_no_session() {
    let mut c = RtspClient::new("h", 88, "v", "u", "p");
    let media = parse_sdp_media("m=video 0 x 96\r\nm=audio 0 x 0\r\n").unwrap();
    let ok = || RtspResponse {
        status_code: 200,
        headers: "Session: old\r\n".into(),
        body: String::new(),
    };
    let refused = || RtspResponse {
        status_code: 401,
        headers: "WWW-Authenticate: Digest realm=\"r\", nonce=\"n\"\r\n".into(),
        body: String::new(),
    };
    // The first track is set up, the second is refused.
    let step = c.step(Awaiting::Setup(media, 0, None), Ok(ok()), "c");
    assert_eq!(c.session.as_deref(), Some("old"));
    let awaiting = match step {
        RtspStep::Send(a, request) => {
            assert!(request.contains("Session: old\r\n"));
            a
        }
        other => panic!("unexpected: {other:?}"),
    };
    let again = match c.step(awaiting, Ok(refused()), "c") {
        RtspStep::Reconnect(r) => r,
        other => panic!("unexpected: {other:?}"),
    };
    let awaiting = match c.reconnect(again, Ok(())) {
        RtspStep::Send(a, request) => {
            assert!(!request.contains("Session:"));
            a
        }
        other => panic!("unexpected: {other:?}"),
    };
    assert_eq!(c.session, None);
    match c.step(awaiting, Ok(refused()), "c") {
        RtspStep::Send(Awaiting::Setup(_, 0, Some(_)), request) => {
            assert!(request.contains("Authorization: Digest"));
            assert!(!request.contains("Session:"));
        }
        other => panic!("unexpected: {other:?}"),
    }
}

#[test]
fn client_nonces() {
    assert_eq!(cnonce_at(0), "0000000000000000");
    assert_eq!(cnonce_at(0x1234_abcd), "000000001234abcd");
    assert_eq!(cnonce_at(u128::MAX), "f".repeat(32));
    let c = generate_cnonce();
    assert!(c.len() >= 16 && c.chars().all(|d| d.is_ascii_hexdigit()));
    assert!(c != "0000000000000000");
}

#[test]
fn requests_in_full() {
    let mut c = RtspClient::new("1.2.3.4", 88, "videoMain", "u", "p");
    assert_eq!(c.rtsp_url(), "rtsp://1.2.3.4:88/videoMain");
    assert_eq!(c.options_request(), "OPTIONS rtsp://1.2.3.4:88/videoMain RTSP/1.0\r\nCSeq: 1\r\n\r\n");
    assert_eq!(
        c.describe_request(None),
        "DESCRIBE rtsp://1.2.3.4:88/videoMain RTSP/1.0\r\nCSeq: 2\r\nAccept: application/sdp\r\n\r\n"
    );
    assert_eq!(
        c.basic_describe_request(),
        "DESCRIBE rtsp://1.2.3.4:88/videoMain RTSP/1.0\r\nCSeq: 3\r\nAccept: application/sdp\r\nAuthorization: Basic dTpw\r\n\r\n"
    );
    assert_eq!(
        c.play_request(),
        "PLAY rtsp://1.2.3.4:88/videoMain RTSP/1.0\r\nCSeq: 4\r\nSession: \r\n\r\n"
    );
}

#[test]
fn teardown_sends_request() {
    let mut camera = Camera::new(None, VIDEO_ONLY, "ts");
    let mut client = RtspClient::new("127.0.0.1", 554, "v", "u", "p");
    handshake(&mut client, &mut camera).expect("handshake");
    assert_eq!(
        client.teardown(),
        "TEARDOWN rtsp://127.0.0.1:554/v RTSP/1.0\r\nCSeq: 5\r\nSession: ts\r\n\r\n"
    );
}

#[test]
fn challenges_in_responses() {
    let r = |code, headers: &str| RtspResponse {
        status_code: code,
        headers: headers.into(),
        body: String::new(),
    };
    assert_eq!(extract_challenge(&r(401, "WWW-Authenticate: x\r\n"), false), Ok("x".into()));
    assert_eq!(extract_challenge(&r(401, ""), false), Err(RtspError::NoChallenge));
    assert_eq!(extract_challenge(&r(200, ""), false), Err(RtspError::NoDescribeChallenge(200)));
    assert_eq!(extract_challenge(&r(200, ""), true), Err(RtspError::NoSetupChallenge(200)));
}

#[test]
fn responses_piece_by_piece() {
    let r = read("RTSP/1.0 200 OK\r\nCSeq: 1\r\nCONTENT-length: 3\r\n\r\nabcdef");
    assert_eq!(r.status_code, 200);
    assert_eq!(r.headers, "CSeq: 1\r\nCONTENT-length: 3\r\n");
    assert_eq!(r.body, "abc");
    let r = read("RTSP/1.0 404 Not Found\r\nContent-Length: x\r\n\r\nabc");
    assert_eq!((r.status_code, r.body.as_str()), (404, ""));
    assert_eq!(ResponseReader::start("garbage").err(), Some(RtspError::BadStatusLine("garbage".into())));
    let reader = ResponseReader::start("RTSP/1.0 200 OK").unwrap();
    assert_eq!(reader.finish(&[0x61, 0xff]).body, "a\u{fffd}");
}

/// Reads all packets out of the bytes.
fn packets(mut bytes: &[u8]) -> Vec<RtpPacket> {
    let mut reader = Interleaved::Magic;
    let mut out = Vec::new();
    while bytes.len() >= reader.needed() && (reader.needed() > 0 || !bytes.is_empty()) {
        let (piece, rest) = bytes.split_at(reader.needed());
        bytes = rest;
        out.extend(reader.feed(piece.to_vec()));
    }
    out
}

fn block(channel: u8, payload: &[u8]) -> Vec<u8> {
    let mut b = vec![b'$', channel, (payload.len() >> 8) as u8, payload.len() as u8];
    b.extend_from_slice(payload);
    b
}

#[test]
fn rtp_read_dispatches_channels() {
    let mut bytes = Vec::new();
    for (ch, payload) in [
        (1u8, vec![0xAAu8]),
        (0, vec![0x81, 0x01]),
        (3, vec![0xBB]),
        (2, vec![0x7F, 0x7F]),
        (5, vec![0xCC]),
        (0, vec![0x82, 0x02]),
    ] {
        bytes.extend(block(ch, &payload));
    }
    let got = packets(&bytes);
    assert_eq!(got.len(), 3);
    assert!(matches!(&got[0], RtpPacket::Video(p) if *p == vec![0x81, 0x01]));
    assert!(matches!(&got[1], RtpPacket::Audio(p) if *p == vec![0x7F, 0x7F]));
    assert!(matches!(&got[2], RtpPacket::Video(p) if *p == vec![0x82, 0x02]));
}

#[test]
fn reader_finds_the_next_block() {
    let mut bytes = b"junk".to_vec();
    let payload = vec![9u8; 300];
    bytes.extend(block(0, &payload));
    let got = packets(&bytes);
    assert_eq!(got.len(), 1);
    assert!(matches!(&got[0], RtpPacket::Video(p) if *p == payload));
}
