use fosipcore::video::rtsp_text::{
    extract_auth_param, extract_header, parse_sdp_media, parse_status_code,
    resolve_control_url, MediaKind, RtspError,
};

#[test]
fn test_parse_status_code_ok() {
    assert_eq!(parse_status_code("RTSP/1.0 200 OK\r\n").unwrap(), 200);
}

#[test]
fn test_parse_status_code_unauthorized() {
    assert_eq!(
        parse_status_code("RTSP/1.0 401 Unauthorized\r\n").unwrap(),
        401
    );
}

#[test]
fn test_parse_status_code_invalid() {
    assert!(parse_status_code("garbage").is_err());
}

#[test]
fn test_extract_header() {
    let headers = "CSeq: 1\r\nSession: 12345\r\nTransport: RTP/AVP/TCP\r\n";
    assert_eq!(extract_header(headers, "Session"), Some("12345"));
    assert_eq!(extract_header(headers, "CSeq"), Some("1"));
    assert_eq!(extract_header(headers, "Missing"), None);
}

#[test]
fn test_extract_header_case_insensitive() {
    let headers = "session: 54321\r\n";
    assert_eq!(extract_header(headers, "Session"), Some("54321"));
}

#[test]
fn test_extract_auth_param_quoted() {
    let auth = r#"Digest realm="IPCAM", nonce="abc123", opaque="xyz""#;
    assert_eq!(extract_auth_param(auth, "realm"), Some("IPCAM"));
    assert_eq!(extract_auth_param(auth, "nonce"), Some("abc123"));
    assert_eq!(extract_auth_param(auth, "opaque"), Some("xyz"));
}

#[test]
fn test_extract_auth_param_unquoted() {
    let auth = r#"Digest realm=IPCAM, nonce=abc123"#;
    assert_eq!(extract_auth_param(auth, "realm"), Some("IPCAM"));
    assert_eq!(extract_auth_param(auth, "nonce"), Some("abc123"));
}

#[test]
fn test_extract_auth_param_missing() {
    let auth = r#"Digest realm="IPCAM""#;
    assert_eq!(extract_auth_param(auth, "nonce"), None);
}

#[test]
fn test_parse_sdp_media_video_only() {
    let sdp = "v=0\r\nm=video 0 RTP/AVP 96\r\na=control:trackID=1\r\n";
    let media = parse_sdp_media(sdp).expect("parse");
    assert_eq!(media.len(), 1);
    assert_eq!(media[0].kind, MediaKind::Video);
    assert_eq!(media[0].payload_type, 96);
    assert_eq!(media[0].control.as_deref(), Some("trackID=1"));
}

#[test]
fn test_parse_sdp_media_real_camera() {
    // Real camera SDP: session-level `*`, video track1 (PT 96),
    // audio track2 (PT 0 = PCMU).
    let sdp = "v=0\r\na=control:*\r\nm=video 0 RTP/AVP 96\r\na=control:track1\r\nm=audio 0 RTP/AVP 0\r\na=control:track2\r\n";
    let media = parse_sdp_media(sdp).expect("parse");
    assert_eq!(media.len(), 2);
    assert_eq!(media[0].kind, MediaKind::Video);
    assert_eq!(media[0].payload_type, 96);
    assert_eq!(media[0].control.as_deref(), Some("track1"));
    assert_eq!(media[1].kind, MediaKind::Audio);
    assert_eq!(media[1].payload_type, 0);
    assert_eq!(media[1].control.as_deref(), Some("track2"));
}

#[test]
fn test_parse_sdp_media_no_control() {
    // No a=control anywhere: controls stay None (SETUP falls back
    // to the base URL).
    let sdp = "v=0\r\nm=video 0 RTP/AVP 96\r\nm=audio 0 RTP/AVP 0\r\n";
    let media = parse_sdp_media(sdp).expect("parse");
    assert_eq!(media.len(), 2);
    assert_eq!(media[0].control, None);
    assert_eq!(media[1].control, None);
}

#[test]
fn test_parse_sdp_media_ignores_unknown_media() {
    let sdp = "v=0\r\nm=application 0 RTP/AVP 96\r\nm=video 0 RTP/AVP 96\r\n";
    let media = parse_sdp_media(sdp).expect("parse");
    assert_eq!(media.len(), 1);
    assert_eq!(media[0].kind, MediaKind::Video);
}

#[test]
fn test_parse_sdp_media_missing() {
    let sdp = "v=0\r\no=- 0 0 IN IP4 10.0.0.1\r\n";
    assert!(parse_sdp_media(sdp).is_err());
}

#[test]
fn control_relative_appends_to_base() {
    let url = resolve_control_url("rtsp://192.168.1.50:88/videoMain", "track1", "192.168.1.50", 88)
        .unwrap();
    assert_eq!(url, "rtsp://192.168.1.50:88/videoMain/track1");

    let url = resolve_control_url("rtsp://192.168.1.50:88/videoMain", "/track2", "192.168.1.50", 88)
        .unwrap();
    assert_eq!(url, "rtsp://192.168.1.50:88/videoMain/track2");
}

#[test]
fn control_wildcard_or_empty_uses_base() {
    assert_eq!(
        resolve_control_url("rtsp://h:88/v", "*", "h", 88).unwrap(),
        "rtsp://h:88/v"
    );
    assert_eq!(
        resolve_control_url("rtsp://h:88/v", "", "h", 88).unwrap(),
        "rtsp://h:88/v"
    );
}

#[test]
fn control_absolute_same_host_port_ok() {
    let url = resolve_control_url(
        "rtsp://192.168.1.50:88/videoMain",
        "rtsp://192.168.1.50:88/videoMain/track1",
        "192.168.1.50",
        88,
    )
    .unwrap();
    assert_eq!(url, "rtsp://192.168.1.50:88/videoMain/track1");
}

#[test]
fn control_absolute_foreign_host_rejected() {
    // The passive-abuse case: a hostile SDP steering SETUP (and its
    // Digest auth header) at the cloud metadata service / localhost.
    let err = resolve_control_url(
        "rtsp://192.168.1.50:88/videoMain",
        "rtsp://169.254.169.254/steal",
        "192.168.1.50",
        88,
    )
    .unwrap_err();
    assert!(err.message().contains("refusing"), "{err:?}");

    let err = resolve_control_url(
        "rtsp://192.168.1.50:88/videoMain",
        "rtsp://127.0.0.1:50001/steal",
        "192.168.1.50",
        88,
    )
    .unwrap_err();
    assert!(err.message().contains("refusing"), "{err:?}");

    // Same host, different port is also rejected.
    assert!(
        resolve_control_url(
            "rtsp://192.168.1.50:88/videoMain",
            "rtsp://192.168.1.50:8088/videoMain/track1",
            "192.168.1.50",
            88
        )
        .is_err()
    );
}

#[test]
fn status_lines_at_their_edges() {
    assert_eq!(parse_status_code(""), Err(RtspError::BadStatusLine("".into())));
    assert_eq!(parse_status_code("RTSP/1.0"), Err(RtspError::BadStatusLine("RTSP/1.0".into())));
    assert_eq!(parse_status_code("RTSP/1.0 OK"), Err(RtspError::BadStatusCode("OK".into())));
    assert_eq!(parse_status_code("RTSP/1.0 65536 x"), Err(RtspError::BadStatusCode("65536".into())));
    assert_eq!(parse_status_code("  a\t65535"), Ok(65535));
    assert_eq!(parse_status_code("a\u{2003}7"), Ok(7));
}

#[test]
fn header_fields_at_their_edges() {
    assert_eq!(extract_header("", "a"), None);
    assert_eq!(extract_header("a", "a"), None);
    assert_eq!(extract_header("a:", "a"), Some(""));
    assert_eq!(extract_header("x: 1\n A : b:c \r\na: second", "a"), Some("b:c"));
    assert_eq!(extract_header("\u{c4}: 1", "\u{e4}"), Some("1"));
    assert_eq!(extract_header("a\n:\nb: 2", "B"), Some("2"));
}

#[test]
fn challenge_parameters_at_their_edges() {
    assert_eq!(extract_auth_param("REALM = x", "realm"), None);
    assert_eq!(extract_auth_param("ReAlM= \"a b\" ,x", "realm"), Some("a b"));
    assert_eq!(extract_auth_param("realm=\"open", "realm"), None);
    assert_eq!(extract_auth_param("realm=", "realm"), Some(""));
    assert_eq!(extract_auth_param("realm=a b", "realm"), Some("a"));
    assert_eq!(extract_auth_param("realm=\u{e9}t\u{e9},x", "realm"), Some("\u{e9}t\u{e9}"));
}

#[test]
fn challenge_parameters_have_their_whole_name() {
    // Not a name that ends in the one that is asked for.
    let auth = "Digest realm=\"IPCAM\", cnonce=\"x\", nonce=\"y\"";
    assert_eq!(extract_auth_param(auth, "nonce"), Some("y"));
    assert_eq!(extract_auth_param("cnonce=1,nonce=2", "nonce"), Some("2"));
    assert_eq!(extract_auth_param("cnonce=1", "nonce"), None);
    // Not what stands within quotes.
    let auth = "Digest realm=\"a, nonce=b\", nonce=\"y\"";
    assert_eq!(extract_auth_param(auth, "nonce"), Some("y"));
    assert_eq!(extract_auth_param(auth, "realm"), Some("a, nonce=b"));
    assert_eq!(extract_auth_param("realm=\"open, nonce=x", "nonce"), Some("x"));
    // Behind any character that cannot belong to a name.
    assert_eq!(extract_auth_param("realm=\"a\";nonce=\"b\"", "nonce"), Some("b"));
    assert_eq!(extract_auth_param("realm=\"a\"nonce=b", "nonce"), Some("b"));
    assert_eq!(extract_auth_param("(nonce=b)", "nonce"), Some("b)"));
    assert_eq!(extract_auth_param("x-nonce=b", "nonce"), None);
    // The first one counts.
    assert_eq!(extract_auth_param("nonce=1, nonce=2", "nonce"), Some("1"));
}

#[test]
fn challenge_parameters_behind_other_letters() {
    // U+212A is three bytes long and its small letter is one.
    assert_eq!(extract_auth_param("\u{212a} a=\u{e9}", "a"), Some("\u{e9}"));
    assert_eq!(extract_auth_param("\u{212a}\u{212a}a=x", "a"), None);
    assert_eq!(extract_auth_param("\u{212a}=x", "k"), Some("x"));
    // U+023A is two bytes long and its small letter is three.
    assert_eq!(extract_auth_param("\u{23a}\u{23a},a=y", "A"), Some("y"));
}

#[test]
fn control_attributes_belong_to_their_section() {
    let sdp = "v=0\r\nm=video 0 RTP/AVP 96\r\na=control:track1\r\nm=application 0 RTP/AVP 107\r\na=control:track3\r\n";
    let m = parse_sdp_media(sdp).unwrap();
    assert_eq!(m.len(), 1);
    assert_eq!(m[0].kind, MediaKind::Video);
    assert_eq!(m[0].payload_type, 96);
    assert_eq!(m[0].control.as_deref(), Some("track1"));
    // The section behind the one that is left out has its own again.
    let sdp = "a=control:s\nm=video 0 x 1\nm=\na=control:a\nm=audio 0 x 0\na=control:b\n";
    let m = parse_sdp_media(sdp).unwrap();
    assert_eq!(m[0].control, None);
    assert_eq!(m[1].control.as_deref(), Some("b"));
}

#[test]
fn media_lines_at_their_edges() {
    let m = parse_sdp_media("m=audio 0 RTP/AVP 300\na=control: * \na=control:\nm=video\na=control:x\na=control: y ").unwrap();
    assert_eq!(m.len(), 2);
    assert_eq!(m[0].kind, MediaKind::Audio);
    assert_eq!(m[0].payload_type, 0);
    assert_eq!(m[0].control, None);
    assert_eq!(m[1].payload_type, 0);
    assert_eq!(m[1].control.as_deref(), Some("y"));
    assert_eq!(parse_sdp_media("").err(), Some(RtspError::NoMedia));
    assert_eq!((m[0].kind.name(), m[1].kind.name()), ("audio", "video"));
}

#[test]
fn control_urls_at_their_edges() {
    let r = |base, control| resolve_control_url(base, control, " H ", 554);
    assert_eq!(r("rtsp://h/v/", "t"), Ok("rtsp://h/v/t".into()));
    assert_eq!(r("", "t"), Ok("/t".into()));
    assert_eq!(r("b", "rtsp://H/x"), Ok("rtsp://H/x".into()));
    assert_eq!(r("b", " rtsp://h:554 "), Ok("rtsp://h:554".into()));
    assert_eq!(r("b", "rtsp://h:x/"), Err(RtspError::ForeignControlUrl("h:x".into(), " H ".into(), 554)));
    assert_eq!(r("b", "RTSP://evil/x"), Ok("b/RTSP://evil/x".into()));
}

#[test]
fn errors_in_words() {
    for (e, text) in [
        (RtspError::Send, "RTSP: send failed"),
        (RtspError::Flush, "RTSP: flush failed"),
        (RtspError::ReadStatusLine, "RTSP: failed to read status line"),
        (RtspError::ReadHeaders, "RTSP: failed to read headers"),
        (RtspError::ReadBody, "RTSP: failed to read body"),
        (RtspError::AuthTimeout, "RTSP: timeout waiting for auth response"),
        (RtspError::ReadAuthStatusLine, "RTSP: failed to read auth status line"),
        (RtspError::ReadAuthHeaders, "RTSP: failed to read auth headers"),
        (RtspError::AuthBodyTimeout(12), "RTSP: timeout reading auth body (12 bytes)"),
        (RtspError::ReadAuthBody, "RTSP: failed to read auth body"),
        (RtspError::ReconnectTimeout, "RTSP: reconnect timeout"),
        (RtspError::Reconnect, "RTSP: reconnect failed"),
        (RtspError::BadStatusLine("a\r\n".into()), "RTSP: invalid status line: \"a\\r\\n\""),
        (RtspError::BadStatusCode("OK".into()), "RTSP: invalid status code: OK"),
        (RtspError::Unauthorized, "RTSP: got 401"),
        (RtspError::DescribeStatus(454), "RTSP: unexpected DESCRIBE status 454"),
        (RtspError::NoDescribeChallenge(403), "RTSP: expected 401, got 403"),
        (RtspError::AuthRejected(401), "RTSP: Digest auth rejected (401)"),
        (RtspError::NoSetupChallenge(200), "RTSP: expected 401 challenge, got 200"),
        (RtspError::SetupFailed(MediaKind::Audio, 454), "RTSP: SETUP audio failed with 454"),
        (RtspError::NoChallenge, "RTSP: 401 missing WWW-Authenticate"),
        (RtspError::MissingRealm, "RTSP: Digest challenge missing realm"),
        (RtspError::MissingNonce, "RTSP: Digest challenge missing nonce"),
        (RtspError::NoMedia, "RTSP: no media sections found in SDP"),
        (RtspError::NothingToSetUp, "RTSP: no media sections to SETUP"),
        (
            RtspError::ForeignControlUrl("evil:1".into(), "cam".into(), 88),
            "RTSP: SDP a=control points at evil:1, expected cam:88 \u{2014} refusing",
        ),
    ] {
        assert_eq!(e.message(), text);
    }
}
