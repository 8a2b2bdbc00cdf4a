use fosipcore::protocol::messages::CgiResponse;
use fosipcore::proxy::cgi::{
    base64_encode, cgi_result, cgi_url, cgi_usr_url, default_stream_param, extract_xml_value,
    full_path_url, gather_init_info, init_info_commands, login_url, logout_url,
    parse_audio_setting, parse_image_setting, parse_infra_led, parse_stream_param, redact_creds,
    snapshot_url,
};
use fosipcore::proxy::{read_capped, BodyError, CappedBody, MAX_CAMERA_RESPONSE_BYTES};

fn answer(xml: &str) -> CgiResponse {
    CgiResponse { result: 0, response: xml.into() }
}

#[test]
fn test_base64_encode() {
    let data = b"Hello, world!";
    let encoded = base64_encode(data);
    assert_eq!(encoded, "SGVsbG8sIHdvcmxkIQ==");
}

#[test]
fn test_base64_encode_empty() {
    let data = b"";
    let encoded = base64_encode(data);
    assert_eq!(encoded, "");
}

#[test]
fn test_redact_creds_masks_url_params() {
    let url = "http://192.168.1.50:88/cgi-bin/CGIProxy.fcgi?usrName=admin&pwd=secret&cmd=logIn";
    assert_eq!(
        redact_creds(url),
        "http://192.168.1.50:88/cgi-bin/CGIProxy.fcgi?usrName=***&pwd=***&cmd=logIn"
    );
}

#[test]
fn test_redact_creds_usr_param() {
    let url = "http://192.168.1.50:88/cgi-bin/snapPicture.jpg?usr=admin&pwd=s3cr3t";
    assert_eq!(
        redact_creds(url),
        "http://192.168.1.50:88/cgi-bin/snapPicture.jpg?usr=***&pwd=***"
    );
}

#[test]
fn test_redact_creds_error_chain_with_url() {
    // Shape of a reqwest error: the full URL (with creds) in the text.
    let e = "error sending request for url (http://127.0.0.1:88/cgi-bin/CGIProxy.fcgi?usrName=admin&pwd=hunter2&cmd=logIn)";
    assert_eq!(
        redact_creds(e),
        "error sending request for url (http://127.0.0.1:88/cgi-bin/CGIProxy.fcgi?usrName=***&pwd=***&cmd=logIn)"
    );
}

#[test]
fn test_redact_creds_no_creds_unchanged() {
    let s = "http://192.168.1.50:88/ nothing sensitive here";
    assert_eq!(redact_creds(s), s);
}

#[test]
fn test_redact_creds_username_not_masked() {
    // "user" must not match inside "username" (no '=' follows "user").
    let s = "username=bob&pwd=secret";
    assert_eq!(redact_creds(s), "username=bob&pwd=***");
}

#[test]
fn test_cgi_response_success() {
    let resp = CgiResponse {
        result: 0,
        response: "<CGI_Result><code>0</code></CGI_Result>".into(),
    };
    let json = serde_json::to_string(&resp.to_value()).expect("should serialize");
    assert!(json.contains("\"result\":0"));
}

#[test]
fn test_cgi_response_error() {
    let resp = CgiResponse {
        result: -1,
        response: "error".into(),
    };
    let json = serde_json::to_string(&resp.to_value()).expect("should serialize");
    assert!(json.contains("\"result\":-1"));
}

#[test]
fn extract_xml_value_present_absent_and_bad() {
    assert_eq!(extract_xml_value("<a>123</a>", "a"), Some(123));
    // Whitespace around the value is trimmed.
    assert_eq!(extract_xml_value("<a>  456  </a>", "a"), Some(456));
    // Absent tag.
    assert_eq!(extract_xml_value("<a>1</a>", "b"), None);
    // Non-numeric value.
    assert_eq!(extract_xml_value("<a>abc</a>", "a"), None);
    // Empty value.
    assert_eq!(extract_xml_value("<a></a>", "a"), None);
    // Negative parses fine as i64? no — u32: negative fails to parse.
    assert_eq!(extract_xml_value("<a>-5</a>", "a"), None);
}

#[test]
fn default_stream_param_has_20_known_values() {
    let p = default_stream_param();
    assert_eq!(p.len(), 20);
    assert_eq!(&p[0..5], &[9, 2_097_152, 15, 30, 1]);
    assert_eq!(&p[5..10], &[7, 1_048_576, 15, 30, 1]);
}

#[test]
fn parse_stream_param_none_returns_default() {
    assert_eq!(parse_stream_param(None), default_stream_param());
}

#[test]
fn parse_stream_param_parses_all_fields() {
    let mut xml = String::from("<CGI_Result><code>0</code>");
    for i in 0..4u32 {
        xml += &format!(
            "<resolution{i}>{r}</resolution{i}><bitRate{i}>{b}</bitRate{i}><frameRate{i}>{f}</frameRate{i}><GOP{i}>{g}</GOP{i}><isVBR{i}>{v}</isVBR{i}>",
            r = 100 + i, b = 1000 + i, f = 5 + i, g = 10 + i, v = i
        );
    }
    xml += "</CGI_Result>";
    let resp = CgiResponse { result: 0, response: xml };
    let p = parse_stream_param(Some(&resp));
    assert_eq!(p.len(), 20);
    for i in 0..4u32 {
        assert_eq!(p[5 * i as usize], 100 + i);
        assert_eq!(p[5 * i as usize + 1], 1000 + i);
        assert_eq!(p[5 * i as usize + 2], 5 + i);
        assert_eq!(p[5 * i as usize + 3], 10 + i);
        assert_eq!(p[5 * i as usize + 4], i);
    }
}

#[test]
fn parse_stream_param_missing_fields_use_per_stream_defaults() {
    // A response with NO recognizable tags: every stream falls back to the
    // per-stream defaults (9, 2097152, 15, 30, 1), not the varied
    // default_stream_param().
    let resp = CgiResponse {
        result: 0,
        response: "<CGI_Result><code>0</code></CGI_Result>".into(),
    };
    let p = parse_stream_param(Some(&resp));
    for i in 0..4 {
        assert_eq!(&p[5 * i..5 * i + 5], &[9, 2_097_152, 15, 30, 1]);
    }
}

#[test]
fn parse_image_setting_none_and_some() {
    assert_eq!(parse_image_setting(None), (50, 47, 55, 20, 30));
    let resp = CgiResponse {
        result: 0,
        response: "<brightness>66</brightness><contrast>44</contrast><hue>55</hue><saturation>22</saturation><sharpness>33</sharpness>".into(),
    };
    assert_eq!(parse_image_setting(Some(&resp)), (66, 44, 55, 22, 33));
}

#[test]
fn parse_audio_setting_none_and_some() {
    assert_eq!(parse_audio_setting(None), 100);
    let resp = CgiResponse {
        result: 0,
        response: "<volume>77</volume>".into(),
    };
    assert_eq!(parse_audio_setting(Some(&resp)), 77);
    // Missing tag falls back to 100.
    let resp2 = CgiResponse {
        result: 0,
        response: "<other>1</other>".into(),
    };
    assert_eq!(parse_audio_setting(Some(&resp2)), 100);
}

#[test]
fn parse_infra_led_none_and_some() {
    assert_eq!(parse_infra_led(None), 0);
    let resp = CgiResponse {
        result: 0,
        response: "<mode>2</mode>".into(),
    };
    assert_eq!(parse_infra_led(Some(&resp)), 2);
}

#[test]
fn gather_init_info_parses_all_endpoints() {
    let product = answer("<CGI_Result><code>0</code><product>FOO</product></CGI_Result>");
    let stream = answer(
        "<CGI_Result><code>0</code><resolution0>9</resolution0><bitRate0>2097152</bitRate0><frameRate0>15</frameRate0><GOP0>30</GOP0><isVBR0>1</isVBR0></CGI_Result>",
    );
    let image = answer(
        "<brightness>66</brightness><contrast>44</contrast><hue>55</hue><saturation>22</saturation><sharpness>33</sharpness>",
    );
    let audio = answer("<volume>77</volume>");
    let led = answer("<mode>2</mode>");
    let (product_xml, info) = gather_init_info(
        Some(product),
        Some(&stream),
        Some(&image),
        Some(&audio),
        Some(&led),
        9999,
    );
    assert!(product_xml.as_deref().unwrap().contains("<product>FOO</product>"));
    assert_eq!(info.live_port, 9999);
    assert_eq!(info.volume, 77);
    assert_eq!(info.infra_led_mode, 2);
    assert_eq!(
        (info.brightness, info.contrast, info.hue, info.saturation, info.sharpness),
        (66, 44, 55, 22, 33)
    );
    assert_eq!(&info.stream_param[0..5], &[9, 2_097_152, 15, 30, 1]);
    assert_eq!(info.usr_privilege, 2);
}

#[test]
fn gather_init_info_tolerates_failed_endpoints() {
    let (product_xml, info) = gather_init_info(None, None, None, None, None, 7777);
    assert!(product_xml.is_none());
    assert_eq!(info.live_port, 7777);
    assert_eq!(info.volume, 100);
    assert_eq!(info.infra_led_mode, 0);
    assert_eq!(info.stream_param, default_stream_param());
    assert_eq!(info.brightness, 50);
    assert_eq!(init_info_commands()[1], "getVideoStreamParam");
}

#[test]
fn urls_of_the_requests() {
    let c = "1.2.3.4:88";
    assert_eq!(
        cgi_url(c, "u", "p", "getDevInfo"),
        "http://1.2.3.4:88/cgi-bin/CGIProxy.fcgi?usrName=u&pwd=p&cmd=getDevInfo"
    );
    assert_eq!(
        cgi_usr_url(c, "u", "p", "getDevInfo"),
        "http://1.2.3.4:88/cgi-bin/CGIProxy.fcgi?usr=u&pwd=p&cmd=getDevInfo"
    );
    assert_eq!(
        login_url(c, "u", "p"),
        "http://1.2.3.4:88/cgi-bin/CGIProxy.fcgi?usrName=u&pwd=p&cmd=logIn&privilege=2"
    );
    assert_eq!(
        logout_url(c, "u", "p"),
        "http://1.2.3.4:88/cgi-bin/CGIProxy.fcgi?usrName=u&pwd=p&cmd=logOut"
    );
    assert_eq!(
        snapshot_url(c, "u", "p"),
        "http://1.2.3.4:88/cgi-bin/snapPicture.jpg?usr=u&pwd=p"
    );
    assert_eq!(full_path_url(c, "cgi-bin/x?y"), "http://1.2.3.4:88/cgi-bin/x?y");
}

#[test]
fn answers_by_their_status() {
    let ok = cgi_result(200, "200 OK", b"<CGI_Result><code>0</code></CGI_Result>");
    assert_eq!(ok.result, 0);
    assert_eq!(ok.response, "<CGI_Result><code>0</code></CGI_Result>");
    assert_eq!(cgi_result(299, "299", b"").result, 0);
    let moved = cgi_result(302, "302 Found", b"ignored");
    assert_eq!(moved.result, -1);
    assert_eq!(
        moved.response,
        "<CGI_Result><code>-1</code><error>HTTP 302 Found</error></CGI_Result>"
    );
    assert_eq!(cgi_result(199, "199", b"").result, -1);
    assert_eq!(cgi_result(300, "300", b"").result, -1);
    // Bytes that are no text are replaced.
    assert_eq!(cgi_result(200, "200 OK", b"a\xffb").response, "a\u{fffd}b");
}

#[test]
fn masked_text_does_not_depend_on_the_value() {
    let long = redact_creds("x pwd=hunter2&usr=admin) user=bob\nusrName=eve");
    assert_eq!(long, "x pwd=***&usr=***) user=***\nusrName=***");
    for value in ["", "a", "usr", "pwd=x", "\u{e9}"] {
        assert_eq!(redact_creds(&format!("pwd={value}&cmd=1")), "pwd=***&cmd=1");
    }
    assert_eq!(redact_creds("usr usrName user pwd"), "usr usrName user pwd");
    assert_eq!(redact_creds("pwdpwd=x"), "pwdpwd=***");
    assert_eq!(redact_creds(""), "");
}

#[test]
fn values_between_tags_at_their_edges() {
    assert_eq!(extract_xml_value("<a>4294967295</a>", "a"), Some(u32::MAX));
    assert_eq!(extract_xml_value("<a>4294967296</a>", "a"), None);
    assert_eq!(extract_xml_value("<a>+7</a>", "a"), Some(7));
    assert_eq!(extract_xml_value("</a><a>1", "a"), None);
    assert_eq!(extract_xml_value("</a><a>1</a><a>2</a>", "a"), Some(1));
    assert_eq!(extract_xml_value("<a><b>3</b></a>", "b"), Some(3));
}

#[test]
fn bodies_stay_under_the_cap() {
    let cap = MAX_CAMERA_RESPONSE_BYTES as u64;
    assert_eq!(CappedBody::start(Some(cap + 1)).err(), Some(BodyError::AnnouncedTooLarge(cap + 1)));
    assert!(CappedBody::start(Some(cap)).is_ok());
    let body = CappedBody::start(None).unwrap().push(&[1, 2]).unwrap().push(&[3]).unwrap();
    assert_eq!(body.finish(), vec![1, 2, 3]);
    let big = vec![0u8; MAX_CAMERA_RESPONSE_BYTES];
    let full = CappedBody::start(None).unwrap().push(&big).unwrap();
    assert_eq!(full.push(&[0]).err(), Some(BodyError::TooLarge));
}

#[test]
fn read_capped_rejects_oversized_content_length() {
    let len = MAX_CAMERA_RESPONSE_BYTES as u64 + 1;
    assert_eq!(read_capped(Some(len), &vec![]), Err(BodyError::AnnouncedTooLarge(len)));
}

#[test]
fn read_capped_streams_within_cap() {
    let chunks = vec![b"<CGI_Result>".to_vec(), b"ok".to_vec(), b"</CGI_Result>".to_vec()];
    assert_eq!(read_capped(None, &chunks).unwrap(), b"<CGI_Result>ok</CGI_Result>");
    let half = vec![0u8; MAX_CAMERA_RESPONSE_BYTES / 2 + 1];
    assert_eq!(read_capped(None, &vec![half.clone(), half]), Err(BodyError::TooLarge));
}

#[test]
fn base64_of_short_inputs() {
    assert_eq!(base64_encode(&[0xff]), "/w==");
    assert_eq!(base64_encode(&[0xff, 0xfe]), "//4=");
    assert_eq!(base64_encode(&[0xfb, 0xef, 0xbe]), "++++");
    assert_eq!(base64_encode(&[0, 16, 131, 16, 81, 135]), "ABCDEFGH");
}
