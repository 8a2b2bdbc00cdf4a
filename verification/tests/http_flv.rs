use fosipcore::audio::flv::flv_audio_header;
use fosipcore::net::OriginInfo;
use fosipcore::video::flv_muxer::flv_header;
use fosipcore::video::http_flv::{
    forbidden_response, handle_request, serve_audio_flv_stream, serve_playlist,
    serve_video_flv_stream, Method, Reply, ReplyBody, StreamWriter,
};
use fosipcore::video::{Pipeline, PipelineOutput, StreamPacket, VideoServer};

fn text(r: &Reply) -> &str {
    match &r.body {
        ReplyBody::Text(t) => t,
        other => panic!("unexpected: {other:?}"),
    }
}

fn field<'a>(r: &'a Reply, name: &str) -> Option<&'a str> {
    r.headers.iter().find(|h| h.0.eq_ignore_ascii_case(name)).map(|h| h.1.as_str())
}

fn origin() -> OriginInfo {
    OriginInfo { host: "camera.lan".into(), port: 88 }
}

#[test]
fn playlist_contains_actual_port() {
    let resp = serve_playlist(20000, "stream1.flv", None);
    let json = text(&resp);
    assert!(json.contains("http://127.0.0.1:20000/live/stream1.flv"), "{json}");

    let resp = serve_playlist(61234, "stream2.flv", Some("http://cam.lan:88"));
    let json = text(&resp);
    assert!(json.contains("http://127.0.0.1:61234/live/stream2.flv"), "{json}");
    assert_eq!(json, r#"{"type":"flv","url":"http://127.0.0.1:61234/live/stream2.flv"}"#);
}

#[test]
fn playlist_cors_echoes_origin_not_wildcard() {
    let resp = serve_playlist(20000, "stream1.flv", Some("http://cam.lan:88"));
    assert_eq!(field(&resp, "access-control-allow-origin").unwrap(), "http://cam.lan:88");

    // A client that is no page gets no such field at all.
    let resp = serve_playlist(20000, "stream1.flv", None);
    assert!(field(&resp, "access-control-allow-origin").is_none());
    assert_eq!(field(&resp, "cache-control"), Some("no-cache"));
}

#[test]
fn origin_gate_unarmed_allows() {
    // Without a pipeline there is nothing to protect.
    let vs = VideoServer::new();
    assert!(vs.origin_allowed(Some("http://evil.example")));
    assert!(vs.origin_allowed(None));
}

#[test]
fn origin_gate_armed_only_allows_camera_origin() {
    let mut vs = VideoServer::new();
    assert_eq!(vs.start(0, origin()), "videoMain");
    assert!(vs.origin_allowed(Some("http://camera.lan:88")));
    assert!(vs.origin_allowed(Some("http://CAMERA.lan:88/live")));
    assert!(vs.origin_allowed(None));
    assert!(!vs.origin_allowed(Some("http://evil.example")));
    assert!(!vs.origin_allowed(Some("http://camera.lan:80")));
    assert!(vs.origin_allowed(Some("https://camera.lan:88")));
    assert!(!vs.origin_allowed(Some("null")));
    vs.stop();
    assert!(vs.origin_allowed(Some("http://evil.example")));
}

#[test]
fn state_is_empty_before_start() {
    let mut vs = VideoServer::new();
    assert!(!vs.has_video());
    assert!(vs.armed_origin().is_none());
    assert_eq!(vs.start(1, origin()), "videoSub");
    assert!(vs.has_video());
    assert_eq!(vs.armed_origin(), Some(&origin()));
    assert_eq!(vs.start(7, origin()), "videoMain");
}

#[test]
fn session_port_gate_403_foreign_200_own_origin() {
    let mut vs = VideoServer::new();
    vs.start(0, origin());
    let get = |path, origin| handle_request(Method::Get, path, origin, &vs, 20000);
    for path in
        ["/live/playlist1.json", "/live/playlist2.json", "/live/stream1.flv", "/live/stream2.flv"]
    {
        let r = get(path, Some("http://evil.example"));
        assert_eq!(r.status, 403);
        assert!(field(&r, "access-control-allow-origin").is_none());
        let r = get(path, Some("http://camera.lan:88"));
        assert_eq!(r.status, 200);
        assert_eq!(field(&r, "access-control-allow-origin"), Some("http://camera.lan:88"));
        assert_eq!(get(path, None).status, 200);
    }
}

#[test]
fn forbidden_response_is_403() {
    let r = forbidden_response();
    assert_eq!(r.status, 403);
}

#[test]
fn no_active_stream_is_404() {
    let vs = VideoServer::new();
    let r = serve_video_flv_stream(&vs, None);
    assert_eq!(r.status, 404);
    assert_eq!(text(&r), "No video stream active");
    let r = serve_audio_flv_stream(&vs, None);
    assert_eq!(r.status, 404);
    assert_eq!(text(&r), "No audio stream active");
}

#[test]
fn routing_arms_serve_live_streams_and_errors() {
    let mut vs = VideoServer::new();
    vs.start(0, origin());
    let own = Some("http://camera.lan:88");
    let r = handle_request(Method::Get, "/live/playlist2.json", own, &vs, 20000);
    assert_eq!(r.status, 200);
    assert!(text(&r).contains("stream2.flv"));
    let r = handle_request(Method::Get, "/live/stream1.flv", own, &vs, 20000);
    assert_eq!(r.status, 200);
    assert_eq!(field(&r, "Content-Type"), Some("video/x-flv"));
    assert_eq!(field(&r, "Connection"), Some("close"));
    assert!(matches!(&r.body, ReplyBody::VideoStream(h) if *h == flv_header()));
    let r = handle_request(Method::Get, "/live/stream2.flv", None, &vs, 20000);
    assert_eq!(r.status, 200);
    assert_eq!(field(&r, "Content-Type"), Some("video/x-flv"));
    assert!(matches!(&r.body, ReplyBody::AudioStream(h) if *h == flv_audio_header()));
    let r = handle_request(Method::Options, "/live/stream1.flv", None, &vs, 20000);
    assert_eq!(r.status, 204);
    assert_eq!(text(&r), "");
    let r = handle_request(Method::Get, "/nope", None, &vs, 20000);
    assert_eq!(r.status, 404);
    let r = handle_request(Method::Get, "/", Some("http://evil.example"), &vs, 20000);
    assert_eq!(r.status, 200);
    assert_eq!(text(&r), "fosipcore HTTP-FLV / OK");
    assert_eq!(handle_request(Method::Other, "/", None, &vs, 20000).status, 404);
    vs.stop();
    let r = handle_request(Method::Get, "/live/stream1.flv", None, &vs, 20000);
    assert_eq!(r.status, 404);
}

#[test]
fn flv_stream_response_precedes_header_then_streams_tags() {
    let mut w = StreamWriter::new(vec![0x46, 0x4C, 0x56]);
    let mut bytes = w.chunk(vec![1, 2, 3]);
    assert_eq!(bytes, b"FLV\x01\x02\x03");
    bytes.extend(w.chunk(vec![4, 5]));
    assert_eq!(&bytes[6..8], b"\x04\x05");
}

fn video_rtp(nal_hdr: u8, nal_data: &[u8]) -> StreamPacket {
    let mut p = vec![0x80, 96, 0, 1, 0, 0, 0, 0, 0, 0, 0, 1];
    p.push(nal_hdr);
    p.extend_from_slice(nal_data);
    StreamPacket::Video(p)
}

fn audio_rtp(n: usize) -> StreamPacket {
    let mut p = vec![0x80, 0, 0, 1, 0, 0, 0, 0, 0, 0, 0, 1];
    p.extend(vec![0xff; n]);
    StreamPacket::Audio(p)
}

#[test]
fn pipeline_streams_rtp_to_broadcast() {
    let mut pipeline = Pipeline::new().expect("init");
    let mut video = Vec::new();
    for packet in [
        video_rtp(0x67, &[0x42, 0x00, 0x1e]),
        video_rtp(0x68, &[0xce, 0x3c, 0x80]),
        video_rtp(0x65, &[1, 2, 3, 4]),
        video_rtp(0x41, &[5, 6]),
    ] {
        assert!(pipeline.has_room(&packet));
        match pipeline.on_packet(packet) {
            PipelineOutput::Video(tags) => video.extend(tags),
            other => panic!("unexpected: {other:?}"),
        }
    }
    assert_eq!(video.len(), 4);
    assert_eq!(video[0][0], 0x12);
    assert_eq!(video[1][12], 0);
    assert_eq!(video[2][11], 0x17);
    assert_eq!(video[3][11], 0x27);
    let mut audio = Vec::new();
    for _ in 0..8 {
        let packet = audio_rtp(160);
        assert!(pipeline.has_room(&packet));
        match pipeline.on_packet(packet) {
            PipelineOutput::Audio(tags) => audio.extend(tags),
            other => panic!("unexpected: {other:?}"),
        }
    }
    assert_eq!(audio.len(), 2);
    assert_eq!(audio[0][12], 0);
    assert_eq!(audio[1][12], 1);
}

/// What comes out on the two channels, without the timestamps of video tags.
fn run(packets: Vec<StreamPacket>) -> (Vec<Vec<u8>>, Vec<Vec<u8>>) {
    let mut pipeline = Pipeline::new().expect("init");
    let (mut video, mut audio) = (Vec::new(), Vec::new());
    for packet in packets {
        match pipeline.on_packet(packet) {
            PipelineOutput::Video(tags) => video.extend(tags.into_iter().map(|mut t: Vec<u8>| {
                t[4..8].fill(0);
                t
            })),
            PipelineOutput::Audio(tags) => audio.extend(tags),
            other => panic!("unexpected: {other:?}"),
        }
    }
    (video, audio)
}

#[test]
fn tracks_do_not_mix() {
    let video = || {
        vec![
            video_rtp(0x67, &[0x42, 0x00, 0x1e]),
            video_rtp(0x68, &[0xce, 0x3c, 0x80]),
            video_rtp(0x7c, &[0x85, 1, 2]),
            video_rtp(0x7c, &[0x45, 3]),
        ]
    };
    let audio = || (0..4).map(|_| audio_rtp(700)).collect::<Vec<_>>();
    let mixed = video().into_iter().zip(audio()).flat_map(|(v, a)| [a, v]).collect();
    let (want_video, none) = run(video());
    assert!(none.is_empty());
    let (none, want_audio) = run(audio());
    assert!(none.is_empty());
    assert_eq!((want_video.len(), want_audio.len()), (3, 3));
    assert_eq!(run(mixed), (want_video, want_audio));
}
