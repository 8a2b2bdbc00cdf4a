use fosipcore::flv_tag::{build_tag, build_tag_header};
use fosipcore::video::flv_muxer::{
    build_on_metadata, flv_header, flv_script_tag, FlvMuxer, AVC_NALU, AVC_SEQUENCE_HEADER,
    CODEC_AVC, FRAME_INTER, FRAME_KEYFRAME, TAG_TYPE_SCRIPT, TAG_TYPE_VIDEO,
};
use fosipcore::video::rtp_parser::NalUnit;

fn sps_nal() -> NalUnit {
    // 4-byte AVCC length prefix + a real SPS (NAL hdr, profile, constr, level).
    NalUnit {
        data: vec![0x00, 0x00, 0x00, 0x01, 0x67, 0x42, 0x00, 0x1E, 0x28, 0x96],
        nal_type: 7,
        is_keyframe: false,
        timestamp: 0,
    }
}

fn pps_nal() -> NalUnit {
    NalUnit {
        data: vec![0x00, 0x00, 0x00, 0x01, 0x68, 0xCE, 0x3C, 0x80],
        nal_type: 8,
        is_keyframe: false,
        timestamp: 0,
    }
}

fn idr_nal() -> NalUnit {
    NalUnit {
        data: vec![0x00, 0x00, 0x00, 0x01, 0x65, 0xAA, 0xBB, 0xCC],
        nal_type: 5,
        is_keyframe: true,
        timestamp: 0,
    }
}

fn pframe_nal() -> NalUnit {
    NalUnit {
        data: vec![0x00, 0x00, 0x00, 0x01, 0x41, 0x11, 0x22],
        nal_type: 1,
        is_keyframe: false,
        timestamp: 0,
    }
}

/// The timestamp in the header of a tag.
fn tag_ts(tag: &[u8]) -> u32 {
    ((tag[4] as u32) << 16) | ((tag[5] as u32) << 8) | (tag[6] as u32) | ((tag[7] as u32) << 24)
}

/// Feeds both parameter sets and gives what comes out.
fn init_burst(muxer: &mut FlvMuxer) -> Vec<Vec<u8>> {
    assert!(muxer.process_nal(&sps_nal()).is_empty(), "SPS alone does not init");
    muxer.process_nal(&pps_nal())
}

#[test]
fn test_flv_header() {
    let hdr = flv_header();
    assert_eq!(hdr.len(), 13);
    assert_eq!(&hdr[0..3], b"FLV");
    assert_eq!(hdr[3], 1); // version
    assert_eq!(hdr[4], 0x01); // video-only flags
                              // DataOffset: 9
    assert_eq!(u32::from_be_bytes([hdr[5], hdr[6], hdr[7], hdr[8]]), 9);
}

#[test]
fn test_build_tag_header() {
    let hdr = build_tag_header(TAG_TYPE_VIDEO, 100, 0);
    assert_eq!(hdr[0], 0x09); // Video tag type
    assert_eq!(hdr[1..4], [0x00, 0x00, 0x64]); // DataSize=100 BE
    assert_eq!(hdr[4..7], [0x00, 0x00, 0x00]); // Timestamp=0
    assert_eq!(hdr[7], 0x00); // TimestampExtended
    assert_eq!(hdr[8..11], [0x00, 0x00, 0x00]); // StreamID=0

    // Test timestamp with high bit
    let hdr_high = build_tag_header(TAG_TYPE_VIDEO, 100, 0x0100_0000);
    assert_eq!(hdr_high[7], 0x01); // TimestampExtended
}

#[test]
fn test_muxer_initial_state() {
    let muxer = FlvMuxer::new();
    assert!(muxer.sps.is_none());
    assert!(muxer.pps.is_none());
    assert!(!muxer.initialized);
}

#[test]
fn test_build_on_metadata() {
    let meta = build_on_metadata();
    // Should start with AMF0 string marker + "onMetaData"
    assert_eq!(meta[0], 0x02);
    let name_len = u16::from_be_bytes([meta[1], meta[2]]) as usize;
    assert_eq!(&meta[3..3 + name_len], b"onMetaData");
    // Should continue with ECMA array marker
    let after_name = 3 + name_len;
    assert_eq!(meta[after_name], 0x08);
}

#[test]
fn init_burst_is_script_then_sequence_header() {
    let mut m = FlvMuxer::new();
    let burst = init_burst(&mut m);
    assert_eq!(burst.len(), 2, "exactly script + sequence header");

    // Tag 1: script (onMetaData).
    let script = &burst[0];
    assert_eq!(script[0], TAG_TYPE_SCRIPT);
    assert!(script.windows(10).any(|w| w == b"onMetaData"));

    // Tag 2: AVC sequence header video tag.
    let seq = &burst[1];
    assert_eq!(seq[0], TAG_TYPE_VIDEO);
    assert_eq!(seq[11], FRAME_KEYFRAME << 4 | CODEC_AVC, "keyframe|AVC");
    assert_eq!(seq[12], AVC_SEQUENCE_HEADER);
    assert_eq!(&seq[13..16], &[0, 0, 0], "composition time");
    // AVC decoder config record.
    assert_eq!(seq[16], 1, "config version");
    assert_eq!(seq[17], 0x42, "profile from SPS[1]");
    assert_eq!(seq[18], 0, "compatibility");
    assert_eq!(seq[19], 0x1E, "level from SPS[3]");
    assert_eq!(seq[20], 0xFF);
    assert_eq!(seq[21], 0xE1, "numSPS=1");
}

#[test]
fn sequence_header_emitted_exactly_once() {
    let mut m = FlvMuxer::new();
    init_burst(&mut m);

    // Video frames after init emit exactly one tag each (no re-init).
    let t1 = m.process_nal(&idr_nal());
    assert_eq!(t1.len(), 1);
    assert_eq!(t1[0][12], AVC_NALU);

    // Re-feeding SPS/PPS after init is a no-op (no initialization burst).
    assert!(m.process_nal(&sps_nal()).is_empty());
    assert!(m.process_nal(&pps_nal()).is_empty());
}

#[test]
fn pps_then_sps_still_initializes() {
    // PPS arriving before SPS must not init; SPS then completes it.
    let mut m = FlvMuxer::new();
    assert!(m.process_nal(&pps_nal()).is_empty());
    let burst = m.process_nal(&sps_nal());
    assert_eq!(burst.len(), 2, "SPS after PPS triggers init");
    assert_eq!(burst[1][0], TAG_TYPE_VIDEO);
}

#[test]
fn idr_vs_pframe_keyframe_flag() {
    let mut m = FlvMuxer::new();
    init_burst(&mut m);

    let idr = &m.process_nal(&idr_nal())[0];
    let p = &m.process_nal(&pframe_nal())[0];
    // FrameType occupies the high nibble of byte 11.
    assert_eq!(idr[11] >> 4, FRAME_KEYFRAME);
    assert_eq!(p[11] >> 4, FRAME_INTER);
    // Both are AVC NAL units with the codec nibble preserved.
    assert_eq!(idr[11] & 0x0F, CODEC_AVC);
    assert_eq!(p[11] & 0x0F, CODEC_AVC);
    assert_eq!(idr[12], AVC_NALU);
    assert_eq!(p[12], AVC_NALU);
}

#[test]
fn video_frame_deferred_before_sequence_header() {
    // A frame arriving before SPS/PPS is held, not emitted.
    let mut m = FlvMuxer::new();
    assert!(m.process_nal(&idr_nal()).is_empty(), "pre-init frame deferred");
    // It does not clobber the not-yet-set state.
    assert!(m.sps.is_none() && m.pps.is_none() && !m.initialized);
}

#[test]
fn sequence_header_cached_for_catchup() {
    let mut m = FlvMuxer::new();
    let burst = init_burst(&mut m);
    let cached = m.sequence_header().expect("sequence header cached");
    assert_eq!(cached, burst[1].as_slice());
}

#[test]
fn sequence_header_none_before_init() {
    // New muxer has no sequence header until SPS+PPS arrive.
    assert!(FlvMuxer::new().sequence_header().is_none());
}

#[test]
fn flv_script_tag_is_metadata_at_zero() {
    let tag = flv_script_tag();
    assert_eq!(tag[0], TAG_TYPE_SCRIPT);
    assert!(tag.windows(10).any(|w| w == b"onMetaData"));
}

#[test]
fn short_nal_without_start_code_prefix() {
    // NALs whose data is <= 4 bytes skip the AVCC-prefix strip (the
    // `else` arm of the SPS/PPS accumulation).
    let mut m = FlvMuxer::new();
    let short_sps = NalUnit {
        data: vec![0x67, 0x42, 0x00, 0x1E], // len == 4, no prefix stripped
        nal_type: 7,
        is_keyframe: false,
        timestamp: 0,
    };
    let short_pps = NalUnit {
        data: vec![0x68, 0xCE], // len < 4
        nal_type: 8,
        is_keyframe: false,
        timestamp: 0,
    };
    assert!(m.process_nal(&short_sps).is_empty());
    let burst = m.process_nal(&short_pps);
    assert_eq!(burst.len(), 2, "init still fires without a start-code prefix");
}

#[test]
fn short_sps_falls_back_to_default_profile_level() {
    // raw SPS < 4 bytes (after the 4-byte prefix) -> defaults (0x42, 0x1E).
    let mut m = FlvMuxer::new();
    let short_sps = NalUnit {
        data: vec![0x00, 0x00, 0x00, 0x01, 0x67, 0x99], // raw = 2 bytes
        nal_type: 7,
        is_keyframe: false,
        timestamp: 0,
    };
    assert!(m.process_nal(&short_sps).is_empty());
    let burst = m.process_nal(&pps_nal());
    let seq = &burst[1];
    assert_eq!(seq[17], 0x42, "default profile");
    assert_eq!(seq[19], 0x1E, "default level");
}

#[test]
fn video_timestamps_are_monotonic_from_zero() {
    let mut m = FlvMuxer::new();
    init_burst(&mut m);
    // The muxer derives timestamps from the wall clock (input NALs carry
    // none), so assert the invariant that matters: the baseline is pinned
    // at the first frame and subsequent timestamps never go backwards.
    let mut prev_ts = tag_ts(&m.process_nal(&idr_nal())[0]);
    for _ in 0..8 {
        let ts = tag_ts(&m.process_nal(&pframe_nal())[0]);
        assert!(ts >= prev_ts, "timestamp went backwards: {prev_ts} -> {ts}");
        prev_ts = ts;
    }
    // All within the first couple of seconds of the stream.
    assert!(prev_ts < 1000);
}

#[test]
fn metadata_holds_the_numbers_of_the_stream() {
    let meta = build_on_metadata();
    let mut expected = vec![2u8, 0, 10];
    expected.extend_from_slice(b"onMetaData");
    expected.extend_from_slice(&[8, 0, 0, 0, 8]);
    let fields: [(&str, f64); 8] = [
        ("duration", 0.0),
        ("width", 2560.0),
        ("height", 1440.0),
        ("videodatarate", 0.0),
        ("framerate", 15.0),
        ("videocodecid", 7.0),
        ("encoder", 0.0),
        ("filesize", 0.0),
    ];
    for (name, value) in fields {
        expected.extend_from_slice(&(name.len() as u16).to_be_bytes());
        expected.extend_from_slice(name.as_bytes());
        expected.push(0);
        expected.extend_from_slice(&value.to_be_bytes());
    }
    expected.extend_from_slice(&[0, 0, 9]);
    assert_eq!(meta, expected);
}

#[test]
fn tags_tell_their_size_on_both_sides() {
    let data = vec![7u8; 70_000];
    let tag = build_tag(9, &data, 0xfedc_ba98);
    assert_eq!(tag[0], 9);
    assert_eq!(u32::from_be_bytes([0, tag[1], tag[2], tag[3]]), 70_000);
    assert_eq!(tag_ts(&tag), 0xfedc_ba98);
    assert_eq!(&tag[11..11 + 70_000], data.as_slice());
    let n = tag.len();
    assert_eq!(n, 11 + 70_000 + 4);
    assert_eq!(u32::from_be_bytes([tag[n - 4], tag[n - 3], tag[n - 2], tag[n - 1]]), 70_011);
}

#[test]
fn timestamps_count_from_the_first_frame() {
    let mut m = FlvMuxer::new();
    assert!(m.process_nal_at(&sps_nal(), 5).is_empty());
    let burst = m.process_nal_at(&pps_nal(), 40);
    assert_eq!(tag_ts(&burst[0]), 40);
    assert_eq!(tag_ts(&burst[1]), 40);
    assert_eq!(tag_ts(&m.process_nal_at(&idr_nal(), 100)[0]), 0);
    assert_eq!(tag_ts(&m.process_nal_at(&pframe_nal(), 166)[0]), 66);
    assert!(m.process_nal_at(&sps_nal(), 170).is_empty());
    assert_eq!(tag_ts(&m.process_nal_at(&pframe_nal(), 233)[0]), 133);
    // The clock runs over 32 bits.
    assert_eq!(tag_ts(&m.process_nal_at(&pframe_nal(), 99)[0]), u32::MAX);
}

#[test]
fn sequence_header_holds_both_parameter_sets() {
    let mut m = FlvMuxer::default();
    m.process_nal_at(&sps_nal(), 0);
    let burst = m.process_nal_at(&pps_nal(), 0);
    assert_eq!(
        &burst[1][16..burst[1].len() - 4],
        &[
            1, 0x42, 0, 0x1e, 0xff, 0xe1, 0, 6, 0x67, 0x42, 0x00, 0x1e, 0x28, 0x96, 1, 0, 4, 0x68,
            0xce, 0x3c, 0x80
        ]
    );
}

#[test]
fn frame_tag_layout() {
    let mut m = FlvMuxer::new();
    init_burst(&mut m);
    let tag = m.process_nal_at(&idr_nal(), 3).remove(0);
    assert_eq!(&tag[..11], &[9, 0, 0, 13, 0, 0, 0, 0, 0, 0, 0]);
    assert_eq!(&tag[11..16], &[0x17, 1, 0, 0, 0]);
    assert_eq!(&tag[16..24], idr_nal().data.as_slice());
    assert_eq!(&tag[24..], &[0, 0, 0, 24]);
}

#[test]
fn the_first_parameter_set_starts_the_clock() {
    let nal = |nal_type: u8| NalUnit {
        data: vec![0, 0, 0, 2, nal_type, 9],
        nal_type,
        is_keyframe: nal_type == 5,
        timestamp: 0,
    };
    let mut m = FlvMuxer::new();
    assert!(m.start_time.is_none());
    m.process_nal(&nal(8));
    assert!(m.start_time.is_none());
    assert_eq!(m.process_nal(&nal(7)).len(), 2);
    let start = m.start_time.expect("the clock runs");
    let time = |tag: &Vec<u8>| u32::from_be_bytes([tag[7], tag[4], tag[5], tag[6]]);
    assert_eq!(time(&m.process_nal(&nal(5))[0]), 0);
    let begin = std::time::Instant::now();
    while begin.elapsed().as_millis() < 20 {}
    // Another SPS does not start the clock anew.
    m.process_nal(&nal(7));
    assert_eq!(m.start_time, Some(start));
    let late = time(&m.process_nal(&nal(1))[0]);
    assert!(late >= 20, "{late}");
    assert!(u128::from(late) <= start.elapsed().as_millis());
}
