use fosipcore::audio::aac::{AacEncoder, AUDIO_BITRATE_BPS, AUDIO_CHANNELS, AUDIO_SAMPLE_RATE};
use fosipcore::audio::flv::{aac_raw_tag, aac_sequence_header_tag, pts_to_ms};
use fosipcore::audio::g711::decode_mulaw;
use fosipcore::audio::transcode::{parse_g711_rtp, AudioTranscoder, RTP_PT_PCMU};

/// An RTP packet with mu-law in it, and with padding if `pad` is not zero.
fn rtp_packet(payload: &[u8], pad: u8) -> Vec<u8> {
    let mut pkt = vec![0x80, RTP_PT_PCMU, 0x00, 0x01, 0, 0, 0, 0, 0, 0, 0, 0x2a];
    pkt.extend_from_slice(payload);
    if pad != 0 {
        // Padding zeros first, length byte LAST (RTP spec).
        pkt.resize(pkt.len() + pad as usize - 1, 0);
        pkt.push(pad);
        pkt[0] |= 0x20; // padding bit
    }
    pkt
}

/// Mu-law that is nearly silent.
fn mulaw_bytes(n: usize) -> Vec<u8> {
    (0..n)
        .map(|i| if i % 2 == 0 { 0x7Fu8 } else { 0xFFu8 })
        .collect()
}

#[test]
fn emits_sequence_header_once_then_raw_tags() {
    let mut t = AudioTranscoder::new().expect("init");
    // 20 ms packets (160 samples); one AAC frame = 1024 samples =
    // 6.4 packets, so 8 packets to 1 access unit.
    let mut tags: Vec<Vec<u8>> = Vec::new();
    for _ in 0..8 {
        tags.extend(
            t.process_rtp(&rtp_packet(&mulaw_bytes(160), 0))
                .expect("process"),
        );
    }
    assert_eq!(tags.len(), 2, "1 sequence header + 1 raw tag");
    // FLV tag header is 11 bytes + 1-byte AudioTag header to the
    // AAC config-type marker sits at index 12.
    assert_eq!(tags[0][0], 0x08, "audio tag type");
    assert_eq!(tags[0][12], 0x00, "AAC sequence header marker");
    // Raw tag: marker 1 (AAC raw).
    assert_eq!(tags[1][12], 0x01, "AAC raw marker");
    // A second frame must NOT repeat the sequence header. (256
    // samples were buffered after frame 1; 6 times 160 tops it past the
    // next 1024 boundary to exactly one more unit.)
    tags.clear();
    for _ in 0..6 {
        tags.extend(
            t.process_rtp(&rtp_packet(&mulaw_bytes(160), 0))
                .expect("process"),
        );
    }
    assert_eq!(tags.len(), 1, "only a raw tag for frame 2");
    assert_eq!(tags[0][12], 0x01);
}

#[test]
fn ignores_non_pcmu_and_short_packets() {
    let mut t = AudioTranscoder::new().expect("init");
    let mut pkt = rtp_packet(&mulaw_bytes(160), 0);
    pkt[1] = 96; // H.264 PT
    assert!(t.process_rtp(&pkt).expect("ok").is_empty());
    assert!(t.process_rtp(&[0x80, 0]).expect("ok").is_empty());
}

#[test]
fn strips_padding() {
    let mut t = AudioTranscoder::new().expect("init");
    // 160 mu-law bytes + 4 bytes padding; 8 packets to 1 unit either
    // way, proving the padded packets decoded (1280 real samples).
    let mut tags = Vec::new();
    for _ in 0..8 {
        tags.extend(
            t.process_rtp(&rtp_packet(&mulaw_bytes(160), 4))
                .expect("process"),
        );
    }
    assert_eq!(tags.len(), 2);
}

#[test]
fn handles_rtp_extension() {
    let mut t = AudioTranscoder::new().expect("init");
    // One-32-bit-word extension between header and payload.
    let mut pkt = vec![0x90, RTP_PT_PCMU, 0, 0, 0, 0, 0, 0, 0, 0, 0, 0];
    pkt.extend_from_slice(&[0x12, 0x34, 0x00, 0x01]); // ext hdr: 1 word
    pkt.extend_from_slice(&[0xDE, 0xAD, 0xBE, 0xEF]); // 1 word of ext data
    pkt.extend_from_slice(&[0xAA, 0xBB]); // mu-law payload
    assert_eq!(parse_g711_rtp(&pkt), Some(&[0xAAu8, 0xBB][..]));
    let _ = t.process_rtp(&pkt);
}

#[test]
fn late_clients_get_the_sequence_header() {
    let t = AudioTranscoder::new().expect("init");
    assert_eq!(t.sequence_header_tag(), aac_sequence_header_tag(&[0x15, 0x88], 0).as_slice());
    assert!(t.has_room(65_535));
}

#[test]
fn raw_tags_have_the_time_of_their_first_sample() {
    let mut t = AudioTranscoder::new().expect("init");
    let mut tags = Vec::new();
    for _ in 0..20 {
        tags.extend(t.process_rtp(&rtp_packet(&mulaw_bytes(160), 0)).expect("process"));
    }
    // 3200 samples are three frames.
    assert_eq!(tags.len(), 4);
    for (i, tag) in tags[1..].iter().enumerate() {
        let ms = u32::from_be_bytes([tag[7], tag[4], tag[5], tag[6]]);
        assert_eq!(ms, 128 * i as u32);
    }
}

#[test]
fn packets_that_hold_no_mulaw() {
    let ok = rtp_packet(&[1, 2, 3], 0);
    assert_eq!(parse_g711_rtp(&ok), Some(&[1u8, 2, 3][..]));
    // Another version.
    let mut p = ok.clone();
    p[0] = 0x40;
    assert_eq!(parse_g711_rtp(&p), None);
    // No payload.
    assert_eq!(parse_g711_rtp(&ok[..12]), None);
    // Contributing sources up to the end.
    let mut p = ok.clone();
    p[0] = 0x81;
    assert_eq!(parse_g711_rtp(&p), None);
    // One contributing source.
    let mut p = ok.clone();
    p[0] = 0x81;
    p.extend_from_slice(&[4, 5]);
    assert_eq!(parse_g711_rtp(&p), Some(&[5u8][..]));
    // Padding of zero, of everything, and of more than there is.
    let mut p = ok.clone();
    p[0] = 0xa0;
    p[14] = 0;
    assert_eq!(parse_g711_rtp(&p), None);
    p[14] = 3;
    assert_eq!(parse_g711_rtp(&p), None);
    p[14] = 9;
    assert_eq!(parse_g711_rtp(&p), None);
    p[14] = 2;
    assert_eq!(parse_g711_rtp(&p), Some(&[1u8][..]));
    // An extension that does not fit.
    let mut p = ok.clone();
    p[0] = 0x90;
    assert_eq!(parse_g711_rtp(&p), None);
}

#[test]
fn raw_tags_hold_what_the_encoder_gives() {
    let bytes = mulaw_bytes(2048);
    let mut t = AudioTranscoder::new().expect("init");
    let tags = t.process_rtp(&rtp_packet(&bytes, 0)).expect("process");
    let mut pcm = vec![0i16; bytes.len()];
    decode_mulaw(&bytes, &mut pcm).expect("decode");
    let mut e = AacEncoder::new(AUDIO_SAMPLE_RATE, AUDIO_CHANNELS, AUDIO_BITRATE_BPS).expect("init");
    let units = e.push_pcm(&pcm).expect("encode");
    assert_eq!(units.len(), 2);
    assert_eq!(tags.len(), 3);
    for (unit, tag) in units.iter().zip(&tags[1..]) {
        assert_eq!(*tag, aac_raw_tag(&unit.data, pts_to_ms(unit.pts, AUDIO_SAMPLE_RATE)));
    }
    assert_eq!(pts_to_ms(units[1].pts, AUDIO_SAMPLE_RATE), 128);
}

#[test]
fn raw_tags_follow_by_128_ms() {
    let mut t = AudioTranscoder::new().expect("init");
    let header = t.sequence_header_tag().to_vec();
    let mut tags: Vec<Vec<u8>> = Vec::new();
    for n in [160, 3_000, 1, 700, 5_000, 160] {
        tags.extend(t.process_rtp(&rtp_packet(&mulaw_bytes(n), 0)).expect("process"));
        assert!(t.process_rtp(&[0x80, 96]).expect("ignored").is_empty());
    }
    assert_eq!(tags.len(), 1 + 9_021 / 1_024);
    assert_eq!(tags[0], header);
    for (k, tag) in tags[1..].iter().enumerate() {
        assert_ne!(*tag, header);
        assert_eq!(tag[12], 1);
        let ms = u32::from_be_bytes([tag[7], tag[4], tag[5], tag[6]]);
        assert_eq!(ms, 128 * k as u32);
    }
}
