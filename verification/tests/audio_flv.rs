use fosipcore::audio::flv::{
    aac_raw_tag, aac_sequence_header_tag, flv_audio_header, pts_to_ms, AudioFlvMuxer,
    AUDIO_TAG_HEADER_AAC_MONO,
};

/// Decoder configuration of AAC-LC at 8 kHz with one channel.
const ASC_8K_MONO: [u8; 2] = [0x15, 0x88];

#[test]
fn sequence_header_tag_layout() {
    let asc = ASC_8K_MONO;
    let tag = aac_sequence_header_tag(&asc, 0);

    // 11-byte tag header + 1-byte AudioTag header + (1 + 2) payload
    // + 4-byte PreviousTagSize.
    assert_eq!(tag.len(), 11 + 1 + 3 + 4);
    assert_eq!(tag[0], 0x08); // audio tag
                              // DataSize = 1 (audio header) + 3 (payload) = 4.
    assert_eq!(u32::from_be_bytes([0, tag[1], tag[2], tag[3]]), 4);
    assert_eq!(tag[11], AUDIO_TAG_HEADER_AAC_MONO);
    assert_eq!(tag[12], 0x00); // config type: sequence header
    assert_eq!(&tag[13..15], &asc);
    // PreviousTagSize = 11 + 4.
    assert_eq!(u32::from_be_bytes([tag[15], tag[16], tag[17], tag[18]]), 15);
}

#[test]
fn raw_tag_layout() {
    let tag = aac_raw_tag(&[0xAB, 0xCD], 128);
    // 11 + 1 (audio header) + 3 (0x01 + 2 data) + 4.
    assert_eq!(tag.len(), 11 + 1 + 3 + 4);
    assert_eq!(tag[0], 0x08);
    // Timestamp 128 ms in the tag header (extension byte at [7]).
    assert_eq!(u32::from_be_bytes([tag[7], tag[4], tag[5], tag[6]]), 128);
    assert_eq!(tag[11], AUDIO_TAG_HEADER_AAC_MONO);
    assert_eq!(tag[12], 0x01); // config type: AAC raw
    assert_eq!(&tag[13..15], &[0xAB, 0xCD]);
    // PreviousTagSize = 11 + 4.
    assert_eq!(u32::from_be_bytes([tag[15], tag[16], tag[17], tag[18]]), 15);
}

#[test]
fn audio_header_layout() {
    let hdr = flv_audio_header();
    assert_eq!(hdr.len(), 13);
    assert_eq!(&hdr[0..3], b"FLV");
    assert_eq!(hdr[3], 1, "version");
    assert_eq!(hdr[4], 0x04, "audio-only flags");
    assert_eq!(u32::from_be_bytes([hdr[5], hdr[6], hdr[7], hdr[8]]), 9);
    assert_eq!(u32::from_be_bytes([hdr[9], hdr[10], hdr[11], hdr[12]]), 0);
}

#[test]
fn pts_conversion_8khz() {
    // One 1024-sample frame at 8 kHz = 128 ms.
    assert_eq!(pts_to_ms(1024, 8000), 128);
    assert_eq!(pts_to_ms(0, 8000), 0);
    assert_eq!(pts_to_ms(16_000, 8000), 2000);
}

#[test]
fn timestamps_stop_at_the_largest() {
    assert_eq!(pts_to_ms(u64::MAX / 1000, 1), u32::MAX);
    assert_eq!(pts_to_ms(18_446_744_073_709_552, 8_000), u32::MAX);
    assert_eq!(pts_to_ms(u64::MAX, u32::MAX), u32::MAX);
    assert_eq!(pts_to_ms(8_000 * 4_294_967, 8_000), 4_294_967_000);
}

#[test]
fn later_samples_have_later_timestamps() {
    let mut last = 0;
    for pts in (0..100_000).step_by(777) {
        let ms = pts_to_ms(pts, 8_000);
        assert!(ms >= last);
        last = ms;
    }
}

#[test]
fn muxer_keeps_the_sequence_header() {
    let mut m = AudioFlvMuxer::new(&ASC_8K_MONO);
    assert_eq!(m.sequence_header_tag(), aac_sequence_header_tag(&ASC_8K_MONO, 0).as_slice());
    m.set_rtp_base(17);
    m.set_rtp_base(18);
    assert_eq!(m.sequence_header_tag(), aac_sequence_header_tag(&ASC_8K_MONO, 0).as_slice());
}

#[test]
fn tag_with_a_large_timestamp() {
    let tag = aac_raw_tag(&[], 0x0102_0304);
    assert_eq!(&tag[4..8], &[0x02, 0x03, 0x04, 0x01]);
    assert_eq!(&tag[8..11], &[0, 0, 0]);
}
