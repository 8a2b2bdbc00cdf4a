use fosipcore::audio::g711::{alaw2linear, decode_alaw, decode_mulaw, ulaw2linear};

/// Mu-law bytes and the samples that they stand for.
const ULAW_VECTORS: &[(u8, i16)] = &[
    // silence / near-silence
    (0x7F, 0),
    (0xFF, 0),
    (0x7E, -8),
    (0xFE, 8),
    (0x7D, -16),
    (0xFD, 16),
    // full scale (clipping)
    (0x80, 32124),
    (0x00, -32124),
    (0x81, 31100),
    (0x01, -31100),
    // mid-scale, both signs, several segments
    (0x11, -15484),
    (0x91, 15484),
    (0x3F, -1980),
    (0xBF, 1980),
    (0x40, -1884),
    (0xC0, 1884),
    (0x08, -23932),
    (0x88, 23932),
];

/// A-law bytes and the samples that they stand for.
const ALAW_VECTORS: &[(u8, i16)] = &[
    // segment 0 (full-scale clipping boundary)
    (0x00, -5504),
    (0x80, 5504),
    (0x01, -5248),
    (0x81, 5248),
    // segment 1
    (0x10, -2752),
    (0x90, 2752),
    // segment 2
    (0x20, -22016),
    (0xA0, 22016),
    // segment 3
    (0x30, -11008),
    (0xB0, 11008),
    // segment 4
    (0x40, -344),
    (0xC0, 344),
    // segment 5 (small signals around the A-law DC offset)
    (0x50, -88),
    (0xD0, 88),
    (0x55, -8),
    (0x54, -24),
    (0x56, -56),
    // segment 6
    (0x60, -1376),
    (0xE0, 1376),
    // segment 7
    (0x70, -688),
    (0xF0, 688),
];

#[test]
fn ulaw_zeros() {
    // mu-law silence: 0x7F (positive zero) and 0xFF (negative zero).
    assert_eq!(ulaw2linear(0x7F), 0);
    assert_eq!(ulaw2linear(0xFF), 0);
}

#[test]
fn ulaw_full_scale_range() {
    // Max negative (0x00) and max positive (0x80).
    assert_eq!(ulaw2linear(0x00), -32124);
    assert_eq!(ulaw2linear(0x80), 32124);
}

#[test]
fn ulaw_matches_reference_table() {
    for (code, expected) in ULAW_VECTORS {
        assert_eq!(
            ulaw2linear(*code),
            *expected,
            "ulaw2linear(0x{code:02X})"
        );
    }
}

#[test]
fn alaw_matches_reference_table() {
    for (code, expected) in ALAW_VECTORS {
        assert_eq!(
            alaw2linear(*code),
            *expected,
            "alaw2linear(0x{code:02X})"
        );
    }
}

#[test]
fn decode_slices() {
    let input = [0x7F, 0x11, 0x91, 0x00, 0xFF];
    let mut out = [0i16; 16];
    decode_mulaw(&input, &mut out).unwrap();
    assert_eq!(out[0], 0);
    assert_eq!(out[4], 0);
    assert!(out[1] < 0); // 0x11: negative
    assert!(out[2] > 0); // 0x91: positive
    assert_eq!(out[3], -32124);
}

#[test]
fn decode_alaw_success_and_odd_length() {
    // G.711 is one byte per sample, so odd/unaligned input lengths are
    // perfectly valid — decode the exact vectors through the
    // slice API (also covering the A-law decode loop's success path).
    let input: Vec<u8> = ALAW_VECTORS.iter().map(|(c, _)| *c).collect();
    let mut out = vec![0i16; input.len()];
    decode_alaw(&input, &mut out).unwrap();
    for (i, &(code, expected)) in ALAW_VECTORS.iter().enumerate() {
        assert_eq!(out[i], expected, "decode_alaw(0x{code:02X})");
    }

    // A genuinely odd (unaligned) length is fine too — 5 samples in, 5 out.
    let odd: &[u8] = &[0x55, 0x80, 0x20, 0xD0, 0x70];
    let mut odd_out = [0i16; 5];
    decode_alaw(odd, &mut odd_out).unwrap();
    assert_eq!(odd_out, [-8, 5504, -22016, 88, -688]);
}

#[test]
fn decode_leaves_tail_untouched() {
    // Output longer than input: only the first input.len() slots are
    // written; the tail keeps its sentinel.
    let mut out = [777i16; 8];
    decode_mulaw(&[0x7F, 0x80], &mut out).unwrap();
    assert_eq!(out[0], 0);
    assert_eq!(out[1], 32124);
    assert_eq!(&out[2..], &[777; 6]);
}

#[test]
fn decode_output_too_short() {
    let mut out = [0i16; 1];
    assert!(decode_mulaw(&[0x7F, 0x7F], &mut out).is_err());
    assert!(decode_alaw(&[0x55, 0x55], &mut out).is_err());
}

#[test]
fn opposite_bytes_stand_for_opposite_samples() {
    for b in 0..128u8 {
        assert_eq!(ulaw2linear(b + 128), -ulaw2linear(b));
        assert_eq!(alaw2linear(b + 128), -alaw2linear(b));
    }
}

#[test]
fn too_short_output_is_left_alone() {
    let mut out = [5i16; 1];
    assert_eq!(decode_mulaw(&[0x00, 0x00], &mut out), Err(()));
    assert_eq!(decode_alaw(&[0x00, 0x00], &mut out), Err(()));
    assert_eq!(out, [5]);
}

#[test]
fn bytes_are_in_the_order_of_their_samples() {
    for b in 0..127u8 {
        assert!(ulaw2linear(b) < ulaw2linear(b + 1));
        assert!(ulaw2linear(b + 128) > ulaw2linear(b + 129));
        // Every other bit of an A-law byte is inverted.
        assert!(alaw2linear(b ^ 0x55) > alaw2linear((b + 1) ^ 0x55));
        assert!(alaw2linear((b + 128) ^ 0x55) < alaw2linear((b + 129) ^ 0x55));
    }
}
