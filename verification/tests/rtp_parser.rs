use fosipcore::video::rtp_parser::{
    fu_buffer_append, strip_start_code, to_avcc_format, RtpParser, MAX_FU_BUFFER_BYTES,
};

/// An RTP header of twelve bytes.
fn rtp_header(timestamp: u32) -> Vec<u8> {
    let mut hdr = vec![0u8; 12];
    // Version=2, no padding, no extension, CC=0
    hdr[0] = 0x80;
    // Marker=0, payload type=96
    hdr[1] = 96;
    // Sequence number (arbitrary)
    hdr[2..4].copy_from_slice(&1u16.to_be_bytes());
    // Timestamp
    hdr[4..8].copy_from_slice(&timestamp.to_be_bytes());
    // SSRC (arbitrary)
    hdr[8..12].copy_from_slice(&0xDEADBEEFu32.to_be_bytes());
    hdr
}

#[test]
fn test_parse_single_idr_nal() {
    let mut parser = RtpParser::new();
    let ts = 90_000;
    let mut payload = rtp_header(ts);

    // Single NAL: IDR slice (type 5)
    // NAL header: forbidden=0, NRI=2, type=5 makes 0x25
    payload.push(0x25);
    payload.extend_from_slice(b"fake_idr_data");

    let nal = parser.parse(&payload, ts).expect("should parse single NAL");
    assert_eq!(nal.nal_type, 5);
    assert!(nal.is_keyframe);
    assert_eq!(nal.timestamp, ts);

    // AVCC format: 4-byte len prefix + data
    let expected_len = (payload.len() - 12) as u32;
    assert_eq!(
        u32::from_be_bytes([nal.data[0], nal.data[1], nal.data[2], nal.data[3]]),
        expected_len
    );
}

#[test]
fn test_parse_sps_nal() {
    let mut parser = RtpParser::new();
    let ts = 0;
    let mut payload = rtp_header(ts);

    // SPS (type 7)
    payload.push(0x67);
    payload.extend_from_slice(b"sps_data");

    let nal = parser.parse(&payload, ts).expect("should parse SPS");
    assert_eq!(nal.nal_type, 7);
    assert!(!nal.is_keyframe);
}

#[test]
fn test_parse_pps_nal() {
    let mut parser = RtpParser::new();
    let ts = 0;
    let mut payload = rtp_header(ts);

    // PPS (type 8)
    payload.push(0x68);
    payload.extend_from_slice(b"pps_data");

    let nal = parser.parse(&payload, ts).expect("should parse PPS");
    assert_eq!(nal.nal_type, 8);
}

#[test]
fn test_fu_a_reassembly() {
    let mut parser = RtpParser::new();
    let ts = 90_000;

    // Build a fake IDR NAL split across 3 FU-A packets
    let original_nal: Vec<u8> = (0..50).collect(); // data 0..50

    // FU-A start packet
    let _fu_header_start = 0x25; // F=0, NRI=2, type=5 makes NAL header for IDR
    let fu_indicator_start = 0x80 | 5; // S=1, type=5
    let mut pkt1 = rtp_header(ts);
    pkt1.push(0x7C); // F=0, NRI=2, type=28 (FU-A) in NAL header
    pkt1.push(fu_indicator_start);
    pkt1.extend_from_slice(&original_nal[0..20]);

    // FU-A continuation
    let fu_indicator_cont = 0x00 | 5; // S=0, E=0, type=5
    let mut pkt2 = rtp_header(ts);
    pkt2.push(0x7C);
    pkt2.push(fu_indicator_cont);
    pkt2.extend_from_slice(&original_nal[20..40]);

    // FU-A end
    let fu_indicator_end = 0x40 | 5; // E=1, type=5
    let mut pkt3 = rtp_header(ts);
    pkt3.push(0x7C);
    pkt3.push(fu_indicator_end);
    pkt3.extend_from_slice(&original_nal[40..]);

    assert!(parser.parse(&pkt1, ts).is_none()); // Start: no output yet
    assert!(parser.parse(&pkt2, ts).is_none()); // Continuation: no output
    let nal = parser.parse(&pkt3, ts).expect("should emit on end");

    assert_eq!(nal.nal_type, 5);
    assert!(nal.is_keyframe);

    // AVCC format: 4-byte len + reconstructed NAL
    // The reconstruction prepends a NAL header byte (0x25 for this IDR)
    let expected_len = 1 + original_nal.len(); // 1 header byte + data
    let len_prefix =
        u32::from_be_bytes([nal.data[0], nal.data[1], nal.data[2], nal.data[3]]) as usize;
    assert_eq!(len_prefix, expected_len);
    // nal.data[4] is the reconstructed NAL header: NRI from FU indicator (0x7C makes NRI=3)
    // combined with the FU type (5) makes 0x65
    assert_eq!(nal.data[4], 0x65);
    assert_eq!(&nal.data[5..], original_nal.as_slice());
}

#[test]
fn test_fu_a_unexpected_continuation() {
    let mut parser = RtpParser::new();
    let ts = 0;

    // Continuation without start
    let mut pkt = rtp_header(ts);
    pkt.push(0x7C); // FU-A NAL header
    pkt.push(0x05); // S=0, E=0, type=5

    assert!(parser.parse(&pkt, ts).is_none()); // Should be ignored
    assert!(parser.fu_buffer.is_empty());
}

#[test]
fn test_strip_start_code_4byte() {
    let data = [0x00, 0x00, 0x00, 0x01, 0xAA, 0xBB];
    assert_eq!(strip_start_code(&data), &[0xAA, 0xBB]);
}

#[test]
fn test_strip_start_code_3byte() {
    let data = [0x00, 0x00, 0x01, 0xAA, 0xBB];
    assert_eq!(strip_start_code(&data), &[0xAA, 0xBB]);
}

#[test]
fn test_strip_start_code_no_prefix() {
    let data = [0xAA, 0xBB];
    assert_eq!(strip_start_code(&data), &[0xAA, 0xBB]);
}

#[test]
fn test_to_avcc_format() {
    let nal = [0x67, 0x42, 0x00, 0x1E]; // SPS start
    let avcc = to_avcc_format(&nal);
    assert_eq!(avcc.len(), nal.len() + 4);
    assert_eq!(
        u32::from_be_bytes([avcc[0], avcc[1], avcc[2], avcc[3]]),
        nal.len() as u32
    );
    assert_eq!(&avcc[4..], &nal);
}

#[test]
fn test_payload_too_short() {
    let mut parser = RtpParser::new();
    let payload = vec![0x80]; // Only 1 byte
    assert!(parser.parse(&payload, 0).is_none());
}

#[test]
fn test_fu_a_overflow_resets_and_recovers() {
    let mut parser = RtpParser::new();

    // Start fragment (S=1, E=0, type=5).
    let mut start = rtp_header(0);
    start.push(0x7C);
    start.push(0x85);
    start.extend_from_slice(&[0u8; 100]);
    assert!(parser.parse(&start, 0).is_none());
    assert!(parser.fu_active);

    // Continuation fragments (~64 KiB each): enough to cross the
    // 1 MiB cap many times over. (Heap chunk: a 64 KiB stack array
    // per iteration would be wasteful.)
    let chunk = vec![0u8; 65_535];
    let mut cont = rtp_header(0);
    cont.push(0x7C);
    cont.push(0x05); // S=0, E=0, type=5
    cont.extend_from_slice(&chunk);
    for _ in 0..64 {
        assert!(parser.parse(&cont, 0).is_none());
    }

    // After the cap is exceeded, reassembly must have been reset.
    assert!(!parser.fu_active);
    assert!(parser.fu_buffer.is_empty());

    // Recovery: a small, well-formed FU-A unit still parses.
    let mut s = rtp_header(0);
    s.push(0x7C);
    s.push(0x85); // S=1, E=0
    s.extend_from_slice(&[1, 2, 3]);
    assert!(parser.parse(&s, 0).is_none());

    let mut e = rtp_header(0);
    e.push(0x7C);
    e.push(0x45); // S=0, E=1
    e.extend_from_slice(&[4, 5]);
    let nal = parser.parse(&e, 0).expect("parser recovers after overflow");
    assert_eq!(nal.nal_type, 5);
}

#[test]
fn last_unit_of_an_aggregation() {
    let mut parser = RtpParser::new();
    let mut p = rtp_header(7);
    p.push(0x78);
    p.extend_from_slice(&[0, 2, 0x67, 0x42]);
    p.extend_from_slice(&[0, 3, 0x65, 1, 2]);
    let nal = parser.parse(&p, 7).expect("a unit");
    assert_eq!(nal.nal_type, 5);
    assert!(nal.is_keyframe);
    assert_eq!(nal.data, vec![0, 0, 0, 3, 0x65, 1, 2]);
    assert_eq!(nal.timestamp, 7);
    // A unit that is cut off does not count.
    p.extend_from_slice(&[0, 9, 0x41]);
    assert_eq!(parser.parse(&p, 7).expect("a unit").nal_type, 5);
    // An empty one does, and has the type 0.
    let mut p = rtp_header(0);
    p.extend_from_slice(&[0x78, 0, 0]);
    let nal = parser.parse(&p, 0).expect("a unit");
    assert_eq!(nal.nal_type, 0);
    assert_eq!(nal.data, vec![0, 0, 0, 0]);
    // None at all.
    let mut p = rtp_header(0);
    p.extend_from_slice(&[0x78, 0]);
    assert!(parser.parse(&p, 0).is_none());
}

#[test]
fn other_types_pass_through() {
    let mut parser = RtpParser::default();
    let mut p = rtp_header(3);
    p.extend_from_slice(&[0x06, 9]);
    let nal = parser.parse(&p, 3).expect("a unit");
    assert_eq!(nal.nal_type, 6);
    assert!(!nal.is_keyframe);
    assert_eq!(nal.data, vec![0, 0, 0, 2, 6, 9]);
}

#[test]
fn fragments_without_a_start_are_dropped() {
    let mut parser = RtpParser::new();
    let mut end = rtp_header(0);
    end.extend_from_slice(&[0x7c, 0x45, 4, 5]);
    assert!(parser.parse(&end, 0).is_none());
    assert!(parser.parse_fu_a(&[0x7c, 0x05, 0x41, 2], 1).is_none());
    assert!(parser.fu_buffer.is_empty());
    assert!(!parser.fu_active);
}

#[test]
fn fragments_of_every_split_reassemble() {
    let unit: Vec<u8> = (1..=40).collect();
    for cut in 1..unit.len() - 1 {
        let mut parser = RtpParser::new();
        let mut first = rtp_header(0);
        first.extend_from_slice(&[0x7c, 0x85]);
        first.extend_from_slice(&unit[..cut]);
        let mut last = rtp_header(0);
        last.extend_from_slice(&[0x7c, 0x45]);
        last.extend_from_slice(&unit[cut..]);
        assert!(parser.parse(&first, 0).is_none());
        let nal = parser.parse(&last, 0).expect("whole");
        assert_eq!(nal.data[4], 0x65);
        assert_eq!(&nal.data[5..], unit.as_slice());
    }
}

#[test]
fn fragments_stay_under_the_cap() {
    let mut buf = vec![0u8; MAX_FU_BUFFER_BYTES - 2];
    assert!(fu_buffer_append(&mut buf, &[1, 2]));
    assert_eq!(buf.len(), MAX_FU_BUFFER_BYTES);
    assert!(!fu_buffer_append(&mut buf, &[3]));
    assert_eq!(buf.len(), MAX_FU_BUFFER_BYTES);
}

#[test]
fn unit_has_the_time_of_its_last_fragment() {
    let mut parser = RtpParser::new();
    let mut first = rtp_header(0);
    first.extend_from_slice(&[0x7c, 0x85, 1]);
    let mut middle = rtp_header(0);
    middle.extend_from_slice(&[0x7c, 0x05, 2]);
    let mut last = rtp_header(0);
    last.extend_from_slice(&[0x7c, 0x45, 3]);
    assert!(parser.parse(&first, 100).is_none());
    assert!(parser.parse(&middle, 7).is_none());
    let nal = parser.parse(&last, 250).expect("whole");
    assert_eq!(&nal.data[4..], &[0x65, 1, 2, 3]);
    assert_eq!(nal.timestamp, 250);
}
