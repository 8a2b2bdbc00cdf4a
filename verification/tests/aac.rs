use fosipcore::audio::aac::{
    access_unit, AacEncoder, AacError, AUDIO_BITRATE_BPS, AUDIO_CHANNELS, AUDIO_SAMPLE_RATE,
    FRAME_LEN,
};

#[test]
fn encodes_sine_wave() {
    let mut enc = AacEncoder::new(AUDIO_SAMPLE_RATE, AUDIO_CHANNELS, AUDIO_BITRATE_BPS)
        .expect("encoder init");

    // 2 seconds of 440 Hz sine at 8 kHz (16000 samples makes 15 frames).
    // Amplitude 10_000 < i16::MAX, so the cast below is value-safe.
    let samples: Vec<i16> = (0..16_000)
        .map(|i| {
            let t = std::f32::consts::TAU * 440.0 * i as f32 / 8000.0;
            (10_000.0 * t.sin()) as i16
        })
        .collect();

    let mut units = Vec::new();
    // Feed in RTP-sized chunks (160 samples = 20 ms).
    for chunk in samples.chunks(160) {
        units.extend(enc.push_pcm(chunk).unwrap());
    }

    // 16000 / 1024 = 15 complete frames.
    assert_eq!(units.len(), 15, "expected 15 access units");
    // PTS must advance by exactly one frame per unit.
    for (i, u) in units.iter().enumerate() {
        assert_eq!(u.pts, i as u64 * 1024, "unit {i} pts");
        assert_eq!(u.duration, 1024);
        assert!(!u.data.is_empty());
    }
    // ASC for 8 kHz mono MPEG-4 AAC-LC: freqIdx 11 (0x15 0x88), chan 1.
    assert_eq!(enc.asc(), &[0x15, 0x88]);
}

#[test]
fn partial_frame_buffered() {
    let mut enc = AacEncoder::new(8000, 1, 32_000).unwrap();
    // Less than one frame makes no output, no error.
    let units = enc.push_pcm(&[100i16; 100]).unwrap();
    assert!(units.is_empty());
    // Top up past the 1024 boundary makes exactly one unit.
    let units = enc.push_pcm(&[100i16; 1_000]).unwrap();
    assert_eq!(units.len(), 1);
    assert_eq!(units[0].pts, 0);
}

#[test]
fn frame_length_is_that_of_the_encoder() {
    assert_eq!(FRAME_LEN, oxideav_aac::encoder::FRAME_LEN);
}

#[test]
fn unsupported_streams_are_refused() {
    assert_eq!(AacEncoder::new(8_001, 1, 32_000).err(), Some(AacError::Init));
    assert_eq!(AacEncoder::new(7_350, 1, 32_000).err(), Some(AacError::Init));
    assert_eq!(AacEncoder::new(8_000, 0, 32_000).err(), Some(AacError::Init));
    assert_eq!(AacEncoder::new(8_000, 7, 32_000).err(), Some(AacError::Init));
    assert_eq!(AacEncoder::new(8_000, 1, 0).err(), Some(AacError::Init));
}

#[test]
fn every_rate_and_channel_count_has_its_configuration() {
    let rates = [
        96_000, 88_200, 64_000, 48_000, 44_100, 32_000, 24_000, 22_050, 16_000, 12_000, 11_025,
        8_000,
    ];
    for (i, rate) in rates.iter().enumerate() {
        for channels in [1u8, 2, 3, 4, 5, 6, 8] {
            let e = AacEncoder::new(*rate, channels, 64_000).expect("supported");
            let i = i as u8;
            let expected = [16 + i / 2, i % 2 * 128 + channels * 8];
            assert_eq!(e.asc(), &expected);
            assert_eq!(e.sample_rate(), *rate);
            assert_eq!(e.channels(), channels);
        }
    }
}

#[test]
fn stereo_units_follow_by_one_frame() {
    let mut e = AacEncoder::new(48_000, 2, 128_000).unwrap();
    let mut units = Vec::new();
    for i in 0..5 {
        let pcm: Vec<i16> = (0..1_000).map(|k| ((k * 37 + i * 11) % 2_000) as i16).collect();
        units.extend(e.push_pcm(&pcm).unwrap());
    }
    assert_eq!(units.len(), 2);
    assert_eq!(units[0].pts, 0);
    assert_eq!(units[1].pts, 1024);
    assert_eq!(units[0].duration, 1024);
}

#[test]
fn nothing_in_gives_nothing_out() {
    let mut e = AacEncoder::new(8_000, 1, 32_000).unwrap();
    assert!(e.push_pcm(&[]).unwrap().is_empty());
    assert!(e.has_room(1_000));
}

/// An ADTS frame of `len` bytes in all.
fn adts(len: usize) -> Vec<u8> {
    let mut f = vec![0u8; len];
    f[0] = 0xff;
    f[1] = 0xf1;
    f[2] = 0x6c;
    f[3] = 0x40 | (len >> 11) as u8;
    f[4] = (len >> 3) as u8;
    f[5] = ((len % 8) << 5) as u8 | 0x1f;
    f[6] = 0xfc;
    f
}

#[test]
fn access_unit_is_the_frame_without_its_header() {
    let mut f = adts(10);
    f[7] = 1;
    f[8] = 2;
    f[9] = 3;
    let u = access_unit(&f, 2048).unwrap();
    assert_eq!(u.data, vec![1, 2, 3]);
    assert_eq!(u.pts, 2048);
    assert_eq!(u.duration, 1024);
}

#[test]
fn access_unit_behind_a_checksum() {
    let mut f = adts(11);
    f[1] = 0xf0;
    f[9] = 7;
    f[10] = 8;
    assert_eq!(access_unit(&f, 0).unwrap().data, vec![7, 8]);
}

#[test]
fn frames_without_data_or_header_are_refused() {
    assert_eq!(access_unit(&adts(7), 0).err(), Some(AacError::EmptyUnit));
    assert_eq!(access_unit(&[0xff, 0xf1], 0).err(), Some(AacError::MalformedFrame));
    let mut no_sync = adts(10);
    no_sync[0] = 0xfe;
    assert_eq!(access_unit(&no_sync, 0).err(), Some(AacError::MalformedFrame));
    let mut layer = adts(10);
    layer[1] = 0xf3;
    assert_eq!(access_unit(&layer, 0).err(), Some(AacError::MalformedFrame));
    let mut rate = adts(10);
    rate[2] = 0x74;
    assert_eq!(access_unit(&rate, 0).err(), Some(AacError::MalformedFrame));
    let mut short = adts(10);
    short[4] = 0;
    short[5] = 0xdf;
    assert_eq!(access_unit(&short, 0).err(), Some(AacError::MalformedFrame));
    let mut crc = adts(8);
    crc[1] = 0xf0;
    assert_eq!(access_unit(&crc, 0).err(), Some(AacError::MalformedFrame));
}

#[test]
fn cuts_do_not_matter() {
    let samples: Vec<i16> = (0..5_000).map(|i| (i * 37 % 2_000) as i16).collect();
    let mut whole = AacEncoder::new(8_000, 1, 32_000).unwrap();
    let want: Vec<Vec<u8>> =
        whole.push_pcm(&samples).unwrap().into_iter().map(|u| u.data).collect();
    assert_eq!(want.len(), 5_000 / 1_024);
    for cut in [1, 7, 1_023, 1_024, 1_025, 4_999] {
        let mut enc = AacEncoder::new(8_000, 1, 32_000).unwrap();
        let mut got = Vec::new();
        for part in samples.chunks(cut) {
            got.extend(enc.push_pcm(part).unwrap().into_iter().map(|u| u.data));
        }
        assert_eq!(got, want, "cut at {cut}");
    }
}
