//! AAC encoding.
//!
//! The encoder is that of `oxideav_aac`, which gives one ADTS frame for every
//! 1024 samples of each channel. The FLV tags carry the AAC data without the
//! ADTS header, so that is taken off. The frames come out of floating-point
//! transforms, and their bytes may differ from machine to machine: nothing is
//! stated of them but their form.

use vstd::prelude::*;
use vstd::slice::slice_subrange;

verus! {

/// Sample rate of the camera's G.711, which is kept.
pub const AUDIO_SAMPLE_RATE: u32 = 8_000;

/// Bitrate of the AAC stream.
pub const AUDIO_BITRATE_BPS: u32 = 32_000;

/// The camera's microphone has one channel.
pub const AUDIO_CHANNELS: u8 = 1;

/// Samples of each channel in an AAC frame.
pub const FRAME_LEN: usize = 1024;

// ---------------------------------------------------------------------------
// The encoder of `oxideav_aac`
// ---------------------------------------------------------------------------

/// `oxideav_aac::encoder::StreamEncoder`: an encoder with its state.
#[verifier::external_type_specification]
#[verifier::external_body]
pub struct ExStreamEncoder(oxideav_aac::encoder::StreamEncoder);

/// `oxideav_aac::Error`: why the encoder failed.
#[verifier::external_type_specification]
#[verifier::external_body]
pub struct ExCodecError(oxideav_aac::Error);

/// The number that stands for a sample rate in an AAC stream, for the rates
/// that can be encoded.
pub open spec fn rate_index(sample_rate: u32) -> Option<nat> {
    if sample_rate == 96_000 {
        Some(0)
    } else if sample_rate == 88_200 {
        Some(1)
    } else if sample_rate == 64_000 {
        Some(2)
    } else if sample_rate == 48_000 {
        Some(3)
    } else if sample_rate == 44_100 {
        Some(4)
    } else if sample_rate == 32_000 {
        Some(5)
    } else if sample_rate == 24_000 {
        Some(6)
    } else if sample_rate == 22_050 {
        Some(7)
    } else if sample_rate == 16_000 {
        Some(8)
    } else if sample_rate == 12_000 {
        Some(9)
    } else if sample_rate == 11_025 {
        Some(10)
    } else if sample_rate == 8_000 {
        Some(11)
    } else {
        None
    }
}

/// Whether a stream with these parameters can be encoded.
pub open spec fn can_encode(sample_rate: u32, channels: u8, bitrate_bps: u32) -> bool {
    &&& rate_index(sample_rate) is Some
    &&& 1 <= channels <= 6 || channels == 8
    &&& bitrate_bps > 0
}

/// What an encoder of the `oxideav_aac` crate is made with.
pub struct CodecSettings {
    pub sample_rate: u32,
    pub channels: u8,
    pub bitrate: u32,
}

/// An encoder of the `oxideav_aac` crate, and the record of its use.
struct Codec {
    encoder: oxideav_aac::encoder::StreamEncoder,
    /// What it was made with.
    settings: Ghost<CodecSettings>,
    /// The frames that it was handed.
    handed: Ghost<Seq<Seq<i16>>>,
    /// The ADTS frames that it gave.
    given: Ghost<Seq<Seq<u8>>>,
}

/// `oxideav_aac::encoder::StreamEncoder::new` takes the twelve rates of the
/// scale factor tables, the channel counts that have a default configuration,
/// and a bitrate other than zero. The record begins with what it was made with.
#[verifier::external_body]
fn new_encoder(sample_rate: u32, channels: u8, bitrate_bps: u32) -> (r: Result<
    Codec,
    oxideav_aac::Error,
>)
    ensures
        r is Ok <==> can_encode(sample_rate, channels, bitrate_bps),
        r matches Ok(c) ==> c.settings@ == (CodecSettings {
            sample_rate,
            channels,
            bitrate: bitrate_bps,
        }) && c.handed@.len() == 0 && c.given@.len() == 0,
{
    match oxideav_aac::encoder::StreamEncoder::new(
        oxideav_aac::encoder::EncoderConfig { sample_rate, channels, bitrate: bitrate_bps },
    ) {
        Ok(encoder) => Ok(
            Codec {
                encoder,
                settings: Ghost(CodecSettings { sample_rate, channels, bitrate: bitrate_bps }),
                handed: Ghost(Seq::empty()),
                given: Ghost(Seq::empty()),
            },
        ),
        Err(e) => Err(e),
    }
}

/// The configuration of the decoder for a sample rate and a number of channels:
/// object type 2 in five bits, the rate index in four, the channels in four,
/// and three zeros.
pub open spec fn audio_specific_config(sample_rate: u32, channels: u8) -> Seq<u8> {
    let i = rate_index(sample_rate)->0;
    seq![(16 + i / 2) as u8, (i % 2 * 128 + channels % 16 * 8) as u8]
}

/// `oxideav_aac::asc_writer::aac_lc_asc` writes the configuration of the
/// decoder, which has two bytes for a rate that has an index.
#[verifier::external_body]
fn write_config(sample_rate: u32, channels: u8) -> (r: Vec<u8>)
    requires
        rate_index(sample_rate) is Some,
    ensures
        r@ == audio_specific_config(sample_rate, channels),
{
    oxideav_aac::asc_writer::aac_lc_asc(sample_rate, channels)
}

/// The length of a whole frame, as its ADTS header gives it.
pub open spec fn adts_frame_length(data: Seq<u8>) -> int {
    data[3] % 4 * 2048 + data[4] * 8 + data[5] / 32
}

/// Where the AAC data begins in a frame with an ADTS header: behind seven
/// bytes, or behind nine if there is a checksum. There is no such place if the
/// header is not one.
pub open spec fn adts_payload_offset(data: Seq<u8>) -> Option<int> {
    let offset: int = if data[1] % 2 == 1 {
        7
    } else {
        9
    };
    if data.len() >= 7 && data.len() >= offset && data[0] == 0xff && data[1] / 16 == 15 && data[1]
        / 2 % 4 == 0 && data[2] / 4 % 16 < 13 && adts_frame_length(data) >= offset {
        Some(offset)
    } else {
        None
    }
}

/// Whether `data` is an ADTS frame without a checksum, of its whole length.
pub open spec fn is_adts_frame(data: Seq<u8>) -> bool {
    &&& 7 <= data.len() < 8192
    &&& data[0] == 0xff && data[1] == 0xf1
    &&& data[2] / 4 % 16 < 13
    &&& adts_frame_length(data) == data.len()
}

/// `oxideav_aac::encoder::StreamEncoder::encode_frame` takes the samples of a
/// frame and gives an ADTS frame, or fails. Which bytes it gives is left open,
/// and so is when it fails. The record grows by what it took and what it gave.
#[verifier::external_body]
fn encode_samples(codec: &mut Codec, samples: &[i16]) -> (r: Result<
    Vec<u8>,
    oxideav_aac::Error,
>)
    ensures
        r matches Ok(frame) ==> is_adts_frame(frame@),
        final(codec).settings == old(codec).settings,
        final(codec).handed@ == old(codec).handed@.push(samples@),
        final(codec).given@ == match r {
            Ok(frame) => old(codec).given@.push(frame@),
            Err(_) => old(codec).given@,
        },
{
    codec.encoder.encode_frame(samples)
}

/// `oxideav_aac::adts::AdtsHeader::parse` checks an ADTS header and tells where
/// the AAC data begins.
#[verifier::external_body]
fn parse_adts(data: &[u8]) -> (r: Option<usize>)
    ensures
        match r {
            Some(offset) => adts_payload_offset(data@) == Some(offset as int),
            None => adts_payload_offset(data@) is None,
        },
{
    match oxideav_aac::adts::AdtsHeader::parse(data) {
        Ok((_, offset)) => Some(offset),
        Err(_) => None,
    }
}

// ---------------------------------------------------------------------------
// Access units
// ---------------------------------------------------------------------------

/// Why AAC cannot be had.
#[derive(Debug, Clone, Copy, PartialEq, Eq)]
pub enum AacError {
    /// The parameters of the stream cannot be encoded.
    Init,
    /// The encoder failed on a frame.
    Encode,
    /// The encoder gave a frame without an ADTS header.
    MalformedFrame,
    /// The encoder gave a frame without AAC data.
    EmptyUnit,
}

/// The AAC data of one frame.
#[derive(Debug, Clone)]
pub struct AacAccessUnit {
    /// The AAC data, without an ADTS header.
    pub data: Vec<u8>,
    /// Number of the first sample.
    pub pts: u64,
    /// Number of samples, which is always that of one frame.
    pub duration: u64,
}

/// The AAC data in an ADTS frame.
pub open spec fn aac_data(adts_frame: Seq<u8>) -> Result<Seq<u8>, AacError> {
    match adts_payload_offset(adts_frame) {
        None => Err(AacError::MalformedFrame),
        Some(offset) => if offset == adts_frame.len() {
            Err(AacError::EmptyUnit)
        } else {
            Ok(adts_frame.skip(offset))
        },
    }
}

/// Takes the AAC data out of an ADTS frame whose first sample is the number
/// `pts`.
pub fn access_unit(adts_frame: &[u8], pts: u64) -> (r: Result<AacAccessUnit, AacError>)
    ensures
        match r {
            Ok(u) => aac_data(adts_frame@) == Ok::<Seq<u8>, AacError>(u.data@) && u.pts == pts
                && u.duration == FRAME_LEN,
            Err(e) => aac_data(adts_frame@) == Err::<Seq<u8>, AacError>(e),
        },
{
    match parse_adts(adts_frame) {
        None => Err(AacError::MalformedFrame),
        Some(offset) => {
            let n: usize = adts_frame.len();
            if offset == n {
                return Err(AacError::EmptyUnit);
            }
            let mut data: Vec<u8> = Vec::new();
            data.extend_from_slice(slice_subrange(adts_frame, offset, n));
            assert(data@ =~= adts_frame@.skip(offset as int));
            Ok(AacAccessUnit { data, pts, duration: FRAME_LEN as u64 })
        },
    }
}

// ---------------------------------------------------------------------------
// The buffering encoder
// ---------------------------------------------------------------------------

/// AAC encoder that takes samples in any number and gives the AAC data of every
/// frame that they complete.
pub struct AacEncoder {
    codec: Codec,
    /// Samples that do not fill a frame yet, the channels in turn.
    pending: Vec<i16>,
    /// Samples of each channel that have come.
    samples_total: u64,
    asc: Vec<u8>,
    sample_rate: u32,
    channels: u8,
}

/// What an `AacEncoder` holds.
#[verifier::ext_equal]
pub struct EncoderView {
    /// Samples that do not fill a frame yet.
    pub pending: Seq<i16>,
    /// Samples of each channel that have come.
    pub total: nat,
    /// Sample rate.
    pub sample_rate: u32,
    /// Number of channels.
    pub channels: nat,
    /// Bits in a second that the encoder is to give.
    pub bitrate: u32,
    /// The configuration of the decoder.
    pub config: Seq<u8>,
    /// The frames that the encoder was handed, in order.
    pub handed: Seq<Seq<i16>>,
    /// The ADTS frames that the encoder gave, in order.
    pub given: Seq<Seq<u8>>,
}

impl View for AacEncoder {
    type V = EncoderView;

    closed spec fn view(&self) -> EncoderView {
        EncoderView {
            pending: self.pending@,
            total: self.samples_total as nat,
            sample_rate: self.sample_rate,
            channels: self.channels as nat,
            bitrate: self.codec.settings@.bitrate,
            config: self.asc@,
            handed: self.codec.handed@,
            given: self.codec.given@,
        }
    }
}

/// What `after` has behind `before`.
pub open spec fn added(before: Seq<Seq<u8>>, after: Seq<Seq<u8>>) -> Seq<Seq<u8>> {
    after.skip(before.len() as int)
}

/// Whether `unit` is the access unit of the ADTS frame `adts` whose first sample
/// is the number `pts`.
pub open spec fn is_unit_of(unit: AacAccessUnit, adts: Seq<u8>, pts: int) -> bool {
    &&& is_adts_frame(adts)
    &&& aac_data(adts) == Ok::<Seq<u8>, AacError>(unit.data@)
    &&& unit.pts == pts
    &&& unit.duration == FRAME_LEN
}

/// Whether the encoder fails with `e` on the last of `k` frames, where it gives
/// the ADTS frames `adts`: it gives none for that frame, or one without AAC
/// data.
pub open spec fn fails_on(adts: Seq<Seq<u8>>, k: nat, e: AacError) -> bool {
    match e {
        AacError::Encode => adts.len() == k - 1,
        AacError::EmptyUnit => adts.len() == k && aac_data(adts.last()) == Err::<
            Seq<u8>,
            AacError,
        >(AacError::EmptyUnit),
        _ => false,
    }
}

/// The first `n` frames of `f` samples each in `samples`.
pub open spec fn frames(samples: Seq<i16>, f: nat, n: nat) -> Seq<Seq<i16>> {
    Seq::new(n, |i: int| samples.subrange(i * f, (i + 1) * f))
}

impl EncoderView {
    /// Samples in a frame, of all channels together.
    pub open spec fn frame_size(self) -> nat {
        FRAME_LEN as nat * self.channels
    }

    /// How many frames the samples `pcm` complete.
    pub open spec fn completed(self, pcm: Seq<i16>) -> nat {
        (self.pending.len() + pcm.len()) / self.frame_size()
    }

    /// The number of the first sample of the frame number `i` that the samples
    /// `pcm` complete.
    pub open spec fn pts(self, pcm: Seq<i16>, i: int) -> int {
        self.total + pcm.len() / self.channels - (self.pending.len() + pcm.len() - i
            * self.frame_size()) / self.channels as int
    }

    /// A new encoder.
    pub open spec fn fresh(sample_rate: u32, channels: u8, bitrate: u32) -> EncoderView {
        EncoderView {
            pending: Seq::empty(),
            total: 0,
            sample_rate,
            channels: channels as nat,
            bitrate,
            config: audio_specific_config(sample_rate, channels),
            handed: Seq::empty(),
            given: Seq::empty(),
        }
    }

    /// The encoder after the samples `pcm`, with `n` of the frames handed on, for
    /// which the ADTS frames `adts` came.
    pub open spec fn pushed(self, pcm: Seq<i16>, n: nat, adts: Seq<Seq<u8>>) -> EncoderView {
        let samples = self.pending + pcm;
        EncoderView {
            pending: samples.skip((n * self.frame_size()) as int),
            total: self.total + pcm.len() / self.channels,
            handed: self.handed + frames(samples, self.frame_size(), n),
            given: self.given + adts,
            ..self
        }
    }

    /// Whether `units` are the access units of the frames that the samples `pcm`
    /// complete, where the encoder gives the ADTS frames `adts` for them.
    pub open spec fn units_of(
        self,
        pcm: Seq<i16>,
        adts: Seq<Seq<u8>>,
        units: Seq<AacAccessUnit>,
    ) -> bool {
        &&& units.len() == self.completed(pcm)
        &&& adts.len() == units.len()
        &&& forall|i: int|
            0 <= i < units.len() ==> is_unit_of(#[trigger] units[i], adts[i], self.pts(pcm, i))
    }

    /// Whether there is room for `n` samples more: their number fits 64 bits, and
    /// the buffer fits in memory.
    pub open spec fn has_room(self, n: nat) -> bool {
        self.total + n <= u64::MAX && self.pending.len() + n <= usize::MAX
    }

    /// Whether the encoder is `after` and gives `units` when the samples `pcm`
    /// come and it does not fail.
    pub open spec fn takes(
        self,
        pcm: Seq<i16>,
        after: EncoderView,
        units: Seq<AacAccessUnit>,
    ) -> bool {
        let adts = added(self.given, after.given);
        if pcm.len() == 0 {
            after == self && units.len() == 0
        } else {
            &&& after == self.pushed(pcm, self.completed(pcm), adts)
            &&& self.units_of(pcm, adts, units)
        }
    }

    /// Whether the encoder is `after` when the samples `pcm` come and it fails
    /// with `e`: on the last of some of the frames that they complete.
    pub open spec fn fails(self, pcm: Seq<i16>, after: EncoderView, e: AacError) -> bool {
        let adts = added(self.given, after.given);
        exists|k: nat|
            1 <= k <= self.completed(pcm) && fails_on(adts, k, e) && after
                == #[trigger] self.pushed(pcm, k, adts)
    }

    /// Whether the number of every sample fits: the count of samples does not
    /// overflow, and where a frame is completed it covers what is buffered. The
    /// latter holds if the samples of all channels always come together.
    pub open spec fn in_range(self, pcm: Seq<i16>) -> bool {
        pcm.len() > 0 ==> self.in_range_with(pcm)
    }

    /// `in_range` for samples that there are.
    pub open spec fn in_range_with(self, pcm: Seq<i16>) -> bool {
        &&& self.total + pcm.len() / self.channels <= u64::MAX
        &&& self.pending.len() + pcm.len() <= usize::MAX
        &&& self.completed(pcm) > 0 ==> (self.pending.len() + pcm.len()) / self.channels
            <= self.total + pcm.len() / self.channels
    }
}

impl AacEncoder {
    /// What holds of every encoder: it has a channel, and its codec and the
    /// configuration are those of its stream.
    pub closed spec fn wf(self) -> bool {
        &&& 1 <= self.channels
        &&& self.codec.settings@.sample_rate == self.sample_rate
        &&& self.codec.settings@.channels == self.channels
        &&& self.asc@ == audio_specific_config(self.sample_rate, self.channels)
    }

    /// Creates an encoder.
    pub fn new(sample_rate: u32, channels: u8, bitrate_bps: u32) -> (r: Result<
        AacEncoder,
        AacError,
    >)
        ensures
            match r {
                Ok(e) => can_encode(sample_rate, channels, bitrate_bps) && e@
                    == EncoderView::fresh(sample_rate, channels, bitrate_bps) && e.wf(),
                Err(e) => !can_encode(sample_rate, channels, bitrate_bps) && e == AacError::Init,
            },
    {
        match new_encoder(sample_rate, channels, bitrate_bps) {
            Ok(codec) => {
                let e = AacEncoder {
                    codec,
                    pending: Vec::new(),
                    samples_total: 0,
                    asc: write_config(sample_rate, channels),
                    sample_rate,
                    channels,
                };
                assert(e@ =~= EncoderView::fresh(sample_rate, channels, bitrate_bps));
                Ok(e)
            },
            Err(_) => Err(AacError::Init),
        }
    }

    /// Whether there is room for `n` samples more.
    pub fn has_room(&self, n: usize) -> (b: bool)
        ensures
            b == self@.has_room(n as nat),
    {
        self.samples_total <= u64::MAX - n as u64 && n <= usize::MAX - self.pending.len()
    }

    /// The configuration of the decoder (`AudioSpecificConfig`).
    #[must_use]
    pub fn asc(&self) -> (r: &[u8])
        ensures
            r@ == self@.config,
    {
        self.asc.as_slice()
    }

    /// Sample rate of the stream.
    #[must_use]
    pub fn sample_rate(&self) -> (r: u32)
        ensures
            r == self@.sample_rate,
    {
        self.sample_rate
    }

    /// Number of channels of the stream.
    #[must_use]
    pub fn channels(&self) -> (r: u8)
        ensures
            r == self@.channels,
    {
        self.channels
    }
}

/// A frame more is the frames before it and the frame.
proof fn lemma_one_more_frame(samples: Seq<i16>, f: nat, n: nat)
    ensures
        frames(samples, f, (n + 1) as nat) == frames(samples, f, n).push(
            samples.subrange((n * f) as int, ((n + 1) * f) as int),
        ),
{
    assert(frames(samples, f, (n + 1) as nat) =~= frames(samples, f, n).push(
        samples.subrange((n * f) as int, ((n + 1) * f) as int),
    ));
}

impl AacEncoder {
    /// Takes the next frame out of the buffer, with the number of its first
    /// sample.
    fn next_frame(&mut self, f: usize) -> (r: (Vec<i16>, u64))
        requires
            old(self).wf(),
            0 < f <= old(self)@.pending.len(),
            old(self)@.pending.len() / old(self)@.channels <= old(self)@.total,
        ensures
            r.0@ == old(self)@.pending.take(f as int),
            r.1 == old(self)@.total - old(self)@.pending.len() / old(self)@.channels,
            final(self)@ == (EncoderView {
                pending: old(self)@.pending.skip(f as int),
                ..old(self)@
            }),
            final(self).wf(),
    {
        let n: usize = self.pending.len();
        let pts: u64 = self.samples_total - n as u64 / self.channels as u64;
        let mut frame: Vec<i16> = Vec::new();
        let mut rest: Vec<i16> = Vec::new();
        frame.extend_from_slice(slice_subrange(self.pending.as_slice(), 0, f));
        rest.extend_from_slice(slice_subrange(self.pending.as_slice(), f, n));
        assert(frame@ =~= self.pending@.take(f as int));
        assert(rest@ =~= self.pending@.skip(f as int));
        self.pending = rest;
        (frame, pts)
    }

    /// Hands a frame to the encoder.
    fn encode(&mut self, frame: &Vec<i16>) -> (r: Result<Vec<u8>, AacError>)
        requires
            old(self).wf(),
        ensures
            final(self).wf(),
            final(self)@ == (EncoderView {
                handed: old(self)@.handed.push(frame@),
                given: match r {
                    Ok(adts) => old(self)@.given.push(adts@),
                    Err(_) => old(self)@.given,
                },
                ..old(self)@
            }),
            match r {
                Ok(adts) => is_adts_frame(adts@),
                Err(e) => e == AacError::Encode,
            },
    {
        match encode_samples(&mut self.codec, frame.as_slice()) {
            Ok(adts) => Ok(adts),
            Err(_) => Err(AacError::Encode),
        }
    }

    /// Buffers samples, the channels in turn, and gives the AAC data of every
    /// frame that they complete.
    ///
    /// If the encoder fails on a frame, that frame is lost and so is the AAC
    /// data of the frames before it; the samples behind it stay buffered.
    pub fn push_pcm(&mut self, pcm: &[i16]) -> (r: Result<Vec<AacAccessUnit>, AacError>)
        requires
            old(self).wf(),
            old(self)@.in_range(pcm@),
        ensures
            final(self).wf(),
            match r {
                Ok(units) => old(self)@.takes(pcm@, final(self)@, units@),
                Err(e) => old(self)@.fails(pcm@, final(self)@, e),
            },
    {
        if pcm.len() == 0 {
            return Ok(Vec::new());
        }
        let ghost start = self@;
        let ghost mut out: Seq<Seq<u8>> = Seq::empty();
        let ghost samples = start.pending + pcm@;
        let f: usize = FRAME_LEN * self.channels as usize;
        let ghost fi = f as int;
        self.pending.extend_from_slice(pcm);
        self.samples_total = self.samples_total + pcm.len() as u64 / self.channels as u64;
        let mut units: Vec<AacAccessUnit> = Vec::new();
        let ghost mut k: nat = 0;
        proof {
            assert(self@.handed =~= start.handed + frames(samples, f as nat, 0));
            assert(samples.skip(0) =~= samples);
            assert(self@.given =~= start.given + out);
            assert(self@ =~= start.pushed(pcm@, 0, out));
        }
        while self.pending.len() >= f
            invariant
                f == FRAME_LEN * start.channels,
                fi == f,
                start.channels >= 1,
                self.wf(),
                start.in_range_with(pcm@),
                samples == start.pending + pcm@,
                k * fi <= samples.len(),
                self@ == start.pushed(pcm@, k, out),
                start == old(self)@,
                pcm@.len() > 0,
                units@.len() == k,
                out.len() == k,
                forall|i: int|
                    0 <= i < units@.len() ==> is_unit_of(
                        #[trigger] units@[i],
                        out[i],
                        start.pts(pcm@, i),
                    ),
            decreases self@.pending.len(),
        {
            let ghost left = self@.pending;
            proof {
                assert((k + 1) * fi == k * fi + fi) by (nonlinear_arith);
                assert(k * fi >= 0) by (nonlinear_arith)
                    requires
                        k >= 0,
                        fi >= 0,
                ;
                assert(left.len() == samples.len() - k * fi);
                lemma_frame_fits(start, pcm@, k);
                lemma_one_more_frame(samples, f as nat, k);
            }
            let (frame, pts) = self.next_frame(f);
            let encoded = self.encode(&frame);
            proof {
                assert(frame@ =~= samples.subrange(k * fi, (k + 1) * fi));
                assert(self@.pending =~= samples.skip((k + 1) * fi));
                assert(self@.handed =~= start.handed + frames(samples, f as nat, (k + 1) as nat));
                k = (k + 1) as nat;
            }
            let adts = match encoded {
                Ok(adts) => adts,
                Err(e) => {
                    proof {
                        assert(added(start.given, self@.given) =~= out);
                        assert(self@ =~= start.pushed(pcm@, k, out));
                    }
                    return Err(e);
                },
            };
            proof {
                assert(self@.given =~= start.given + out.push(adts@));
                out = out.push(adts@);
                assert(self@ =~= start.pushed(pcm@, k, out));
                assert(added(start.given, self@.given) =~= out);
            }
            let unit = match access_unit(adts.as_slice(), pts) {
                Ok(unit) => unit,
                Err(e) => {
                    return Err(e);
                },
            };
            units.push(unit);
        }
        proof {
            lemma_frames_done(start, pcm@, k);
            assert(added(start.given, self@.given) =~= out);
        }
        Ok(units)
    }
}

proof fn lemma_frame_fits(start: EncoderView, pcm: Seq<i16>, k: nat)
    requires
        start.channels >= 1,
        start.in_range_with(pcm),
        (k + 1) * start.frame_size() <= start.pending.len() + pcm.len(),
    ensures
        k + 1 <= start.completed(pcm),
        (start.pending.len() + pcm.len() - k * start.frame_size()) / start.channels as int
            <= start.total + pcm.len() / start.channels,
        0 <= k * start.frame_size(),
{
    let n = (start.pending.len() + pcm.len()) as int;
    let f = start.frame_size() as int;
    assert(f > 0);
    vstd::arithmetic::div_mod::lemma_div_is_ordered((k + 1) * f, n, f);
    vstd::arithmetic::div_mod::lemma_div_multiples_vanish((k + 1) as int, f);
    assert((k + 1) * f / f == k + 1);
    assert(k * f >= 0) by (nonlinear_arith)
        requires
            k >= 0,
            f > 0,
    ;
    vstd::arithmetic::div_mod::lemma_div_is_ordered(n - k * f, n, start.channels as int);
}

proof fn lemma_frames_done(start: EncoderView, pcm: Seq<i16>, k: nat)
    requires
        start.channels >= 1,
        k * start.frame_size() <= start.pending.len() + pcm.len(),
        start.pending.len() + pcm.len() - k * start.frame_size() < start.frame_size(),
    ensures
        k == start.completed(pcm),
{
    let n = (start.pending.len() + pcm.len()) as int;
    let f = start.frame_size() as int;
    vstd::arithmetic::div_mod::lemma_fundamental_div_mod_converse(n, f, k as int, n - k * f);
}

// ---------------------------------------------------------------------------
// Laws
// ---------------------------------------------------------------------------

/// The samples of the frames, one after another.
pub open spec fn all_samples(frames: Seq<Seq<i16>>) -> Seq<i16>
    decreases frames.len(),
{
    if frames.len() == 0 {
        Seq::empty()
    } else {
        all_samples(frames.drop_last()) + frames.last()
    }
}

impl EncoderView {
    /// Whether every sample that came was handed on in a whole frame or is
    /// buffered, in each channel. That holds of a new encoder.
    pub open spec fn aligned(self) -> bool {
        &&& self.channels >= 1
        &&& self.total * self.channels == self.handed.len() * self.frame_size()
            + self.pending.len()
    }
}

proof fn lemma_frames_joined(front: Seq<Seq<i16>>, samples: Seq<i16>, f: nat, n: nat)
    requires
        n * f <= samples.len(),
    ensures
        all_samples(front + frames(samples, f, n)) + samples.skip((n * f) as int) == all_samples(
            front,
        ) + samples,
    decreases n,
{
    if n == 0 {
        assert(n * f == 0) by (nonlinear_arith)
            requires
                n == 0,
        ;
        assert(front + frames(samples, f, 0) =~= front);
        assert(samples.skip(0) =~= samples);
    } else {
        let m = (n - 1) as nat;
        assert(n * f == m * f + f) by (nonlinear_arith)
            requires
                n == m + 1,
        ;
        lemma_frames_joined(front, samples, f, m);
        lemma_one_more_frame(samples, f, m);
        let last = samples.subrange((m * f) as int, (n * f) as int);
        let all = front + frames(samples, f, n);
        assert(all.drop_last() =~= front + frames(samples, f, m));
        assert(all.last() == last);
        assert(samples.skip((m * f) as int) =~= last + samples.skip((n * f) as int));
        assert(all_samples(front + frames(samples, f, m)) + (last + samples.skip((n * f) as int))
            =~= all_samples(front + frames(samples, f, m)) + last + samples.skip((n * f) as int));
    }
}

/// No sample is lost, added or moved: the samples that were handed on, with
/// those that are buffered behind them, are the samples that came, in order.
pub proof fn law_samples_are_kept(
    e: EncoderView,
    pcm: Seq<i16>,
    n: nat,
    adts: Seq<Seq<u8>>,
)
    requires
        n <= e.completed(pcm),
        e.channels >= 1,
    ensures
        all_samples(e.pushed(pcm, n, adts).handed) + e.pushed(pcm, n, adts).pending == all_samples(
            e.handed,
        ) + e.pending + pcm,
{
    let f = e.frame_size();
    let len = e.pending.len() + pcm.len();
    lemma_frames_within(len, f, n);
    lemma_frames_joined(e.handed, e.pending + pcm, f, n);
    assert(all_samples(e.handed) + (e.pending + pcm) =~= all_samples(e.handed) + e.pending + pcm);
}

pub(crate) proof fn lemma_frames_within(len: nat, f: nat, n: nat)
    requires
        f > 0,
        n <= len / f,
    ensures
        n * f <= len,
{
    vstd::arithmetic::div_mod::lemma_fundamental_div_mod(len as int, f as int);
    let q = (len / f) as int;
    assert(n * f <= q * f) by (nonlinear_arith)
        requires
            n <= q,
            f > 0,
    ;
    assert(f * q == q * f) by (nonlinear_arith);
}

/// The encoder after the samples `pcms`, one call after another, where the ADTS
/// frames `adts` came in each.
pub open spec fn pushed_all(
    e: EncoderView,
    pcms: Seq<Seq<i16>>,
    adts: Seq<Seq<Seq<u8>>>,
) -> EncoderView
    decreases pcms.len(),
{
    if pcms.len() == 0 {
        e
    } else {
        let before = pushed_all(e, pcms.drop_last(), adts.drop_last());
        before.pushed(pcms.last(), before.completed(pcms.last()), adts.last())
    }
}

/// However the samples are cut into calls, the encoder is handed the same frames
/// and buffers the same rest: as many whole frames as there are in the samples,
/// so that N samples of one channel give N / 1024 access units.
pub proof fn law_cuts_do_not_matter(
    e: EncoderView,
    pcms: Seq<Seq<i16>>,
    adts: Seq<Seq<Seq<u8>>>,
)
    requires
        e.channels >= 1,
        e.pending.len() < e.frame_size(),
        adts.len() == pcms.len(),
    ensures
        ({
            let after = pushed_all(e, pcms, adts);
            let samples = e.pending + all_samples(pcms);
            let n = samples.len() / e.frame_size();
            &&& after.channels == e.channels
            &&& after.handed == e.handed + frames(samples, e.frame_size(), n)
            &&& after.handed.len() == e.handed.len() + n
            &&& after.pending == samples.skip((n * e.frame_size()) as int)
        }),
    decreases pcms.len(),
{
    let f = e.frame_size();
    let samples = e.pending + all_samples(pcms);
    let n = samples.len() / f;
    if pcms.len() == 0 {
        assert(samples =~= e.pending);
        vstd::arithmetic::div_mod::lemma_basic_div(samples.len() as int, f as int);
        assert(n * f == 0) by (nonlinear_arith)
            requires
                n == 0,
        ;
        assert(frames(samples, f, 0) =~= Seq::empty());
        assert(e.handed + frames(samples, f, n) =~= e.handed);
        assert(samples.skip(0) =~= samples);
    } else {
        law_cuts_do_not_matter(e, pcms.drop_last(), adts.drop_last());
        let before = pushed_all(e, pcms.drop_last(), adts.drop_last());
        let first = e.pending + all_samples(pcms.drop_last());
        let k = first.len() / f;
        let pcm = pcms.last();
        let m = before.completed(pcm);
        assert(samples =~= first + pcm);
        lemma_frames_within(first.len(), f, k);
        let at = (k * f) as int;
        let rest = before.pending + pcm;
        assert(rest =~= samples.skip(at));
        vstd::arithmetic::div_mod::lemma_hoist_over_denominator(
            rest.len() as int,
            k as int,
            f,
        );
        assert(rest.len() + k * f == samples.len());
        assert(m + k == n);
        lemma_frames_within(rest.len(), f, m);
        lemma_frames_continue(first, pcm, f, k, m);
        assert(before.handed + frames(rest, f, m) =~= e.handed + (frames(first, f, k) + frames(
            rest,
            f,
            m,
        )));
        assert(n * f == k * f + m * f) by (nonlinear_arith)
            requires
                n == k + m,
        ;
        assert(rest.skip((m * f) as int) =~= samples.skip((n * f) as int));
    }
}

/// The frames of a text of samples are those of its first part and those behind
/// them.
proof fn lemma_frames_continue(first: Seq<i16>, pcm: Seq<i16>, f: nat, k: nat, m: nat)
    requires
        k * f <= first.len(),
        m * f <= first.len() - k * f + pcm.len(),
    ensures
        frames(first + pcm, f, (k + m) as nat) == frames(first, f, k) + frames(
            (first + pcm).skip((k * f) as int),
            f,
            m,
        ),
{
    let samples = first + pcm;
    let rest = samples.skip((k * f) as int);
    let all = frames(samples, f, (k + m) as nat);
    let parts = frames(first, f, k) + frames(rest, f, m);
    assert forall|i: int| 0 <= i < k + m implies all[i] == #[trigger] parts[i] by {
        assert(0 <= i * f && i * f <= (i + 1) * f) by (nonlinear_arith)
            requires
                0 <= i,
        ;
        if i < k {
            assert((i + 1) * f <= k * f) by (nonlinear_arith)
                requires
                    i + 1 <= k,
            ;
            assert(samples.subrange(i * f, (i + 1) * f) =~= first.subrange(i * f, (i + 1) * f));
        } else {
            let j = i - k;
            assert((j + 1) * f <= m * f && i * f == k * f + j * f && (i + 1) * f == k * f + (j + 1)
                * f && 0 <= j * f && j * f <= (j + 1) * f) by (nonlinear_arith)
                requires
                    i == k + j,
                    0 <= j,
                    j + 1 <= m,
            ;
            assert(samples.subrange(i * f, (i + 1) * f) =~= rest.subrange(j * f, (j + 1) * f));
        }
    }
    assert(all =~= parts);
}

/// The access units follow one another by exactly one frame, from sample zero:
/// as long as the samples of all channels come together, the number of the
/// first sample of a unit is 1024 times the number of units before it, and
/// pushing more samples keeps it so.
pub proof fn law_units_follow_by_one_frame(
    e: EncoderView,
    pcm: Seq<i16>,
    n: nat,
    adts: Seq<Seq<u8>>,
    i: int,
)
    requires
        e.aligned(),
        pcm.len() % e.channels == 0,
        n <= e.completed(pcm),
        0 <= i < e.completed(pcm),
    ensures
        e.pts(pcm, i) == FRAME_LEN * (e.handed.len() + i),
        e.pushed(pcm, n, adts).aligned(),
{
    lemma_aligned_push(e, pcm, n, adts);
    lemma_aligned_pts(e, pcm, i);
}

/// Pushing samples of all channels together keeps the encoder aligned.
pub(crate) proof fn lemma_aligned_push(
    e: EncoderView,
    pcm: Seq<i16>,
    n: nat,
    adts: Seq<Seq<u8>>,
)
    requires
        e.aligned(),
        pcm.len() % e.channels == 0,
        n <= e.completed(pcm),
    ensures
        e.pushed(pcm, n, adts).aligned(),
        (e.pending.len() + pcm.len()) / e.channels <= e.total + pcm.len() / e.channels,
{
    let ch = e.channels as int;
    let f = e.frame_size() as int;
    let len = (e.pending.len() + pcm.len()) as int;
    let more = pcm.len() as int / ch;
    vstd::arithmetic::div_mod::lemma_fundamental_div_mod(pcm.len() as int, ch);
    lemma_frames_within(len as nat, f as nat, n);
    assert((e.total + more) * ch == e.total * ch + ch * more) by (nonlinear_arith);
    assert((e.handed.len() + n) * f == e.handed.len() * f + n * f) by (nonlinear_arith);
    let after = e.pushed(pcm, n, adts);
    assert(after.handed.len() == e.handed.len() + n);
    assert(after.pending.len() == len - n * f);
    assert(e.handed.len() * f >= 0) by (nonlinear_arith)
        requires
            f >= 0,
    ;
    assert(len <= (e.total + more) * ch);
    vstd::arithmetic::div_mod::lemma_div_is_ordered(len, (e.total + more) * ch, ch);
    vstd::arithmetic::div_mod::lemma_div_multiples_vanish(e.total + more, ch);
    assert((e.total + more) * ch == ch * (e.total + more)) by (nonlinear_arith);
}

proof fn lemma_aligned_pts(e: EncoderView, pcm: Seq<i16>, i: int)
    requires
        e.aligned(),
        pcm.len() % e.channels == 0,
        0 <= i < e.completed(pcm),
    ensures
        e.pts(pcm, i) == FRAME_LEN * (e.handed.len() + i),
{
    let ch = e.channels as int;
    let f = e.frame_size() as int;
    let len = (e.pending.len() + pcm.len()) as int;
    let more = pcm.len() as int / ch;
    vstd::arithmetic::div_mod::lemma_fundamental_div_mod(pcm.len() as int, ch);
    let t = e.total + more;
    let units = FRAME_LEN * (e.handed.len() + i);
    assert(f == 1024 * ch);
    assert((e.total + more) * ch == e.total * ch + ch * more) by (nonlinear_arith);
    assert(units * ch == e.handed.len() * f + i * f) by (nonlinear_arith)
        requires
            units == 1024 * (e.handed.len() + i),
            f == 1024 * ch,
    ;
    assert((t - units) * ch == t * ch - units * ch) by (nonlinear_arith);
    assert(len - i * f == (t - units) * ch);
    vstd::arithmetic::div_mod::lemma_div_multiples_vanish(t - units, ch);
}

/// The encoder is handed whole frames only, and as soon as there is one: every
/// frame has 1024 samples of each channel, and what stays buffered is less than
/// another. What was handed on before stays as it was.
pub proof fn law_only_whole_frames_are_handed_on(
    e: EncoderView,
    pcm: Seq<i16>,
    adts: Seq<Seq<u8>>,
)
    requires
        e.channels >= 1,
    ensures
        ({
            let after = e.pushed(pcm, e.completed(pcm), adts);
            &&& after.pending.len() < 1024 * e.channels
            &&& after.handed.len() >= e.handed.len()
            &&& forall|i: int|
                0 <= i < e.handed.len() ==> #[trigger] after.handed[i] == e.handed[i]
            &&& forall|i: int|
                e.handed.len() <= i < after.handed.len() ==> (#[trigger] after.handed[i]).len()
                    == 1024 * e.channels
        }),
{
    let f = e.frame_size();
    let n = e.completed(pcm);
    let samples = e.pending + pcm;
    let after = e.pushed(pcm, n, adts);
    lemma_frames_within(samples.len(), f, n);
    vstd::arithmetic::div_mod::lemma_fundamental_div_mod(samples.len() as int, f as int);
    assert(n * f == f * n) by (nonlinear_arith);
    assert forall|i: int| e.handed.len() <= i < after.handed.len() implies (
    #[trigger] after.handed[i]).len() == 1024 * e.channels by {
        let j = i - e.handed.len();
        assert(after.handed[i] == samples.subrange(j * f, (j + 1) * f));
        assert(0 <= j * f && (j + 1) * f == j * f + f && (j + 1) * f <= n * f) by (nonlinear_arith)
            requires
                0 <= j,
                j + 1 <= n,
        ;
    }
}

/// The AAC data of a frame that the encoder gives is everything behind the seven
/// bytes of its ADTS header; there is none exactly if the frame ends there.
pub proof fn law_data_is_all_behind_the_header(adts: Seq<u8>)
    requires
        is_adts_frame(adts),
    ensures
        adts.len() > 7 ==> aac_data(adts) == Ok::<Seq<u8>, AacError>(adts.skip(7)),
        adts.len() == 7 ==> aac_data(adts) == Err::<Seq<u8>, AacError>(AacError::EmptyUnit),
{
}

/// The AAC data of any frame is what stands behind its header, of seven bytes, or of
/// nine if there is a checksum; a frame without a header, and one that ends with it, is refused.
pub proof fn law_data_of_any_frame(frame: Seq<u8>)
    ensures
        adts_payload_offset(frame) is None ==> aac_data(frame) == Err::<Seq<u8>, AacError>(
            AacError::MalformedFrame,
        ),
        adts_payload_offset(frame) matches Some(k) ==> k == (if frame[1] % 2 == 1 {
            7int
        } else {
            9
        }) && if frame.len() == k {
            aac_data(frame) == Err::<Seq<u8>, AacError>(AacError::EmptyUnit)
        } else {
            aac_data(frame) == Ok::<Seq<u8>, AacError>(frame.skip(k))
        },
{
}

/// A new encoder is for the stream that was asked for and has taken and given
/// nothing. Its configuration tells object type 2, the rate by its place among
/// the rates of AAC, and the channels.
pub proof fn law_new_encoder_is_as_asked(sample_rate: u32, channels: u8, bitrate: u32)
    requires
        can_encode(sample_rate, channels, bitrate),
    ensures
        ({
            let e = EncoderView::fresh(sample_rate, channels, bitrate);
            let i = e.config[0] % 8 * 2 + e.config[1] / 128;
            &&& e.sample_rate == sample_rate
            &&& e.channels == channels
            &&& e.bitrate == bitrate
            &&& e.total == 0
            &&& e.pending.len() == 0
            &&& e.handed.len() == 0
            &&& e.given.len() == 0
            &&& e.config.len() == 2
            &&& e.config[0] / 8 == 2
            &&& e.config[1] % 128 == channels * 8
            &&& 0 <= i < 12
            &&& seq![
                96_000u32,
                88_200,
                64_000,
                48_000,
                44_100,
                32_000,
                24_000,
                22_050,
                16_000,
                12_000,
                11_025,
                8_000,
            ][i] == sample_rate
        }),
{
}

/// Room for samples is what the counters can still hold, and it is the same for
/// every way of cutting the samples up.
pub proof fn law_room_is_what_counters_hold(e: EncoderView, n: nat, k: nat)
    ensures
        e.has_room(n) <==> e.total + n <= u64::MAX && e.pending.len() + n <= usize::MAX,
        e.has_room(n + k) ==> e.has_room(n),
{
}

} // verus!
