//! H.264 NAL units into an FLV stream.
//!
//! The decoder of the client has to be configured before the first frame: as
//! soon as the stream has shown its parameter sets, the muxer gives a script
//! tag and the sequence header tag, and from there on a tag for each frame.
//!
//! The data of a video tag is one byte with the frame type in its high four
//! bits and the codec (7, AVC) in its low ones, one byte with the packet type,
//! three bytes of composition time, which a live stream has at zero, and the
//! NAL unit.

use vstd::prelude::*;
use vstd::slice::slice_subrange;
use vstd::utf8::encode_utf8;

use crate::bytes::{be16, be32, low32, push_be16, push_be32, push_be64};
use crate::flv_tag::{build_tag, flv_tag, is_tag_around, law_tag_layout};
use crate::video::rtp_parser::{NalUnit, NalView, NAL_TYPE_PPS, NAL_TYPE_SPS};

verus! {

pub const TAG_TYPE_VIDEO: u8 = 9;
pub const TAG_TYPE_SCRIPT: u8 = 0x12;
pub const CODEC_AVC: u8 = 7;
pub const FRAME_KEYFRAME: u8 = 1;
pub const FRAME_INTER: u8 = 2;
pub const AVC_SEQUENCE_HEADER: u8 = 0;
pub const AVC_NALU: u8 = 1;

// ---------------------------------------------------------------------------
// Header and metadata
// ---------------------------------------------------------------------------

/// The header of an FLV stream that holds video only, and the zero that stands
/// before the first tag.
pub open spec fn video_header() -> Seq<u8> {
    seq![0x46u8, 0x4c, 0x56, 1, 1, 0, 0, 0, 9, 0, 0, 0, 0]
}

/// Builds the header of an FLV stream that holds video only.
///
/// It goes first to every client.
#[must_use]
pub fn flv_header() -> (r: Vec<u8>)
    ensures
        r@ == video_header(),
{
    vec![0x46, 0x4c, 0x56, 1, 1, 0, 0, 0, 9, 0, 0, 0, 0]
}

/// A name in AMF0: its length in two bytes, and the name.
pub open spec fn amf_name(name: Seq<char>) -> Seq<u8> {
    be16((encode_utf8(name).len() % 0x1_0000_0000) as nat) + encode_utf8(name)
}

/// A member of an AMF0 array: its name, and a number given by the bits of its
/// floating-point form.
pub open spec fn amf_member(name: Seq<char>, bits: u64) -> Seq<u8> {
    amf_name(name) + seq![0u8] + (be32((bits / 0x1_0000_0000) as nat) + be32(
        (bits % 0x1_0000_0000) as nat,
    ))
}

/// What the client is told of the stream: an AMF0 array under the name
/// `onMetaData`, with the width 2560, the height 1440, the frame rate 15, the
/// codec 7, and zeros.
#[verifier::opaque]
pub open spec fn on_metadata() -> Seq<u8> {
    seq![2u8] + amf_name("onMetaData"@) + seq![8u8] + be32(8)
        + amf_member("duration"@, 0)
        + amf_member("width"@, 0x40a4_0000_0000_0000)
        + amf_member("height"@, 0x4096_8000_0000_0000)
        + amf_member("videodatarate"@, 0)
        + amf_member("framerate"@, 0x402e_0000_0000_0000)
        + amf_member("videocodecid"@, 0x401c_0000_0000_0000)
        + amf_member("encoder"@, 0)
        + amf_member("filesize"@, 0)
        + seq![0u8, 0, 9]
}

fn push_name(out: &mut Vec<u8>, name: &str)
    ensures
        final(out)@ == old(out)@ + amf_name(name@),
{
    let bytes = name.as_bytes();
    push_be16(out, low32(bytes.len()));
    out.extend_from_slice(bytes);
    assert(out@ =~= old(out)@ + amf_name(name@));
}

fn push_member(out: &mut Vec<u8>, name: &str, bits: u64)
    ensures
        final(out)@ == old(out)@ + amf_member(name@, bits),
{
    push_name(out, name);
    out.push(0);
    push_be64(out, bits);
    assert(out@ =~= old(out)@ + amf_member(name@, bits));
}

/// Builds what the client is told of the stream.
pub fn build_on_metadata() -> (r: Vec<u8>)
    ensures
        r@ == on_metadata(),
{
    let mut buf: Vec<u8> = Vec::new();
    buf.push(2);
    assert(buf@ =~= seq![2u8]);
    push_name(&mut buf, "onMetaData");
    let ghost before = buf@;
    buf.push(8);
    assert(buf@ =~= before + seq![8u8]);
    push_be32(&mut buf, 8);
    push_member(&mut buf, "duration", 0);
    push_member(&mut buf, "width", 0x40a4_0000_0000_0000);
    push_member(&mut buf, "height", 0x4096_8000_0000_0000);
    push_member(&mut buf, "videodatarate", 0);
    push_member(&mut buf, "framerate", 0x402e_0000_0000_0000);
    push_member(&mut buf, "videocodecid", 0x401c_0000_0000_0000);
    push_member(&mut buf, "encoder", 0);
    push_member(&mut buf, "filesize", 0);
    let ghost before = buf@;
    buf.push(0);
    buf.push(0);
    buf.push(9);
    proof {
        reveal(on_metadata);
        assert(buf@ =~= before + seq![0u8, 0, 9]);
    }
    buf
}

/// The script tag.
pub open spec fn script_tag(timestamp: u32) -> Seq<u8> {
    flv_tag(TAG_TYPE_SCRIPT, on_metadata(), timestamp as nat)
}

/// Builds the script tag with the timestamp zero.
#[must_use]
pub fn flv_script_tag() -> (r: Vec<u8>)
    ensures
        r@ == script_tag(0),
{
    build_script_tag(0)
}

/// Builds the script tag.
#[must_use]
pub fn build_script_tag(timestamp: u32) -> (r: Vec<u8>)
    ensures
        r@ == script_tag(timestamp),
{
    build_tag(TAG_TYPE_SCRIPT, build_on_metadata().as_slice(), timestamp)
}

// ---------------------------------------------------------------------------
// Video tags
// ---------------------------------------------------------------------------

/// A video tag.
pub open spec fn video_tag(
    frame_type: u8,
    avc_packet_type: u8,
    data: Seq<u8>,
    timestamp: u32,
) -> Seq<u8> {
    flv_tag(
        TAG_TYPE_VIDEO,
        seq![(frame_type % 16 * 16 + CODEC_AVC) as u8, avc_packet_type, 0u8, 0u8, 0u8] + data,
        timestamp as nat,
    )
}

/// Builds a video tag.
pub fn build_video_frame_tag(
    frame_type: u8,
    avc_packet_type: u8,
    data: &[u8],
    timestamp: u32,
) -> (r: Vec<u8>)
    ensures
        r@ == video_tag(frame_type, avc_packet_type, data@, timestamp),
{
    let mut body: Vec<u8> = Vec::new();
    body.push(frame_type % 16 * 16 + CODEC_AVC);
    body.push(avc_packet_type);
    body.push(0);
    body.push(0);
    body.push(0);
    body.extend_from_slice(data);
    assert(body@ =~= seq![
        (frame_type % 16 * 16 + CODEC_AVC) as u8,
        avc_packet_type,
        0u8,
        0u8,
        0u8,
    ] + data@);
    build_tag(TAG_TYPE_VIDEO, body.as_slice(), timestamp)
}

/// The tag of a frame.
pub open spec fn frame_tag(nal_data: Seq<u8>, is_keyframe: bool, timestamp: u32) -> Seq<u8> {
    video_tag(
        if is_keyframe {
            FRAME_KEYFRAME
        } else {
            FRAME_INTER
        },
        AVC_NALU,
        nal_data,
        timestamp,
    )
}

/// Builds the tag of a frame, whose NAL unit is in AVCC form.
pub fn build_video_tag(nal_data: &[u8], is_keyframe: bool, timestamp: u32) -> (r: Vec<u8>)
    ensures
        r@ == frame_tag(nal_data@, is_keyframe, timestamp),
{
    let frame_type: u8 = if is_keyframe {
        FRAME_KEYFRAME
    } else {
        FRAME_INTER
    };
    build_video_frame_tag(frame_type, AVC_NALU, nal_data, timestamp)
}

/// The configuration of the decoder for the two parameter sets: profile and
/// level are those of the SPS, if it is long enough to have them.
pub open spec fn decoder_config(sps: Seq<u8>, pps: Seq<u8>) -> Seq<u8> {
    let profile = if sps.len() >= 4 {
        sps[1]
    } else {
        0x42
    };
    let level = if sps.len() >= 4 {
        sps[3]
    } else {
        0x1e
    };
    seq![1u8, profile, 0, level, 0xff, 0xe1] + be16((sps.len() % 0x1_0000_0000) as nat) + sps
        + seq![1u8] + be16((pps.len() % 0x1_0000_0000) as nat) + pps
}

/// The sequence header tag for the two parameter sets.
pub open spec fn sequence_header_tag(sps: Seq<u8>, pps: Seq<u8>, timestamp: u32) -> Seq<u8> {
    video_tag(FRAME_KEYFRAME, AVC_SEQUENCE_HEADER, decoder_config(sps, pps), timestamp)
}

/// Builds the sequence header tag for the two parameter sets.
pub fn build_sequence_header(sps: &[u8], pps: &[u8], timestamp: u32) -> (r: Vec<u8>)
    ensures
        r@ == sequence_header_tag(sps@, pps@, timestamp),
{
    let mut profile: u8 = 0x42;
    let mut level: u8 = 0x1e;
    if sps.len() >= 4 {
        profile = sps[1];
        level = sps[3];
    }
    let mut c: Vec<u8> = Vec::new();
    c.push(1);
    c.push(profile);
    c.push(0);
    c.push(level);
    c.push(0xff);
    c.push(0xe1);
    assert(c@ =~= seq![1u8, profile, 0, level, 0xff, 0xe1]);
    push_be16(&mut c, low32(sps.len()));
    c.extend_from_slice(sps);
    let ghost before = c@;
    c.push(1);
    assert(c@ =~= before + seq![1u8]);
    push_be16(&mut c, low32(pps.len()));
    c.extend_from_slice(pps);
    assert(c@ =~= decoder_config(sps@, pps@));
    build_video_frame_tag(FRAME_KEYFRAME, AVC_SEQUENCE_HEADER, c.as_slice(), timestamp)
}

// ---------------------------------------------------------------------------
// The muxer
// ---------------------------------------------------------------------------

/// `std::time::Instant`: a reading of the clock.
#[verifier::external_type_specification]
#[verifier::external_body]
pub struct ExInstant(std::time::Instant);

/// `std::time::Instant::now` reads the clock.
pub assume_specification[ std::time::Instant::now ]() -> (r: std::time::Instant);

/// `std::time::Instant::elapsed` reads the clock again and gives the span since
/// the first reading.
pub assume_specification[ std::time::Instant::elapsed ](t: &std::time::Instant) -> (r: std::time::Duration);

/// `std::time::Duration::as_millis` gives a span in whole milliseconds.
pub assume_specification[ std::time::Duration::as_millis ](d: &std::time::Duration) -> (r: u128);

/// Whether `ms` is what the clock may read, in milliseconds since `t`: the low
/// 32 bits of the whole milliseconds in a span that `Instant::elapsed` gives of
/// `t`.
pub open spec fn is_reading_since(t: std::time::Instant, ms: u32) -> bool {
    exists|span: std::time::Duration, millis: u128|
        #![trigger call_ensures(std::time::Duration::as_millis, (&span,), millis)]
        call_ensures(std::time::Instant::elapsed, (&t,), span) && call_ensures(
            std::time::Duration::as_millis,
            (&span,),
            millis,
        ) && ms == millis % 0x1_0000_0000
}

/// Whether `ms` is what the clock may read, in milliseconds since the start, if
/// there was one: zero before it.
pub open spec fn is_reading(start: Option<std::time::Instant>, ms: u32) -> bool {
    match start {
        Some(t) => is_reading_since(t, ms),
        None => ms == 0,
    }
}

/// Muxer of a video stream.
#[derive(Debug)]
pub struct FlvMuxer {
    /// Last SPS that came, without its length.
    pub sps: Option<Vec<u8>>,
    /// Last PPS that came, without its length.
    pub pps: Option<Vec<u8>>,
    /// Whether script tag and sequence header tag were given.
    pub initialized: bool,
    /// When the first SPS came.
    pub start_time: Option<std::time::Instant>,
    /// Time of the first frame, in milliseconds since the first SPS.
    pub video_base_ms: Option<u32>,
    /// Sequence header tag, for clients that join late.
    pub sequence_header_tag: Option<Vec<u8>>,
}

/// The bytes of an optional vector.
pub open spec fn opt_bytes(v: Option<Vec<u8>>) -> Option<Seq<u8>> {
    match v {
        Some(x) => Some(x@),
        None => None,
    }
}

/// The bytes of each of the tags.
pub open spec fn tag_bytes(tags: Seq<Vec<u8>>) -> Seq<Seq<u8>> {
    tags.map_values(|t: Vec<u8>| t@)
}

/// What an `FlvMuxer` holds.
pub struct MuxerView {
    pub sps: Option<Seq<u8>>,
    pub pps: Option<Seq<u8>>,
    pub initialized: bool,
    /// When the first SPS came.
    pub start: Option<std::time::Instant>,
    pub base_ms: Option<u32>,
    pub sequence_header: Option<Seq<u8>>,
}

impl View for FlvMuxer {
    type V = MuxerView;

    open spec fn view(&self) -> MuxerView {
        MuxerView {
            sps: opt_bytes(self.sps),
            pps: opt_bytes(self.pps),
            initialized: self.initialized,
            start: self.start_time,
            base_ms: self.video_base_ms,
            sequence_header: opt_bytes(self.sequence_header_tag),
        }
    }
}

/// A parameter set without the length before it. One of four bytes or fewer
/// has none.
pub open spec fn without_length(data: Seq<u8>) -> Seq<u8> {
    if data.len() > 4 {
        data.skip(4)
    } else {
        data
    }
}

impl MuxerView {
    /// The muxer of a stream that has shown nothing yet.
    pub open spec fn fresh() -> MuxerView {
        MuxerView {
            sps: None,
            pps: None,
            initialized: false,
            start: None,
            base_ms: None,
            sequence_header: None,
        }
    }

    /// The muxer and the tags once a parameter set came: the first time that
    /// both are there, script tag and sequence header tag.
    pub open spec fn with_parameters(self, elapsed_ms: u32) -> (MuxerView, Seq<Seq<u8>>) {
        match (self.sps, self.pps) {
            (Some(sps), Some(pps)) => if self.initialized {
                (self, Seq::empty())
            } else {
                let header = sequence_header_tag(sps, pps, elapsed_ms);
                (
                    MuxerView { initialized: true, sequence_header: Some(header), ..self },
                    seq![script_tag(elapsed_ms), header],
                )
            },
            _ => (self, Seq::empty()),
        }
    }

    /// The timestamp of a frame: the time since the first frame, in 32 bits.
    pub open spec fn frame_time(self, elapsed_ms: u32) -> u32 {
        let base = match self.base_ms {
            Some(b) => b as int,
            None => elapsed_ms as int,
        };
        ((elapsed_ms - base) % 0x1_0000_0000) as u32
    }

    /// The muxer and the tags after a NAL unit that comes `elapsed_ms`
    /// milliseconds after the first SPS.
    pub open spec fn nal(self, nal: NalView, elapsed_ms: u32) -> (MuxerView, Seq<Seq<u8>>) {
        if nal.nal_type == NAL_TYPE_SPS {
            MuxerView { sps: Some(without_length(nal.data)), ..self }.with_parameters(elapsed_ms)
        } else if nal.nal_type == NAL_TYPE_PPS {
            MuxerView { pps: Some(without_length(nal.data)), ..self }.with_parameters(elapsed_ms)
        } else if self.initialized {
            (
                MuxerView {
                    base_ms: Some(
                        match self.base_ms {
                            Some(b) => b,
                            None => elapsed_ms,
                        },
                    ),
                    ..self
                },
                seq![frame_tag(nal.data, nal.is_keyframe, self.frame_time(elapsed_ms))],
            )
        } else {
            (self, Seq::empty())
        }
    }

    /// Whether the muxer is `after` and gives `tags` when the NAL unit comes:
    /// the first SPS starts the clock, which then runs on, and the unit has the
    /// time that the clock reads since.
    pub open spec fn takes(self, nal: NalView, after: MuxerView, tags: Seq<Seq<u8>>) -> bool {
        &&& self.start is Some ==> after.start == self.start
        &&& after.start is Some <==> self.start is Some || nal.nal_type == NAL_TYPE_SPS
        &&& self.start is None && after.start is Some ==> call_ensures(
            std::time::Instant::now,
            (),
            after.start->0,
        )
        &&& exists|ms: u32|
            is_reading(after.start, ms) && (after, tags) == #[trigger] MuxerView {
                start: after.start,
                ..self
            }.nal(nal, ms)
    }
}

fn strip_length(data: &Vec<u8>) -> (r: Vec<u8>)
    ensures
        r@ == without_length(data@),
{
    let mut r: Vec<u8> = Vec::new();
    if data.len() > 4 {
        let rest = slice_subrange(data.as_slice(), 4, data.len());
        r.extend_from_slice(rest);
    } else {
        r.extend_from_slice(data.as_slice());
    }
    assert(r@ =~= without_length(data@));
    r
}

impl FlvMuxer {
    /// Creates the muxer of a stream that has shown nothing yet.
    #[must_use]
    pub fn new() -> (m: FlvMuxer)
        ensures
            m@ == MuxerView::fresh(),
    {
        FlvMuxer {
            sps: None,
            pps: None,
            initialized: false,
            start_time: None,
            video_base_ms: None,
            sequence_header_tag: None,
        }
    }

    /// Processes a NAL unit and gives the tags that follow from it.
    ///
    /// The parameter sets are kept, and the first time that both are there, the
    /// script tag and the sequence header tag come out. From then on every
    /// frame gives one tag; frames before that give none. The timestamps are
    /// read from the clock, which the first SPS starts: see `process_nal_at`.
    pub fn process_nal(&mut self, nal: &NalUnit) -> (tags: Vec<Vec<u8>>)
        ensures
            old(self)@.takes(nal@, final(self)@, tag_bytes(tags@)),
    {
        if nal.nal_type == NAL_TYPE_SPS && self.start_time.is_none() {
            self.start_time = Some(std::time::Instant::now());
        }
        let ms: u32 = self.elapsed_ms();
        let ghost started = MuxerView { start: self.start_time, ..old(self)@ };
        assert(self@ =~= started);
        let tags = self.process_nal_at(nal, ms);
        assert((self@, tag_bytes(tags@)) == started.nal(nal@, ms));
        tags
    }

    /// Processes a NAL unit that comes `elapsed_ms` milliseconds after the
    /// first SPS.
    pub fn process_nal_at(&mut self, nal: &NalUnit, elapsed_ms: u32) -> (tags: Vec<Vec<u8>>)
        ensures
            (final(self)@, tag_bytes(tags@)) == old(self)@.nal(nal@, elapsed_ms),
    {
        if nal.nal_type == NAL_TYPE_SPS {
            self.sps = Some(strip_length(&nal.data));
            self.emit_initialization(elapsed_ms)
        } else if nal.nal_type == NAL_TYPE_PPS {
            self.pps = Some(strip_length(&nal.data));
            self.emit_initialization(elapsed_ms)
        } else {
            let mut tags: Vec<Vec<u8>> = Vec::new();
            if self.initialized {
                let base: u32 = match self.video_base_ms {
                    Some(b) => b,
                    None => elapsed_ms,
                };
                self.video_base_ms = Some(base);
                let ts: u32 = elapsed_ms.wrapping_sub(base);
                assert(ts == (elapsed_ms - base) % 0x1_0000_0000);
                tags.push(build_video_tag(nal.data.as_slice(), nal.is_keyframe, ts));
            }
            assert(tag_bytes(tags@) =~= old(self)@.nal(nal@, elapsed_ms).1);
            tags
        }
    }

    /// The sequence header tag, for clients that join late.
    #[must_use]
    pub fn sequence_header(&self) -> (r: Option<&[u8]>)
        ensures
            match r {
                Some(tag) => self@.sequence_header == Some(tag@),
                None => self@.sequence_header is None,
            },
    {
        match &self.sequence_header_tag {
            Some(tag) => Some(tag.as_slice()),
            None => None,
        }
    }

    /// Milliseconds since the first SPS, in 32 bits; zero before it.
    pub fn elapsed_ms(&self) -> (r: u32)
        ensures
            is_reading(self.start_time, r),
    {
        match &self.start_time {
            Some(t) => {
                let span = t.elapsed();
                let ms: u128 = span.as_millis();
                (ms % 0x1_0000_0000) as u32
            },
            None => 0,
        }
    }

    /// Gives the script tag and the sequence header tag, if both parameter sets
    /// are there and the two tags were not given before.
    pub fn emit_initialization(&mut self, elapsed_ms: u32) -> (tags: Vec<Vec<u8>>)
        ensures
            (final(self)@, tag_bytes(tags@)) == old(self)@.with_parameters(elapsed_ms),
    {
        let mut tags: Vec<Vec<u8>> = Vec::new();
        if !self.initialized {
            if let (Some(sps), Some(pps)) = (&self.sps, &self.pps) {
                let header = build_sequence_header(sps.as_slice(), pps.as_slice(), elapsed_ms);
                tags.push(build_script_tag(elapsed_ms));
                tags.push(header.clone());
                self.sequence_header_tag = Some(header);
                self.initialized = true;
            }
        }
        assert(tag_bytes(tags@) =~= old(self)@.with_parameters(elapsed_ms).1);
        tags
    }
}

impl Default for FlvMuxer {
    fn default() -> (m: FlvMuxer)
        ensures
            m@ == MuxerView::fresh(),
    {
        FlvMuxer::new()
    }
}

// ---------------------------------------------------------------------------
// Laws
// ---------------------------------------------------------------------------

/// The muxer after the NAL units, each with the time at which it comes.
pub open spec fn muxer_after(m: MuxerView, nals: Seq<(NalView, u32)>) -> MuxerView
    decreases nals.len(),
{
    if nals.len() == 0 {
        m
    } else {
        muxer_after(m, nals.drop_last()).nal(nals.last().0, nals.last().1).0
    }
}

/// The tags that the NAL units give, in order.
pub open spec fn tags_of(m: MuxerView, nals: Seq<(NalView, u32)>) -> Seq<Seq<u8>>
    decreases nals.len(),
{
    if nals.len() == 0 {
        Seq::empty()
    } else {
        tags_of(m, nals.drop_last()) + muxer_after(m, nals.drop_last()).nal(
            nals.last().0,
            nals.last().1,
        ).1
    }
}

/// The timestamps of the frame tags that the NAL units give, in order.
pub open spec fn frame_times(m: MuxerView, nals: Seq<(NalView, u32)>) -> Seq<u32>
    decreases nals.len(),
{
    if nals.len() == 0 {
        Seq::empty()
    } else {
        let before = muxer_after(m, nals.drop_last());
        let (nal, ms) = nals.last();
        let earlier = frame_times(m, nals.drop_last());
        if before.initialized && nal.nal_type != NAL_TYPE_SPS && nal.nal_type != NAL_TYPE_PPS {
            earlier.push(before.frame_time(ms))
        } else {
            earlier
        }
    }
}

/// Whether `tag` is the tag of a frame with the timestamp `timestamp`.
pub open spec fn is_frame_tag(tag: Seq<u8>, timestamp: u32) -> bool {
    exists|data: Seq<u8>, key: bool| tag == #[trigger] frame_tag(data, key, timestamp)
}

/// The client's decoder is configured exactly once. The first two tags of a
/// stream, if there are any, are the script tag and the sequence header tag,
/// which is kept for late clients; before them there is nothing, and behind
/// them there are only frame tags, one for each frame and with its timestamp.
pub proof fn law_configured_once(nals: Seq<(NalView, u32)>)
    ensures
        ({
            let m = muxer_after(MuxerView::fresh(), nals);
            let tags = tags_of(MuxerView::fresh(), nals);
            let times = frame_times(MuxerView::fresh(), nals);
            &&& m.sequence_header is Some <==> m.initialized
            &&& !m.initialized ==> tags.len() == 0 && times.len() == 0
            &&& m.initialized ==> tags.len() == 2 + times.len() && (exists|ts: u32|
                tags[0] == #[trigger] script_tag(ts)) && m.sequence_header == Some(tags[1])
            &&& forall|i: int|
                2 <= i < tags.len() ==> is_frame_tag(#[trigger] tags[i], times[i - 2])
        }),
    decreases nals.len(),
{
    if nals.len() > 0 {
        law_configured_once(nals.drop_last());
        let before = muxer_after(MuxerView::fresh(), nals.drop_last());
        let sent = tags_of(MuxerView::fresh(), nals.drop_last());
        let earlier = frame_times(MuxerView::fresh(), nals.drop_last());
        let (nal, ms) = nals.last();
        let m = muxer_after(MuxerView::fresh(), nals);
        let tags = tags_of(MuxerView::fresh(), nals);
        let times = frame_times(MuxerView::fresh(), nals);
        let new = before.nal(nal, ms).1;
        assert(tags == sent + new);
        if before.initialized {
            assert(tags[0] == sent[0]);
            assert(tags[1] == sent[1]);
            assert forall|i: int| 2 <= i < tags.len() implies is_frame_tag(
                #[trigger] tags[i],
                times[i - 2],
            ) by {
                if i < sent.len() {
                    assert(tags[i] == sent[i]);
                    assert(times[i - 2] == earlier[i - 2]);
                } else {
                    assert(tags[i] == frame_tag(nal.data, nal.is_keyframe, times[i - 2]));
                }
            }
        } else {
            assert(sent.len() == 0);
            assert(tags =~= new);
            if m.initialized {
                assert(tags[0] == script_tag(ms));
            }
        }
    }
}

/// Whether the NAL units come one after another by the clock.
pub open spec fn in_order(nals: Seq<(NalView, u32)>) -> bool {
    forall|i: int, j: int| 0 <= i <= j < nals.len() ==> (#[trigger] nals[i]).1 <= (#[trigger] nals[j]).1
}

proof fn lemma_frame_times(nals: Seq<(NalView, u32)>)
    requires
        in_order(nals),
    ensures
        ({
            let m = muxer_after(MuxerView::fresh(), nals);
            let times = frame_times(MuxerView::fresh(), nals);
            match m.base_ms {
                None => times.len() == 0,
                Some(b) => {
                    &&& nals.len() > 0 && b <= nals.last().1
                    &&& times.len() > 0 && times[0] == 0
                    &&& times.last() <= nals.last().1 - b
                    &&& forall|i: int, j: int| 0 <= i <= j < times.len() ==> times[i] <= times[j]
                },
            }
        }),
    decreases nals.len(),
{
    if nals.len() > 0 {
        let rest = nals.drop_last();
        assert(in_order(rest)) by {
            assert forall|i: int, j: int| 0 <= i <= j < rest.len() implies (#[trigger] rest[i]).1
                <= (#[trigger] rest[j]).1 by {
                assert(nals[i].1 <= nals[j].1);
            }
        }
        lemma_frame_times(rest);
        let before = muxer_after(MuxerView::fresh(), rest);
        let (nal, ms) = nals.last();
        if rest.len() > 0 {
            assert(nals[rest.len() - 1].1 <= nals[nals.len() - 1].1);
        }
        let times = frame_times(MuxerView::fresh(), nals);
        let earlier = frame_times(MuxerView::fresh(), rest);
        if times.len() > earlier.len() {
            assert(times.last() == before.frame_time(ms));
            assert forall|i: int, j: int| 0 <= i <= j < times.len() implies times[i] <= times[j] by {
                if j == times.len() - 1 && i < j {
                    assert(earlier[i] <= earlier[earlier.len() - 1]);
                }
            }
        }
    }
}

/// The timestamps of the frames of a stream start at zero and never go
/// backwards, as long as the clock does not and its milliseconds fit 32 bits.
pub proof fn law_timestamps_from_zero_in_order(nals: Seq<(NalView, u32)>)
    requires
        in_order(nals),
    ensures
        ({
            let times = frame_times(MuxerView::fresh(), nals);
            &&& times.len() > 0 ==> times[0] == 0
            &&& forall|i: int, j: int| 0 <= i <= j < times.len() ==> times[i] <= times[j]
        }),
{
    lemma_frame_times(nals);
}

/// Every frame gives one tag, keyframe or not, and the tag holds exactly the NAL
/// unit that came in, behind the eleven bytes of a tag's header and five of a
/// video tag: 0x17 for a keyframe and 0x27 for another frame, a one, and three
/// zeros. Its time is zero for the first frame, and for a later one the
/// milliseconds since the first. Nothing else in the muxer changes.
pub proof fn law_frame_tag_holds_the_unit(m: MuxerView, nal: NalView, ms: u32)
    requires
        m.initialized,
        nal.nal_type != 7,
        nal.nal_type != 8,
    ensures
        ({
            let (after, tags) = m.nal(nal, ms);
            let tag = tags[0];
            let first = match m.base_ms {
                Some(b) => b,
                None => ms,
            };
            let kind = if nal.is_keyframe {
                0x17u8
            } else {
                0x27u8
            };
            &&& tags.len() == 1
            &&& tag.len() == nal.data.len() + 20
            &&& tag.subrange(16, tag.len() - 4) == nal.data
            &&& tag.subrange(11, 16) == seq![kind, 1u8, 0, 0, 0]
            &&& is_tag_around(
                tag,
                9,
                ((ms - first) % 0x1_0000_0000) as u32,
                seq![kind, 1u8, 0, 0, 0] + nal.data,
            )
            &&& after == MuxerView { base_ms: Some(first), ..m }
        }),
{
    let (after, tags) = m.nal(nal, ms);
    let tag = tags[0];
    let kind = if nal.is_keyframe {
        0x17u8
    } else {
        0x27u8
    };
    let body = seq![kind, 1u8, 0, 0, 0] + nal.data;
    let time = m.frame_time(ms);
    assert(FRAME_KEYFRAME % 16 * 16 + CODEC_AVC == 0x17);
    assert(FRAME_INTER % 16 * 16 + CODEC_AVC == 0x27);
    assert(tag == flv_tag(9, body, time as nat));
    law_tag_layout(9, body, time);
    assert(tag.subrange(11, 11 + body.len() as int) == body);
    assert(tag.subrange(16, tag.len() - 4) =~= tag.subrange(11, 11 + body.len() as int).skip(5));
    assert(body.skip(5) =~= nal.data);
    assert(tag.subrange(11, 16) =~= tag.subrange(11, 11 + body.len() as int).take(5));
    assert(body.take(5) =~= seq![kind, 1u8, 0, 0, 0]);
}

/// A frame that comes before both parameter sets have come gives nothing and
/// changes nothing.
pub proof fn law_no_frame_before_the_parameter_sets(m: MuxerView, nal: NalView, ms: u32)
    requires
        !m.initialized,
        nal.nal_type != 7,
        nal.nal_type != 8,
    ensures
        m.nal(nal, ms).0 == m,
        m.nal(nal, ms).1.len() == 0,
{
}

/// Whether `config` tells a decoder of the two parameter sets: the version 1,
/// profile and level, which are the second and the fourth byte of an SPS that
/// has them, lengths of four bytes, and each of the two sets behind its length in
/// two bytes.
pub open spec fn configures(config: Seq<u8>, sps: Seq<u8>, pps: Seq<u8>) -> bool {
    let s = sps.len() as int;
    let p = pps.len() as int;
    &&& config.len() == 11 + s + p
    &&& config[0] == 1
    &&& config[1] == if s >= 4 {
        sps[1]
    } else {
        0x42
    }
    &&& config[2] == 0
    &&& config[3] == if s >= 4 {
        sps[3]
    } else {
        0x1e
    }
    &&& config[4] == 0xff && config[5] == 0xe1
    &&& s < 0x1_0000 ==> config[6] * 256 + config[7] == s
    &&& config.subrange(8, 8 + s) == sps
    &&& config[8 + s] == 1
    &&& p < 0x1_0000 ==> config[9 + s] * 256 + config[10 + s] == p
    &&& config.skip(11 + s) == pps
}

proof fn lemma_configures(sps: Seq<u8>, pps: Seq<u8>)
    ensures
        configures(decoder_config(sps, pps), sps, pps),
{
    reveal(be16);
    let c = decoder_config(sps, pps);
    let s = sps.len() as int;
    let p = pps.len() as int;
    assert(c.subrange(8, 8 + s) =~= sps);
    assert(c.skip(11 + s) =~= pps);
    assert(s < 0x1_0000 ==> s % 0x1_0000_0000 / 0x100 % 256 * 256 + s % 0x1_0000_0000 % 256 == s);
    assert(p < 0x1_0000 ==> p % 0x1_0000_0000 / 0x100 % 256 * 256 + p % 0x1_0000_0000 % 256 == p);
}

/// The parameter set that comes last of the two configures the decoder: a script
/// tag and the sequence header tag come out, which holds both sets, each as it
/// came but without its length, if it is longer than that, and which is kept for
/// late clients. In either order, and with the time at which it happens.
pub proof fn law_second_parameter_set_configures(m: MuxerView, nal: NalView, ms: u32)
    requires
        !m.initialized,
        nal.nal_type == 7 && m.pps is Some || nal.nal_type == 8 && m.sps is Some,
    ensures
        ({
            let (after, tags) = m.nal(nal, ms);
            let unit = if nal.data.len() > 4 {
                nal.data.skip(4)
            } else {
                nal.data
            };
            let sps = if nal.nal_type == 7 {
                unit
            } else {
                m.sps->0
            };
            let pps = if nal.nal_type == 8 {
                unit
            } else {
                m.pps->0
            };
            &&& tags.len() == 2
            &&& is_tag_around(tags[0], 0x12, ms, tags[0].subrange(11, tags[0].len() - 4))
            &&& is_tag_around(tags[1], 9, ms, tags[1].subrange(11, tags[1].len() - 4))
            &&& tags[1].len() >= 20
            &&& tags[1].subrange(11, 16) == seq![0x17u8, 0, 0, 0, 0]
            &&& configures(tags[1].subrange(16, tags[1].len() - 4), sps, pps)
            &&& after == MuxerView {
                sps: Some(sps),
                pps: Some(pps),
                initialized: true,
                sequence_header: Some(tags[1]),
                ..m
            }
        }),
{
    let (after, tags) = m.nal(nal, ms);
    let unit = if nal.data.len() > 4 {
        nal.data.skip(4)
    } else {
        nal.data
    };
    let sps = if nal.nal_type == 7 {
        unit
    } else {
        m.sps->0
    };
    let pps = if nal.nal_type == 8 {
        unit
    } else {
        m.pps->0
    };
    let config = decoder_config(sps, pps);
    let body = seq![0x17u8, 0, 0, 0, 0] + config;
    assert(FRAME_KEYFRAME % 16 * 16 + CODEC_AVC == 0x17);
    assert(tags[1] == flv_tag(9, body, ms as nat));
    law_tag_layout(9, body, ms);
    law_tag_layout(0x12, on_metadata(), ms);
    lemma_configures(sps, pps);
    let inner = tags[1].subrange(11, 11 + body.len() as int);
    assert(inner == body);
    assert(tags[1].subrange(16, tags[1].len() - 4) =~= inner.skip(5));
    assert(body.skip(5) =~= config);
    assert(tags[1].subrange(11, 16) =~= inner.take(5));
    assert(body.take(5) =~= seq![0x17u8, 0, 0, 0, 0]);
}

/// Any other parameter set is kept, without its length if it is longer than that,
/// and gives nothing: the first of the two, and every one after the decoder was
/// configured.
pub proof fn law_other_parameter_sets_are_kept(m: MuxerView, nal: NalView, ms: u32)
    requires
        nal.nal_type == 7 || nal.nal_type == 8,
        m.initialized || nal.nal_type == 7 && m.pps is None || nal.nal_type == 8 && m.sps is None,
    ensures
        ({
            let unit = if nal.data.len() > 4 {
                nal.data.skip(4)
            } else {
                nal.data
            };
            &&& m.nal(nal, ms).1.len() == 0
            &&& nal.nal_type == 7 ==> m.nal(nal, ms).0 == MuxerView { sps: Some(unit), ..m }
            &&& nal.nal_type == 8 ==> m.nal(nal, ms).0 == MuxerView { pps: Some(unit), ..m }
        }),
{
}

/// A stream starts with nothing: no parameter sets, no clock, no frame.
pub proof fn law_stream_starts_empty()
    ensures
        MuxerView::fresh() == (MuxerView {
            sps: None,
            pps: None,
            initialized: false,
            start: None,
            base_ms: None,
            sequence_header: None,
        }),
{
}

/// The clock of a stream starts with its first SPS and is never set again, and
/// a frame gets its time from it: its tag holds the NAL unit that came in, and
/// the milliseconds from the first frame to what the clock reads.
pub proof fn law_clock_runs_from_the_first_sps(
    m: MuxerView,
    nal: NalView,
    after: MuxerView,
    tags: Seq<Seq<u8>>,
)
    requires
        m.takes(nal, after, tags),
    ensures
        m.start is Some ==> after.start == m.start,
        m.start is None && nal.nal_type == 7 ==> (after.start matches Some(t) && call_ensures(
            std::time::Instant::now,
            (),
            t,
        )),
        m.start is None && nal.nal_type != 7 ==> after.start is None,
        m.initialized && nal.nal_type != 7 && nal.nal_type != 8 ==> tags.len() == 1
            && tags[0].len() == nal.data.len() + 20 && tags[0].subrange(16, tags[0].len() - 4)
            == nal.data && after.base_ms is Some && exists|ms: u32|
            #[trigger] is_reading(after.start, ms) && tags[0][7] * 0x100_0000 + tags[0][4]
                * 0x1_0000 + tags[0][5] * 0x100 + tags[0][6] == (ms - after.base_ms->0)
                % 0x1_0000_0000,
{
    let started = MuxerView { start: after.start, ..m };
    let ms = choose|ms: u32|
        is_reading(after.start, ms) && (after, tags) == #[trigger] started.nal(nal, ms);
    assert((after, tags) == started.nal(nal, ms));
    if m.initialized && nal.nal_type != 7 && nal.nal_type != 8 {
        law_frame_tag_holds_the_unit(started, nal, ms);
        assert(is_reading(after.start, ms));
    }
}

/// A clock that was started reads the low 32 bits of the whole milliseconds
/// since then, and one that was not reads zero.
pub proof fn law_clock_reads_milliseconds(start: Option<std::time::Instant>, ms: u32)
    requires
        is_reading(start, ms),
    ensures
        start is None ==> ms == 0,
        start matches Some(t) ==> exists|span: std::time::Duration, millis: u128|
            #![trigger call_ensures(std::time::Duration::as_millis, (&span,), millis)]
            call_ensures(std::time::Instant::elapsed, (&t,), span) && call_ensures(
                std::time::Duration::as_millis,
                (&span,),
                millis,
            ) && ms == millis % 0x1_0000_0000,
{
}

/// What is stated of tags and of a muxer is stated of all that they hold.
pub proof fn law_tags_and_muxers_are_seen_whole(tags: Seq<Vec<u8>>, m: FlvMuxer)
    ensures
        tag_bytes(tags).len() == tags.len(),
        forall|i: int| 0 <= i < tags.len() ==> #[trigger] tag_bytes(tags)[i] == tags[i]@,
        m@.initialized == m.initialized,
        m@.start == m.start_time,
        m@.base_ms == m.video_base_ms,
        m.sps matches Some(v) ==> m@.sps == Some(v@),
        m.sps is None ==> m@.sps is None,
        m.pps matches Some(v) ==> m@.pps == Some(v@),
        m.pps is None ==> m@.pps is None,
        m.sequence_header_tag matches Some(v) ==> m@.sequence_header == Some(v@),
        m.sequence_header_tag is None ==> m@.sequence_header is None,
{
}

/// The tags that are built one by one are those of the stream: that of a frame
/// around its NAL unit, and any video tag around what it is built of.
pub proof fn law_video_tags_hold_their_data(
    frame_type: u8,
    packet_type: u8,
    data: Seq<u8>,
    is_keyframe: bool,
    time: u32,
    sps: Seq<u8>,
    pps: Seq<u8>,
)
    requires
        frame_type < 16,
    ensures
        is_tag_around(
            video_tag(frame_type, packet_type, data, time),
            9,
            time,
            seq![(frame_type * 16 + 7) as u8, packet_type, 0, 0, 0] + data,
        ),
        is_tag_around(
            frame_tag(data, is_keyframe, time),
            9,
            time,
            seq![
                if is_keyframe {
                    0x17u8
                } else {
                    0x27u8
                },
                1,
                0,
                0,
                0,
            ] + data,
        ),
        exists|config: Seq<u8>|
            #[trigger] configures(config, sps, pps) && is_tag_around(
                sequence_header_tag(sps, pps, time),
                9,
                time,
                seq![0x17u8, 0, 0, 0, 0] + config,
            ),
        is_tag_around(script_tag(time), 0x12, time, on_metadata()),
{
    law_tag_layout(9, seq![(frame_type * 16 + 7) as u8, packet_type, 0, 0, 0] + data, time);
    let kind = if is_keyframe {
        0x17u8
    } else {
        0x27u8
    };
    law_tag_layout(9, seq![kind, 1u8, 0, 0, 0] + data, time);
    lemma_configures(sps, pps);
    law_tag_layout(9, seq![0x17u8, 0, 0, 0, 0] + decoder_config(sps, pps), time);
    law_tag_layout(0x12, on_metadata(), time);
    assert(FRAME_KEYFRAME % 16 * 16 + CODEC_AVC == 0x17);
    assert(FRAME_INTER % 16 * 16 + CODEC_AVC == 0x27);
}

/// The stream begins with the header of an FLV file that has video only.
pub proof fn law_video_stream_header()
    ensures
        video_header() == seq![0x46u8, 0x4c, 0x56, 1, 1, 0, 0, 0, 9] + seq![0u8, 0, 0, 0],
{
}

} // verus!
