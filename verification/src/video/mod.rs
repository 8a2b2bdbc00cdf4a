//! Video: from the camera's RTSP stream to the browser's HTTP-FLV stream.
//!
//! The RTSP client gives RTP packets of two tracks. Those of the video track go
//! through the RTP parser and the FLV muxer, those of the audio track through
//! the transcoder; what comes out is served to the clients of the session's
//! live port.

pub mod flv_muxer;
pub mod http_flv;
pub mod ports;
pub mod rtp_parser;
pub mod rtsp_client;
pub mod rtsp_text;

use vstd::prelude::*;

use crate::audio::aac::{all_samples, AacError};
use crate::audio::g711::ulaw;
use crate::audio::transcode::{
    all_tags, g711_payload, law_every_byte_becomes_its_sample, AudioTranscoder, TranscoderView,
};
use crate::net::{
    law_camera_page_matches_its_claim, origin_matches, page_origin, parsed_origin, OriginInfo,
};
use crate::session::{CameraView, SessionView};
use crate::text::{
    ascii_lower, ascii_lowercase, lemma_ends_not_white, lemma_trimmed_already, trimmed,
};
use crate::video::flv_muxer::{
    is_reading, law_frame_tag_holds_the_unit, tag_bytes, FlvMuxer, MuxerView,
};
use crate::video::rtp_parser::{
    has_start_code, law_unit_of_a_packet_comes_out_whole, ParserView, RtpParser,
};

verus! {

// ---------------------------------------------------------------------------
// Who may fetch the streams of a session
// ---------------------------------------------------------------------------

/// The streams of a session: whether there is a pipeline, and whose page may
/// fetch what it gives.
#[derive(Debug)]
pub struct VideoServer {
    /// Origin of the camera's own page, while there is a pipeline.
    armed_origin: Option<OriginInfo>,
}

impl View for VideoServer {
    type V = Option<(Seq<char>, u16)>;

    /// Host and port of the page that may fetch the streams, while there is a
    /// pipeline.
    closed spec fn view(&self) -> Option<(Seq<char>, u16)> {
        match self.armed_origin {
            Some(o) => Some((o.host@, o.port)),
            None => None,
        }
    }
}

/// Whether a request may fetch the streams that only the page `armed` may
/// fetch.
pub open spec fn allowed(armed: Option<(Seq<char>, u16)>, origin_header: Option<Seq<char>>) -> bool {
    match (armed, origin_header) {
        (Some((host, port)), Some(raw)) => match parsed_origin(raw) {
            Some((h, p)) => origin_matches(h, p as u16, host, port),
            None => false,
        },
        _ => true,
    }
}

/// The characters of an optional header.
pub open spec fn header_text(h: Option<&str>) -> Option<Seq<char>> {
    match h {
        Some(s) => Some(s@),
        None => None,
    }
}

/// The path of a stream at the camera.
pub open spec fn stream_path(stream_type: u32) -> Seq<char> {
    if stream_type == 1 {
        "videoSub"@
    } else {
        "videoMain"@
    }
}

impl VideoServer {
    /// Creates the streams of a session that has no pipeline yet.
    pub fn new() -> (v: VideoServer)
        ensures
            v@ is None,
    {
        VideoServer { armed_origin: None }
    }

    /// The origin of the page that may fetch the streams.
    pub fn armed_origin(&self) -> (r: Option<&OriginInfo>)
        ensures
            match r {
                Some(o) => self@ == Some((o.host@, o.port)),
                None => self@ is None,
            },
    {
        match &self.armed_origin {
            Some(o) => Some(o),
            None => None,
        }
    }

    /// Decides whether a request may fetch the streams.
    ///
    /// Without a pipeline there is nothing to protect. A browser always names
    /// the origin of a page that fetches from elsewhere, so a request that
    /// names none comes from no page. An origin that is named must be that of
    /// the camera's own page.
    pub fn origin_allowed(&self, origin_header: Option<&str>) -> (b: bool)
        ensures
            b == allowed(self@, header_text(origin_header)),
    {
        match &self.armed_origin {
            None => true,
            Some(armed) => match origin_header {
                None => true,
                Some(raw) => match OriginInfo::parse(raw) {
                    Some(o) => o.matches(armed.host.as_str(), armed.port),
                    None => false,
                },
            },
        }
    }

    /// Whether there is a pipeline.
    pub fn has_video(&self) -> (b: bool)
        ensures
            b == (self@ is Some),
    {
        self.armed_origin.is_some()
    }

    /// Notes that a pipeline starts, in place of one that there may be, and
    /// gives the path of its stream at the camera. From now on only the page
    /// `origin` may fetch the streams.
    pub fn start(&mut self, stream_type: u32, origin: OriginInfo) -> (path: &'static str)
        ensures
            final(self)@ == Some((origin.host@, origin.port)),
            path@ == stream_path(stream_type),
    {
        self.stop();
        self.armed_origin = Some(origin);
        if stream_type == 1 {
            "videoSub"
        } else {
            "videoMain"
        }
    }

    /// Notes that the pipeline stops.
    pub fn stop(&mut self)
        ensures
            final(self)@ is None,
    {
        self.armed_origin = None;
    }
}

// ---------------------------------------------------------------------------
// The pipeline
// ---------------------------------------------------------------------------

/// An RTP packet, by its track.
#[derive(Debug, Clone)]
pub enum StreamPacket {
    Video(Vec<u8>),
    Audio(Vec<u8>),
}

/// What a packet gives for the clients.
#[derive(Debug)]
pub enum PipelineOutput {
    /// Tags of the video stream.
    Video(Vec<Vec<u8>>),
    /// Tags of the audio stream.
    Audio(Vec<Vec<u8>>),
    /// Audio that could not be encoded.
    AudioFailed(AacError),
}

/// The pipeline of a session, from RTP packets to FLV tags.
pub struct Pipeline {
    parser: RtpParser,
    muxer: FlvMuxer,
    audio: AudioTranscoder,
}

/// What a `Pipeline` holds.
#[verifier::ext_equal]
pub struct PipelineView {
    pub parser: ParserView,
    pub muxer: MuxerView,
    pub audio: TranscoderView,
}

impl View for Pipeline {
    type V = PipelineView;

    closed spec fn view(&self) -> PipelineView {
        PipelineView { parser: self.parser@, muxer: self.muxer@, audio: self.audio@ }
    }
}

/// The half of a pipeline that the video packets go through.
#[verifier::ext_equal]
pub struct VideoView {
    pub parser: ParserView,
    pub muxer: MuxerView,
}

impl VideoView {
    /// Whether the half is `after` and gives `tags` when a video packet comes:
    /// what the muxer gives of the NAL unit that the packet holds or completes.
    pub open spec fn takes(self, payload: Seq<u8>, after: VideoView, tags: Seq<Seq<u8>>) -> bool {
        let (parser, nal) = self.parser.packet(payload, 0);
        &&& after.parser == parser
        &&& match nal {
            Some(n) => self.muxer.takes(n, after.muxer, tags),
            None => after.muxer == self.muxer && tags == Seq::<Seq<u8>>::empty(),
        }
    }
}

impl PipelineView {
    /// The half that the video packets go through.
    pub open spec fn video(self) -> VideoView {
        VideoView { parser: self.parser, muxer: self.muxer }
    }

    /// Whether the pipeline is `after` and gives `tags` when a video packet
    /// comes.
    pub open spec fn takes_video(
        self,
        payload: Seq<u8>,
        after: PipelineView,
        tags: Seq<Seq<u8>>,
    ) -> bool {
        self.video().takes(payload, after.video(), tags) && after.audio == self.audio
    }

    /// Whether the pipeline is `after` and gives `tags` when an audio packet
    /// comes and can be encoded.
    pub open spec fn takes_audio(
        self,
        rtp: Seq<u8>,
        after: PipelineView,
        tags: Seq<Seq<u8>>,
    ) -> bool {
        self.audio.takes(rtp, after.audio, tags) && after.video() == self.video()
    }

    /// Whether the pipeline is `after` when an audio packet comes and cannot be
    /// encoded.
    pub open spec fn fails_audio(self, rtp: Seq<u8>, after: PipelineView, e: AacError) -> bool {
        self.audio.fails(rtp, after.audio, e) && after.video() == self.video()
    }
}

impl Pipeline {
    /// What holds of every pipeline.
    pub closed spec fn wf(self) -> bool {
        self.parser@.wf() && self.audio.wf()
    }

    /// Whether the pipeline can take the packet: an audio packet must have room
    /// in the transcoder.
    pub open spec fn can_take(self, packet: StreamPacket) -> bool {
        packet matches StreamPacket::Audio(p) ==> self@.audio.has_room(p@.len())
    }

    /// Creates a pipeline that has seen nothing yet.
    pub fn new() -> (r: Result<Pipeline, AacError>)
        ensures
            r matches Ok(p) && p.wf() && p@ == (PipelineView {
                parser: ParserView::idle(),
                muxer: MuxerView::fresh(),
                audio: TranscoderView::fresh(),
            }),
    {
        let audio = AudioTranscoder::new()?;
        Ok(Pipeline { parser: RtpParser::new(), muxer: FlvMuxer::new(), audio })
    }

    /// Whether the pipeline can take the packet.
    pub fn has_room(&self, packet: &StreamPacket) -> (b: bool)
        ensures
            b == self.can_take(*packet),
    {
        match packet {
            StreamPacket::Video(_) => true,
            StreamPacket::Audio(p) => self.audio.has_room(p.len()),
        }
    }

    /// Takes a packet and gives the tags that follow from it. The timestamps of
    /// video tags are read from the clock.
    pub fn on_packet(&mut self, packet: StreamPacket) -> (r: PipelineOutput)
        requires
            old(self).wf(),
            old(self).can_take(packet),
        ensures
            final(self).wf(),
            match packet {
                StreamPacket::Video(p) => r matches PipelineOutput::Video(tags) && old(
                    self,
                )@.takes_video(p@, final(self)@, tag_bytes(tags@)),
                StreamPacket::Audio(p) => match r {
                    PipelineOutput::Audio(tags) => old(self)@.takes_audio(
                        p@,
                        final(self)@,
                        tag_bytes(tags@),
                    ),
                    PipelineOutput::AudioFailed(e) => old(self)@.fails_audio(p@, final(self)@, e),
                    PipelineOutput::Video(_) => false,
                },
            },
    {
        match packet {
            StreamPacket::Video(p) => {
                let mut tags: Vec<Vec<u8>> = Vec::new();
                match self.parser.parse(p.as_slice(), 0) {
                    Some(nal) => {
                        tags = self.muxer.process_nal(&nal);
                    },
                    None => {
                        assert(tag_bytes(tags@) =~= Seq::empty());
                    },
                }
                PipelineOutput::Video(tags)
            },
            StreamPacket::Audio(p) => match self.audio.process_rtp(p.as_slice()) {
                Ok(tags) => PipelineOutput::Audio(tags),
                Err(e) => PipelineOutput::AudioFailed(e),
            },
        }
    }
}

// ---------------------------------------------------------------------------
// Laws
// ---------------------------------------------------------------------------

/// The camera's own page may fetch the streams: a pipeline that a session starts
/// lets through the page at the host and the port that the login claimed.
pub proof fn law_own_page_is_allowed(s: SessionView, camera: CameraView, stream_type: u32)
    requires
        camera.ip.len() > 0,
        trimmed(camera.ip) == camera.ip,
        !camera.ip.contains('/'),
        camera.ip[0] != '[',
    ensures
        ({
            let start = s.video_start(camera, stream_type);
            allowed(
                Some((start.origin_host, start.origin_port)),
                Some(page_origin(camera.ip, camera.http_port)),
            )
        }),
{
    let host = camera.ip;
    law_camera_page_matches_its_claim(host, camera.http_port);
    lemma_ends_not_white(host);
    let lower = ascii_lowercase(host);
    assert(lower[0] == ascii_lower(host[0]));
    assert(lower.last() == ascii_lower(host.last()));
    lemma_trimmed_already(lower);
    assert(ascii_lowercase(lower) =~= lower);
}

/// A client that is no page, and so names no origin, may always fetch the
/// streams, and everybody may while there is no pipeline.
pub proof fn law_streams_are_open_to_no_page(
    armed: Option<(Seq<char>, u16)>,
    origin_header: Option<Seq<char>>,
)
    ensures
        allowed(armed, None),
        allowed(None, origin_header),
{
}

/// A packet of either track.
pub enum PacketView {
    Video(Seq<u8>),
    Audio(Seq<u8>),
}

/// What the pipeline gives on the two channels.
pub struct TagsView {
    pub video: Seq<Seq<u8>>,
    pub audio: Seq<Seq<u8>>,
}

impl PipelineView {
    /// Whether the pipeline is `after` and gives `tags` when the packet comes, as
    /// `on_packet` has it. A packet that cannot be encoded gives none.
    pub open spec fn gives(self, packet: PacketView, after: PipelineView, tags: TagsView) -> bool {
        match packet {
            PacketView::Video(p) => self.takes_video(p, after, tags.video) && tags.audio.len() == 0,
            PacketView::Audio(p) => transcoder_gives(self.audio, p, after.audio, tags.audio)
                && after.video() == self.video() && tags.video.len() == 0,
        }
    }
}

/// Whether the transcoder is `after` and gives `tags` when an audio packet comes,
/// which gives none if it cannot be encoded.
pub open spec fn transcoder_gives(
    before: TranscoderView,
    rtp: Seq<u8>,
    after: TranscoderView,
    tags: Seq<Seq<u8>>,
) -> bool {
    ||| before.takes(rtp, after, tags)
    ||| tags.len() == 0 && exists|e: AacError| before.fails(rtp, after, e)
}

/// Whether `states` are the states of a pipeline that takes the packets, one
/// after another, and gives `outs`.
pub open spec fn is_pipeline_run(
    states: Seq<PipelineView>,
    packets: Seq<PacketView>,
    outs: Seq<TagsView>,
) -> bool {
    &&& packets.len() == outs.len()
    &&& states.len() == outs.len() + 1
    &&& forall|i: int|
        0 <= i < outs.len() ==> #[trigger] states[i].gives(packets[i], states[i + 1], outs[i])
}

/// Whether `states` are the states of the video half of a pipeline that takes the
/// packets, one after another, and gives `outs`.
pub open spec fn is_video_run(
    states: Seq<VideoView>,
    packets: Seq<Seq<u8>>,
    outs: Seq<Seq<Seq<u8>>>,
) -> bool {
    &&& packets.len() == outs.len()
    &&& states.len() == outs.len() + 1
    &&& forall|i: int|
        0 <= i < outs.len() ==> #[trigger] states[i].takes(packets[i], states[i + 1], outs[i])
}

/// Whether `states` are the states of a transcoder that takes the packets, one
/// after another, and gives `outs`.
pub open spec fn is_audio_run(
    states: Seq<TranscoderView>,
    packets: Seq<Seq<u8>>,
    outs: Seq<Seq<Seq<u8>>>,
) -> bool {
    &&& packets.len() == outs.len()
    &&& states.len() == outs.len() + 1
    &&& forall|i: int|
        0 <= i < outs.len() ==> #[trigger] transcoder_gives(
            states[i],
            packets[i],
            states[i + 1],
            outs[i],
        )
}

/// The packets of the video track, in order.
pub open spec fn video_packets(packets: Seq<PacketView>) -> Seq<Seq<u8>>
    decreases packets.len(),
{
    if packets.len() == 0 {
        Seq::empty()
    } else {
        match packets.last() {
            PacketView::Video(p) => video_packets(packets.drop_last()).push(p),
            PacketView::Audio(_) => video_packets(packets.drop_last()),
        }
    }
}

/// The packets of the audio track, in order.
pub open spec fn audio_packets(packets: Seq<PacketView>) -> Seq<Seq<u8>>
    decreases packets.len(),
{
    if packets.len() == 0 {
        Seq::empty()
    } else {
        match packets.last() {
            PacketView::Video(_) => audio_packets(packets.drop_last()),
            PacketView::Audio(p) => audio_packets(packets.drop_last()).push(p),
        }
    }
}

/// What comes on the video channel, in order.
pub open spec fn video_tags(outs: Seq<TagsView>) -> Seq<Seq<u8>>
    decreases outs.len(),
{
    if outs.len() == 0 {
        Seq::empty()
    } else {
        video_tags(outs.drop_last()) + outs.last().video
    }
}

/// What comes on the audio channel, in order.
pub open spec fn audio_tags(outs: Seq<TagsView>) -> Seq<Seq<u8>>
    decreases outs.len(),
{
    if outs.len() == 0 {
        Seq::empty()
    } else {
        audio_tags(outs.drop_last()) + outs.last().audio
    }
}

/// The two tracks go through the pipeline side by side: however their packets
/// mix, each channel gets, one behind the other, the tags that the packets of its
/// own track give when they come alone.
pub proof fn law_tracks_do_not_mix(
    states: Seq<PipelineView>,
    packets: Seq<PacketView>,
    outs: Seq<TagsView>,
)
    requires
        is_pipeline_run(states, packets, outs),
    ensures
        exists|halves: Seq<VideoView>, parts: Seq<Seq<Seq<u8>>>|
            {
                &&& #[trigger] is_video_run(halves, video_packets(packets), parts)
                &&& halves[0] == states[0].video()
                &&& halves.last() == states.last().video()
                &&& all_tags(parts) == video_tags(outs)
            },
        exists|halves: Seq<TranscoderView>, parts: Seq<Seq<Seq<u8>>>|
            {
                &&& #[trigger] is_audio_run(halves, audio_packets(packets), parts)
                &&& halves[0] == states[0].audio
                &&& halves.last() == states.last().audio
                &&& all_tags(parts) == audio_tags(outs)
            },
    decreases outs.len(),
{
    if outs.len() == 0 {
        let none = Seq::<Seq<Seq<u8>>>::empty();
        assert(is_video_run(seq![states[0].video()], video_packets(packets), none));
        assert(is_audio_run(seq![states[0].audio], audio_packets(packets), none));
        assert(all_tags(none) == Seq::<Seq<u8>>::empty());
    } else {
        let n = outs.len() - 1;
        let (s, p, o) = (states.drop_last(), packets.drop_last(), outs.drop_last());
        assert(is_pipeline_run(s, p, o)) by {
            assert forall|i: int| 0 <= i < n implies #[trigger] s[i].gives(
                p[i],
                s[i + 1],
                o[i],
            ) by {
                assert(states[i].gives(packets[i], states[i + 1], outs[i]));
            }
        }
        law_tracks_do_not_mix(s, p, o);
        assert(states[n].gives(packets[n], states[n + 1], outs[n]));
        assert(s.last() == states[n] && s[0] == states[0]);
        let (vh, vp) = choose|halves: Seq<VideoView>, parts: Seq<Seq<Seq<u8>>>|
            {
                &&& #[trigger] is_video_run(halves, video_packets(p), parts)
                &&& halves[0] == s[0].video()
                &&& halves.last() == s.last().video()
                &&& all_tags(parts) == video_tags(o)
            };
        let (ah, ap) = choose|halves: Seq<TranscoderView>, parts: Seq<Seq<Seq<u8>>>|
            {
                &&& #[trigger] is_audio_run(halves, audio_packets(p), parts)
                &&& halves[0] == s[0].audio
                &&& halves.last() == s.last().audio
                &&& all_tags(parts) == audio_tags(o)
            };
        match packets[n] {
            PacketView::Video(packet) => {
                lemma_video_run_grows(
                    vh,
                    video_packets(p),
                    vp,
                    packet,
                    states[n + 1].video(),
                    outs[n].video,
                );
                assert(video_packets(packets) == video_packets(p).push(packet));
                assert(is_video_run(
                    vh.push(states[n + 1].video()),
                    video_packets(packets),
                    vp.push(outs[n].video),
                ));
                assert(video_tags(outs) == video_tags(o) + outs[n].video);
                assert(audio_packets(packets) == audio_packets(p));
                assert(audio_tags(outs) =~= audio_tags(o));
                assert(is_audio_run(ah, audio_packets(packets), ap));
            },
            PacketView::Audio(packet) => {
                lemma_audio_run_grows(
                    ah,
                    audio_packets(p),
                    ap,
                    packet,
                    states[n + 1].audio,
                    outs[n].audio,
                );
                assert(audio_packets(packets) == audio_packets(p).push(packet));
                assert(is_audio_run(
                    ah.push(states[n + 1].audio),
                    audio_packets(packets),
                    ap.push(outs[n].audio),
                ));
                assert(audio_tags(outs) == audio_tags(o) + outs[n].audio);
                assert(video_packets(packets) == video_packets(p));
                assert(video_tags(outs) =~= video_tags(o));
                assert(is_video_run(vh, video_packets(packets), vp));
            },
        }
    }
}

proof fn lemma_video_run_grows(
    states: Seq<VideoView>,
    packets: Seq<Seq<u8>>,
    outs: Seq<Seq<Seq<u8>>>,
    packet: Seq<u8>,
    after: VideoView,
    tags: Seq<Seq<u8>>,
)
    requires
        is_video_run(states, packets, outs),
        states.last().takes(packet, after, tags),
    ensures
        is_video_run(states.push(after), packets.push(packet), outs.push(tags)),
        all_tags(outs.push(tags)) == all_tags(outs) + tags,
{
    let (s, p, o) = (states.push(after), packets.push(packet), outs.push(tags));
    assert(o.drop_last() =~= outs);
    assert forall|i: int| 0 <= i < o.len() implies #[trigger] s[i].takes(p[i], s[i + 1], o[i]) by {
        if i < outs.len() {
            assert(states[i].takes(packets[i], states[i + 1], outs[i]));
        }
    }
}

proof fn lemma_audio_run_grows(
    states: Seq<TranscoderView>,
    packets: Seq<Seq<u8>>,
    outs: Seq<Seq<Seq<u8>>>,
    packet: Seq<u8>,
    after: TranscoderView,
    tags: Seq<Seq<u8>>,
)
    requires
        is_audio_run(states, packets, outs),
        transcoder_gives(states.last(), packet, after, tags),
    ensures
        is_audio_run(states.push(after), packets.push(packet), outs.push(tags)),
        all_tags(outs.push(tags)) == all_tags(outs) + tags,
{
    let (s, p, o) = (states.push(after), packets.push(packet), outs.push(tags));
    assert(o.drop_last() =~= outs);
    assert forall|i: int| 0 <= i < o.len() implies #[trigger] transcoder_gives(
        s[i],
        p[i],
        s[i + 1],
        o[i],
    ) by {
        if i < outs.len() {
            assert(transcoder_gives(states[i], packets[i], states[i + 1], outs[i]));
        }
    }
}

/// While there is a pipeline, a page may fetch the streams exactly if its origin
/// names the host and the port of the camera's own page.
pub proof fn law_only_the_own_page_may_fetch(host: Seq<char>, port: u16, header: Seq<char>)
    ensures
        allowed(Some((host, port)), Some(header)) <==> (parsed_origin(header) matches Some((h, p))
            && h == ascii_lowercase(trimmed(host)) && (p as u16) == port),
{
}

/// The sub stream is the one with the number 1; any other number is the main
/// stream.
pub proof fn law_streams_have_their_paths(stream_type: u32)
    ensures
        stream_path(1) == "videoSub"@,
        stream_type != 1 ==> stream_path(stream_type) == "videoMain"@,
{
}

/// A frame that the camera sends in one packet reaches the clients of the video
/// stream whole, in a tag of its own, keyframe or not, once the decoder is
/// configured: behind twenty bytes of headers, the last four of which are its
/// length, all of its bytes. Neither the audio nor a unit that is being put
/// together is touched.
pub proof fn law_frame_reaches_the_client(
    p: PipelineView,
    rtp_header: Seq<u8>,
    unit: Seq<u8>,
    after: PipelineView,
    tags: TagsView,
)
    requires
        p.gives(PacketView::Video(rtp_header + unit), after, tags),
        p.muxer.initialized,
        rtp_header.len() == 12,
        0 < unit.len() < 0x1_0000_0000,
        unit[0] % 32 != 7,
        unit[0] % 32 != 8,
        unit[0] % 32 != 24,
        unit[0] % 32 != 28,
        !has_start_code(unit),
    ensures
        tags.audio.len() == 0,
        tags.video.len() == 1,
        ({
            let tag = tags.video[0];
            &&& tag.len() == unit.len() + 24
            &&& tag[0] == 9
            &&& tag[11] == if unit[0] % 32 == 5 {
                0x17u8
            } else {
                0x27u8
            }
            &&& tag[12] == 1
            &&& tag[16] * 0x100_0000 + tag[17] * 0x1_0000 + tag[18] * 0x100 + tag[19] == unit.len()
            &&& tag.subrange(20, tag.len() - 4) == unit
        }),
        after.audio == p.audio,
        after.parser == p.parser,
{
    law_unit_of_a_packet_comes_out_whole(p.parser, rtp_header, unit, 0);
    let nal = p.parser.packet(rtp_header + unit, 0).1->0;
    let started = MuxerView { start: after.muxer.start, ..p.muxer };
    let ms = choose|ms: u32|
        is_reading(after.muxer.start, ms) && (after.muxer, tags.video) == #[trigger] started.nal(
            nal,
            ms,
        );
    law_frame_tag_holds_the_unit(started, nal, ms);
    let tag = tags.video[0];
    let data = tag.subrange(16, tag.len() - 4);
    assert(data == nal.data);
    assert(tag.subrange(20, tag.len() - 4) =~= data.skip(4));
    assert(tag[16] == data[0] && tag[17] == data[1] && tag[18] == data[2] && tag[19] == data[3]);
    let head = tag.subrange(11, 16);
    assert(tag[11] == head[0] && tag[12] == head[1]);
}

/// An audio packet reaches the encoder byte by byte, as the samples that the bytes
/// stand for, and leaves the video alone.
pub proof fn law_sound_reaches_the_encoder(
    p: PipelineView,
    rtp: Seq<u8>,
    after: PipelineView,
    tags: TagsView,
    payload: Seq<u8>,
)
    requires
        p.gives(PacketView::Audio(rtp), after, tags),
        g711_payload(rtp) == Some(payload),
        p.audio.encoder.channels == 1,
    ensures
        forall|i: int|
            0 <= i < payload.len() ==> ulaw(#[trigger] payload[i]) == (all_samples(
                after.audio.encoder.handed,
            ) + after.audio.encoder.pending)[all_samples(p.audio.encoder.handed).len()
                + p.audio.encoder.pending.len() + i],
        tags.video.len() == 0,
        after.video() == p.video(),
{
    let e = if p.audio.takes(rtp, after.audio, tags.audio) {
        AacError::Encode
    } else {
        choose|e: AacError| p.audio.fails(rtp, after.audio, e)
    };
    law_every_byte_becomes_its_sample(p.audio, rtp, after.audio, tags.audio, e, payload);
}

/// A video packet goes to the parser and what that gives to the muxer, and nothing
/// comes out of a packet that completes no unit; a new pipeline is as new in all
/// its parts.
pub proof fn law_video_goes_through_parser_and_muxer(
    p: PipelineView,
    payload: Seq<u8>,
    after: PipelineView,
    tags: TagsView,
)
    requires
        p.gives(PacketView::Video(payload), after, tags),
    ensures
        after.parser == p.parser.packet(payload, 0).0,
        after.audio == p.audio,
        p.parser.packet(payload, 0).1 is None ==> after.muxer == p.muxer && tags.video.len() == 0,
        p.parser.packet(payload, 0).1 matches Some(n) ==> p.muxer.takes(
            n,
            after.muxer,
            tags.video,
        ),
{
}

/// What is stated of a header is stated of the header as it came.
pub proof fn law_headers_are_seen_whole(h: &str)
    ensures
        header_text(Some(h)) == Some(h@),
        header_text(None) is None,
{
}

/// Whether a pipeline can take a packet depends on the room for samples alone, and
/// video always has room.
pub proof fn law_room_is_for_samples(p: Pipeline, packet: StreamPacket)
    ensures
        packet is Video ==> p.can_take(packet),
        packet matches StreamPacket::Audio(b) ==> (p.can_take(packet)
            <==> p@.audio.encoder.total + b@.len() <= u64::MAX && p@.audio.encoder.pending.len()
            + b@.len() <= usize::MAX),
{
}

} // verus!
