//! From RTP packets with G.711 to FLV tags with AAC.

use vstd::prelude::*;
use vstd::slice::slice_subrange;

use crate::audio::aac::{
    aac_data, added, all_samples, audio_specific_config, fails_on, is_adts_frame, is_unit_of,
    law_data_is_all_behind_the_header, law_samples_are_kept, law_units_follow_by_one_frame,
    lemma_aligned_push, AacEncoder, AacError, EncoderView, AUDIO_BITRATE_BPS, AUDIO_CHANNELS,
    AUDIO_SAMPLE_RATE, FRAME_LEN,
};
use crate::audio::flv::{
    aac_raw_tag, law_audio_tag_holds_its_data, lemma_kind_of_tag, pts_to_ms, raw_tag, sample_ms,
    sequence_header, AudioFlvMuxer,
};
use crate::audio::g711::{decode_mulaw, lemma_ulaw_fits, ulaw};
use crate::flv_tag::is_tag_around;
use crate::video::flv_muxer::tag_bytes;

verus! {

/// RTP payload type of G.711 mu-law.
pub const RTP_PT_PCMU: u8 = 0;

// ---------------------------------------------------------------------------
// RTP packets
// ---------------------------------------------------------------------------

/// Where the payload of an RTP packet begins: behind the fixed header, the
/// contributing sources, and the extension if there is one.
pub open spec fn payload_start(rtp: Seq<u8>) -> int {
    let sources_end = 12 + rtp[0] % 16 * 4;
    if rtp[0] / 16 % 2 == 1 {
        sources_end + 4 + (rtp[sources_end + 2] * 256 + rtp[sources_end + 3]) * 4
    } else {
        sources_end
    }
}

/// The mu-law bytes in an RTP packet, without padding. There are none in a
/// packet that is no RTP of version 2, has another payload type, ends too
/// early, or has a padding that does not fit.
pub open spec fn g711_payload(rtp: Seq<u8>) -> Option<Seq<u8>> {
    let has_extension = rtp[0] / 16 % 2 == 1;
    let has_padding = rtp[0] / 32 % 2 == 1;
    let start = payload_start(rtp);
    if rtp.len() < 12 || rtp[0] / 64 != 2 || rtp[1] % 128 != RTP_PT_PCMU {
        None
    } else if has_extension && rtp.len() < 12 + rtp[0] % 16 * 4 + 4 {
        None
    } else if start >= rtp.len() {
        None
    } else if has_padding {
        let pad = rtp.last() as int;
        if pad == 0 || pad >= rtp.len() - start {
            None
        } else {
            Some(rtp.subrange(start, rtp.len() - pad))
        }
    } else {
        Some(rtp.skip(start))
    }
}

/// Parses an RTP packet and gives its mu-law bytes.
pub fn parse_g711_rtp(rtp: &[u8]) -> (r: Option<&[u8]>)
    ensures
        match r {
            Some(p) => g711_payload(rtp@) == Some(p@),
            None => g711_payload(rtp@) is None,
        },
{
    let n: usize = rtp.len();
    if n < 12 {
        return None;
    }
    let b0: u8 = rtp[0];
    if b0 / 64 != 2 || rtp[1] % 128 != RTP_PT_PCMU {
        return None;
    }
    let has_extension = b0 / 16 % 2 == 1;
    let has_padding = b0 / 32 % 2 == 1;
    let mut start: usize = 12 + (b0 % 16) as usize * 4;
    if has_extension {
        if n < start + 4 {
            return None;
        }
        let words: usize = rtp[start + 2] as usize * 256 + rtp[start + 3] as usize;
        start = start + 4 + words * 4;
    }
    assert(start == payload_start(rtp@));
    if start >= n {
        return None;
    }
    let mut end: usize = n;
    if has_padding {
        let pad: usize = rtp[n - 1] as usize;
        if pad == 0 || pad >= n - start {
            return None;
        }
        end = n - pad;
    }
    let payload = slice_subrange(rtp, start, end);
    assert(!has_padding ==> payload@ =~= rtp@.skip(start as int));
    Some(payload)
}

// ---------------------------------------------------------------------------
// The transcoder
// ---------------------------------------------------------------------------

/// Transcoder of one audio stream.
pub struct AudioTranscoder {
    encoder: AacEncoder,
    muxer: AudioFlvMuxer,
    /// Whether the sequence header tag was given.
    seq_sent: bool,
}

/// What an `AudioTranscoder` holds.
#[verifier::ext_equal]
pub struct TranscoderView {
    pub encoder: EncoderView,
    /// Sequence header tag.
    pub header: Seq<u8>,
    /// RTP timestamp that the stream started with.
    pub rtp_base: Option<u64>,
    /// Whether the sequence header tag was given.
    pub sent: bool,
}

impl View for AudioTranscoder {
    type V = TranscoderView;

    closed spec fn view(&self) -> TranscoderView {
        TranscoderView {
            encoder: self.encoder@,
            header: self.muxer.header(),
            rtp_base: self.muxer.base(),
            sent: self.seq_sent,
        }
    }
}

/// The samples that mu-law bytes stand for.
pub open spec fn samples_of(payload: Seq<u8>) -> Seq<i16> {
    payload.map_values(|b: u8| ulaw(b) as i16)
}

impl TranscoderView {
    /// Whether the transcoder can take `n` bytes more: the number of their
    /// samples fits 64 bits, and the samples fit in memory.
    pub open spec fn has_room(self, n: nat) -> bool {
        self.encoder.has_room(n)
    }

    /// A transcoder that has taken nothing yet.
    pub open spec fn fresh() -> TranscoderView {
        TranscoderView {
            encoder: EncoderView::fresh(AUDIO_SAMPLE_RATE, AUDIO_CHANNELS, AUDIO_BITRATE_BPS),
            header: sequence_header(audio_specific_config(AUDIO_SAMPLE_RATE, AUDIO_CHANNELS), 0),
            rtp_base: None,
            sent: false,
        }
    }

    /// The raw tag of the ADTS frame `adts`, which the encoder gives for frame
    /// `i` of those that samples `pcm` complete: its AAC data, with the time of
    /// its first sample.
    pub open spec fn tag_of(self, pcm: Seq<i16>, adts: Seq<u8>, i: int) -> Seq<u8> {
        raw_tag(
            aac_data(adts)->Ok_0,
            sample_ms(self.encoder.pts(pcm, i) as nat, AUDIO_SAMPLE_RATE as nat) as u32,
        )
    }

    /// Whether `tags` is what comes out when samples `pcm` went in and the
    /// encoder gave the ADTS frames `adts` for them: nothing if they complete no
    /// frame, and otherwise a raw tag for each frame, behind the sequence header
    /// tag if that was not given before.
    pub open spec fn gives(
        self,
        pcm: Seq<i16>,
        adts: Seq<Seq<u8>>,
        tags: Seq<Seq<u8>>,
    ) -> bool {
        let n = self.encoder.completed(pcm);
        let first = if self.sent || n == 0 {
            0int
        } else {
            1
        };
        &&& adts.len() == n
        &&& forall|i: int|
            0 <= i < n ==> is_adts_frame(#[trigger] adts[i]) && aac_data(adts[i]) is Ok
        &&& tags.len() == first + n
        &&& first == 1 ==> tags[0] == self.header
        &&& forall|j: int|
            first <= j < tags.len() ==> #[trigger] tags[j] == self.tag_of(
                pcm,
                adts[j - first],
                j - first,
            )
    }

    /// The transcoder after the samples `pcm`, for which the encoder gave the
    /// ADTS frames `adts`.
    pub open spec fn pushed(self, pcm: Seq<i16>, adts: Seq<Seq<u8>>) -> TranscoderView {
        let n = self.encoder.completed(pcm);
        TranscoderView {
            encoder: self.encoder.pushed(pcm, n, adts),
            sent: self.sent || n > 0,
            ..self
        }
    }

    /// Whether the transcoder is `after` and gives `tags` when the RTP packet
    /// comes and the encoder does not fail. A packet without mu-law in it does
    /// nothing.
    pub open spec fn takes(
        self,
        rtp: Seq<u8>,
        after: TranscoderView,
        tags: Seq<Seq<u8>>,
    ) -> bool {
        match g711_payload(rtp) {
            None => after == self && tags == Seq::<Seq<u8>>::empty(),
            Some(p) => {
                let adts = added(self.encoder.given, after.encoder.given);
                &&& self.gives(samples_of(p), adts, tags)
                &&& after == self.pushed(samples_of(p), adts)
            },
        }
    }

    /// Whether the transcoder is `after` when the RTP packet comes and the
    /// encoder fails with `e`.
    pub open spec fn fails(self, rtp: Seq<u8>, after: TranscoderView, e: AacError) -> bool {
        g711_payload(rtp) matches Some(p) && self.encoder.fails(samples_of(p), after.encoder, e)
            && after == (TranscoderView { encoder: after.encoder, ..self })
    }
}

impl AudioTranscoder {
    /// What holds of every transcoder: its encoder is a mono one that has
    /// accounted for every sample.
    pub closed spec fn wf(self) -> bool {
        &&& self.encoder.wf()
        &&& self.encoder@.channels == 1
        &&& self.encoder@.aligned()
    }

    /// Creates a transcoder for mono mu-law at 8 kHz.
    pub fn new() -> (r: Result<AudioTranscoder, AacError>)
        ensures
            r matches Ok(t) && t.wf() && t@ == TranscoderView::fresh(),
    {
        let encoder = AacEncoder::new(AUDIO_SAMPLE_RATE, AUDIO_CHANNELS, AUDIO_BITRATE_BPS)?;
        let muxer = AudioFlvMuxer::new(encoder.asc());
        Ok(AudioTranscoder { encoder, muxer, seq_sent: false })
    }

    /// Whether the transcoder can take `n` bytes more.
    pub fn has_room(&self, n: usize) -> (b: bool)
        ensures
            b == self@.has_room(n as nat),
    {
        self.encoder.has_room(n)
    }

    /// The sequence header tag, for clients that join late.
    #[must_use]
    pub fn sequence_header_tag(&self) -> (r: &[u8])
        ensures
            r@ == self@.header,
    {
        self.muxer.sequence_header_tag()
    }

    /// Processes an RTP packet and gives the tags that follow from it.
    ///
    /// A packet without mu-law in it gives none. The sequence header tag comes
    /// exactly once, ahead of the first raw tag.
    pub fn process_rtp(&mut self, rtp: &[u8]) -> (r: Result<Vec<Vec<u8>>, AacError>)
        requires
            old(self).wf(),
            old(self)@.has_room(rtp@.len()),
        ensures
            final(self).wf(),
            match r {
                Ok(tags) => old(self)@.takes(rtp@, final(self)@, tag_bytes(tags@)),
                Err(e) => old(self)@.fails(rtp@, final(self)@, e),
            },
    {
        let mut tags: Vec<Vec<u8>> = Vec::new();
        assert(tag_bytes(tags@) =~= Seq::empty());
        let payload = match parse_g711_rtp(rtp) {
            Some(p) => p,
            None => {
                return Ok(tags);
            },
        };
        let mut pcm: Vec<i16> = vec![0; payload.len()];
        let decoded = decode_mulaw(payload, pcm.as_mut_slice());
        let ghost samples = samples_of(payload@);
        let ghost before = self.encoder@;
        proof {
            lemma_payload_within(rtp@);
            assert(decoded is Ok);
            assert(pcm@ =~= samples);
            assert(samples.len() % 1nat == 0);
            lemma_room(before, samples);
        }
        let pushed = self.encoder.push_pcm(pcm.as_slice());
        let ghost out = added(before.given, self.encoder@.given);
        let units = match pushed {
            Ok(units) => units,
            Err(e) => {
                proof {
                    let k = choose|k: nat|
                        1 <= k <= before.completed(samples) && fails_on(out, k, e) && self.encoder@
                            == #[trigger] before.pushed(samples, k, out);
                    lemma_aligned_push(before, samples, k, out);
                }
                return Err(e);
            },
        };
        let ghost n = before.completed(samples);
        proof {
            lemma_aligned_push(before, samples, n, out);
        }
        if units.len() == 0 {
            return Ok(tags);
        }
        let ghost first = if self.seq_sent {
            0int
        } else {
            1
        };
        if !self.seq_sent {
            self.seq_sent = true;
            let mut header: Vec<u8> = Vec::new();
            header.extend_from_slice(self.muxer.sequence_header_tag());
            assert(header@ =~= old(self)@.header);
            tags.push(header);
        }
        let mut i: usize = 0;
        while i < units.len()
            invariant
                i <= units@.len() == n,
                n == before.completed(samples),
                before == old(self)@.encoder,
                0 <= first <= 1,
                tags@.len() == first + i,
                first == 1 ==> tags@[0]@ == old(self)@.header,
                before.units_of(samples, out, units@),
                forall|j: int|
                    first <= j < tags@.len() ==> (#[trigger] tags@[j])@ == old(self)@.tag_of(
                        samples,
                        out[j - first],
                        j - first,
                    ),
            decreases units@.len() - i,
        {
            assert(is_unit_of(units@[i as int], out[i as int], before.pts(samples, i as int)));
            let ts: u32 = pts_to_ms(units[i].pts, AUDIO_SAMPLE_RATE);
            let tag = aac_raw_tag(units[i].data.as_slice(), ts);
            assert(tag@ == old(self)@.tag_of(samples, out[i as int], i as int));
            tags.push(tag);
            i += 1;
        }
        assert(old(self)@.gives(samples, out, tag_bytes(tags@))) by {
            let bytes = tag_bytes(tags@);
            assert(bytes.len() == first + n);
            assert forall|j: int| first <= j < bytes.len() implies #[trigger] bytes[j] == old(
                self,
            )@.tag_of(samples, out[j - first], j - first) by {
                assert(bytes[j] == tags@[j]@);
            }
            assert forall|j: int| 0 <= j < n implies is_adts_frame(#[trigger] out[j]) && aac_data(
                out[j],
            ) is Ok by {
                assert(is_unit_of(units@[j], out[j], before.pts(samples, j)));
            }
        }
        Ok(tags)
    }
}

proof fn lemma_payload_within(rtp: Seq<u8>)
    ensures
        g711_payload(rtp) matches Some(p) ==> 0 < p.len() <= rtp.len(),
{
}

proof fn lemma_room(e: EncoderView, pcm: Seq<i16>)
    requires
        e.aligned(),
        e.channels == 1,
        e.has_room(pcm.len()),
    ensures
        e.in_range(pcm),
{
    assert(pcm.len() % 1nat == 0);
    assert(pcm.len() / 1nat == pcm.len());
    lemma_aligned_push(e, pcm, 0, Seq::empty());
}

// ---------------------------------------------------------------------------
// Laws
// ---------------------------------------------------------------------------

/// Whether `states` are the states of a transcoder that takes the RTP packets,
/// one after another, and gives `outs`, while its encoder does not fail.
pub open spec fn is_run(
    states: Seq<TranscoderView>,
    packets: Seq<Seq<u8>>,
    outs: Seq<Seq<Seq<u8>>>,
) -> bool {
    &&& packets.len() == outs.len()
    &&& states.len() == outs.len() + 1
    &&& forall|i: int|
        0 <= i < outs.len() ==> #[trigger] states[i].takes(packets[i], states[i + 1], outs[i])
}

/// The tags of all outputs, in order.
pub open spec fn all_tags(outs: Seq<Seq<Seq<u8>>>) -> Seq<Seq<u8>>
    decreases outs.len(),
{
    if outs.len() == 0 {
        Seq::empty()
    } else {
        all_tags(outs.drop_last()) + outs.last()
    }
}

/// The timestamp of the access unit number `k` at 8 kHz: 128 milliseconds for
/// each before it, at most what 32 bits hold.
pub open spec fn unit_ms(k: int) -> u32 {
    if 128 * k <= u32::MAX {
        (128 * k) as u32
    } else {
        u32::MAX
    }
}

/// What holds after a run: the tags that came are none, or the sequence header
/// tag and behind it the raw tag of every ADTS frame that the encoder gave.
spec fn run_holds(start: TranscoderView, end: TranscoderView, tags: Seq<Seq<u8>>) -> bool {
    &&& end.header == start.header
    &&& end.encoder.channels == 1
    &&& end.encoder.aligned()
    &&& end.encoder.given.len() == end.encoder.handed.len()
    &&& end.sent <==> end.encoder.given.len() > 0
    &&& tags.len() == if end.sent {
        1 + end.encoder.given.len()
    } else {
        0
    }
    &&& end.sent ==> tags[0] == start.header
    &&& forall|j: int|
        1 <= j < tags.len() ==> #[trigger] tags[j] == raw_tag(
            aac_data(end.encoder.given[j - 1])->Ok_0,
            unit_ms(j - 1),
        )
}

proof fn lemma_unit_ms(k: int)
    requires
        0 <= k,
    ensures
        sample_ms((FRAME_LEN * k) as nat, AUDIO_SAMPLE_RATE as nat) as u32 == unit_ms(k),
{
    assert(FRAME_LEN * k * 1000 / 8000 == 128 * k);
}

proof fn lemma_run_step(
    start: TranscoderView,
    before: TranscoderView,
    earlier: Seq<Seq<u8>>,
    rtp: Seq<u8>,
    after: TranscoderView,
    new: Seq<Seq<u8>>,
)
    requires
        run_holds(start, before, earlier),
        before.takes(rtp, after, new),
    ensures
        run_holds(start, after, earlier + new),
{
    match g711_payload(rtp) {
        None => {
            assert(earlier + new =~= earlier);
        },
        Some(p) => {
            let pcm = samples_of(p);
            let adts = added(before.encoder.given, after.encoder.given);
            let n = before.encoder.completed(pcm);
            let given = before.encoder.given.len() as int;
            let tags = earlier + new;
            let first = if before.sent || n == 0 {
                0int
            } else {
                1
            };
            assert(pcm.len() % 1nat == 0);
            lemma_aligned_push(before.encoder, pcm, n, adts);
            assert(after.encoder.given =~= before.encoder.given + adts);
            assert forall|j: int| 1 <= j < tags.len() implies #[trigger] tags[j] == raw_tag(
                aac_data(after.encoder.given[j - 1])->Ok_0,
                unit_ms(j - 1),
            ) by {
                if j < earlier.len() {
                    assert(tags[j] == earlier[j]);
                    assert(after.encoder.given[j - 1] == before.encoder.given[j - 1]);
                } else {
                    let i = j - earlier.len() - first;
                    assert(tags[j] == new[j - earlier.len()]);
                    assert(0 <= i < n && j - 1 == given + i);
                    assert(after.encoder.given[j - 1] == adts[i]);
                    law_units_follow_by_one_frame(before.encoder, pcm, n, adts, i);
                    lemma_unit_ms(given + i);
                    assert(new[j - earlier.len()] == before.tag_of(pcm, adts[i], i));
                }
            }
        },
    }
}

proof fn lemma_run(
    states: Seq<TranscoderView>,
    packets: Seq<Seq<u8>>,
    outs: Seq<Seq<Seq<u8>>>,
)
    requires
        is_run(states, packets, outs),
        states[0] == TranscoderView::fresh(),
    ensures
        run_holds(states[0], states.last(), all_tags(outs)),
    decreases outs.len(),
{
    if outs.len() > 0 {
        let n = outs.len() - 1;
        assert(is_run(states.drop_last(), packets.drop_last(), outs.drop_last())) by {
            assert forall|i: int| 0 <= i < n implies #[trigger] states.drop_last()[i].takes(
                packets.drop_last()[i],
                states.drop_last()[i + 1],
                outs.drop_last()[i],
            ) by {
                assert(states[i].takes(packets[i], states[i + 1], outs[i]));
            }
        }
        lemma_run(states.drop_last(), packets.drop_last(), outs.drop_last());
        assert(states.drop_last().last() == states[n]);
        assert(states.drop_last()[0] == states[0]);
        assert(states[n].takes(packets[n], states[n + 1], outs[n]));
        lemma_run_step(
            states[0],
            states[n],
            all_tags(outs.drop_last()),
            packets[n],
            states[n + 1],
            outs[n],
        );
    }
}

/// The tags of a stream, from its start on, whatever the packets: the sequence
/// header tag comes exactly once, ahead of the first raw tag; behind it comes a
/// raw tag for each ADTS frame that the encoder gave, in order, and the k-th of
/// them has the timestamp 128 * k milliseconds, as far as 32 bits hold it.
pub proof fn law_sequence_header_comes_once(
    states: Seq<TranscoderView>,
    packets: Seq<Seq<u8>>,
    outs: Seq<Seq<Seq<u8>>>,
)
    requires
        is_run(states, packets, outs),
        states[0] == TranscoderView::fresh(),
    ensures
        ({
            let tags = all_tags(outs);
            let given = states.last().encoder.given;
            let header = states[0].header;
            &&& states.last().header == header
            &&& tags.len() == if given.len() == 0 {
                0
            } else {
                1 + given.len()
            }
            &&& tags.len() > 0 ==> tags[0] == header
            &&& forall|j: int|
                1 <= j < tags.len() ==> #[trigger] tags[j] == raw_tag(
                    aac_data(given[j - 1])->Ok_0,
                    unit_ms(j - 1),
                ) && tags[j][12] == 1 && tags[j] != header
        }),
{
    lemma_run(states, packets, outs);
    let tags = all_tags(outs);
    let given = states.last().encoder.given;
    let config = audio_specific_config(AUDIO_SAMPLE_RATE, AUDIO_CHANNELS);
    lemma_kind_of_tag(0, config, 0);
    assert forall|j: int| 1 <= j < tags.len() implies #[trigger] tags[j] == raw_tag(
        aac_data(given[j - 1])->Ok_0,
        unit_ms(j - 1),
    ) && tags[j][12] == 1 && tags[j] != states[0].header by {
        lemma_kind_of_tag(1, aac_data(given[j - 1])->Ok_0, unit_ms(j - 1));
    }
}

/// Whether the encoder has taken the samples `pcm` on its way from `before` to
/// `after`: joined, the frames that it was handed and behind them what is
/// buffered have grown by exactly these samples.
pub open spec fn has_taken(before: EncoderView, after: EncoderView, pcm: Seq<i16>) -> bool {
    all_samples(after.handed) + after.pending == all_samples(before.handed) + before.pending + pcm
}

proof fn lemma_samples_of(payload: Seq<u8>)
    ensures
        samples_of(payload).len() == payload.len(),
        forall|i: int|
            0 <= i < payload.len() ==> #[trigger] samples_of(payload)[i] == ulaw(payload[i]),
{
    assert forall|i: int| 0 <= i < payload.len() implies #[trigger] samples_of(payload)[i] == ulaw(
        payload[i],
    ) by {
        lemma_ulaw_fits(payload[i]);
    }
}

/// Every mu-law byte of a packet reaches the encoder as the sample that it stands
/// for: one sample for each byte and in order, behind all samples that came
/// before. That holds whether the encoder fails or not.
pub proof fn law_every_byte_becomes_its_sample(
    t: TranscoderView,
    rtp: Seq<u8>,
    after: TranscoderView,
    tags: Seq<Seq<u8>>,
    e: AacError,
    payload: Seq<u8>,
)
    requires
        t.takes(rtp, after, tags) || t.fails(rtp, after, e),
        g711_payload(rtp) == Some(payload),
        t.encoder.channels == 1,
    ensures
        exists|pcm: Seq<i16>|
            #[trigger] has_taken(t.encoder, after.encoder, pcm) && pcm.len() == payload.len() && (
            forall|i: int| 0 <= i < payload.len() ==> #[trigger] pcm[i] == ulaw(payload[i])),
        forall|i: int|
            0 <= i < payload.len() ==> ulaw(#[trigger] payload[i]) == (all_samples(
                after.encoder.handed,
            ) + after.encoder.pending)[all_samples(t.encoder.handed).len()
                + t.encoder.pending.len() + i],
{
    let pcm = samples_of(payload);
    lemma_samples_of(payload);
    let adts = added(t.encoder.given, after.encoder.given);
    if t.takes(rtp, after, tags) {
        law_samples_are_kept(t.encoder, pcm, t.encoder.completed(pcm), adts);
    } else {
        let k = choose|k: nat|
            1 <= k <= t.encoder.completed(pcm) && fails_on(adts, k, e) && after.encoder
                == #[trigger] t.encoder.pushed(pcm, k, adts);
        law_samples_are_kept(t.encoder, pcm, k, adts);
    }
    assert(has_taken(t.encoder, after.encoder, pcm));
    assert forall|i: int| 0 <= i < payload.len() implies ulaw(#[trigger] payload[i]) == (
    all_samples(after.encoder.handed) + after.encoder.pending)[all_samples(t.encoder.handed).len()
        + t.encoder.pending.len() + i] by {
        assert(samples_of(payload)[i] == ulaw(payload[i]));
    }
}

/// An RTP packet: two bytes that tell of the packet, ten more of the fixed
/// header, the contributing sources, an extension if there is one, the payload,
/// and a padding if there is one.
pub open spec fn rtp_packet(
    marker: bool,
    payload_type: u8,
    fixed: Seq<u8>,
    sources: Seq<u8>,
    extension: Option<(u8, u8, Seq<u8>)>,
    payload: Seq<u8>,
    padding: Option<Seq<u8>>,
) -> Seq<u8> {
    let flags = 128 + (if padding is Some {
        32int
    } else {
        0
    }) + (if extension is Some {
        16int
    } else {
        0
    }) + sources.len() / 4;
    seq![
        flags as u8,
        ((if marker {
            128int
        } else {
            0
        }) + payload_type) as u8,
    ] + fixed + sources + (match extension {
        Some((a, b, words)) => seq![
            a,
            b,
            (words.len() / 4 / 256) as u8,
            (words.len() / 4 % 256) as u8,
        ] + words,
        None => Seq::empty(),
    }) + payload + (match padding {
        Some(p) => p.push((p.len() + 1) as u8),
        None => Seq::empty(),
    })
}

/// The mu-law bytes of a packet are its payload, all of it and nothing else,
/// whatever stands before and behind it; a packet of another payload type has
/// none.
pub proof fn law_payload_is_all_of_the_payload(
    marker: bool,
    payload_type: u8,
    fixed: Seq<u8>,
    sources: Seq<u8>,
    extension: Option<(u8, u8, Seq<u8>)>,
    payload: Seq<u8>,
    padding: Option<Seq<u8>>,
)
    requires
        payload_type < 128,
        fixed.len() == 10,
        sources.len() % 4 == 0,
        sources.len() <= 60,
        extension matches Some((_, _, words)) ==> words.len() % 4 == 0 && words.len() / 4
            <= 0xffff,
        payload.len() > 0,
        padding matches Some(p) ==> p.len() < 255,
    ensures
        g711_payload(
            rtp_packet(marker, payload_type, fixed, sources, extension, payload, padding),
        ) == if payload_type == 0 {
            Some(payload)
        } else {
            None
        },
{
    let rtp = rtp_packet(marker, payload_type, fixed, sources, extension, payload, padding);
    let cc = (sources.len() / 4) as int;
    assert(sources.len() == cc * 4 && 0 <= cc <= 15);
    let ext = match extension {
        Some((a, b, words)) => seq![
            a,
            b,
            (words.len() / 4 / 256) as u8,
            (words.len() / 4 % 256) as u8,
        ] + words,
        None => Seq::empty(),
    };
    let pad = match padding {
        Some(p) => p.push((p.len() + 1) as u8),
        None => Seq::empty(),
    };
    let front = 12 + cc * 4;
    assert(rtp.len() == front + ext.len() + payload.len() + pad.len());
    assert(rtp[0] % 16 == cc);
    assert(rtp[0] / 64 == 2);
    assert(rtp[0] / 16 % 2 == 1 <==> extension is Some);
    assert(rtp[0] / 32 % 2 == 1 <==> padding is Some);
    assert(rtp[1] % 128 == payload_type);
    let start = front + ext.len();
    if let Some((a, b, words)) = extension {
        assert(rtp[front + 2] == ext[2] && rtp[front + 3] == ext[3]);
        assert(words.len() / 4 / 256 * 256 + words.len() / 4 % 256 == words.len() / 4);
        assert(words.len() == words.len() / 4 * 4);
    }
    assert(payload_start(rtp) == start);
    if padding is Some {
        assert(rtp.last() == pad.last());
        assert(rtp.subrange(start as int, rtp.len() - pad.len()) =~= payload);
    } else {
        assert(rtp.skip(start as int) =~= payload);
    }
}

/// A packet that is no RTP of version 2, that has another payload type, that has
/// nothing behind its header, or that has a padding of no bytes or of as many as
/// stand behind its header, gives nothing and changes nothing.
pub proof fn law_other_packets_do_nothing(
    t: TranscoderView,
    rtp: Seq<u8>,
    after: TranscoderView,
    tags: Seq<Seq<u8>>,
    e: AacError,
)
    requires
        t.takes(rtp, after, tags) || t.fails(rtp, after, e),
        ({
            let header = 12 + rtp[0] % 16 * 4;
            ||| rtp.len() <= 12 || rtp.len() <= header
            ||| rtp[0] < 128 || rtp[0] >= 192 || rtp[1] % 128 != 0
            ||| rtp[0] / 32 % 2 == 1 && (rtp.last() == 0 || rtp.len() - rtp.last() <= header)
        }),
    ensures
        after == t,
        t.takes(rtp, after, tags),
        tags.len() == 0,
{
}

/// Every ADTS frame that the encoder gives for a packet comes out in a tag of its
/// own, in order: an audio tag around the byte 0xad, a one, and all bytes of the
/// frame behind its header of seven. The tag of frame number k of the stream has
/// the time 128 * k. Before the first of them comes the sequence header tag, if it
/// has not come before.
pub proof fn law_each_frame_comes_out_in_its_tag(
    t: TranscoderView,
    rtp: Seq<u8>,
    after: TranscoderView,
    tags: Seq<Seq<u8>>,
)
    requires
        t.takes(rtp, after, tags),
        t.encoder.channels == 1,
        t.encoder.aligned(),
        t.encoder.given.len() == t.encoder.handed.len(),
        t.encoder.handed.len() < 0x100_0000,
        after.encoder.handed.len() < 0x100_0000,
    ensures
        ({
            let before = t.encoder.given;
            let given = after.encoder.given;
            let n = given.len() - before.len();
            let first = if t.sent || n == 0 {
                0int
            } else {
                1
            };
            &&& n >= 0
            &&& given.take(before.len() as int) == before
            &&& given.len() == after.encoder.handed.len()
            &&& tags.len() == first + n
            &&& first == 1 ==> tags[0] == t.header
            &&& after.sent == (t.sent || n > 0)
            &&& after.header == t.header
            &&& forall|i: int|
                before.len() <= i < given.len() ==> is_tag_around(
                    tags[first + i - before.len()],
                    8,
                    (128 * i) as u32,
                    seq![0xadu8, 1] + (#[trigger] given[i]).skip(7),
                )
        }),
{
    let before = t.encoder.given;
    let given = after.encoder.given;
    match g711_payload(rtp) {
        None => {
            assert(given.take(before.len() as int) =~= before);
        },
        Some(p) => {
            let pcm = samples_of(p);
            let adts = added(before, given);
            let n = t.encoder.completed(pcm);
            let first = if t.sent || n == 0 {
                0int
            } else {
                1
            };
            assert(pcm.len() % 1nat == 0);
            assert(given =~= before + adts);
            assert(given.take(before.len() as int) =~= before);
            lemma_aligned_push(t.encoder, pcm, n, adts);
            assert forall|i: int| before.len() <= i < given.len() implies is_tag_around(
                tags[first + i - before.len()],
                8,
                (128 * i) as u32,
                seq![0xadu8, 1] + (#[trigger] given[i]).skip(7),
            ) by {
                let j = i - before.len();
                assert(given[i] == adts[j]);
                assert(is_adts_frame(adts[j]) && aac_data(adts[j]) is Ok);
                law_data_is_all_behind_the_header(adts[j]);
                law_units_follow_by_one_frame(t.encoder, pcm, n, adts, j);
                lemma_unit_ms(i);
                assert(tags[first + j] == t.tag_of(pcm, adts[j], j));
                law_audio_tag_holds_its_data(adts[j].skip(7), (128 * i) as u32);
            }
        },
    }
}

/// A stream starts with nothing in it, for mono at 8000 samples and 32000 bits in
/// a second, and its sequence header tag, at time zero, tells so: AAC of low
/// complexity, rate number 11, one channel.
pub proof fn law_stream_is_announced()
    ensures
        ({
            let t = TranscoderView::fresh();
            &&& is_tag_around(t.header, 8, 0, seq![0xadu8, 0, 0x15, 0x88])
            &&& t.encoder.sample_rate == 8000
            &&& t.encoder.channels == 1
            &&& t.encoder.bitrate == 32000
            &&& t.encoder.pending.len() == 0
            &&& t.encoder.handed.len() == 0
            &&& t.encoder.given.len() == 0
            &&& t.encoder.total == 0
            &&& t.encoder.aligned()
            &&& !t.sent
        }),
{
    let config = audio_specific_config(AUDIO_SAMPLE_RATE, AUDIO_CHANNELS);
    assert(config =~= seq![0x15u8, 0x88]);
    law_audio_tag_holds_its_data(config, 0);
    assert(seq![0xadu8, 0] + config =~= seq![0xadu8, 0, 0x15, 0x88]);
}

/// A failure of the encoder loses no more than the frames that were complete: the
/// stream keeps its header, and it is still open whether that was given. There is
/// no failure without a whole frame.
pub proof fn law_failure_keeps_the_stream(
    t: TranscoderView,
    rtp: Seq<u8>,
    after: TranscoderView,
    e: AacError,
)
    requires
        t.fails(rtp, after, e),
        t.encoder.channels == 1,
    ensures
        after.header == t.header,
        after.sent == t.sent,
        after.rtp_base == t.rtp_base,
        after.encoder.handed.len() > t.encoder.handed.len(),
        e == AacError::Encode || e == AacError::EmptyUnit,
        g711_payload(rtp) matches Some(p) && t.encoder.pending.len() + p.len() >= 1024,
{
    let p = g711_payload(rtp)->0;
    let pcm = samples_of(p);
    let adts = added(t.encoder.given, after.encoder.given);
    let k = choose|k: nat|
        1 <= k <= t.encoder.completed(pcm) && fails_on(adts, k, e) && after.encoder
            == #[trigger] t.encoder.pushed(pcm, k, adts);
    assert(pcm.len() == p.len());
    let n = t.encoder.pending.len() + pcm.len();
    if n < 1024 {
        vstd::arithmetic::div_mod::lemma_basic_div(n as int, 1024);
    }
}

} // verus!
