//! AAC audio in FLV tags.
//!
//! A client needs one sequence header tag, which holds the configuration of the
//! decoder (`AudioSpecificConfig`), before the raw tags, one for each AAC frame.
//! The data of either starts with the byte [`AUDIO_TAG_HEADER_AAC_MONO`] and a
//! byte that tells the two apart.

use vstd::prelude::*;

use crate::flv_tag::{build_tag, flv_tag, is_tag_around, law_tag_layout, lemma_data_of_tag};

verus! {

/// Tag type of audio.
pub const TAG_TYPE_AUDIO: u8 = 8;

/// First byte of the data of an audio tag: AAC (10) in the high four bits, then
/// the rate 3, which AAC always has here, the size 0 and the sound type 1.
pub const AUDIO_TAG_HEADER_AAC_MONO: u8 = 0xad;

/// The header of an FLV stream that holds audio only, and the zero that stands
/// before the first tag.
pub open spec fn audio_header() -> Seq<u8> {
    seq![0x46u8, 0x4c, 0x56, 1, 4, 0, 0, 0, 9, 0, 0, 0, 0]
}

/// Builds the header of an FLV stream that holds audio only.
#[must_use]
pub fn flv_audio_header() -> (r: Vec<u8>)
    ensures
        r@ == audio_header(),
{
    vec![0x46, 0x4c, 0x56, 1, 4, 0, 0, 0, 9, 0, 0, 0, 0]
}

/// An audio tag with the given payload.
pub open spec fn audio_tag(payload: Seq<u8>, timestamp_ms: u32) -> Seq<u8> {
    flv_tag(TAG_TYPE_AUDIO, seq![AUDIO_TAG_HEADER_AAC_MONO] + payload, timestamp_ms as nat)
}

/// The payload of a tag: the byte `kind` and the bytes `data`.
pub open spec fn with_first(kind: u8, data: Seq<u8>) -> Seq<u8> {
    seq![kind] + data
}

/// Builds an audio tag. The lengths in the tag have 24 and 32 bits.
pub fn build_audio_tag(payload: &[u8], timestamp_ms: u32) -> (r: Vec<u8>)
    ensures
        r@ == audio_tag(payload@, timestamp_ms),
{
    let mut data: Vec<u8> = Vec::new();
    data.push(AUDIO_TAG_HEADER_AAC_MONO);
    data.extend_from_slice(payload);
    assert(data@ =~= seq![AUDIO_TAG_HEADER_AAC_MONO] + payload@);
    build_tag(TAG_TYPE_AUDIO, data.as_slice(), timestamp_ms)
}

/// The sequence header tag of the configuration `asc`.
pub open spec fn sequence_header(asc: Seq<u8>, timestamp_ms: u32) -> Seq<u8> {
    audio_tag(with_first(0, asc), timestamp_ms)
}

/// The raw tag of an AAC frame.
pub open spec fn raw_tag(aac_data: Seq<u8>, timestamp_ms: u32) -> Seq<u8> {
    audio_tag(with_first(1, aac_data), timestamp_ms)
}

/// Builds the sequence header tag of the configuration `asc`.
#[must_use]
pub fn aac_sequence_header_tag(asc: &[u8], timestamp_ms: u32) -> (r: Vec<u8>)
    ensures
        r@ == sequence_header(asc@, timestamp_ms),
{
    let mut payload: Vec<u8> = Vec::new();
    payload.push(0);
    payload.extend_from_slice(asc);
    assert(payload@ =~= with_first(0, asc@));
    build_audio_tag(payload.as_slice(), timestamp_ms)
}

/// Builds the raw tag of an AAC frame.
#[must_use]
pub fn aac_raw_tag(aac_data: &[u8], timestamp_ms: u32) -> (r: Vec<u8>)
    ensures
        r@ == raw_tag(aac_data@, timestamp_ms),
{
    let mut payload: Vec<u8> = Vec::new();
    payload.push(1);
    payload.extend_from_slice(aac_data);
    assert(payload@ =~= with_first(1, aac_data@));
    build_audio_tag(payload.as_slice(), timestamp_ms)
}

/// The muxer of an audio stream: it keeps the sequence header tag for clients
/// that join late, and the RTP timestamp that the stream started with.
#[derive(Debug)]
pub struct AudioFlvMuxer {
    sequence_header_tag: Vec<u8>,
    rtp_base: Option<u64>,
}

impl AudioFlvMuxer {
    /// The sequence header tag.
    pub closed spec fn header(self) -> Seq<u8> {
        self.sequence_header_tag@
    }

    /// The RTP timestamp that the stream started with.
    pub closed spec fn base(self) -> Option<u64> {
        self.rtp_base
    }

    /// Creates the muxer of a stream with the configuration `asc`.
    #[must_use]
    pub fn new(asc: &[u8]) -> (m: AudioFlvMuxer)
        ensures
            m.header() == sequence_header(asc@, 0),
            m.base() is None,
    {
        AudioFlvMuxer { sequence_header_tag: aac_sequence_header_tag(asc, 0), rtp_base: None }
    }

    /// The sequence header tag, for clients that join late.
    #[must_use]
    pub fn sequence_header_tag(&self) -> (r: &[u8])
        ensures
            r@ == self.header(),
    {
        self.sequence_header_tag.as_slice()
    }

    /// Notes the RTP timestamp of the first packet; later ones change nothing.
    pub fn set_rtp_base(&mut self, rtp_ts: u64)
        ensures
            final(self).header() == old(self).header(),
            final(self).base() == if old(self).base() is None {
                Some(rtp_ts)
            } else {
                old(self).base()
            },
    {
        if self.rtp_base.is_none() {
            self.rtp_base = Some(rtp_ts);
        }
    }
}

/// The time of the sample number `pts_samples` in milliseconds, at most what 32
/// bits hold.
pub open spec fn sample_ms(pts_samples: nat, sample_rate: nat) -> nat {
    let ms = pts_samples * 1000 / sample_rate;
    if ms <= u32::MAX {
        ms
    } else {
        u32::MAX as nat
    }
}

/// Converts a time in samples to an FLV timestamp in milliseconds, at most what
/// 32 bits hold.
#[must_use]
pub fn pts_to_ms(pts_samples: u64, sample_rate: u32) -> (r: u32)
    requires
        sample_rate > 0,
    ensures
        r == sample_ms(pts_samples as nat, sample_rate as nat),
{
    let ms: u128 = pts_samples as u128 * 1000 / sample_rate as u128;
    if ms <= 0xffff_ffff {
        ms as u32
    } else {
        0xffff_ffff
    }
}

/// The byte that tells the two kinds of tags apart stands behind the header of a
/// tag and the first byte of its data.
pub(crate) proof fn lemma_kind_of_tag(kind: u8, data: Seq<u8>, timestamp_ms: u32)
    ensures
        audio_tag(with_first(kind, data), timestamp_ms).len() > 12,
        audio_tag(with_first(kind, data), timestamp_ms)[12] == kind,
{
    let body = seq![AUDIO_TAG_HEADER_AAC_MONO] + with_first(kind, data);
    lemma_data_of_tag(TAG_TYPE_AUDIO, body, timestamp_ms as nat, 1);
}

// ---------------------------------------------------------------------------
// Laws
// ---------------------------------------------------------------------------

/// A later sample never has an earlier timestamp.
pub proof fn law_timestamps_follow_samples(a: nat, b: nat, sample_rate: nat)
    requires
        a <= b,
        sample_rate > 0,
    ensures
        sample_ms(a, sample_rate) <= sample_ms(b, sample_rate),
{
    vstd::arithmetic::div_mod::lemma_div_is_ordered(
        (a * 1000) as int,
        (b * 1000) as int,
        sample_rate as int,
    );
}

/// An audio tag is a tag of the kind 8 around the byte 0xad and what it was made
/// with: behind it a zero and the configuration in the sequence header tag, and a
/// one and the AAC data in a raw tag, with all of their bytes.
pub proof fn law_audio_tag_holds_its_data(data: Seq<u8>, timestamp_ms: u32)
    ensures
        is_tag_around(
            sequence_header(data, timestamp_ms),
            8,
            timestamp_ms,
            seq![0xadu8, 0] + data,
        ),
        is_tag_around(raw_tag(data, timestamp_ms), 8, timestamp_ms, seq![0xadu8, 1] + data),
        raw_tag(data, timestamp_ms).len() == data.len() + 17,
        raw_tag(data, timestamp_ms).subrange(13, 13 + data.len() as int) == data,
{
    let header = seq![0xadu8, 0] + data;
    let raw = seq![0xadu8, 1] + data;
    assert(seq![AUDIO_TAG_HEADER_AAC_MONO] + with_first(0, data) =~= header);
    assert(seq![AUDIO_TAG_HEADER_AAC_MONO] + with_first(1, data) =~= raw);
    law_tag_layout(8, header, timestamp_ms);
    law_tag_layout(8, raw, timestamp_ms);
    let tag = raw_tag(data, timestamp_ms);
    assert(tag.subrange(13, 13 + data.len() as int) =~= tag.subrange(
        11,
        11 + raw.len() as int,
    ).skip(2));
    assert(raw.skip(2) =~= data);
}

/// A timestamp is the last whole millisecond at or before the sample, as far as
/// 32 bits hold it.
pub proof fn law_timestamp_is_the_last_millisecond(pts_samples: nat, sample_rate: nat)
    requires
        sample_rate > 0,
    ensures
        ({
            let ms = sample_ms(pts_samples, sample_rate);
            &&& ms <= 0xffff_ffff
            &&& ms * sample_rate <= pts_samples * 1000
            &&& ms < 0xffff_ffff ==> pts_samples * 1000 < (ms + 1) * sample_rate
        }),
{
    let x = (pts_samples * 1000) as int;
    let d = sample_rate as int;
    let q = x / d;
    vstd::arithmetic::div_mod::lemma_fundamental_div_mod(x, d);
    let ms = sample_ms(pts_samples, sample_rate) as int;
    assert(d * q == q * d) by (nonlinear_arith);
    assert(ms * d <= q * d) by (nonlinear_arith)
        requires
            ms <= q,
            d > 0,
    ;
    assert((q + 1) * d == q * d + d) by (nonlinear_arith);
}

/// An audio tag holds what it is built of behind the byte for mono AAC, and the
/// stream begins with the header of an FLV file that has audio only.
pub proof fn law_audio_stream_layout(payload: Seq<u8>, timestamp_ms: u32)
    ensures
        is_tag_around(
            audio_tag(payload, timestamp_ms),
            8,
            timestamp_ms,
            seq![0xadu8] + payload,
        ),
        audio_header() == seq![0x46u8, 0x4c, 0x56, 1, 4, 0, 0, 0, 9] + seq![0u8, 0, 0, 0],
{
    law_tag_layout(8, seq![0xadu8] + payload, timestamp_ms);
}

} // verus!
