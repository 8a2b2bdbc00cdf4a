//! H.264 NAL units out of RTP packets.
//!
//! The type of a NAL unit is in the low five bits of its first byte:
//!
//! | Type | Meaning                              |
//! |------|--------------------------------------|
//! | 1    | slice of a picture (P-frame)         |
//! | 5    | slice of a keyframe (IDR)            |
//! | 7    | sequence parameter set (SPS)         |
//! | 8    | picture parameter set (PPS)          |
//! | 24   | several NAL units in one (STAP-A)    |
//! | 28   | fragment of a NAL unit (FU-A)        |

use vstd::prelude::*;
use vstd::slice::slice_subrange;

use crate::bytes::{be32, be_value, joined, lemma_be32_value, lemma_joined_grows, low32, push_be32};

verus! {

pub const NAL_TYPE_SLICE: u8 = 1;
pub const NAL_TYPE_IDR: u8 = 5;
pub const NAL_TYPE_SPS: u8 = 7;
pub const NAL_TYPE_PPS: u8 = 8;
pub const NAL_TYPE_STAP_A: u8 = 24;
pub const NAL_TYPE_FU_A: u8 = 28;

/// Cap on a NAL unit that is put together from fragments, in bytes. A frame of
/// 2560x1440 takes a few hundred kilobytes at most.
pub const MAX_FU_BUFFER_BYTES: usize = 1_048_576;

/// A whole NAL unit.
#[derive(Debug, Clone)]
pub struct NalUnit {
    /// The unit behind its length in four bytes (AVCC form).
    pub data: Vec<u8>,
    /// Type of the unit.
    pub nal_type: u8,
    /// Whether the unit is part of a keyframe.
    pub is_keyframe: bool,
    /// RTP timestamp, at 90 kHz.
    pub timestamp: u32,
}

/// What a `NalUnit` holds.
#[verifier::ext_equal]
pub struct NalView {
    pub data: Seq<u8>,
    pub nal_type: u8,
    pub is_keyframe: bool,
    pub timestamp: u32,
}

impl View for NalUnit {
    type V = NalView;

    open spec fn view(&self) -> NalView {
        NalView {
            data: self.data@,
            nal_type: self.nal_type,
            is_keyframe: self.is_keyframe,
            timestamp: self.timestamp,
        }
    }
}

/// What an optional `NalUnit` holds.
pub open spec fn opt_nal(n: Option<NalUnit>) -> Option<NalView> {
    match n {
        Some(x) => Some(x@),
        None => None,
    }
}

// ---------------------------------------------------------------------------
// NAL units
// ---------------------------------------------------------------------------

/// The length of the start code at the front of `data`.
pub open spec fn start_code_len(data: Seq<u8>) -> int {
    if data.len() >= 4 && data[0] == 0 && data[1] == 0 && data[2] == 0 && data[3] == 1 {
        4
    } else if data.len() >= 3 && data[0] == 0 && data[1] == 0 && data[2] == 1 {
        3
    } else {
        0
    }
}

/// Takes a start code, of four bytes or of three, off the front of `data`.
pub fn strip_start_code(data: &[u8]) -> (r: &[u8])
    ensures
        r@ == data@.skip(start_code_len(data@)),
{
    let n: usize = data.len();
    let k: usize = if n >= 4 && data[0] == 0 && data[1] == 0 && data[2] == 0 && data[3] == 1 {
        4
    } else if n >= 3 && data[0] == 0 && data[1] == 0 && data[2] == 1 {
        3
    } else {
        0
    };
    assert(data@.subrange(k as int, n as int) =~= data@.skip(k as int));
    slice_subrange(data, k, n)
}

/// The AVCC form of a NAL unit: its length in four bytes, and the unit without
/// a start code.
pub open spec fn avcc(nal: Seq<u8>) -> Seq<u8> {
    let body = nal.skip(start_code_len(nal));
    be32((body.len() % 0x1_0000_0000) as nat) + body
}

/// Brings a NAL unit into AVCC form.
pub fn to_avcc_format(nal_data: &[u8]) -> (r: Vec<u8>)
    ensures
        r@ == avcc(nal_data@),
{
    let nal = strip_start_code(nal_data);
    let mut out: Vec<u8> = Vec::new();
    push_be32(&mut out, low32(nal.len()));
    out.extend_from_slice(nal);
    out
}

/// The unit that the bytes `nal` are.
pub open spec fn nal_of(nal: Seq<u8>, timestamp: u32) -> NalView {
    let nal_type = if nal.len() == 0 {
        0u8
    } else {
        nal[0] % 32
    };
    NalView { data: avcc(nal), nal_type, is_keyframe: nal_type == NAL_TYPE_IDR, timestamp }
}

fn make_nal(nal: &[u8], timestamp: u32) -> (r: NalUnit)
    ensures
        r@ == nal_of(nal@, timestamp),
{
    let nal_type: u8 = if nal.len() == 0 {
        0
    } else {
        nal[0] % 32
    };
    NalUnit {
        data: to_avcc_format(nal),
        nal_type,
        is_keyframe: nal_type == NAL_TYPE_IDR,
        timestamp,
    }
}

// ---------------------------------------------------------------------------
// The parser
// ---------------------------------------------------------------------------

/// Parser of RTP packets, which puts fragmented NAL units together.
#[derive(Debug)]
pub struct RtpParser {
    /// The fragments so far, behind the header of the NAL unit.
    pub fu_buffer: Vec<u8>,
    /// Whether the start of a fragmented NAL unit has come.
    pub fu_active: bool,
}

/// What an `RtpParser` holds.
#[verifier::ext_equal]
pub struct ParserView {
    pub buffer: Seq<u8>,
    pub active: bool,
}

impl View for RtpParser {
    type V = ParserView;

    open spec fn view(&self) -> ParserView {
        ParserView { buffer: self.fu_buffer@, active: self.fu_active }
    }
}

impl ParserView {
    /// The parser between NAL units.
    pub open spec fn idle() -> ParserView {
        ParserView { buffer: Seq::empty(), active: false }
    }

    /// The parser never holds more than the cap, and it holds something exactly
    /// while a unit is open.
    pub open spec fn wf(self) -> bool {
        self.buffer.len() <= MAX_FU_BUFFER_BYTES && (self.active <==> self.buffer.len() > 0)
    }

    /// What a fragment does: the parser after it, and the NAL unit that it
    /// completes. While no unit is open, only a start does anything.
    pub open spec fn fragment(self, q: Seq<u8>, timestamp: u32) -> (ParserView, Option<NalView>) {
        let data = q.skip(2);
        let is_start = q[1] >= 128;
        let is_end = q[1] / 64 % 2 == 1;
        let header = (q[0] / 32 * 32 + q[1] % 32) as u8;
        let joined = if is_start {
            seq![header] + data
        } else {
            self.buffer + data
        };
        if q.len() < 3 || (!is_start && !self.active) {
            (self, None)
        } else if joined.len() > MAX_FU_BUFFER_BYTES {
            (ParserView::idle(), None)
        } else if is_end && !is_start {
            (ParserView::idle(), Some(nal_of(joined, timestamp)))
        } else {
            (ParserView { buffer: joined, active: true }, None)
        }
    }

    /// What a packet does: the parser after it, and the NAL unit that it holds
    /// or completes.
    pub open spec fn packet(self, payload: Seq<u8>, timestamp: u32) -> (
        ParserView,
        Option<NalView>,
    ) {
        let q = payload.skip(12);
        if payload.len() < 13 {
            (self, None)
        } else if q[0] % 32 == NAL_TYPE_FU_A {
            self.fragment(q, timestamp)
        } else if q[0] % 32 == NAL_TYPE_STAP_A {
            (self, last_aggregated(q.skip(1), None, timestamp))
        } else {
            (self, Some(nal_of(q, timestamp)))
        }
    }
}

/// The last of the NAL units in `rest`, each behind its length in two bytes, or
/// `last` if there is no whole one.
pub open spec fn last_aggregated(rest: Seq<u8>, last: Option<NalView>, timestamp: u32) -> Option<
    NalView,
>
    decreases rest.len(),
{
    let size = rest[0] * 256 + rest[1];
    if rest.len() < 2 || 2 + size > rest.len() {
        last
    } else {
        last_aggregated(
            rest.skip(2 + size),
            Some(nal_of(rest.subrange(2, 2 + size), timestamp)),
            timestamp,
        )
    }
}

/// Appends `data` to the fragments so far. Where that would exceed the cap, the
/// fragments stay as they are and the result is `false`.
pub fn fu_buffer_append(buf: &mut Vec<u8>, data: &[u8]) -> (ok: bool)
    ensures
        ok == (old(buf)@.len() + data@.len() <= MAX_FU_BUFFER_BYTES),
        ok ==> final(buf)@ == old(buf)@ + data@,
        !ok ==> final(buf)@ == old(buf)@,
{
    if data.len() > MAX_FU_BUFFER_BYTES || buf.len() > MAX_FU_BUFFER_BYTES - data.len() {
        return false;
    }
    buf.extend_from_slice(data);
    true
}

impl RtpParser {
    /// Creates a parser between NAL units.
    #[must_use]
    pub fn new() -> (p: RtpParser)
        ensures
            p@ == ParserView::idle(),
            p@.wf(),
    {
        let p = RtpParser { fu_buffer: Vec::new(), fu_active: false };
        assert(p@ =~= ParserView::idle());
        p
    }

    fn reset(&mut self)
        ensures
            final(self)@ == ParserView::idle(),
    {
        self.fu_buffer.clear();
        self.fu_active = false;
        assert(self@ =~= ParserView::idle());
    }

    /// Parses an RTP packet, with its header of twelve bytes, and gives the NAL
    /// unit that it holds or completes.
    ///
    /// There is none while the fragments of a unit are still coming, none in a
    /// fragment of a unit whose start has not come, and none in a packet that is
    /// too short.
    pub fn parse(&mut self, payload: &[u8], timestamp: u32) -> (r: Option<NalUnit>)
        ensures
            (final(self)@, opt_nal(r)) == old(self)@.packet(payload@, timestamp),
            old(self)@.wf() ==> final(self)@.wf(),
    {
        if payload.len() < 13 {
            return None;
        }
        let q = slice_subrange(payload, 12, payload.len());
        assert(q@ =~= payload@.skip(12));
        let nal_type: u8 = q[0] % 32;
        if nal_type == NAL_TYPE_FU_A {
            self.parse_fu_a(q, timestamp)
        } else if nal_type == NAL_TYPE_STAP_A {
            self.parse_stap_a(q, timestamp)
        } else {
            Some(make_nal(q, timestamp))
        }
    }

    /// Parses a fragment of a NAL unit.
    ///
    /// Its first byte is a NAL header with the type of a fragment. Its second
    /// byte holds a start bit, an end bit and the type of the whole unit.
    pub fn parse_fu_a(&mut self, rtp_payload: &[u8], timestamp: u32) -> (r: Option<NalUnit>)
        ensures
            (final(self)@, opt_nal(r)) == old(self)@.fragment(rtp_payload@, timestamp),
            old(self)@.wf() ==> final(self)@.wf(),
    {
        let n: usize = rtp_payload.len();
        if n < 3 {
            return None;
        }
        let fu_header: u8 = rtp_payload[0];
        let fu_indicator: u8 = rtp_payload[1];
        let is_start = fu_indicator >= 128;
        let is_end = fu_indicator / 64 % 2 == 1;
        let data = slice_subrange(rtp_payload, 2, n);
        assert(data@ =~= rtp_payload@.skip(2));
        if is_start {
            let header: u8 = fu_header / 32 * 32 + fu_indicator % 32;
            self.fu_buffer.clear();
            self.fu_buffer.push(header);
            assert(self.fu_buffer@ =~= seq![header]);
            if !fu_buffer_append(&mut self.fu_buffer, data) {
                self.reset();
                return None;
            }
            self.fu_active = true;
            None
        } else if !self.fu_active {
            None
        } else if is_end {
            if !fu_buffer_append(&mut self.fu_buffer, data) {
                self.reset();
                return None;
            }
            let nal = make_nal(self.fu_buffer.as_slice(), timestamp);
            self.reset();
            Some(nal)
        } else {
            if !fu_buffer_append(&mut self.fu_buffer, data) {
                self.reset();
                return None;
            }
            None
        }
    }

    /// Parses an aggregation of NAL units, and gives the last whole one.
    ///
    /// Behind a first byte, which is a NAL header, the units follow one another,
    /// each behind its length in two bytes.
    pub fn parse_stap_a(&mut self, rtp_payload: &[u8], timestamp: u32) -> (r: Option<NalUnit>)
        requires
            rtp_payload@.len() >= 1,
        ensures
            final(self)@ == old(self)@,
            opt_nal(r) == last_aggregated(rtp_payload@.skip(1), None, timestamp),
    {
        let rest = slice_subrange(rtp_payload, 1, rtp_payload.len());
        let n: usize = rest.len();
        assert(rest@ =~= rtp_payload@.skip(1));
        let mut offset: usize = 0;
        let mut last: Option<NalUnit> = None;
        assert(rest@.skip(0) =~= rest@);
        while n - offset >= 2
            invariant_except_break
                last_aggregated(rest@, None, timestamp) == last_aggregated(
                    rest@.skip(offset as int),
                    opt_nal(last),
                    timestamp,
                ),
            invariant
                offset <= n == rest@.len(),
            ensures
                last_aggregated(rest@, None, timestamp) == opt_nal(last),
            decreases n - offset,
        {
            let ghost tail = rest@.skip(offset as int);
            let size: usize = rest[offset] as usize * 256 + rest[offset + 1] as usize;
            if size > n - offset - 2 {
                break;
            }
            let unit = slice_subrange(rest, offset + 2, offset + 2 + size);
            assert(unit@ =~= tail.subrange(2, 2 + size));
            last = Some(make_nal(unit, timestamp));
            assert(tail.skip(2 + size) =~= rest@.skip(offset + 2 + size));
            offset = offset + 2 + size;
        }
        last
    }
}

impl Default for RtpParser {
    fn default() -> (p: RtpParser)
        ensures
            p@ == ParserView::idle(),
    {
        RtpParser::new()
    }
}

// ---------------------------------------------------------------------------
// Laws
// ---------------------------------------------------------------------------

/// The parser after the packets, which have the timestamps `times`.
pub open spec fn parser_after(p: ParserView, packets: Seq<Seq<u8>>, times: Seq<u32>) -> ParserView
    decreases packets.len(),
{
    if packets.len() == 0 {
        p
    } else {
        parser_after(p, packets.drop_last(), times.drop_last()).packet(
            packets.last(),
            times.last(),
        ).0
    }
}

/// What the parser gives on the packet number `i`.
pub open spec fn output_at(
    p: ParserView,
    packets: Seq<Seq<u8>>,
    times: Seq<u32>,
    i: int,
) -> Option<NalView> {
    parser_after(p, packets.take(i), times.take(i)).packet(packets[i], times[i]).1
}

/// The packet, behind an RTP header, that carries one piece of a NAL unit whose
/// own header is `header`.
pub open spec fn fragment_packet(
    rtp_header: Seq<u8>,
    header: u8,
    is_first: bool,
    is_last: bool,
    piece: Seq<u8>,
) -> Seq<u8> {
    rtp_header + seq![
        (header / 32 * 32 + 28) as u8,
        ((if is_first {
            128int
        } else {
            0
        }) + (if is_last {
            64int
        } else {
            0
        }) + header % 32) as u8,
    ] + piece
}

/// Whether the packets carry the pieces of a NAL unit, in order.
pub open spec fn is_fragmentation(packets: Seq<Seq<u8>>, header: u8, pieces: Seq<Seq<u8>>) -> bool {
    &&& packets.len() == pieces.len()
    &&& forall|i: int|
        0 <= i < pieces.len() ==> (#[trigger] pieces[i]).len() > 0 && packets[i].len() >= 12
            && packets[i] == fragment_packet(
            packets[i].take(12),
            header,
            i == 0,
            i == pieces.len() - 1,
            pieces[i],
        )
}

/// What a fragment does, stated of the piece that it carries.
proof fn lemma_fragment(
    p: ParserView,
    rtp_header: Seq<u8>,
    header: u8,
    is_first: bool,
    is_last: bool,
    piece: Seq<u8>,
    timestamp: u32,
)
    requires
        rtp_header.len() == 12,
        piece.len() > 0,
        !(is_first && is_last),
        is_first || p.active,
        is_first ==> 1 + piece.len() <= MAX_FU_BUFFER_BYTES,
        !is_first ==> p.buffer.len() + piece.len() <= MAX_FU_BUFFER_BYTES,
    ensures
        ({
            let joined = if is_first {
                seq![header] + piece
            } else {
                p.buffer + piece
            };
            p.packet(fragment_packet(rtp_header, header, is_first, is_last, piece), timestamp) == (
            if is_last {
                (ParserView::idle(), Some(nal_of(joined, timestamp)))
            } else {
                (ParserView { buffer: joined, active: true }, None::<NalView>)
            })
        }),
{
    let packet = fragment_packet(rtp_header, header, is_first, is_last, piece);
    let q = packet.skip(12);
    assert(q.skip(2) =~= piece);
    assert(q[0] == header / 32 * 32 + 28);
    assert(q[0] % 32 == 28);
    assert(q[0] / 32 == header / 32);
    assert(q[1] % 32 == header % 32);
    assert(header / 32 * 32 + header % 32 == header);
}

proof fn lemma_pieces_so_far(
    p: ParserView,
    packets: Seq<Seq<u8>>,
    header: u8,
    pieces: Seq<Seq<u8>>,
    times: Seq<u32>,
    k: int,
)
    requires
        is_fragmentation(packets, header, pieces),
        times.len() == packets.len(),
        1 <= k < pieces.len(),
        1 + joined(pieces).len() <= MAX_FU_BUFFER_BYTES,
    ensures
        parser_after(p, packets.take(k), times.take(k)) == (ParserView {
            buffer: seq![header] + joined(pieces.take(k)),
            active: true,
        }),
        output_at(p, packets, times, k - 1) is None,
    decreases k,
{
    let i = k - 1;
    let h = packets[i].take(12);
    let before = parser_after(p, packets.take(i), times.take(i));
    assert(pieces[i].len() > 0);
    assert(packets.take(k).drop_last() =~= packets.take(i));
    assert(times.take(k).drop_last() =~= times.take(i));
    assert(pieces.take(k).drop_last() =~= pieces.take(i));
    assert(joined(pieces.take(k)) == joined(pieces.take(i)) + pieces[i]);
    lemma_joined_grows(pieces, k);
    if i == 0 {
        assert(pieces.take(0) =~= Seq::<Seq<u8>>::empty());
        assert(joined(pieces.take(1)) =~= pieces[0]);
    } else {
        lemma_pieces_so_far(p, packets, header, pieces, times, i);
    }
    lemma_fragment(before, h, header, i == 0, false, pieces[i], times[i]);
    assert(parser_after(p, packets.take(k), times.take(k)).buffer =~= seq![header] + joined(
        pieces.take(k),
    ));
}

/// A NAL unit that is sent in fragments comes out whole, whatever the parser
/// held before: nothing comes out before the last fragment, and the last one
/// gives the unit, with its own header, all of its bytes in order, and the
/// timestamp of that last fragment.
pub proof fn law_fragments_reassemble(
    p: ParserView,
    packets: Seq<Seq<u8>>,
    header: u8,
    pieces: Seq<Seq<u8>>,
    times: Seq<u32>,
)
    requires
        is_fragmentation(packets, header, pieces),
        times.len() == packets.len(),
        pieces.len() >= 2,
        1 + joined(pieces).len() <= MAX_FU_BUFFER_BYTES,
    ensures
        forall|i: int|
            0 <= i < packets.len() - 1 ==> (#[trigger] output_at(p, packets, times, i)) is None,
        output_at(p, packets, times, packets.len() - 1) == Some(
            nal_of(seq![header] + joined(pieces), times.last()),
        ),
        parser_after(p, packets, times) == ParserView::idle(),
{
    assert forall|i: int| 0 <= i < packets.len() - 1 implies (#[trigger] output_at(
        p,
        packets,
        times,
        i,
    )) is None by {
        lemma_pieces_so_far(p, packets, header, pieces, times, i + 1);
    }
    let i = pieces.len() - 1;
    lemma_pieces_so_far(p, packets, header, pieces, times, i);
    assert(pieces[i].len() > 0);
    let h = packets[i].take(12);
    assert(pieces.take(i) =~= pieces.drop_last());
    assert(packets.take(i) =~= packets.drop_last());
    assert(times.take(i) =~= times.drop_last());
    let before = parser_after(p, packets.take(i), times.take(i));
    lemma_fragment(before, h, header, false, true, pieces[i], times[i]);
    assert(before.buffer + pieces[i] =~= seq![header] + joined(pieces));
}

/// A unit with another timestamp.
pub open spec fn at_time(nal: Option<NalView>, timestamp: u32) -> Option<NalView> {
    match nal {
        Some(n) => Some(NalView { timestamp, ..n }),
        None => None,
    }
}

/// What the parser holds does not depend on timestamps, and neither does what it
/// gives but for the timestamp, which is that of the packet.
pub proof fn law_timestamp_only_marks_the_unit(p: ParserView, payload: Seq<u8>, t: u32, u: u32)
    ensures
        p.packet(payload, t).0 == p.packet(payload, u).0,
        p.packet(payload, t).1 == at_time(p.packet(payload, u).1, t),
{
    let q = payload.skip(12);
    if payload.len() >= 13 && q[0] % 32 == NAL_TYPE_STAP_A {
        lemma_last_aggregated_at(q.skip(1), None, t, u);
    }
}

proof fn lemma_last_aggregated_at(rest: Seq<u8>, last: Option<NalView>, t: u32, u: u32)
    ensures
        last_aggregated(rest, at_time(last, t), t) == at_time(last_aggregated(rest, last, u), t),
    decreases rest.len(),
{
    let size = rest[0] * 256 + rest[1];
    if rest.len() >= 2 && 2 + size <= rest.len() {
        let next = Some(nal_of(rest.subrange(2, 2 + size), u));
        assert(at_time(next, t) == Some(nal_of(rest.subrange(2, 2 + size), t)));
        lemma_last_aggregated_at(rest.skip(2 + size), next, t, u);
    }
}

/// What the parser holds after packets does not depend on their timestamps.
pub proof fn law_timestamps_do_not_steer_the_parser(
    p: ParserView,
    packets: Seq<Seq<u8>>,
    t: Seq<u32>,
    u: Seq<u32>,
)
    requires
        t.len() == packets.len(),
        u.len() == packets.len(),
    ensures
        parser_after(p, packets, t) == parser_after(p, packets, u),
    decreases packets.len(),
{
    if packets.len() > 0 {
        law_timestamps_do_not_steer_the_parser(
            p,
            packets.drop_last(),
            t.drop_last(),
            u.drop_last(),
        );
        law_timestamp_only_marks_the_unit(
            parser_after(p, packets.drop_last(), t.drop_last()),
            packets.last(),
            t.last(),
            u.last(),
        );
    }
}

/// The parser never holds more than the cap, whatever packets come, and a unit
/// is open exactly while it holds something.
pub proof fn law_buffer_stays_bounded(p: ParserView, packets: Seq<Seq<u8>>, times: Seq<u32>)
    requires
        p.wf(),
        times.len() == packets.len(),
    ensures
        parser_after(p, packets, times).wf(),
        parser_after(p, packets, times).buffer.len() <= MAX_FU_BUFFER_BYTES,
        parser_after(p, packets, times).active <==> parser_after(
            p,
            packets,
            times,
        ).buffer.len() > 0,
    decreases packets.len(),
{
    if packets.len() > 0 {
        law_buffer_stays_bounded(p, packets.drop_last(), times.drop_last());
    }
}

/// A fragment of a unit whose start has not come gives nothing, and changes
/// nothing.
pub proof fn law_nothing_without_a_start(
    p: ParserView,
    rtp_header: Seq<u8>,
    header: u8,
    is_last: bool,
    piece: Seq<u8>,
    timestamp: u32,
)
    requires
        rtp_header.len() == 12,
        !p.active,
    ensures
        p.packet(fragment_packet(rtp_header, header, false, is_last, piece), timestamp) == (
            p,
            None::<NalView>,
        ),
{
    let q = fragment_packet(rtp_header, header, false, is_last, piece).skip(12);
    assert(q[0] == header / 32 * 32 + 28);
    assert(q[0] % 32 == 28);
}

/// The AVCC form of a NAL unit tells its length: the first four bytes write the
/// number of the bytes that follow.
pub proof fn law_avcc_length_prefix(nal: Seq<u8>)
    requires
        nal.len() < 0x1_0000_0000,
    ensures
        avcc(nal).len() >= 4,
        be_value(avcc(nal).take(4)) == avcc(nal).len() - 4,
        avcc(nal).skip(4) == nal.skip(start_code_len(nal)),
{
    let body = nal.skip(start_code_len(nal));
    lemma_be32_value(body.len());
    assert(avcc(nal).take(4) =~= be32(body.len()));
    assert(avcc(nal).skip(4) =~= body);
}

/// Whether `n` carries the bytes `unit`: behind their number, most significant
/// byte first, all of them in order; with the type in the low five bits of the
/// first one, which is 5 in a keyframe, and with the timestamp `timestamp`.
pub open spec fn carries(n: NalView, unit: Seq<u8>, timestamp: u32) -> bool {
    &&& n.data.len() == 4 + unit.len()
    &&& n.data[0] * 0x100_0000 + n.data[1] * 0x1_0000 + n.data[2] * 0x100 + n.data[3] == unit.len()
    &&& n.data.skip(4) == unit
    &&& n.nal_type == unit[0] % 32
    &&& n.is_keyframe <==> unit[0] % 32 == 5
    &&& n.timestamp == timestamp
}

/// Whether `unit` begins like a start code: two zeros and a one, or three zeros
/// and a one.
pub open spec fn has_start_code(unit: Seq<u8>) -> bool {
    ||| unit.len() >= 3 && unit.take(3) == seq![0u8, 0, 1]
    ||| unit.len() >= 4 && unit.take(4) == seq![0u8, 0, 0, 1]
}

proof fn lemma_start_code_len(unit: Seq<u8>)
    ensures
        has_start_code(unit) <==> start_code_len(unit) > 0,
{
    if unit.len() >= 3 {
        assert(unit.take(3)[0] == unit[0] && unit.take(3)[1] == unit[1] && unit.take(3)[2]
            == unit[2]);
        if unit[0] == 0 && unit[1] == 0 && unit[2] == 1 {
            assert(unit.take(3) =~= seq![0u8, 0, 1]);
        }
    }
    if unit.len() >= 4 {
        assert(unit.take(4)[0] == unit[0] && unit.take(4)[1] == unit[1] && unit.take(4)[2]
            == unit[2] && unit.take(4)[3] == unit[3]);
        if unit[0] == 0 && unit[1] == 0 && unit[2] == 0 && unit[3] == 1 {
            assert(unit.take(4) =~= seq![0u8, 0, 0, 1]);
        }
    }
}

proof fn lemma_carries(unit: Seq<u8>, timestamp: u32)
    requires
        0 < unit.len() < 0x1_0000_0000,
        !has_start_code(unit),
    ensures
        carries(nal_of(unit, timestamp), unit, timestamp),
{
    lemma_start_code_len(unit);
    assert(unit.skip(0) =~= unit);
    lemma_avcc_bytes(unit, unit);
}

proof fn lemma_avcc_bytes(nal: Seq<u8>, body: Seq<u8>)
    requires
        nal.skip(start_code_len(nal)) == body,
        body.len() < 0x1_0000_0000,
    ensures
        avcc(nal).len() == 4 + body.len(),
        avcc(nal)[0] * 0x100_0000 + avcc(nal)[1] * 0x1_0000 + avcc(nal)[2] * 0x100 + avcc(nal)[3]
            == body.len(),
        avcc(nal).skip(4) == body,
{
    let n = body.len();
    reveal(be32);
    assert(be32(n).len() == 4);
    assert(avcc(nal).skip(4) =~= body);
    assert(n / 0x100_0000 % 256 * 0x100_0000 + n / 0x1_0000 % 256 * 0x1_0000 + n / 0x100 % 256
        * 0x100 + n % 256 == n) by (nonlinear_arith)
        requires
            n < 0x1_0000_0000,
    ;
}

/// A NAL unit that a packet holds comes out whole, of whatever type it is: all
/// of its bytes behind their number. The parser holds afterwards what it held
/// before, so that a unit may come between the fragments of another.
pub proof fn law_unit_of_a_packet_comes_out_whole(
    p: ParserView,
    rtp_header: Seq<u8>,
    unit: Seq<u8>,
    timestamp: u32,
)
    requires
        rtp_header.len() == 12,
        0 < unit.len() < 0x1_0000_0000,
        unit[0] % 32 != 24,
        unit[0] % 32 != 28,
        !has_start_code(unit),
    ensures
        p.packet(rtp_header + unit, timestamp).0 == p,
        p.packet(rtp_header + unit, timestamp).1 matches Some(n) && carries(n, unit, timestamp),
{
    assert((rtp_header + unit).skip(12) =~= unit);
    lemma_carries(unit, timestamp);
}

/// A NAL unit that is sent in fragments comes out whole, of whatever type it is:
/// its header and all the bytes of the pieces, in order, behind their number,
/// with the timestamp of the last fragment, and not before that one.
pub proof fn law_fragmented_unit_comes_out_whole(
    p: ParserView,
    packets: Seq<Seq<u8>>,
    header: u8,
    pieces: Seq<Seq<u8>>,
    times: Seq<u32>,
)
    requires
        is_fragmentation(packets, header, pieces),
        times.len() == packets.len(),
        pieces.len() >= 2,
        1 + joined(pieces).len() <= 1_048_576,
        !has_start_code(seq![header] + joined(pieces)),
    ensures
        forall|i: int|
            0 <= i < packets.len() - 1 ==> (#[trigger] output_at(p, packets, times, i)) is None,
        output_at(p, packets, times, packets.len() - 1) matches Some(n) && carries(
            n,
            seq![header] + joined(pieces),
            times.last(),
        ),
{
    law_fragments_reassemble(p, packets, header, pieces, times);
    lemma_carries(seq![header] + joined(pieces), times.last());
}

/// A start code before a NAL unit does not count as part of it: with one of
/// either form before it, and with none, the AVCC form is the same, the number
/// of the bytes of the unit and those bytes.
pub proof fn law_start_code_is_taken_off(unit: Seq<u8>)
    requires
        unit.len() < 0xffff_fff0,
        !has_start_code(unit),
    ensures
        avcc(seq![0u8, 0, 0, 1] + unit) == avcc(unit),
        avcc(seq![0u8, 0, 1] + unit) == avcc(unit),
        avcc(unit).len() == 4 + unit.len(),
        avcc(unit)[0] * 0x100_0000 + avcc(unit)[1] * 0x1_0000 + avcc(unit)[2] * 0x100
            + avcc(unit)[3] == unit.len(),
        avcc(unit).skip(4) == unit,
        start_code_len(unit) == 0,
        start_code_len(seq![0u8, 0, 1] + unit) == 3,
        start_code_len(seq![0u8, 0, 0, 1] + unit) == 4,
{
    lemma_start_code_len(unit);
    assert(unit.skip(0) =~= unit);
    lemma_avcc_bytes(unit, unit);
    let long = seq![0u8, 0, 0, 1] + unit;
    let short = seq![0u8, 0, 1] + unit;
    assert(long.skip(4) =~= unit);
    assert(short.skip(3) =~= unit);
}

/// The NAL units, each behind its length in two bytes.
pub open spec fn aggregation(units: Seq<Seq<u8>>) -> Seq<u8>
    decreases units.len(),
{
    if units.len() == 0 {
        Seq::empty()
    } else {
        let n = units[0].len();
        seq![(n / 256) as u8, (n % 256) as u8] + units[0] + aggregation(units.skip(1))
    }
}

/// Whether no whole NAL unit stands at the front of `tail`, behind its length.
pub open spec fn holds_no_unit(tail: Seq<u8>) -> bool {
    tail.len() < 2 || tail.len() - 2 < tail[0] * 256 + tail[1]
}

proof fn lemma_aggregation(
    units: Seq<Seq<u8>>,
    tail: Seq<u8>,
    last: Option<NalView>,
    timestamp: u32,
)
    requires
        forall|i: int| 0 <= i < units.len() ==> (#[trigger] units[i]).len() <= 0xffff,
        holds_no_unit(tail),
    ensures
        last_aggregated(aggregation(units) + tail, last, timestamp) == if units.len() == 0 {
            last
        } else {
            Some(nal_of(units.last(), timestamp))
        },
    decreases units.len(),
{
    let rest = aggregation(units) + tail;
    if units.len() == 0 {
        assert(rest =~= tail);
    } else {
        let n = units[0].len() as int;
        let behind = aggregation(units.skip(1)) + tail;
        assert(rest =~= seq![(n / 256) as u8, (n % 256) as u8] + units[0] + behind);
        assert(rest[0] * 256 + rest[1] == n);
        assert(rest.subrange(2, 2 + n) =~= units[0]);
        assert(rest.skip(2 + n) =~= behind);
        assert forall|i: int| 0 <= i < units.skip(1).len() implies (#[trigger] units.skip(
            1,
        )[i]).len() <= 0xffff by {
            assert(units[i + 1].len() <= 0xffff);
        }
        lemma_aggregation(units.skip(1), tail, Some(nal_of(units[0], timestamp)), timestamp);
        if units.len() > 1 {
            assert(units.skip(1).last() == units.last());
        }
    }
}

/// Of an aggregation of NAL units the last whole one comes out, with all of its
/// bytes, whatever stands behind it; without a whole one nothing does. The
/// parser holds afterwards what it held before.
pub proof fn law_last_aggregated_unit_comes_out_whole(
    p: ParserView,
    rtp_header: Seq<u8>,
    kind: u8,
    units: Seq<Seq<u8>>,
    tail: Seq<u8>,
    timestamp: u32,
)
    requires
        rtp_header.len() == 12,
        kind % 32 == 24,
        forall|i: int| 0 <= i < units.len() ==> 0 < (#[trigger] units[i]).len() <= 0xffff,
        holds_no_unit(tail),
        units.len() > 0 ==> !has_start_code(units.last()),
    ensures
        ({
            let (after, out) = p.packet(
                rtp_header + seq![kind] + aggregation(units) + tail,
                timestamp,
            );
            &&& after == p
            &&& units.len() == 0 ==> out is None
            &&& units.len() > 0 ==> (out matches Some(n) && carries(n, units.last(), timestamp))
        }),
{
    let packet = rtp_header + seq![kind] + aggregation(units) + tail;
    let q = packet.skip(12);
    assert(q[0] == kind);
    assert(q.skip(1) =~= aggregation(units) + tail);
    lemma_aggregation(units, tail, None, timestamp);
    if units.len() > 0 {
        assert(0 < units[units.len() - 1].len());
        lemma_carries(units.last(), timestamp);
    }
}

/// A packet that ends with the RTP header or before it gives nothing and changes
/// nothing.
pub proof fn law_packet_without_payload_does_nothing(
    p: ParserView,
    payload: Seq<u8>,
    timestamp: u32,
)
    requires
        payload.len() <= 12,
    ensures
        p.packet(payload, timestamp) == (p, None::<NalView>),
{
}

/// A unit that grows beyond the cap of a mebibyte is dropped: nothing comes out,
/// and the parser waits for the start of another.
pub proof fn law_oversized_unit_is_dropped(
    p: ParserView,
    rtp_header: Seq<u8>,
    header: u8,
    is_last: bool,
    piece: Seq<u8>,
    timestamp: u32,
)
    requires
        rtp_header.len() == 12,
        piece.len() > 0,
        p.active,
        p.buffer.len() + piece.len() > 1_048_576,
    ensures
        ({
            let (after, out) = p.packet(
                fragment_packet(rtp_header, header, false, is_last, piece),
                timestamp,
            );
            out is None && !after.active && after.buffer.len() == 0
        }),
{
    let q = fragment_packet(rtp_header, header, false, is_last, piece).skip(12);
    assert(q[0] == header / 32 * 32 + 28);
    assert(q[0] % 32 == 28);
    assert(q.skip(2) =~= piece);
}

/// A fragment that says it is both the first and the last counts as the first: it
/// opens a unit, in place of one that may be open, and nothing comes out yet. One
/// that is too long to be kept opens none.
pub proof fn law_first_fragment_opens_a_unit(
    p: ParserView,
    rtp_header: Seq<u8>,
    header: u8,
    is_last: bool,
    piece: Seq<u8>,
    timestamp: u32,
)
    requires
        rtp_header.len() == 12,
        piece.len() > 0,
    ensures
        ({
            let (after, out) = p.packet(
                fragment_packet(rtp_header, header, true, is_last, piece),
                timestamp,
            );
            &&& out is None
            &&& 1 + piece.len() <= 1_048_576 ==> after.active && after.buffer == seq![header]
                + piece
            &&& 1 + piece.len() > 1_048_576 ==> !after.active && after.buffer.len() == 0
        }),
{
    let packet = fragment_packet(rtp_header, header, true, is_last, piece);
    let q = packet.skip(12);
    assert(q.skip(2) =~= piece);
    assert(q[0] == header / 32 * 32 + 28);
    assert(q[0] % 32 == 28);
    assert(q[0] / 32 == header / 32);
    assert(q[1] % 32 == header % 32);
    assert(header / 32 * 32 + header % 32 == header);
}

/// A fragment without a piece of the unit in it gives nothing and changes nothing.
pub proof fn law_empty_fragment_does_nothing(
    p: ParserView,
    rtp_header: Seq<u8>,
    header: u8,
    is_first: bool,
    is_last: bool,
    timestamp: u32,
)
    requires
        rtp_header.len() == 12,
    ensures
        p.packet(
            fragment_packet(rtp_header, header, is_first, is_last, Seq::empty()),
            timestamp,
        ) == (p, None::<NalView>),
{
    let q = fragment_packet(rtp_header, header, is_first, is_last, Seq::empty()).skip(12);
    assert(q[0] == header / 32 * 32 + 28);
    assert(q[0] % 32 == 28);
}

/// What is stated of a unit and of a parser is stated of all that they hold.
pub proof fn law_units_and_parsers_are_seen_whole(n: NalUnit, p: RtpParser)
    ensures
        n@.data == n.data@,
        n@.nal_type == n.nal_type,
        n@.is_keyframe == n.is_keyframe,
        n@.timestamp == n.timestamp,
        opt_nal(Some(n)) == Some(n@),
        opt_nal(None) is None,
        p@.buffer == p.fu_buffer@,
        p@.active == p.fu_active,
        ParserView::idle().buffer.len() == 0,
        !ParserView::idle().active,
{
}

} // verus!
