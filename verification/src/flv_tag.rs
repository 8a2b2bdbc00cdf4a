//! Tags of an FLV stream.
//!
//! A tag is a header of eleven bytes (type, length of the data in three bytes,
//! the low 24 bits of the timestamp, its high 8 bits, and three zeros), the
//! data, and the length of header and data in four bytes.

use vstd::prelude::*;

use crate::bytes::{
    be24, be32, be_value, lemma_be24_value, lemma_be32_value, lemma_be_len, lemma_low_bits, low32,
    push_be32,
};

verus! {

/// The header of a tag.
pub open spec fn tag_header(tag_type: u8, data_size: nat, timestamp: nat) -> Seq<u8> {
    seq![tag_type] + be24(data_size) + be24(timestamp) + seq![
        (timestamp / 0x100_0000 % 256) as u8,
        0u8,
        0u8,
        0u8,
    ]
}

/// Builds the header of a tag.
pub fn build_tag_header(tag_type: u8, data_size: u32, timestamp: u32) -> (r: [u8; 11])
    ensures
        r@ == tag_header(tag_type, data_size as nat, timestamp as nat),
{
    let r = [
        tag_type,
        (data_size / 0x1_0000 % 256) as u8,
        (data_size / 0x100 % 256) as u8,
        (data_size % 256) as u8,
        (timestamp / 0x1_0000 % 256) as u8,
        (timestamp / 0x100 % 256) as u8,
        (timestamp % 256) as u8,
        (timestamp / 0x100_0000 % 256) as u8,
        0,
        0,
        0,
    ];
    proof {
        reveal(be24);
        assert(r@ =~= tag_header(tag_type, data_size as nat, timestamp as nat));
    }
    r
}

/// A whole tag.
#[verifier::opaque]
pub open spec fn flv_tag(tag_type: u8, data: Seq<u8>, timestamp: nat) -> Seq<u8> {
    tag_header(tag_type, data.len(), timestamp) + data + be32(11 + data.len())
}

/// Builds a whole tag.
pub fn build_tag(tag_type: u8, data: &[u8], timestamp: u32) -> (r: Vec<u8>)
    ensures
        r@ == flv_tag(tag_type, data@, timestamp as nat),
{
    let size: u32 = low32(data.len());
    let mut tag: Vec<u8> = Vec::new();
    let header = build_tag_header(tag_type, size, timestamp);
    tag.extend_from_slice(header.as_slice());
    tag.extend_from_slice(data);
    push_be32(&mut tag, size.wrapping_add(11));
    proof {
        reveal(flv_tag);
        let n = data@.len();
        lemma_low_bits(n);
        lemma_low_bits(11 + n);
        assert(size.wrapping_add(11) == (11 + n) % 0x1_0000_0000);
    }
    tag
}

/// The data of a tag stands behind its header of eleven bytes.
pub(crate) proof fn lemma_data_of_tag(tag_type: u8, data: Seq<u8>, timestamp: nat, i: int)
    requires
        0 <= i < data.len(),
    ensures
        flv_tag(tag_type, data, timestamp).len() > 11 + i,
        flv_tag(tag_type, data, timestamp)[11 + i] == data[i],
{
    reveal(flv_tag);
    lemma_be_len(data.len());
    lemma_be_len(timestamp);
    lemma_be_len(11 + data.len());
}

// ---------------------------------------------------------------------------
// Laws
// ---------------------------------------------------------------------------

/// A reader finds in the header of a tag what the tag was made with: its type,
/// the length of its data and its timestamp, behind the data the distance back
/// to its first byte, and between the two the data.
pub proof fn law_tag_reads_back(tag_type: u8, data: Seq<u8>, timestamp: u32)
    requires
        data.len() < 0x100_0000,
    ensures
        ({
            let tag = flv_tag(tag_type, data, timestamp as nat);
            let n = be_value(tag.subrange(1, 4));
            &&& tag[0] == tag_type
            &&& n == data.len()
            &&& tag[7] * 0x100_0000 + be_value(tag.subrange(4, 7)) == timestamp
            &&& tag.len() == 11 + n + 4
            &&& tag.subrange(11, 11 + n as int) == data
            &&& be_value(tag.skip(11 + n as int)) == 11 + n
        }),
{
    reveal(flv_tag);
    lemma_be_len(data.len());
    lemma_be_len(timestamp as nat);
    lemma_be_len(11 + data.len());

    let tag = flv_tag(tag_type, data, timestamp as nat);
    let low = (timestamp % 0x100_0000) as nat;
    assert(tag.subrange(1, 4) =~= be24(data.len()));
    lemma_be24_value(data.len());
    lemma_low_bits(timestamp as nat);
    assert(tag.subrange(4, 7) =~= be24(timestamp as nat));
    lemma_be24_value(low);
    assert(tag[7] == timestamp / 0x100_0000);
    assert(tag.subrange(11, 11 + data.len() as int) =~= data);
    assert(tag.skip(11 + data.len() as int) =~= be32(11 + data.len()));
    lemma_be32_value(11 + data.len());
}

/// Whether `tag` is a tag of the kind `kind`, at the time `time` in
/// milliseconds, around the bytes `data`: the kind in the first byte, the number
/// of the bytes in the next three, the low 24 bits of the time in three and the
/// high 8 in one, three zeros, the bytes, and in the last four the number of all
/// bytes before them.
pub open spec fn is_tag_around(tag: Seq<u8>, kind: u8, time: u32, data: Seq<u8>) -> bool {
    let n = data.len() as int;
    &&& tag.len() == 11 + n + 4
    &&& tag[0] == kind
    &&& n < 0x100_0000 ==> tag[1] * 0x1_0000 + tag[2] * 0x100 + tag[3] == n
    &&& tag[7] * 0x100_0000 + tag[4] * 0x1_0000 + tag[5] * 0x100 + tag[6] == time
    &&& tag[8] == 0 && tag[9] == 0 && tag[10] == 0
    &&& tag.subrange(11, 11 + n) == data
    &&& 11 + n < 0x1_0000_0000 ==> tag[11 + n] * 0x100_0000 + tag[12 + n] * 0x1_0000 + tag[13 + n]
        * 0x100 + tag[14 + n] == 11 + n
}

/// A tag is laid out as readers of FLV expect it, whatever its data.
pub proof fn law_tag_layout(kind: u8, data: Seq<u8>, time: u32)
    ensures
        is_tag_around(flv_tag(kind, data, time as nat), kind, time, data),
{
    reveal(flv_tag);
    reveal(be24);
    reveal(be32);
    let tag = flv_tag(kind, data, time as nat);
    let n = data.len();
    let m = (11 + n) as int;
    assert(tag.subrange(11, 11 + n as int) =~= data);
    assert(n < 0x100_0000 ==> n / 0x1_0000 % 256 * 0x1_0000 + n / 0x100 % 256 * 0x100 + n % 256
        == n) by (nonlinear_arith);
    assert(time / 0x100_0000 % 256 * 0x100_0000 + time / 0x1_0000 % 256 * 0x1_0000 + time / 0x100
        % 256 * 0x100 + time % 256 == time) by (nonlinear_arith);
    assert(0 <= m < 0x1_0000_0000 ==> m / 0x100_0000 % 256 * 0x100_0000 + m / 0x1_0000 % 256
        * 0x1_0000 + m / 0x100 % 256 * 0x100 + m % 256 == m) by (nonlinear_arith);
}

} // verus!
