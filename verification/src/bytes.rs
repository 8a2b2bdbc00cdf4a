//! Bytes: integers, most significant byte first, and pieces.

use vstd::prelude::*;

verus! {

/// The low 16 bits of `n`.
#[verifier::opaque]
pub open spec fn be16(n: nat) -> Seq<u8> {
    seq![(n / 0x100 % 256) as u8, (n % 256) as u8]
}

/// The low 24 bits of `n`.
#[verifier::opaque]
pub open spec fn be24(n: nat) -> Seq<u8> {
    seq![(n / 0x1_0000 % 256) as u8, (n / 0x100 % 256) as u8, (n % 256) as u8]
}

/// The low 32 bits of `n`.
#[verifier::opaque]
pub open spec fn be32(n: nat) -> Seq<u8> {
    seq![
        (n / 0x100_0000 % 256) as u8,
        (n / 0x1_0000 % 256) as u8,
        (n / 0x100 % 256) as u8,
        (n % 256) as u8,
    ]
}

/// How many bytes there are.
pub proof fn lemma_be_len(n: nat)
    ensures
        be16(n).len() == 2,
        be24(n).len() == 3,
        be32(n).len() == 4,
{
    reveal(be16);
    reveal(be24);
    reveal(be32);
}

/// A byte does not change with what is added above it.
proof fn lemma_byte(low: nat, above: nat, place: nat)
    requires
        place > 0,
    ensures
        (low + above * 256 * place) / place % 256 == low / place % 256,
{
    vstd::arithmetic::div_mod::lemma_hoist_over_denominator(
        low as int,
        (above * 256) as int,
        place,
    );
    vstd::arithmetic::div_mod::lemma_mod_multiples_vanish(
        above as int,
        (low / place) as int,
        256,
    );
}

/// Only the low bits count.
pub proof fn lemma_low_bits(n: nat)
    ensures
        be24((n % 0x100_0000) as nat) == be24(n),
        be24((n % 0x1_0000_0000) as nat) == be24(n),
        be32((n % 0x1_0000_0000) as nat) == be32(n),
{
    reveal(be24);
    reveal(be32);
    let m = (n % 0x1_0000_0000) as nat;
    let q = n / 0x1_0000_0000;
    assert(n == m + q * 256 * 0x100_0000);
    lemma_byte(m, q, 0x100_0000);
    lemma_byte(m, q * 256, 0x1_0000);
    lemma_byte(m, q * 0x1_0000, 0x100);
    lemma_byte(m, q * 0x100_0000, 1);
    let l = (n % 0x100_0000) as nat;
    let h = n / 0x100_0000;
    assert(n == l + h * 256 * 0x1_0000);
    lemma_byte(l, h, 0x1_0000);
    lemma_byte(l, h * 256, 0x100);
    lemma_byte(l, h * 0x1_0000, 1);
}

/// The number that the bytes `s` write.
pub open spec fn be_value(s: Seq<u8>) -> nat
    decreases s.len(),
{
    if s.len() == 0 {
        0
    } else {
        be_value(s.drop_last()) * 256 + s.last() as nat
    }
}

/// Appends the low 16 bits of `n`.
pub fn push_be16(out: &mut Vec<u8>, n: u32)
    ensures
        final(out)@ == old(out)@ + be16(n as nat),
{
    out.push((n / 0x100 % 256) as u8);
    out.push((n % 256) as u8);
    proof {
        reveal(be16);
    }
    assert(out@ =~= old(out)@ + be16(n as nat));
}

/// Appends `n`.
pub fn push_be32(out: &mut Vec<u8>, n: u32)
    ensures
        final(out)@ == old(out)@ + be32(n as nat),
{
    out.push((n / 0x100_0000 % 256) as u8);
    out.push((n / 0x1_0000 % 256) as u8);
    out.push((n / 0x100 % 256) as u8);
    out.push((n % 256) as u8);
    proof {
        reveal(be32);
    }
    assert(out@ =~= old(out)@ + be32(n as nat));
}

/// Appends `n`.
pub fn push_be64(out: &mut Vec<u8>, n: u64)
    ensures
        final(out)@ == old(out)@ + be32((n / 0x1_0000_0000) as nat) + be32(
            (n % 0x1_0000_0000) as nat,
        ),
{
    push_be32(out, (n / 0x1_0000_0000) as u32);
    push_be32(out, (n % 0x1_0000_0000) as u32);
}

/// The low 32 bits of a length.
pub fn low32(n: usize) -> (r: u32)
    ensures
        r == n as nat % 0x1_0000_0000,
{
    (n as u64 % 0x1_0000_0000) as u32
}

/// The four bytes of a number of 32 bits write that number.
pub proof fn lemma_be32_value(n: nat)
    requires
        n < 0x1_0000_0000,
    ensures
        be_value(be32(n)) == n,
        be32(n).len() == 4,
{
    reveal(be32);
    reveal_with_fuel(be_value, 5);
    let s = be32(n);
    assert(s.drop_last().drop_last().drop_last().drop_last() =~= Seq::<u8>::empty());
    assert(be_value(s.drop_last().drop_last().drop_last()) == n / 0x100_0000 % 256);
}

/// The three bytes of a number of 24 bits write that number.
pub proof fn lemma_be24_value(n: nat)
    requires
        n < 0x100_0000,
    ensures
        be_value(be24(n)) == n,
        be24(n).len() == 3,
{
    reveal(be24);
    reveal_with_fuel(be_value, 4);
    let s = be24(n);
    assert(s.drop_last().drop_last().drop_last() =~= Seq::<u8>::empty());
    assert(be_value(s.drop_last().drop_last()) == n / 0x1_0000 % 256);
}

/// The bytes of the pieces, one after another.
pub open spec fn joined(pieces: Seq<Seq<u8>>) -> Seq<u8>
    decreases pieces.len(),
{
    if pieces.len() == 0 {
        Seq::empty()
    } else {
        joined(pieces.drop_last()) + pieces.last()
    }
}

/// The first pieces are together no longer than all of them.
pub proof fn lemma_joined_grows(pieces: Seq<Seq<u8>>, n: int)
    requires
        0 <= n <= pieces.len(),
    ensures
        joined(pieces.take(n)).len() <= joined(pieces).len(),
    decreases pieces.len() - n,
{
    if n < pieces.len() {
        assert(pieces.take(n + 1).drop_last() == pieces.take(n));
        lemma_joined_grows(pieces, n + 1);
    } else {
        assert(pieces.take(n) == pieces);
    }
}

} // verus!
