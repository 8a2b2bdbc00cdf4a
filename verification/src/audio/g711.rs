//! G.711 to linear PCM of 16 bits.
//!
//! A code word holds a sign bit, a segment number of three bits and a step of
//! four bits: the segment scales the step by a power of two. Of both laws the
//! camera uses mu-law.

use vstd::prelude::*;
use vstd::arithmetic::power2::{lemma2_to64, lemma_pow2_pos, lemma_pow2_unfold, pow2};

verus! {

/// Bias of the mu-law code.
pub const BIAS: i32 = 132;

/// The sample that the mu-law byte `b` stands for.
///
/// The byte is the complement of the code word. The magnitude is the biased
/// step, scaled by the segment, without the bias.
pub open spec fn ulaw(b: u8) -> int {
    let code = 255 - b;
    let step = code % 16;
    let segment = code / 16 % 8;
    let magnitude = (step * 8 + BIAS) * pow2(segment as nat) - BIAS;
    if code >= 128 {
        -magnitude
    } else {
        magnitude
    }
}

/// The code word of the A-law byte `b`, in which every other bit is inverted.
pub open spec fn alaw_code(b: u8) -> u8 {
    b ^ 0x55
}

/// The sample that the A-law byte `b` stands for.
///
/// The magnitude is the middle of the step; from the first segment on, the
/// steps start behind those of the segments below, and from the second on they
/// double in width.
pub open spec fn alaw(b: u8) -> int {
    let code = alaw_code(b);
    let step = code % 16;
    let segment = code / 16 % 8;
    let magnitude = if segment == 0 {
        step * 16 + 8
    } else {
        (step * 16 + 264) * pow2((segment - 1) as nat)
    };
    if code >= 128 {
        magnitude
    } else {
        -magnitude
    }
}

/// `t` times two to the power of `k`.
fn scaled(t: i32, k: u8) -> (r: i32)
    requires
        0 <= t <= 504,
        k <= 7,
    ensures
        r == t * pow2(k as nat),
        0 <= r <= t * 128,
        k <= 6 ==> r <= t * 64,
{
    proof {
        lemma2_to64();
    }
    match k {
        0 => t,
        1 => t * 2,
        2 => t * 4,
        3 => t * 8,
        4 => t * 16,
        5 => t * 32,
        6 => t * 64,
        _ => t * 128,
    }
}

/// Converts a mu-law byte to a sample.
#[must_use]
pub fn ulaw2linear(u_val: u8) -> (r: i16)
    ensures
        r == ulaw(u_val),
        -32124 <= r <= 32124,
{
    let code: u8 = 255 - u_val;
    let biased: i32 = (code % 16) as i32 * 8 + BIAS;
    let t: i32 = scaled(biased, code / 16 % 8);
    proof {
        lemma2_to64();
    }
    if code >= 128 {
        (BIAS - t) as i16
    } else {
        (t - BIAS) as i16
    }
}

/// Converts an A-law byte to a sample.
#[must_use]
pub fn alaw2linear(a_val: u8) -> (r: i16)
    ensures
        r == alaw(a_val),
        -32256 <= r <= 32256,
{
    let code: u8 = a_val ^ 0x55;
    let step: i32 = (code % 16) as i32 * 16;
    let segment: u8 = code / 16 % 8;
    let t: i32 = if segment == 0 {
        step + 8
    } else {
        scaled(step + 264, segment - 1)
    };
    proof {
        lemma2_to64();
    }
    if code >= 128 {
        t as i16
    } else {
        (-t) as i16
    }
}

/// Decodes mu-law bytes to samples, one for each byte.
///
/// Fails, and writes nothing, if there are fewer places than bytes. Places
/// behind the last byte keep what they hold.
pub fn decode_mulaw(input: &[u8], output: &mut [i16]) -> (r: Result<(), ()>)
    ensures
        r is Ok <==> input@.len() <= old(output)@.len(),
        final(output)@.len() == old(output)@.len(),
        r is Ok ==> forall|i: int|
            0 <= i < old(output)@.len() ==> #[trigger] final(output)@[i] == if i < input@.len() {
                ulaw(input@[i]) as i16
            } else {
                old(output)@[i]
            },
        r is Err ==> final(output)@ == old(output)@,
{
    if output.len() < input.len() {
        return Err(());
    }
    let mut i: usize = 0;
    while i < input.len()
        invariant
            i <= input@.len() <= output@.len(),
            output@.len() == old(output)@.len(),
            forall|j: int|
                0 <= j < output@.len() ==> #[trigger] output@[j] == if j < i {
                    ulaw(input@[j]) as i16
                } else {
                    old(output)@[j]
                },
        decreases input@.len() - i,
    {
        output[i] = ulaw2linear(input[i]);
        i += 1;
    }
    Ok(())
}

/// Decodes A-law bytes to samples, one for each byte.
///
/// Fails, and writes nothing, if there are fewer places than bytes. Places
/// behind the last byte keep what they hold.
pub fn decode_alaw(input: &[u8], output: &mut [i16]) -> (r: Result<(), ()>)
    ensures
        r is Ok <==> input@.len() <= old(output)@.len(),
        final(output)@.len() == old(output)@.len(),
        r is Ok ==> forall|i: int|
            0 <= i < old(output)@.len() ==> #[trigger] final(output)@[i] == if i < input@.len() {
                alaw(input@[i]) as i16
            } else {
                old(output)@[i]
            },
        r is Err ==> final(output)@ == old(output)@,
{
    if output.len() < input.len() {
        return Err(());
    }
    let mut i: usize = 0;
    while i < input.len()
        invariant
            i <= input@.len() <= output@.len(),
            output@.len() == old(output)@.len(),
            forall|j: int|
                0 <= j < output@.len() ==> #[trigger] output@[j] == if j < i {
                    alaw(input@[j]) as i16
                } else {
                    old(output)@[j]
                },
        decreases input@.len() - i,
    {
        output[i] = alaw2linear(input[i]);
        i += 1;
    }
    Ok(())
}

// ---------------------------------------------------------------------------
// Laws
// ---------------------------------------------------------------------------

/// The sign bit of a mu-law byte only sets the sign: the two bytes that differ
/// in it stand for opposite samples.
pub proof fn law_ulaw_is_symmetric(b: u8)
    requires
        b < 128,
    ensures
        ulaw((b + 128) as u8) == -ulaw(b),
{
    let c = (b + 128) as u8;
    assert((255 - c) % 16 == (255 - b) % 16);
    assert((255 - c) / 16 % 8 == (255 - b) / 16 % 8);
}

/// The sign bit of an A-law byte only sets the sign: the two bytes that differ
/// in it stand for opposite samples.
pub proof fn law_alaw_is_symmetric(b: u8)
    requires
        b < 128,
    ensures
        alaw((b + 128) as u8) == -alaw(b),
{
    let c = (b + 128) as u8;
    assert(c ^ 0x55 == (b ^ 0x55) + 128 && b ^ 0x55 < 128) by (bit_vector)
        requires
            b < 128,
            c == b + 128,
    ;
}

/// The magnitude of a mu-law code word below 128.
spec fn ulaw_magnitude(code: int) -> int {
    (code % 16 * 8 + BIAS) * pow2((code / 16) as nat) - BIAS
}

/// The magnitude of an A-law code word below 128.
spec fn alaw_magnitude(code: int) -> int {
    if code / 16 == 0 {
        code % 16 * 16 + 8
    } else {
        (code % 16 * 16 + 264) * pow2((code / 16 - 1) as nat)
    }
}

proof fn lemma_magnitudes_grow_by_one(code: int)
    requires
        0 <= code < 127,
    ensures
        ulaw_magnitude(code) < ulaw_magnitude(code + 1),
        alaw_magnitude(code) < alaw_magnitude(code + 1),
{
    lemma2_to64();
    let s = code / 16;
    let x = code % 16;
    let p = pow2(s as nat) as int;
    lemma_pow2_pos(s as nat);
    if x == 15 {
        assert((code + 1) / 16 == s + 1 && (code + 1) % 16 == 0);
        lemma_pow2_unfold((s + 1) as nat);
        let next = pow2((s + 1) as nat) as int;
        assert((x * 8 + BIAS) * p < (0 * 8 + BIAS) * next) by (nonlinear_arith)
            requires
                x == 15,
                BIAS == 132,
                p > 0,
                next == 2 * p,
        ;
        if s > 0 {
            lemma_pow2_unfold(s as nat);
            let q = pow2((s - 1) as nat) as int;
            lemma_pow2_pos((s - 1) as nat);
            assert((x * 16 + 264) * q < (0 * 16 + 264) * p) by (nonlinear_arith)
                requires
                    x == 15,
                    q > 0,
                    p == 2 * q,
            ;
        } else {
            let y = (code + 1) % 16;
            assert((y * 16 + 264) * p == 264) by (nonlinear_arith)
                requires
                    y == 0,
                    p == 1,
            ;
        }
    } else {
        assert((code + 1) / 16 == s && (code + 1) % 16 == x + 1);
        assert((x * 8 + BIAS) * p < ((x + 1) * 8 + BIAS) * p) by (nonlinear_arith)
            requires
                p > 0,
        ;
        if s > 0 {
            let q = pow2((s - 1) as nat) as int;
            lemma_pow2_pos((s - 1) as nat);
            assert((x * 16 + 264) * q < ((x + 1) * 16 + 264) * q) by (nonlinear_arith)
                requires
                    q > 0,
            ;
        }
    }
}

proof fn lemma_magnitudes_grow(a: int, b: int)
    requires
        0 <= a < b < 128,
    ensures
        ulaw_magnitude(a) < ulaw_magnitude(b),
        alaw_magnitude(a) < alaw_magnitude(b),
    decreases b,
{
    lemma_magnitudes_grow_by_one(b - 1);
    if a < b - 1 {
        lemma_magnitudes_grow(a, b - 1);
    }
}

/// Mu-law bytes are in the order of their samples: among the bytes of negative
/// samples, which are those below 128, a greater byte stands for a greater
/// sample, and among those of the others for a smaller one.
pub proof fn law_ulaw_keeps_the_order(a: u8, b: u8)
    requires
        a < b,
    ensures
        b < 128 ==> ulaw(a) < ulaw(b) <= 0,
        a >= 128 ==> ulaw(a) > ulaw(b) >= 0,
        a < 128 <= b ==> ulaw(a) <= ulaw(b),
{
    lemma2_to64();
    if b < 128 {
        lemma_magnitudes_grow(127 - b, 127 - a);
        lemma_ulaw_negative(a);
        lemma_ulaw_negative(b);
    } else if a >= 128 {
        lemma_magnitudes_grow(255 - b, 255 - a);
        lemma_ulaw_positive(a);
        lemma_ulaw_positive(b);
    } else {
        lemma_ulaw_negative(a);
        lemma_ulaw_positive(b);
    }
}

proof fn lemma_no_magnitude()
    ensures
        ulaw_magnitude(0) == 0,
{
    lemma2_to64();
    assert(0int / 16 == 0 && 0int % 16 == 0);
    assert(pow2(0) == 1);
    assert((0 * 8 + BIAS) * 1 == 132);
}

proof fn lemma_ulaw_negative(b: u8)
    requires
        b < 128,
    ensures
        ulaw(b) == -ulaw_magnitude(127 - b),
        ulaw(b) <= 0,
{
    lemma2_to64();
    let code = 255 - b;
    assert(code % 16 == (127 - b) % 16);
    assert(code / 16 % 8 == (127 - b) / 16);
    lemma_no_magnitude();
    if b < 127 {
        lemma_magnitudes_grow(0, 127 - b);
    }
}

proof fn lemma_ulaw_positive(b: u8)
    requires
        b >= 128,
    ensures
        ulaw(b) == ulaw_magnitude(255 - b),
        ulaw(b) >= 0,
{
    lemma2_to64();
    let code = 255 - b;
    assert(code / 16 % 8 == code / 16);
    lemma_no_magnitude();
    if b < 255 {
        lemma_magnitudes_grow(0, 255 - b);
    }
}

/// A-law bytes are in the order of their samples, once every other bit is
/// inverted: among the code words of negative samples, which are those below
/// 128, a greater code word stands for a smaller sample, and among those of the
/// others for a greater one.
pub proof fn law_alaw_keeps_the_order(a: u8, b: u8)
    requires
        alaw_code(a) < alaw_code(b),
    ensures
        alaw_code(b) < 128 ==> alaw(b) < alaw(a) < 0,
        alaw_code(a) >= 128 ==> 0 < alaw(a) < alaw(b),
        alaw_code(a) < 128 <= alaw_code(b) ==> alaw(a) < alaw(b),
{
    lemma_alaw_magnitude(a);
    lemma_alaw_magnitude(b);
    let x = alaw_code(a) % 128;
    let y = alaw_code(b) % 128;
    if alaw_code(b) < 128 || alaw_code(a) >= 128 {
        lemma_magnitudes_grow(x as int, y as int);
    }
}

proof fn lemma_alaw_magnitude(b: u8)
    ensures
        alaw_magnitude(alaw_code(b) as int % 128) > 0,
        alaw(b) == if alaw_code(b) >= 128 {
            alaw_magnitude(alaw_code(b) as int % 128)
        } else {
            -alaw_magnitude(alaw_code(b) as int % 128)
        },
{
    lemma2_to64();
    let code = alaw_code(b);
    assert(code % 128 % 16 == code % 16);
    assert(code % 128 / 16 == code / 16 % 8);
    if code % 128 > 0 {
        lemma_magnitudes_grow(0, code as int % 128);
    }
}

/// The steps of the mu-law code: silence is the byte 255, from where the samples
/// grow as the bytes go down, by 8 in the first sixteen bytes, and by twice as
/// much in each sixteen further on; the step from one sixteen to the next is half
/// as wide again as the steps before it.
pub proof fn law_ulaw_steps(b: u8)
    requires
        128 < b,
    ensures
        ulaw(255) == 0,
        (255 - b) % 16 != 15 ==> ulaw((b - 1) as u8) - ulaw(b) == 8 * pow2(
            ((255 - b) / 16) as nat,
        ),
        (255 - b) % 16 == 15 ==> ulaw((b - 1) as u8) - ulaw(b) == 12 * pow2(
            ((255 - b) / 16) as nat,
        ),
{
    lemma2_to64();
    lemma_ulaw_positive(255);
    lemma_no_magnitude();
    lemma_ulaw_positive(b);
    lemma_ulaw_positive((b - 1) as u8);
    let code = 255 - b;
    let s = code / 16;
    let x = code % 16;
    let p = pow2(s as nat) as int;
    if x == 15 {
        assert((code + 1) / 16 == s + 1 && (code + 1) % 16 == 0);
        lemma_pow2_unfold((s + 1) as nat);
        let next = pow2((s + 1) as nat) as int;
        assert((0 * 8 + BIAS) * next - (x * 8 + BIAS) * p == 12 * p) by (nonlinear_arith)
            requires
                x == 15,
                BIAS == 132,
                next == 2 * p,
        ;
    } else {
        assert((code + 1) / 16 == s && (code + 1) % 16 == x + 1);
        assert(((x + 1) * 8 + BIAS) * p - (x * 8 + BIAS) * p == 8 * p) by (nonlinear_arith);
    }
}

/// The steps of the A-law code, once every other bit is inverted: the smallest
/// sample is 8, from where the samples grow with the code words, by 16 in the
/// first 32 of them, and by twice as much in each sixteen further on; the step
/// from one sixteen to the next is half as wide again as the steps before it,
/// but for the first.
pub proof fn law_alaw_steps(a: u8, b: u8)
    requires
        128 <= (a ^ 0x55) < 255,
        (b ^ 0x55) == (a ^ 0x55) + 1,
    ensures
        alaw(0xd5) == 8,
        ({
            let code = (a ^ 0x55) - 128;
            let grown = alaw(b) - alaw(a);
            if code < 16 {
                grown == 16
            } else if code % 16 != 15 {
                grown == 16 * pow2((code / 16 - 1) as nat)
            } else {
                grown == 24 * pow2((code / 16 - 1) as nat)
            }
        }),
{
    lemma2_to64();
    assert(0xd5u8 ^ 0x55 == 0x80) by (bit_vector);
    lemma_alaw_magnitude(0xd5);
    assert(alaw_code(0xd5) as int % 128 == 0);
    lemma_alaw_magnitude(a);
    lemma_alaw_magnitude(b);
    let code = (a ^ 0x55) - 128;
    assert(alaw_code(a) as int % 128 == code);
    assert(alaw_code(b) as int % 128 == code + 1);
    let s = code / 16;
    let x = code % 16;
    if x == 15 {
        assert((code + 1) / 16 == s + 1 && (code + 1) % 16 == 0);
        let p = pow2(s as nat) as int;
        if s > 0 {
            lemma_pow2_unfold(s as nat);
            let q = pow2((s - 1) as nat) as int;
            assert((0 * 16 + 264) * p - (x * 16 + 264) * q == 24 * q) by (nonlinear_arith)
                requires
                    x == 15,
                    p == 2 * q,
            ;
        } else {
            assert((0 * 16 + 264) * p == 264) by (nonlinear_arith)
                requires
                    p == 1,
            ;
        }
    } else {
        assert((code + 1) / 16 == s && (code + 1) % 16 == x + 1);
        if s > 0 {
            let q = pow2((s - 1) as nat) as int;
            assert(((x + 1) * 16 + 264) * q - (x * 16 + 264) * q == 16 * q) by (nonlinear_arith);
        }
    }
}

/// Every sample of the mu-law code fits 16 bits.
pub(crate) proof fn lemma_ulaw_fits(b: u8)
    ensures
        -32124 <= ulaw(b) <= 32124,
{
    lemma2_to64();
    let code = 255 - b;
    let p = pow2((code / 16 % 8) as nat) as int;
    let biased = code % 16 * 8 + BIAS;
    assert(132 <= biased * p <= 252 * 128) by (nonlinear_arith)
        requires
            132 <= biased <= 252,
            1 <= p <= 128,
    ;
}

} // verus!
