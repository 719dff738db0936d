use crate::types::{ScaleMode, TrainID};
use vstd::prelude::*;

verus! {

/// Multiplier of the congruential step.
pub const PRNG_MULTIPLIER: u64 = 6364136223846793005;

/// Increment of the congruential step.
pub const PRNG_INCREMENT: u64 = 1442695040888963407;

/// A 32-bit word rotated right by `r` places, `r < 32`.
pub open spec fn rotate_right_32(x: u32, r: u32) -> u32 {
    if r == 0 {
        x
    } else {
        (x >> r) | (x << ((32 - r) as u32))
    }
}

/// The state after one congruential step from `seed`.
pub open spec fn prng_step(seed: u32) -> u64 {
    (seed as u64).wrapping_mul(PRNG_MULTIPLIER).wrapping_add(PRNG_INCREMENT)
}

/// The output permutation of a state: an xor-shift of the high bits,
/// rotated by the top five bits.
pub open spec fn prng_output(state: u64) -> u32 {
    rotate_right_32((((state >> 18) ^ state) >> 27) as u32, (state >> 59) as u32)
}

/// The number that `simple_prng` derives from `seed`.
pub open spec fn spec_simple_prng(seed: u32) -> u32 {
    prng_output(prng_step(seed))
}

/// The number that `prng_range` derives from `seed` for the range `[min, max)`.
pub open spec fn spec_prng_range(seed: u32, min: u32, max: u32) -> u32 {
    if min >= max {
        min
    } else {
        (min + spec_simple_prng(seed) % ((max - min) as u32)) as u32
    }
}

/// A permuted congruential generator: one step from the seed, then the
/// output permutation. The same seed always gives the same number.
pub fn simple_prng(seed: u32) -> (r: u32)
    ensures
        r == spec_simple_prng(seed),
{
    let state: u64 = seed as u64;
    let next_state: u64 = state.wrapping_mul(PRNG_MULTIPLIER).wrapping_add(PRNG_INCREMENT);
    let xorshifted: u32 = (((next_state >> 18) ^ next_state) >> 27) as u32;
    let top: u64 = next_state >> 59;
    assert(top < 32) by (bit_vector)
        requires
            top == next_state >> 59,
    ;
    let rotation: u32 = top as u32;
    if rotation == 0 {
        xorshifted
    } else {
        (xorshifted >> rotation) | (xorshifted << (32 - rotation))
    }
}

/// A number in `[min, max)` derived from the seed; `min` where the range is
/// empty.
pub fn prng_range(seed: u32, min: u32, max: u32) -> (r: u32)
    ensures
        r == spec_prng_range(seed, min, max),
        min < max ==> min <= r < max,
        min >= max ==> r == min,
{
    if min >= max {
        return min;
    }
    let range: u32 = max - min;
    min + (simple_prng(seed) % range)
}

/// The whole part of the exponential of `k`, for `k` up to 44; the
/// exponential of 45 no longer fits in 64 bits.
pub open spec fn exp_floor(k: nat) -> nat {
    if k == 0 {
        1
    } else if k == 1 {
        2
    } else if k == 2 {
        7
    } else if k == 3 {
        20
    } else if k == 4 {
        54
    } else if k == 5 {
        148
    } else if k == 6 {
        403
    } else if k == 7 {
        1096
    } else if k == 8 {
        2980
    } else if k == 9 {
        8103
    } else if k == 10 {
        22026
    } else if k == 11 {
        59874
    } else if k == 12 {
        162754
    } else if k == 13 {
        442413
    } else if k == 14 {
        1202604
    } else if k == 15 {
        3269017
    } else if k == 16 {
        8886110
    } else if k == 17 {
        24154952
    } else if k == 18 {
        65659969
    } else if k == 19 {
        178482300
    } else if k == 20 {
        485165195
    } else if k == 21 {
        1318815734
    } else if k == 22 {
        3584912846
    } else if k == 23 {
        9744803446
    } else if k == 24 {
        26489122129
    } else if k == 25 {
        72004899337
    } else if k == 26 {
        195729609428
    } else if k == 27 {
        532048240601
    } else if k == 28 {
        1446257064291
    } else if k == 29 {
        3931334297144
    } else if k == 30 {
        10686474581524
    } else if k == 31 {
        29048849665247
    } else if k == 32 {
        78962960182680
    } else if k == 33 {
        214643579785916
    } else if k == 34 {
        583461742527454
    } else if k == 35 {
        1586013452313430
    } else if k == 36 {
        4311231547115195
    } else if k == 37 {
        11719142372802611
    } else if k == 38 {
        31855931757113756
    } else if k == 39 {
        86593400423993746
    } else if k == 40 {
        235385266837019985
    } else if k == 41 {
        639843493530054949
    } else if k == 42 {
        1739274941520501047
    } else if k == 43 {
        4727839468229346561
    } else {
        12851600114359308275
    }
}

/// The largest `j <= k` with `exp_floor(j) < x`, or 0 if there is none.
pub open spec fn ln_floor_from(x: nat, k: nat) -> nat
    decreases k,
{
    if k == 0 {
        0
    } else if exp_floor(k) < x {
        k
    } else {
        ln_floor_from(x, (k - 1) as nat)
    }
}

/// The whole part of the natural logarithm of a 64-bit `x >= 1`, and 0 for
/// `x == 0`. As no power of e with an exponent of 1 or more is whole,
/// `e^k <= x` holds for such `k` exactly where `exp_floor(k) < x`.
pub open spec fn ln_floor(x: nat) -> nat {
    ln_floor_from(x, 44)
}

/// `r` is the whole part of the square root of `x`.
pub open spec fn is_sqrt_floor(x: nat, r: nat) -> bool {
    r * r <= x < (r + 1) * (r + 1)
}

/// The whole part of the square root of `x`.
pub open spec fn sqrt_floor(x: nat) -> nat {
    choose|r: nat| is_sqrt_floor(x, r)
}

/// The square root of `x`, rounded to the nearest whole number.
pub open spec fn sqrt_round(x: nat) -> nat {
    let s = sqrt_floor(x);
    if x > s * s + s {
        s + 1
    } else {
        s
    }
}

/// What a scale mode makes of a raw magnitude, before the floor of 1.
/// The automatic mode is linear here.
pub open spec fn scale_transform(mode: ScaleMode, x: nat) -> nat {
    match mode {
        ScaleMode::Linear => x,
        ScaleMode::Auto => x,
        ScaleMode::Uniform => 1,
        ScaleMode::Square => x * x,
        ScaleMode::Logarithmic => ln_floor(x),
        ScaleMode::SquareRoot => sqrt_floor(x),
    }
}

/// The drawing length of a raw magnitude: the transformed magnitude, but
/// at least 1, times the scale of the axis.
pub open spec fn scaled_length(mode: ScaleMode, x: nat, scale: nat) -> nat {
    (if scale_transform(mode, x) >= 1 {
        scale_transform(mode, x)
    } else {
        1
    }) * scale
}

/// At most one number is the whole part of the square root of `x`.
pub proof fn lemma_sqrt_floor_unique(x: nat, a: nat, b: nat)
    requires
        is_sqrt_floor(x, a),
        is_sqrt_floor(x, b),
    ensures
        a == b,
{
    assert(a == b) by (nonlinear_arith)
        requires
            a * a <= x < (a + 1) * (a + 1),
            b * b <= x < (b + 1) * (b + 1),
    ;
}

/// A number found to be the whole part of the square root of `x` is
/// `sqrt_floor(x)`.
pub proof fn lemma_sqrt_floor_is(x: nat, r: nat)
    requires
        is_sqrt_floor(x, r),
    ensures
        sqrt_floor(x) == r,
{
    lemma_sqrt_floor_unique(x, sqrt_floor(x), r);
}

/// The whole part of the exponential of `k`.
fn exp_floor_of(k: u32) -> (r: u64)
    requires
        k <= 44,
    ensures
        r == exp_floor(k as nat),
{
    if k == 0 {
        1
    } else if k == 1 {
        2
    } else if k == 2 {
        7
    } else if k == 3 {
        20
    } else if k == 4 {
        54
    } else if k == 5 {
        148
    } else if k == 6 {
        403
    } else if k == 7 {
        1096
    } else if k == 8 {
        2980
    } else if k == 9 {
        8103
    } else if k == 10 {
        22026
    } else if k == 11 {
        59874
    } else if k == 12 {
        162754
    } else if k == 13 {
        442413
    } else if k == 14 {
        1202604
    } else if k == 15 {
        3269017
    } else if k == 16 {
        8886110
    } else if k == 17 {
        24154952
    } else if k == 18 {
        65659969
    } else if k == 19 {
        178482300
    } else if k == 20 {
        485165195
    } else if k == 21 {
        1318815734
    } else if k == 22 {
        3584912846
    } else if k == 23 {
        9744803446
    } else if k == 24 {
        26489122129
    } else if k == 25 {
        72004899337
    } else if k == 26 {
        195729609428
    } else if k == 27 {
        532048240601
    } else if k == 28 {
        1446257064291
    } else if k == 29 {
        3931334297144
    } else if k == 30 {
        10686474581524
    } else if k == 31 {
        29048849665247
    } else if k == 32 {
        78962960182680
    } else if k == 33 {
        214643579785916
    } else if k == 34 {
        583461742527454
    } else if k == 35 {
        1586013452313430
    } else if k == 36 {
        4311231547115195
    } else if k == 37 {
        11719142372802611
    } else if k == 38 {
        31855931757113756
    } else if k == 39 {
        86593400423993746
    } else if k == 40 {
        235385266837019985
    } else if k == 41 {
        639843493530054949
    } else if k == 42 {
        1739274941520501047
    } else if k == 43 {
        4727839468229346561
    } else {
        12851600114359308275
    }
}

/// The whole part of the natural logarithm of `x`; 0 for `x == 0`.
pub fn ln_floor_u64(x: u64) -> (r: u64)
    ensures
        r == ln_floor(x as nat),
        r <= 44,
{
    let mut k: u32 = 44;
    while k > 0
        invariant
            k <= 44,
            ln_floor(x as nat) == ln_floor_from(x as nat, k as nat),
        decreases k,
    {
        if exp_floor_of(k) < x {
            return k as u64;
        }
        k -= 1;
    }
    0
}

/// The whole part of the square root of `x`.
pub fn isqrt(x: u64) -> (r: u64)
    ensures
        r == sqrt_floor(x as nat),
        is_sqrt_floor(x as nat, r as nat),
        r <= 0xFFFF_FFFF,
{
    let mut lo: u64 = 0;
    let mut hi: u64 = 0x1_0000_0000;
    assert(0x1_0000_0000u64 * 0x1_0000_0000u64 == 0x1_0000_0000_0000_0000int);
    while hi - lo > 1
        invariant
            lo < hi <= 0x1_0000_0000,
            lo * lo <= x,
            x < hi * hi,
        decreases hi - lo,
    {
        let mid: u64 = lo + (hi - lo) / 2;
        assert(mid * mid <= 0x1_0000_0000_0000_0000int) by (nonlinear_arith)
            requires
                mid <= 0x1_0000_0000,
        ;
        let sq: u128 = (mid as u128) * (mid as u128);
        if sq <= x as u128 {
            lo = mid;
        } else {
            hi = mid;
        }
    }
    proof {
        assert(hi == lo + 1);
        lemma_sqrt_floor_is(x as nat, lo as nat);
    }
    lo
}

/// The square root of `x`, rounded to the nearest whole number.
pub fn isqrt_round(x: u64) -> (r: u64)
    ensures
        r == sqrt_round(x as nat),
        r <= 0x1_0000_0000,
{
    let s: u64 = isqrt(x);
    assert(s * s + s <= x + s) by (nonlinear_arith)
        requires
            s * s <= x,
    ;
    let below: u128 = (s as u128) * (s as u128) + (s as u128);
    if x as u128 > below {
        s + 1
    } else {
        s
    }
}

/// Scales a raw magnitude under a mode: the transformed magnitude, but at
/// least 1, times `scale`; `u64::MAX` where that no longer fits.
pub fn match_and_scale(mode: &ScaleMode, length: u64, scale: u64) -> (r: u64)
    ensures
        r == if scaled_length(*mode, length as nat, scale as nat) <= u64::MAX {
            scaled_length(*mode, length as nat, scale as nat)
        } else {
            u64::MAX as nat
        },
        r >= scale,
{
    let transformed: u128 = match mode {
        ScaleMode::Auto => length as u128,
        ScaleMode::Linear => length as u128,
        ScaleMode::Uniform => 1,
        ScaleMode::Square => {
            assert(length * length <= 0xFFFF_FFFF_FFFF_FFFF * 0xFFFF_FFFF_FFFF_FFFF)
                by (nonlinear_arith)
                requires
                    length <= 0xFFFF_FFFF_FFFF_FFFF,
            ;
            (length as u128) * (length as u128)
        },
        ScaleMode::Logarithmic => ln_floor_u64(length) as u128,
        ScaleMode::SquareRoot => isqrt(length) as u128,
    };
    let floored: u128 = if transformed >= 1 {
        transformed
    } else {
        1
    };
    assert(floored == scaled_length(*mode, length as nat, 1));
    if scale == 0 {
        assert(floored * 0 == 0);
        return 0;
    }
    let limit: u128 = 0xFFFF_FFFF_FFFF_FFFF / (scale as u128);
    if floored > limit {
        assert(floored * scale > u64::MAX) by (nonlinear_arith)
            requires
                floored >= limit + 1,
                limit == 0xFFFF_FFFF_FFFF_FFFFu128 / (scale as u128),
                scale >= 1,
        ;
        u64::MAX
    } else {
        assert(floored * scale <= u64::MAX && floored * scale >= scale) by (nonlinear_arith)
            requires
                1 <= floored <= limit,
                limit == 0xFFFF_FFFF_FFFF_FFFFu128 / (scale as u128),
                scale >= 1,
        ;
        (floored * (scale as u128)) as u64
    }
}

/// Under every mode a scaled length is at least the scale of the axis: a
/// magnitude of zero still has a size.
pub proof fn lemma_scaled_at_least_axis_scale(mode: ScaleMode, x: nat, scale: nat)
    ensures
        scaled_length(mode, x, scale) >= scale,
{
    let m: nat = if scale_transform(mode, x) >= 1 {
        scale_transform(mode, x)
    } else {
        1
    };
    assert(m * scale >= scale) by (nonlinear_arith)
        requires
            m >= 1,
    ;
}

/// Under the uniform mode every magnitude has the same scaled length.
pub proof fn lemma_uniform_is_constant(x: nat, y: nat, scale: nat)
    ensures
        scaled_length(ScaleMode::Uniform, x, scale) == scaled_length(ScaleMode::Uniform, y, scale),
        scaled_length(ScaleMode::Uniform, x, scale) == scale,
{
    assert(1 * scale == scale);
}

/// A 32-bit word rotated left by five places.
pub open spec fn rotate_left_5(x: u32) -> u32 {
    (x << 5) | (x >> 27)
}

/// The seed of an identifier: its first `upto` bytes summed into a 32-bit
/// accumulator that is rotated left by five places before each byte is
/// added, the sum wrapping.
pub open spec fn seed_of_bytes(bytes: Seq<u8>, upto: int) -> u32
    decreases upto,
{
    if upto <= 0 {
        0
    } else {
        rotate_left_5(seed_of_bytes(bytes, upto - 1)).wrapping_add(bytes[upto - 1] as u32)
    }
}

/// One round of the shift-register mix.
pub open spec fn mix_round(s: u32, mask: u32, d: u32, a: u32, b: u32) -> u32 {
    ((s & mask) << d) ^ (((s << a) ^ s) >> b)
}

/// The three rounds of the mix, each with its own constants, combined by
/// exclusive or.
pub open spec fn spec_shift_register_mix(s: u32) -> u32 {
    mix_round(s, 0xFFFF_FFFE, 12, 13, 19) ^ mix_round(s, 0xFFFF_FFF8, 4, 2, 25) ^ mix_round(
        s,
        0xFFFF_FFF0,
        17,
        3,
        11,
    )
}

/// The tag of an identifier given as bytes.
pub open spec fn spec_tag_of_bytes(bytes: Seq<u8>) -> u32 {
    spec_shift_register_mix(seed_of_bytes(bytes, bytes.len() as int))
}

/// The eight bytes of a train identifier, lowest first.
pub open spec fn id_bytes(id: TrainID) -> Seq<u8> {
    Seq::new(8, |i: int| ((id >> ((8 * i) as u64)) & 0xFF) as u8)
}

/// The tag of a train: the tag of the bytes of its identifier.
pub open spec fn spec_train_tag(id: TrainID) -> u32 {
    spec_tag_of_bytes(id_bytes(id))
}

/// Mixes a seed into a tag by three rounds of a combined shift register.
pub fn shift_register_mix(seed: u32) -> (r: u32)
    ensures
        r == spec_shift_register_mix(seed),
{
    let r1: u32 = ((seed & 0xFFFF_FFFE) << 12) ^ (((seed << 13) ^ seed) >> 19);
    let r2: u32 = ((seed & 0xFFFF_FFF8) << 4) ^ (((seed << 2) ^ seed) >> 25);
    let r3: u32 = ((seed & 0xFFFF_FFF0) << 17) ^ (((seed << 3) ^ seed) >> 11);
    r1 ^ r2 ^ r3
}

/// The tag of an identifier given as bytes: a function of the bytes alone,
/// with no state kept between calls.
pub fn tag_of_bytes(bytes: &[u8]) -> (tag: u32)
    ensures
        tag == spec_tag_of_bytes(bytes@),
{
    let mut seed: u32 = 0;
    let mut i: usize = 0;
    while i < bytes.len()
        invariant
            0 <= i <= bytes.len(),
            seed == seed_of_bytes(bytes@, i as int),
        decreases bytes.len() - i,
    {
        let rotated: u32 = (seed << 5) | (seed >> 27);
        seed = rotated.wrapping_add(bytes[i] as u32);
        i += 1;
    }
    shift_register_mix(seed)
}

/// The tag of a train: the same identifier always gives the same tag.
pub fn train_tag(id: TrainID) -> (tag: u32)
    ensures
        tag == spec_train_tag(id),
{
    let mut bytes: Vec<u8> = Vec::new();
    let mut i: usize = 0;
    while i < 8
        invariant
            0 <= i <= 8,
            bytes@.len() == i,
            forall|j: int| 0 <= j < i ==> bytes@[j] == id_bytes(id)[j],
        decreases 8 - i,
    {
        let shift: u64 = (8 * i) as u64;
        let low: u64 = (id >> shift) & 0xFF;
        assert(low <= 0xFF) by (bit_vector)
            requires
                low == (id >> shift) & 0xFF,
        ;
        bytes.push(low as u8);
        i += 1;
    }
    assert(bytes@ =~= id_bytes(id));
    tag_of_bytes(bytes.as_slice())
}

} // verus!
