//! Coverage values: IEEE-754 single-precision bit patterns read as fractions of full intensity.
//!
//! A coverage value `c` stands for the fraction `num / 2^exp` given by `coverage_parts`.
//! Values are clamped to `[0, 1]`: negative values and NaN count as 0, values of at least 1
//! (and +infinity) count as 1.
use vstd::prelude::*;
use vstd::arithmetic::power2::{lemma2_to64, lemma_pow2_pos, lemma_pow2_strictly_increases, pow2};
use vstd::arithmetic::div_mod::lemma_fundamental_div_mod;
use vstd::bits::{lemma_u64_shl_is_mul, lemma_u64_shr_is_div};

verus! {

/// Bit pattern of the single-precision value 1.0.
pub const ONE_BITS: u32 = 0x3F80_0000;

/// `(num, exp)` such that the clamped coverage of `bits` is `num / 2^exp`.
pub open spec fn coverage_parts(bits: u32) -> (nat, nat) {
    let e = (bits / 0x80_0000) as nat;
    let m = (bits % 0x80_0000) as nat;
    if bits >= 0x8000_0000 {
        (0, 0)
    } else if e == 255 {
        if m == 0 {
            (1, 0)
        } else {
            (0, 0)
        }
    } else if bits >= ONE_BITS {
        (1, 0)
    } else if e == 0 {
        (m, 149)
    } else {
        ((m + 0x80_0000) as nat, (150 - e) as nat)
    }
}

/// A pixel of coverage `bits` is drawn: its coverage is at least one thousandth.
pub open spec fn coverage_visible(bits: u32) -> bool {
    coverage_parts(bits).0 * 1000 >= pow2(coverage_parts(bits).1)
}

/// `channel` scaled by the coverage of `bits`, rounded to nearest with halves rounded up.
pub open spec fn scaled_channel(channel: u32, bits: u32) -> int {
    let (num, exp) = coverage_parts(bits);
    (channel * num + pow2(exp) / 2) / (pow2(exp) as int)
}

/// A finite coverage below 1 has a significand below `2^24` and an exponent of at least 24.
proof fn lemma_fraction_parts(bits: u32)
    requires
        bits < ONE_BITS,
    ensures
        coverage_parts(bits).0 < 0x100_0000,
        24 <= coverage_parts(bits).1 <= 150,
        coverage_parts(bits).0 < pow2(coverage_parts(bits).1),
{
    lemma2_to64();
    let exp = coverage_parts(bits).1;
    if exp > 24 {
        lemma_pow2_strictly_increases(24, exp);
    }
}

/// Whether a pixel of coverage `bits` is drawn.
pub fn is_coverage_visible(bits: u32) -> (r: bool)
    ensures
        r == coverage_visible(bits),
{
    proof {
        lemma2_to64();
    }
    if bits >= 0x8000_0000 {
        return false;
    }
    let e = bits / 0x80_0000;
    let m = bits % 0x80_0000;
    if e == 255 {
        return m == 0;
    }
    if bits >= ONE_BITS {
        return true;
    }
    let (sig, shift): (u64, u64) = if e == 0 {
        (m as u64, 149)
    } else {
        ((m + 0x80_0000) as u64, (150 - e) as u64)
    };
    proof {
        lemma_fraction_parts(bits);
        assert(coverage_parts(bits) == (sig as nat, shift as nat));
    }
    if shift >= 34 {
        proof {
            if shift > 34 {
                lemma_pow2_strictly_increases(34, shift as nat);
            }
            lemma2_to64();
            assert(sig * 1000 < 0x4_0000_0000) by (nonlinear_arith)
                requires
                    sig < 0x100_0000,
            ;
            vstd::arithmetic::power2::lemma_pow2_adds(32, 2);
            assert(sig * 1000 < pow2(34));
            assert(sig * 1000 < pow2(shift as nat));
        }
        false
    } else {
        proof {
            lemma_pow2_strictly_increases(shift as nat, 64);
            lemma_u64_shl_is_mul(1, shift);
            assert((1u64 << shift) == pow2(shift as nat));
        }
        sig * 1000 >= (1u64 << shift)
    }
}

/// `channel` scaled by the coverage of `bits`.
pub fn scale_channel(channel: u32, bits: u32) -> (r: u32)
    ensures
        r == scaled_channel(channel, bits),
        r <= channel,
{
    proof {
        lemma2_to64();
    }
    let e = bits / 0x80_0000;
    let m = bits % 0x80_0000;
    if bits >= 0x8000_0000 || (e == 255 && m != 0) {
        assert(scaled_channel(channel, bits) == 0);
        return 0;
    }
    if bits >= ONE_BITS {
        assert(coverage_parts(bits) == (1nat, 0nat));
        assert(pow2(0) == 1);
        assert((channel * 1nat + 1nat / 2) / 1int == channel);
        return channel;
    }
    let (sig, shift): (u64, u64) = if e == 0 {
        (m as u64, 149)
    } else {
        ((m + 0x80_0000) as u64, (150 - e) as u64)
    };
    proof {
        lemma_fraction_parts(bits);
        assert(coverage_parts(bits) == (sig as nat, shift as nat));
    }
    let ghost d = pow2(shift as nat) as int;
    let ghost half = pow2((shift - 1) as nat) as int;
    proof {
        lemma_pow2_pos(shift as nat);
        lemma_pow2_pos((shift - 1) as nat);
        vstd::arithmetic::power2::lemma_pow2_unfold(shift as nat);
        assert(d == 2 * half);
        assert(d / 2 == half);
    }
    assert((channel as u64) * sig < 0x100_0000_0000_0000) by (nonlinear_arith)
        requires
            channel <= u32::MAX,
            sig < 0x100_0000,
    ;
    let v: u64 = channel as u64 * sig;
    if shift >= 57 {
        proof {
            if shift > 57 {
                lemma_pow2_strictly_increases(56, (shift - 1) as nat);
            }
            lemma2_to64();
            vstd::arithmetic::power2::lemma_pow2_adds(32, 24);
            assert(pow2(56) == 0x100_0000_0000_0000);
            assert(half >= pow2(56));
            assert(v < pow2(56));
            assert(v + half < d);
            lemma_fundamental_div_mod(v + half, d);
            assert((v + half) / d == 0) by (nonlinear_arith)
                requires
                    0 <= v + half < d,
                    v + half == d * ((v + half) / d) + (v + half) % d,
                    0 <= (v + half) % d < d,
            ;
        }
        return 0;
    }
    proof {
        lemma_pow2_strictly_increases(shift as nat, 64);
        lemma_u64_shl_is_mul(1, (shift - 1) as u64);
    }
    let sum: u64 = v + (1u64 << (shift - 1));
    proof {
        lemma_u64_shr_is_div(sum, shift);
        lemma_fundamental_div_mod(sum as int, d);
        let q = sum as int / d;
        assert(q <= channel) by (nonlinear_arith)
            requires
                sum == channel * sig + half,
                sig < d,
                half < d,
                d > 0,
                sum == d * q + (sum as int) % d,
                0 <= (sum as int) % d,
        ;
    }
    (sum >> shift) as u32
}

} // verus!
