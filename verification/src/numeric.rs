//! Widening of plain host integers to double-precision bit patterns.
//!
//! A plain host integer is carried on the wire as a double. The widening
//! is defined here entirely over integers: the result is the IEEE 754
//! bit pattern of the double nearest to the integer, ties rounded to the
//! even mantissa, computed with exact integer arithmetic. Magnitudes up
//! to `2^53` are represented exactly; larger ones round.

use vstd::prelude::*;
use vstd::arithmetic::div_mod::{
    lemma_div_is_ordered, lemma_fundamental_div_mod, lemma_multiply_divide_lt,
};
use vstd::arithmetic::mul::lemma_mul_inequality;
use vstd::arithmetic::power2::{
    lemma2_to64, lemma2_to64_rest, lemma_pow2_adds, lemma_pow2_pos,
    lemma_pow2_strictly_increases, pow2,
};

verus! {

/// Floor of the base-2 logarithm of a positive integer.
pub open spec fn floor_log2(m: nat) -> nat
    decreases m,
{
    if m <= 1 {
        0
    } else {
        1 + floor_log2(m / 2)
    }
}

/// `floor_log2` is the exponent of the highest binary digit.
pub proof fn lemma_floor_log2(m: nat)
    requires
        m >= 1,
    ensures
        pow2(floor_log2(m)) <= m < pow2(floor_log2(m) + 1),
    decreases m,
{
    lemma2_to64();
    if m > 1 {
        lemma_floor_log2(m / 2);
        let e = floor_log2(m / 2);
        lemma_pow2_adds(e, 1);
        lemma_pow2_adds(e + 1, 1);
    }
}

/// IEEE 754 double bit pattern of a positive magnitude, rounded to
/// nearest with ties to the even mantissa.
pub open spec fn mag_bits(m: nat) -> nat {
    let e = floor_log2(m);
    if e <= 52 {
        (e + 1022) * pow2(52) + m * pow2((52 - e) as nat)
    } else {
        let sh = (e - 52) as nat;
        let q = m / pow2(sh);
        let r = m % pow2(sh);
        let half = pow2((sh - 1) as nat);
        let q2 = if r > half || (r == half && q % 2 == 1) {
            q + 1
        } else {
            q
        };
        if q2 == pow2(53) {
            (e + 1024) * pow2(52)
        } else {
            (e + 1022) * pow2(52) + q2
        }
    }
}

/// IEEE 754 double bit pattern of the double nearest to a 64-bit signed
/// integer: zero maps to positive zero, a negative integer to the bits
/// of its magnitude with the sign bit set.
pub open spec fn f64_bits_of_int(i: int) -> u64 {
    if i == 0 {
        0u64
    } else if i > 0 {
        mag_bits(i as nat) as u64
    } else {
        (0x8000_0000_0000_0000 + mag_bits((-i) as nat)) as u64
    }
}

/// A power of two within the machine-word range.
fn pow2_u64(e: u64) -> (p: u64)
    requires
        e <= 63,
    ensures
        p as nat == pow2(e as nat),
{
    let mut p: u64 = 1;
    let mut k: u64 = 0;
    proof {
        lemma2_to64();
        lemma2_to64_rest();
    }
    while k < e
        invariant
            k <= e <= 63,
            p as nat == pow2(k as nat),
        decreases e - k,
    {
        proof {
            lemma_pow2_adds(k as nat, 1);
            lemma2_to64();
            if k as nat + 1 < 63 {
                lemma_pow2_strictly_increases(k as nat + 1, 63);
            }
            lemma2_to64_rest();
        }
        p = p * 2;
        k = k + 1;
    }
    p
}

/// An exponent whose power of two is below another is itself below it.
proof fn lemma_pow2_below(e: nat, f: nat)
    requires
        pow2(e) < pow2(f),
    ensures
        e < f,
{
    if e >= f {
        if e > f {
            lemma_pow2_strictly_increases(f, e);
        }
    }
}

/// The bit pattern of any magnitude keeps the sign bit clear.
proof fn lemma_mag_bits_bound(m: nat)
    requires
        1 <= m < pow2(64),
    ensures
        mag_bits(m) < pow2(63),
{
    lemma_floor_log2(m);
    let e = floor_log2(m);
    lemma2_to64();
    lemma2_to64_rest();
    if e >= 64 {
        if e > 64 {
            lemma_pow2_strictly_increases(64, e);
        }
        assert(pow2(64) <= m);
        assert(false);
    }
    if e <= 52 {
        // m * pow2(52 - e) <= (pow2(e + 1) - 1) * pow2(52 - e) < pow2(53)
        lemma_pow2_adds(e + 1, (52 - e) as nat);
        lemma_mul_inequality(m as int, pow2(e + 1) as int - 1, pow2((52 - e) as nat) as int);
        lemma_pow2_pos((52 - e) as nat);
        assert((pow2(e + 1) - 1) * pow2((52 - e) as nat)
            == pow2(e + 1) * pow2((52 - e) as nat) - pow2((52 - e) as nat))
            by (nonlinear_arith);
        assert(m * pow2((52 - e) as nat) < pow2(53));
        assert((e + 1022) * pow2(52) <= 1074 * pow2(52)) by (nonlinear_arith)
            requires
                e <= 52,
                pow2(52) > 0,
        ;
    } else {
        let sh = (e - 52) as nat;
        let q = m / pow2(sh);
        lemma_pow2_pos(sh);
        lemma_pow2_adds(sh, 53);
        assert(sh + 53 == e + 1);
        assert(m < pow2(sh + 53));
        lemma_multiply_divide_lt(m as int, pow2(sh) as int, pow2(53) as int);
        assert(q < pow2(53));
        assert((e + 1024) * pow2(52) <= 1087 * pow2(52)) by (nonlinear_arith)
            requires
                e <= 63,
                pow2(52) > 0,
        ;
        assert((e + 1022) * pow2(52) <= 1085 * pow2(52)) by (nonlinear_arith)
            requires
                e <= 63,
                pow2(52) > 0,
        ;
    }
}

/// The widening, on machine words: bits of the double nearest to `i`.
pub fn int_to_f64_bits(i: i64) -> (bits: u64)
    ensures
        bits == f64_bits_of_int(i as int),
{
    if i == 0 {
        return 0;
    }
    let neg = i < 0;
    let m: u64 = if i == i64::MIN {
        9223372036854775808u64
    } else if neg {
        (-i) as u64
    } else {
        i as u64
    };
    proof {
        lemma2_to64_rest();
    }
    let mag = mag_bits_exec(m);
    proof {
        lemma2_to64_rest();
        lemma_mag_bits_bound(m as nat);
    }
    if neg {
        0x8000_0000_0000_0000u64 + mag
    } else {
        mag
    }
}

/// Bit pattern of a positive magnitude, as a machine word.
fn mag_bits_exec(m: u64) -> (bits: u64)
    requires
        m >= 1,
    ensures
        bits as nat == mag_bits(m as nat),
{
    proof {
        lemma2_to64();
        lemma2_to64_rest();
    }
    // Exponent: the highest binary digit of the magnitude.
    let mut e: u64 = 0;
    let mut t: u64 = m;
    while t >= 2
        invariant
            t >= 1,
            floor_log2(m as nat) == e as nat + floor_log2(t as nat),
            pow2(e as nat) <= m as nat,
            e <= 63,
        decreases t,
    {
        proof {
            lemma_pow2_adds(e as nat, 1);
            lemma_floor_log2(t as nat);
            lemma_floor_log2((t / 2) as nat);
            // pow2(e + 1) <= m: pow2(e) * t <= ... keep the simpler route below.
            assert(pow2(e as nat + 1) <= m as nat) by {
                lemma_floor_log2(m as nat);
                assert(floor_log2(t as nat) == 1 + floor_log2((t / 2) as nat));
                let fm = floor_log2(m as nat);
                assert(fm >= e as nat + 1);
                if fm > e as nat + 1 {
                    lemma_pow2_strictly_increases(e as nat + 1, fm);
                }
            }
            assert((m as nat) < pow2(64)) by {
                lemma2_to64_rest();
            }
            if e as nat + 1 > 63 {
                if e as nat + 1 > 64 {
                    lemma_pow2_strictly_increases(64, e as nat + 1);
                }
                assert(pow2(64) <= pow2(e as nat + 1));
                assert(pow2(64) <= m as nat);
                assert(false);
            }
        }
        t = t / 2;
        e = e + 1;
    }
    proof {
        lemma_floor_log2(m as nat);
    }
    let exp = e;
    if exp <= 52 {
        let p = pow2_u64(52 - exp);
        proof {
            let en = exp as nat;
            lemma_pow2_adds(en + 1, (52 - en) as nat);
            lemma_mul_inequality(m as int, pow2(en + 1) as int - 1, pow2((52 - en) as nat) as int);
            lemma_pow2_pos((52 - en) as nat);
            assert((pow2(en + 1) - 1) * pow2((52 - en) as nat)
                == pow2(en + 1) * pow2((52 - en) as nat) - pow2((52 - en) as nat))
                by (nonlinear_arith);
            assert(m as nat * pow2((52 - en) as nat) < pow2(53));
        }
        let base = (exp + 1022) * 4503599627370496u64;
        let frac = m * p;
        base + frac
    } else {
        let sh = exp - 52;
        let p = pow2_u64(sh);
        let q = m / p;
        let r = m % p;
        let half = pow2_u64(sh - 1);
        proof {
            let en = exp as nat;
            let shn = (en - 52) as nat;
            lemma_pow2_pos(shn);
            lemma_pow2_adds(shn, 53);
            assert(shn + 53 == en + 1);
            lemma_multiply_divide_lt(m as int, pow2(shn) as int, pow2(53) as int);
            assert(q as nat == m as nat / pow2(shn));
            assert(r as nat == m as nat % pow2(shn));
            assert(q < 9007199254740992u64);
        }
        let roundup = r > half || (r == half && q % 2 == 1);
        let q2 = if roundup {
            q + 1
        } else {
            q
        };
        if q2 == 9007199254740992u64 {
            (exp + 1024) * 4503599627370496u64
        } else {
            (exp + 1022) * 4503599627370496u64 + q2
        }
    }
}

} // verus!
