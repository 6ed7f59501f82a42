//! The target throughput of a run.
use crate::ratio::Ratio;
use vstd::arithmetic::power2::pow2;
use vstd::prelude::*;

verus! {

/// The largest target, in bits per second. It is more than all streams together can use.
pub const MAX_TARGET: u128 = 0x100_0000_0000_0000_0000_0000_0000_0000;

/// Whether a quotient can be a target, in bits per second: not above the largest, and with few
/// enough digits where it is not whole.
pub open spec fn is_target(t: Ratio) -> bool {
    &&& t.denominator > 0
    &&& t.numerator <= MAX_TARGET
    &&& t.denominator == 1 || t.numerator < 0x8000_0000_0000_0000
}

/// The exponent field of a number in binary64 notation.
pub open spec fn exponent_field(bits: u64) -> u64 {
    bits / 0x10_0000_0000_0000 % 0x800
}

/// The fraction field of a number in binary64 notation.
pub open spec fn fraction_field(bits: u64) -> u64 {
    bits % 0x10_0000_0000_0000
}

/// The whole number that a finite number in binary64 notation is a power of two times of.
pub open spec fn significand(bits: u64) -> nat {
    if exponent_field(bits) == 0 {
        fraction_field(bits) as nat
    } else {
        (0x10_0000_0000_0000 + fraction_field(bits)) as nat
    }
}

/// The power of two that the significand is multiplied by.
pub open spec fn exponent(bits: u64) -> int {
    if exponent_field(bits) == 0 {
        -1074
    } else {
        exponent_field(bits) - 1075
    }
}

/// Whether a number in binary64 notation is infinite, or no number.
pub open spec fn not_finite(bits: u64) -> bool {
    exponent_field(bits) == 0x7ff
}

/// Whether a number in binary64 notation is below zero, or zero with a sign.
pub open spec fn signed(bits: u64) -> bool {
    bits >= 0x8000_0000_0000_0000
}

/// The target that a number of bits per second in binary64 notation stands for. A finite positive
/// number stands for itself, but for two kinds: one above the largest target stands for that, one
/// with an exponent below -127 for the least. Negative numbers stand for 0. What is no number, like
/// what is infinite, leaves the throughput to the message rates.
pub open spec fn target_of(bits: u64) -> Ratio {
    if not_finite(bits) && !(signed(bits) && fraction_field(bits) == 0) {
        Ratio { numerator: MAX_TARGET, denominator: 1 }
    } else if signed(bits) || significand(bits) == 0 {
        Ratio { numerator: 0, denominator: 1 }
    } else if exponent(bits) >= 0 {
        let whole = significand(bits) * pow2(exponent(bits) as nat);
        Ratio {
            numerator: if whole > MAX_TARGET {
                MAX_TARGET
            } else {
                whole as u128
            },
            denominator: 1,
        }
    } else if exponent(bits) >= -127 {
        Ratio {
            numerator: significand(bits) as u128,
            denominator: pow2((-exponent(bits)) as nat) as u128,
        }
    } else {
        Ratio { numerator: 1, denominator: pow2(127) as u128 }
    }
}

/// A number doubled a number of times, cut off at a limit.
fn doubled(n: u128, times: u64, limit: u128) -> (r: u128)
    requires
        0 < n <= limit,
        limit <= 0x8000_0000_0000_0000_0000_0000_0000_0000,
    ensures
        r == if n * pow2(times as nat) > limit {
            limit as int
        } else {
            n * pow2(times as nat)
        },
{
    let mut r: u128 = n;
    let mut k: u64 = 0;
    proof {
        vstd::arithmetic::power2::lemma2_to64();
    }
    while k < times
        invariant
            0 < n <= limit,
            k <= times,
            limit <= 0x8000_0000_0000_0000_0000_0000_0000_0000,
            r == n * pow2(k as nat),
            r <= limit,
        decreases times - k,
    {
        proof {
            vstd::arithmetic::power2::lemma_pow2_unfold((k + 1) as nat);
            let p = pow2(k as nat);
            assert(n * (2 * p) == 2 * (n * p)) by (nonlinear_arith);
        }
        if r > limit - r {
            proof {
                lemma_pow2_grows((k + 1) as nat, times as nat);
                let (p, q) = (pow2((k + 1) as nat), pow2(times as nat));
                assert(n * p <= n * q) by (nonlinear_arith)
                    requires
                        p <= q,
                        n >= 0,
                ;
            }
            return limit;
        }
        r = r + r;
        k = k + 1;
    }
    r
}

proof fn lemma_pow2_grows(a: nat, b: nat)
    requires
        a <= b,
    ensures
        pow2(a) <= pow2(b),
    decreases b,
{
    if a < b {
        lemma_pow2_grows(a, (b - 1) as nat);
        vstd::arithmetic::power2::lemma_pow2_unfold(b);
    }
}

proof fn lemma_pow2_127()
    ensures
        pow2(127) == 0x8000_0000_0000_0000_0000_0000_0000_0000,
{
    vstd::arithmetic::power2::lemma2_to64();
    vstd::arithmetic::power2::lemma2_to64_rest();
    vstd::arithmetic::power2::lemma_pow2_adds(63, 64);
}

/// The target that a number of bits per second in binary64 notation stands for.
pub fn target_from_bits(bits: u64) -> (r: Ratio)
    ensures
        r == target_of(bits),
        is_target(r),
{
    let field: u64 = bits / 0x10_0000_0000_0000 % 0x800;
    let fraction: u64 = bits % 0x10_0000_0000_0000;
    let negative: bool = bits >= 0x8000_0000_0000_0000;
    if field == 0x7ff && !(negative && fraction == 0) {
        return Ratio { numerator: MAX_TARGET, denominator: 1 };
    }
    let digits: u64 = if field == 0 {
        fraction
    } else {
        0x10_0000_0000_0000 + fraction
    };
    if negative || digits == 0 {
        return Ratio { numerator: 0, denominator: 1 };
    }
    proof {
        lemma_pow2_127();
    }
    if field >= 1075 {
        return Ratio {
            numerator: doubled(digits as u128, field - 1075, MAX_TARGET),
            denominator: 1,
        };
    }
    let halvings: u64 = if field == 0 {
        1074
    } else {
        1075 - field
    };
    let top: u128 = 0x8000_0000_0000_0000_0000_0000_0000_0000;
    if halvings > 127 {
        return Ratio { numerator: 1, denominator: top };
    }
    proof {
        lemma_pow2_grows(halvings as nat, 127);
        vstd::arithmetic::power2::lemma_pow2_pos(halvings as nat);
    }
    Ratio { numerator: digits as u128, denominator: doubled(1, halvings, top) }
}

/// A number of bits per second is its own target: `1.f` times the power of two that the exponent
/// field stands for, where the fraction `f` has 52 binary digits and the field counts from -1023.
/// Numbers at or above the largest target stand for that.
pub proof fn law_target_is_the_number(field: u64, fraction: u64)
    requires
        948 <= field < 0x7ff,
        fraction < 0x10_0000_0000_0000,
    ensures
        ({
            let t = target_of((field * 0x10_0000_0000_0000 + fraction) as u64);
            let digits = 0x10_0000_0000_0000 + fraction;
            &&& field < 1075 ==> t.numerator * pow2((1075 - field) as nat) == digits * t.denominator
            &&& field < 1075 ==> t.numerator < 0x20_0000_0000_0000
            &&& field >= 1075 && digits * pow2((field - 1075) as nat) <= MAX_TARGET ==> t.numerator
                == digits * pow2((field - 1075) as nat)
            &&& field >= 1075 && digits * pow2((field - 1075) as nat) > MAX_TARGET ==> t.numerator
                == MAX_TARGET
            &&& field >= 1075 ==> t.denominator == 1
        }),
{
    let bits = (field * 0x10_0000_0000_0000 + fraction) as u64;
    assert(bits / 0x10_0000_0000_0000 == field && bits % 0x10_0000_0000_0000 == fraction);
    assert(exponent_field(bits) == field && fraction_field(bits) == fraction);
    assert(significand(bits) == 0x10_0000_0000_0000 + fraction);
    assert(exponent(bits) == field - 1075);
    if field < 1075 {
        lemma_pow2_127();
        lemma_pow2_grows((1075 - field) as nat, 127);
    }
}

/// A number with an exponent of one more is the double, and has the double target, as long as
/// neither the largest target nor the smallest exponent is reached.
pub proof fn law_double_target(bits: u64)
    requires
        948 <= exponent_field(bits) < 1140,
        !signed(bits),
        target_of(bits).numerator < MAX_TARGET / 2,
    ensures
        ({
            let (t, u) = (target_of(bits), target_of((bits + 0x10_0000_0000_0000) as u64));
            u.numerator * t.denominator == 2 * t.numerator * u.denominator
        }),
{
    let next = (bits + 0x10_0000_0000_0000) as u64;
    let e = exponent_field(bits);
    assert(exponent_field(next) == e + 1 && fraction_field(next) == fraction_field(bits));
    assert(!signed(next));
    let (t, u) = (target_of(bits), target_of(next));
    let digits = significand(bits);
    assert(significand(next) == digits);
    lemma_pow2_127();
    vstd::arithmetic::power2::lemma2_to64();
    if e >= 1075 {
        let k = (e - 1075) as nat;
        vstd::arithmetic::power2::lemma_pow2_unfold(k + 1);
        let p = pow2(k);
        assert(digits * (2 * p) == 2 * (digits * p)) by (nonlinear_arith);
        assert(u.numerator == 2 * t.numerator);
    } else {
        let k = (1075 - e) as nat;
        lemma_pow2_grows(k, 127);
        lemma_pow2_grows((k - 1) as nat, 127);
        vstd::arithmetic::power2::lemma_pow2_unfold(k);
        let p = pow2((k - 1) as nat);
        assert(t.numerator == digits && t.denominator == 2 * p);
        assert(exponent(next) == 1 - k);
        assert(k == 1 ==> p == 1 && digits * p == digits) by (nonlinear_arith)
            requires
                k == 1 ==> p == 1,
        ;
        assert(u.numerator == digits && u.denominator == p);
        assert(digits * (2 * p) == 2 * digits * p) by (nonlinear_arith);
    }
}

/// What is below zero, or zero, stands for no throughput, minus infinity with it. Infinity and what
/// is no number stand for the largest target. Positive numbers too small for a target of their own
/// stand for the least.
pub proof fn law_targets_out_of_range(bits: u64)
    ensures
        bits == 0 || 0x8000_0000_0000_0000 <= bits <= 0xfff0_0000_0000_0000 ==> target_of(
            bits,
        ).numerator == 0,
        bits > 0xfff0_0000_0000_0000 || 0x7ff0_0000_0000_0000 <= bits < 0x8000_0000_0000_0000 ==> {
            &&& target_of(bits).numerator == MAX_TARGET
            &&& target_of(bits).denominator == 1
        },
        0 < bits < 0x8000_0000_0000_0000 ==> target_of(bits).numerator > 0,
        0 < bits < 0x3b40_0000_0000_0000 ==> {
            &&& target_of(bits).numerator == 1
            &&& target_of(bits).denominator == 0x8000_0000_0000_0000_0000_0000_0000_0000
        },
{
    lemma_pow2_127();
    let e = bits / 0x10_0000_0000_0000;
    assert(bits == e * 0x10_0000_0000_0000 + bits % 0x10_0000_0000_0000);
    if exponent(bits) >= 0 && significand(bits) > 0 {
        let (d, p) = (significand(bits), pow2(exponent(bits) as nat));
        vstd::arithmetic::power2::lemma_pow2_pos(exponent(bits) as nat);
        assert(d * p > 0) by (nonlinear_arith)
            requires
                d > 0,
                p > 0,
        ;
    }
}

} // verus!
