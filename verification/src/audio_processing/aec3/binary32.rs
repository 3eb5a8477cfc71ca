//! Multiplication of non-negative single-precision numbers, in integers.
//!
//! A number is a mantissa of at most 24 bits times a power of two. Products are
//! rounded to the nearest number of the format, ties going to the even
//! mantissa, down to and including the gradual underflow at the smallest
//! exponent. There is no largest exponent: callers stay far below it.
use vstd::arithmetic::power2::*;
use vstd::prelude::*;

verus! {

/// The smallest exponent of the format.
pub const MIN_EXPONENT: i32 = -149;

/// Mantissas stay below this bound.
pub const MANTISSA_END: u64 = 0x100_0000;

/// Mantissas reach this bound unless the exponent is the smallest one.
pub const MANTISSA_NORMAL: u64 = 0x80_0000;

/// The number `mantissa * 2^exponent`.
#[derive(Debug, Clone, Copy, PartialEq, Eq, Structural)]
pub struct Binary32 {
    mantissa: u64,
    exponent: i32,
}

/// The number of low bits in excess of the 24 of a mantissa.
pub open spec fn excess_bits(p: nat) -> nat
    decreases p,
{
    if p < MANTISSA_END {
        0
    } else {
        1 + excess_bits(p / 2)
    }
}

/// By how many bits a non-zero mantissa falls short of the normal range.
pub open spec fn missing_bits(p: nat) -> nat
    decreases
            (if p < MANTISSA_NORMAL {
                MANTISSA_NORMAL - p
            } else {
                0
            }),
{
    if p == 0 || p >= MANTISSA_NORMAL {
        0
    } else {
        1 + missing_bits(2 * p)
    }
}

/// `p / 2^shift` rounded to the nearest integer, a tie to the even one.
pub open spec fn round_half_even(p: nat, shift: nat) -> nat {
    let quotient = p / pow2(shift);
    let twice_rest = 2 * (p % pow2(shift));
    if twice_rest > pow2(shift) || (twice_rest == pow2(shift) && quotient % 2 == 1) {
        quotient + 1
    } else {
        quotient
    }
}

/// Mantissa and exponent of the number of the format nearest to
/// `p * 2^exponent`.
pub open spec fn nearest(p: nat, exponent: int) -> (nat, int) {
    let drop = if excess_bits(p) >= MIN_EXPONENT - exponent {
        excess_bits(p) as int
    } else {
        MIN_EXPONENT - exponent
    };
    if p == 0 {
        (0, MIN_EXPONENT as int)
    } else if drop > 0 {
        let rounded = round_half_even(p, drop as nat);
        if rounded >= MANTISSA_END {
            (MANTISSA_NORMAL as nat, exponent + drop + 1)
        } else {
            (rounded, exponent + drop)
        }
    } else {
        let gain = if missing_bits(p) <= exponent - MIN_EXPONENT {
            missing_bits(p)
        } else {
            (exponent - MIN_EXPONENT) as nat
        };
        (p * pow2(gain), exponent - gain)
    }
}

/// The order of two numbers of the format, by exponent and then by mantissa.
pub open spec fn is_less(a: (nat, int), b: (nat, int)) -> bool {
    a.1 < b.1 || (a.1 == b.1 && a.0 < b.0)
}

/// A rounded quotient is off by at most a half, and where it is off by a half it is even.
pub proof fn law_round_half_even(p: nat, shift: nat)
    ensures
        ({
            let rounded = round_half_even(p, shift);
            let off = 2 * (rounded * pow2(shift)) - 2 * p;
            &&& -pow2(shift) <= off <= pow2(shift)
            &&& off == pow2(shift) || off == -pow2(shift) ==> rounded % 2 == 0
            &&& p / pow2(shift) <= rounded <= p / pow2(shift) + 1
        }),
{
    lemma_pow2_pos(shift);
    let unit = pow2(shift);
    let q = p / unit;
    let r = p % unit;
    vstd::arithmetic::div_mod::lemma_fundamental_div_mod(p as int, unit as int);
    vstd::arithmetic::div_mod::lemma_mod_bound(p as int, unit as int);
    assert(unit * q == q * unit) by (nonlinear_arith);
    assert((q + 1) * unit == q * unit + unit) by (nonlinear_arith);
}

/// The nearest number of the format has a mantissa of at most 24 bits, all of them where
/// the exponent is not the smallest. Where it has fewer places than the number it is off
/// by at most half of its last one, and otherwise it is the number.
pub proof fn law_nearest(p: nat, exponent: int)
    requires
        0 < p,
    ensures
        ({
            let (mantissa, power) = nearest(p, exponent);
            &&& mantissa < 0x100_0000
            &&& -149 <= power
            &&& power > -149 ==> mantissa >= 0x80_0000
            &&& power > exponent ==> {
                let unit = pow2((power - exponent) as nat);
                -unit <= 2 * (mantissa * unit) - 2 * p <= unit
            }
            &&& power <= exponent ==> mantissa == p * pow2((exponent - power) as nat)
        }),
{
    lemma_excess_bits(p);
    let excess = excess_bits(p);
    let drop = if excess >= MIN_EXPONENT - exponent {
        excess as int
    } else {
        MIN_EXPONENT - exponent
    };
    if drop > 0 {
        let rounded = round_half_even(p, drop as nat);
        law_round_half_even(p, drop as nat);
        lemma_div_pow2_monotone(p, excess, drop as nat);
        lemma_pow2_pos(drop as nat);
        if rounded >= MANTISSA_END {
            assert(rounded == MANTISSA_END);
            lemma_pow2_unfold((drop + 1) as nat);
            let unit = pow2(drop as nat);
            assert(MANTISSA_NORMAL * (2 * unit) == MANTISSA_END * unit) by (nonlinear_arith)
                requires
                    MANTISSA_END == 2 * MANTISSA_NORMAL,
            ;
        }
    } else {
        let missing = missing_bits(p);
        assert(p < MANTISSA_END) by {
            lemma2_to64();
            assert(p / 1 == p);
        }
        let gain = if missing <= exponent - MIN_EXPONENT {
            missing
        } else {
            (exponent - MIN_EXPONENT) as nat
        };
        lemma_missing_bits(p, gain);
    }
}

proof fn lemma_excess_bits(p: nat)
    ensures
        p / pow2(excess_bits(p)) < MANTISSA_END,
        p < 0x1_0000_0000_0000 ==> excess_bits(p) <= 24,
        excess_bits(p) > 0 ==> p / pow2(excess_bits(p)) >= MANTISSA_NORMAL,
    decreases p,
{
    lemma2_to64();
    if p >= MANTISSA_END {
        lemma_excess_bits(p / 2);
        let k = excess_bits(p / 2);
        lemma_pow2_pos(k);
        lemma_pow2_unfold(k + 1);
        vstd::arithmetic::div_mod::lemma_div_denominator(p as int, 2, pow2(k) as int);
        if p < 0x1_0000_0000_0000 {
            lemma_excess_bits_bound(p, 24);
        }
    } else {
        assert(p / 1 == p);
    }
}

proof fn lemma_excess_bits_bound(p: nat, n: nat)
    requires
        p < MANTISSA_END * pow2(n),
    ensures
        excess_bits(p) <= n,
    decreases n,
{
    lemma2_to64();
    if p >= MANTISSA_END {
        if n == 0 {
            assert(p < MANTISSA_END);
        } else {
            lemma_pow2_unfold(n);
            assert(p / 2 < MANTISSA_END * pow2((n - 1) as nat)) by (nonlinear_arith)
                requires
                    p < MANTISSA_END * (2 * pow2((n - 1) as nat)),
            ;
            lemma_excess_bits_bound(p / 2, (n - 1) as nat);
        }
    }
}

proof fn lemma_div_pow2_monotone(p: nat, a: nat, b: nat)
    requires
        a <= b,
    ensures
        p / pow2(b) <= p / pow2(a),
{
    lemma_pow2_pos(a);
    lemma_pow2_pos(b);
    if a < b {
        lemma_pow2_strictly_increases(a, b);
    }
    vstd::arithmetic::div_mod::lemma_div_is_ordered_by_denominator(
        p as int,
        pow2(a) as int,
        pow2(b) as int,
    );
}

proof fn lemma_missing_bits(p: nat, up: nat)
    requires
        0 < p < MANTISSA_END,
        up <= missing_bits(p),
    ensures
        p * pow2(up) < MANTISSA_END,
        up == missing_bits(p) ==> p * pow2(up) >= MANTISSA_NORMAL,
        up < 24,
    decreases up,
{
    lemma2_to64();
    if up > 0 {
        lemma_missing_bits(2 * p, (up - 1) as nat);
        lemma_pow2_unfold(up);
        assert(p * (2 * pow2((up - 1) as nat)) == (2 * p) * pow2((up - 1) as nat))
            by (nonlinear_arith);
        if up >= 24 {
            lemma_pow2_at_least(23);
            assert(p * pow2(up) >= pow2(up)) by (nonlinear_arith)
                requires
                    p >= 1,
            ;
            if up > 24 {
                lemma_pow2_strictly_increases(24, up);
            }
        }
    } else {
        assert(p * 1 == p);
    }
}

proof fn lemma_pow2_at_least(n: nat)
    ensures
        pow2(n) >= 1,
{
    lemma_pow2_pos(n);
}

impl Binary32 {
    /// Mantissa and exponent.
    pub closed spec fn view(&self) -> (nat, int) {
        (self.mantissa as nat, self.exponent as int)
    }

    /// The mantissa is in the normal range unless the exponent is the smallest.
    pub closed spec fn inv(&self) -> bool {
        &&& self.mantissa < MANTISSA_END
        &&& MIN_EXPONENT <= self.exponent
        &&& self.exponent > MIN_EXPONENT ==> self.mantissa >= MANTISSA_NORMAL
    }

    /// The number nearest to `p * 2^exponent`.
    fn round(p: u64, exponent: i32) -> (result: Self)
        requires
            p < 0x1_0000_0000_0000,
            -500 <= exponent <= 1_000_000_000,
        ensures
            result.inv(),
            result@ == nearest(p as nat, exponent as int),
            result@.1 <= exponent + 25 || result@.1 <= MIN_EXPONENT + 1,
    {
        if p == 0 {
            return Binary32 { mantissa: 0, exponent: MIN_EXPONENT };
        }
        proof {
            lemma2_to64();
            lemma2_to64_rest();
            lemma_excess_bits(p as nat);
        }
        let mut excess: i32 = 0;
        let mut rest: u64 = p;
        while rest >= MANTISSA_END
            invariant
                rest <= p < 0x1_0000_0000_0000,
                0 <= excess,
                excess + excess_bits(rest as nat) == excess_bits(p as nat),
                excess_bits(p as nat) <= 24,
            decreases rest,
        {
            rest = rest / 2;
            excess = excess + 1;
        }
        let drop: i32 = if excess >= MIN_EXPONENT - exponent {
            excess
        } else {
            MIN_EXPONENT - exponent
        };
        if drop > 0 {
            if drop > 50 {
                proof {
                    lemma_pow2_strictly_increases(50, drop as nat);
                    assert(pow2(50) > 2 * p);
                    vstd::arithmetic::div_mod::lemma_basic_div(p as int, pow2(drop as nat) as int);
                    vstd::arithmetic::div_mod::lemma_small_mod(p as nat, pow2(drop as nat));
                }
                return Binary32 { mantissa: 0, exponent: MIN_EXPONENT };
            }
            let mut unit: u64 = 1;
            let mut k: i32 = 0;
            while k < drop
                invariant
                    0 <= k <= drop <= 50,
                    unit == pow2(k as nat),
                    unit <= 0x4_0000_0000_0000,
                decreases drop - k,
            {
                proof {
                    lemma_pow2_unfold((k + 1) as nat);
                    lemma2_to64_rest();
                    if k < 49 {
                        lemma_pow2_strictly_increases((k + 1) as nat, 50);
                    }
                }
                unit = 2 * unit;
                k = k + 1;
            }
            proof {
                lemma_pow2_pos(drop as nat);
                lemma_div_pow2_monotone(p as nat, excess as nat, drop as nat);
            }
            let quotient: u64 = p / unit;
            let twice_rest: u64 = 2 * (p % unit);
            assert(quotient < MANTISSA_END);
            let rounded: u64 = if twice_rest > unit || (twice_rest == unit && quotient % 2 == 1) {
                quotient + 1
            } else {
                quotient
            };
            if rounded >= MANTISSA_END {
                Binary32 { mantissa: MANTISSA_NORMAL, exponent: exponent + drop + 1 }
            } else {
                Binary32 { mantissa: rounded, exponent: exponent + drop }
            }
        } else {
            let mut mantissa: u64 = p;
            let mut scaled: i32 = exponent;
            let ghost mut gain: nat = 0;
            assert(p * pow2(0) == p);
            while mantissa < MANTISSA_NORMAL && scaled > MIN_EXPONENT
                invariant
                    0 < p < MANTISSA_END,
                    0 < mantissa < MANTISSA_END,
                    MIN_EXPONENT <= scaled <= exponent <= 1_000_000_000,
                    gain == exponent - scaled,
                    mantissa == p * pow2(gain),
                    missing_bits(p as nat) == gain + missing_bits(mantissa as nat),
                decreases scaled - MIN_EXPONENT,
            {
                proof {
                    lemma_pow2_unfold(gain + 1);
                    assert(2 * (p * pow2(gain)) == p * (2 * pow2(gain))) by (nonlinear_arith);
                    gain = gain + 1;
                }
                mantissa = 2 * mantissa;
                scaled = scaled - 1;
            }
            Binary32 { mantissa, exponent: scaled }
        }
    }

    /// A small integer.
    pub fn from_integer(value: u64) -> (result: Self)
        requires
            value < 0x1_0000_0000_0000,
        ensures
            result.inv(),
            result@ == nearest(value as nat, 0),
            result@.1 <= 25,
    {
        Binary32::round(value, 0)
    }

    /// The number of the format nearest to seven tenths.
    pub fn seven_tenths() -> (result: Self)
        ensures
            result.inv(),
            result@ == (11744051nat, -24int),
    {
        Binary32 { mantissa: 11744051, exponent: -24 }
    }

    /// The rounded product.
    pub fn times(self, other: Self) -> (result: Self)
        requires
            self.inv(),
            other.inv(),
            self@.1 + other@.1 <= 1_000_000_000,
        ensures
            result.inv(),
            result@ == nearest(self@.0 * other@.0, self@.1 + other@.1),
            result@.1 <= self@.1 + other@.1 + 25 || result@.1 <= MIN_EXPONENT + 1,
    {
        assert(self.mantissa * other.mantissa < 0x1_0000_0000_0000) by (nonlinear_arith)
            requires
                self.mantissa < MANTISSA_END,
                other.mantissa < MANTISSA_END,
        ;
        Binary32::round(self.mantissa * other.mantissa, self.exponent + other.exponent)
    }

    pub fn less_than(self, other: Self) -> (result: bool)
        ensures
            result == is_less(self@, other@),
    {
        self.exponent < other.exponent || (self.exponent == other.exponent && self.mantissa
            < other.mantissa)
    }
}

} // verus!
