//! Floating-point numbers, held by their bit patterns, and their conversion
//! from and to integers.

use vstd::prelude::*;
use vstd::arithmetic::power2::{
    lemma2_to64, lemma_pow2_adds, lemma_pow2_pos, lemma_pow2_strictly_increases, lemma_pow2_unfold,
    pow2,
};

verus! {

/// 2 to the power 52: the weight of the hidden bit of a fraction.
pub const TWO_52: u64 = 0x10_0000_0000_0000;

/// 2 to the power 63: the weight of the sign bit.
pub const TWO_63: u64 = 0x8000_0000_0000_0000;

/// An IEEE-754 binary64 number, held by its 64 bits: the sign in the top bit,
/// then 11 bits of exponent and 52 bits of fraction.
#[derive(Clone, Copy, Debug, PartialEq, Eq, Hash, Structural)]
pub struct LiveFloat {
    pub bits: u64,
}

/// The number of the highest set bit of `m`; 0 for 0.
pub open spec fn log2_floor(m: nat) -> nat
    decreases m,
{
    if m <= 1 {
        0
    } else {
        1 + log2_floor(m / 2)
    }
}

/// The exponent and fraction bits of the number nearest to the whole number
/// `m`, which is at least 1. A number of up to 53 bits is held exactly. A
/// longer one is rounded to 53 bits, to the nearest, and to the even one of
/// two that are equally near; where that carries, the carry moves into the
/// exponent.
pub open spec fn magnitude_bits(m: nat) -> nat {
    let p = log2_floor(m);
    if p <= 52 {
        ((p + 1023) * TWO_52 + (m * pow2((52 - p) as nat) - TWO_52)) as nat
    } else {
        let div = pow2((p - 52) as nat);
        let q = m / div;
        let rem = m % div;
        let rounded = if 2 * rem > div || (2 * rem == div && q % 2 == 1) {
            q + 1
        } else {
            q
        };
        ((p + 1023) * TWO_52 + (rounded - TWO_52)) as nat
    }
}

fn pow2_u64(e: u64) -> (r: u64)
    requires
        e < 64,
    ensures
        r == pow2(e as nat),
{
    let mut r: u64 = 1;
    let mut i: u64 = 0;
    proof {
        lemma2_to64();
    }
    while i < e
        invariant
            i <= e < 64,
            r == pow2(i as nat),
        decreases e - i,
    {
        proof {
            lemma_pow2_unfold((i + 1) as nat);
            if i + 1 < 63 {
                lemma_pow2_strictly_increases((i + 1) as nat, 63);
            }
            lemma2_to64_63();
        }
        r = r * 2;
        i += 1;
    }
    r
}

proof fn lemma2_to64_63()
    ensures
        pow2(63) == 0x8000_0000_0000_0000,
        pow2(53) == 0x20_0000_0000_0000,
        pow2(52) == 0x10_0000_0000_0000,
        pow2(11) == 2048,
        pow2(10) == 1024,
{
    lemma2_to64();
    lemma_pow2_adds(32, 31);
    lemma_pow2_adds(32, 21);
    lemma_pow2_adds(32, 20);
}

impl LiveFloat {
    /// Whether the sign bit is set.
    pub open spec fn sign(self) -> bool {
        self.bits >= TWO_63
    }

    /// The exponent field.
    pub open spec fn exponent(self) -> nat {
        ((self.bits / TWO_52) % 2048) as nat
    }

    /// The fraction field.
    pub open spec fn fraction(self) -> nat {
        (self.bits % TWO_52) as nat
    }

    /// Whether the bits hold no number.
    pub open spec fn is_nan(self) -> bool {
        self.exponent() == 2047 && self.fraction() != 0
    }

    /// The whole part of the size of the number, the sign left aside. An
    /// infinity counts as a number beyond every integer.
    pub open spec fn whole_magnitude(self) -> nat {
        let e = self.exponent();
        let mant: nat = (TWO_52 + self.fraction()) as nat;
        if e < 1023 {
            0
        } else if e >= 1075 {
            (mant * pow2((e - 1075) as nat)) as nat
        } else {
            (mant / pow2((1075 - e) as nat)) as nat
        }
    }

    /// The integer that the number is cut to: its whole part, or the nearest
    /// end of the range of `i64` where the whole part lies beyond it, or 0
    /// where the bits hold no number.
    pub open spec fn spec_to_int(self) -> i64 {
        let mag = self.whole_magnitude();
        if self.is_nan() {
            0
        } else if self.sign() {
            if mag >= TWO_63 {
                i64::MIN
            } else {
                (-mag) as i64
            }
        } else {
            if mag >= TWO_63 {
                i64::MAX
            } else {
                mag as i64
            }
        }
    }

    /// The number nearest to an integer.
    pub open spec fn spec_from_int(i: i64) -> LiveFloat {
        if i == 0 {
            LiveFloat { bits: 0 }
        } else if i > 0 {
            LiveFloat { bits: magnitude_bits(i as nat) as u64 }
        } else {
            LiveFloat { bits: (TWO_63 + magnitude_bits((-i) as nat)) as u64 }
        }
    }

    /// The number with the given bits.
    pub fn from_bits(bits: u64) -> (r: LiveFloat)
        ensures
            r.bits == bits,
    {
        LiveFloat { bits }
    }

    /// The bits of the number.
    pub fn to_bits(self) -> (r: u64)
        ensures
            r == self.bits,
    {
        self.bits
    }

    /// Cuts the number to an integer: the fraction is dropped, a number
    /// beyond the range of `i64` gives the nearest end of the range, and bits
    /// that hold no number give 0.
    pub fn to_int(self) -> (r: i64)
        ensures
            r == self.spec_to_int(),
    {
        let negative: bool = self.bits >= TWO_63;
        let e: u64 = (self.bits / TWO_52) % 2048;
        let frac: u64 = self.bits % TWO_52;
        if e == 2047 && frac != 0 {
            return 0;
        }
        if e < 1023 {
            return 0;
        }
        let mant: u64 = TWO_52 + frac;
        proof {
            lemma2_to64_63();
        }
        if e >= 1086 {
            proof {
                if e > 1086 {
                    lemma_pow2_strictly_increases(11, (e - 1075) as nat);
                }
                let scale = pow2((e - 1075) as nat);
                assert(mant * scale >= 0x8000_0000_0000_0000) by (nonlinear_arith)
                    requires
                        mant >= 0x10_0000_0000_0000,
                        scale >= 2048,
                ;
            }
            return if negative {
                i64::MIN
            } else {
                i64::MAX
            };
        }
        let mag: u64 = if e >= 1075 {
            let scale: u64 = pow2_u64(e - 1075);
            proof {
                if e < 1085 {
                    lemma_pow2_strictly_increases((e - 1075) as nat, 10);
                }
                assert(mant * scale < 0x8000_0000_0000_0000) by (nonlinear_arith)
                    requires
                        mant < 0x20_0000_0000_0000,
                        scale <= 1024,
                ;
            }
            mant * scale
        } else {
            let scale: u64 = pow2_u64(1075 - e);
            proof {
                lemma_pow2_pos((1075 - e) as nat);
            }
            mant / scale
        };
        if negative {
            -(mag as i64)
        } else {
            mag as i64
        }
    }

    /// The number nearest to an integer: the integer itself where it has no
    /// more than 53 bits, else the integer rounded to 53 bits, to the even
    /// one of two numbers that are equally near.
    pub fn from_int(i: i64) -> (r: LiveFloat)
        ensures
            r == Self::spec_from_int(i),
    {
        if i == 0 {
            return LiveFloat { bits: 0 };
        }
        let m: u64 = if i > 0 {
            i as u64
        } else {
            ((-(i + 1)) as u64) + 1
        };
        // find the highest set bit
        let mut rest: u64 = m;
        let mut p: u64 = 0;
        proof {
            lemma2_to64();
        }
        while rest > 1
            invariant
                1 <= rest <= m <= TWO_63,
                p <= 63,
                log2_floor(m as nat) == p + log2_floor(rest as nat),
                rest * pow2(p as nat) <= m < (rest + 1) * pow2(p as nat),
            decreases rest,
        {
            proof {
                let w = pow2(p as nat);
                lemma_pow2_unfold((p + 1) as nat);
                lemma_pow2_pos(p as nat);
                let half = (rest / 2) as int;
                assert(half * (2 * w) <= rest * w) by (nonlinear_arith)
                    requires
                        2 * half <= rest,
                        w > 0,
                ;
                assert((rest + 1) * w <= (half + 1) * (2 * w)) by (nonlinear_arith)
                    requires
                        rest + 1 <= 2 * half + 2,
                        w > 0,
                ;
                // the next power still fits below the bound on `m`
                if p >= 63 {
                    lemma2_to64_63();
                    assert(half * (2 * w) >= 2 * w) by (nonlinear_arith)
                        requires
                            half >= 1,
                            w > 0,
                    ;
                }
            }
            rest = rest / 2;
            p += 1;
        }
        proof {
            lemma2_to64_63();
            assert(rest == 1);
            assert(rest * pow2(p as nat) == pow2(p as nat)) by (nonlinear_arith)
                requires
                    rest == 1,
            ;
            assert((rest + 1) * pow2(p as nat) == 2 * pow2(p as nat)) by (nonlinear_arith)
                requires
                    rest == 1,
            ;
        }
        let magnitude: u64 = if p <= 52 {
            let scale: u64 = pow2_u64(52 - p);
            proof {
                lemma_pow2_adds(p as nat, (52 - p) as nat);
                lemma_pow2_pos((52 - p) as nat);
                let w = pow2(p as nat);
                assert(m * scale < 2 * (w * scale)) by (nonlinear_arith)
                    requires
                        m < 2 * w,
                        scale > 0,
                ;
                assert(m * scale >= w * scale) by (nonlinear_arith)
                    requires
                        m >= w,
                        scale > 0,
                ;
            }
            (p + 1023) * TWO_52 + (m * scale - TWO_52)
        } else {
            let div: u64 = pow2_u64(p - 52);
            let q: u64 = m / div;
            let rem: u64 = m % div;
            proof {
                lemma_pow2_adds(52, (p - 52) as nat);
                lemma_pow2_pos((p - 52) as nat);
                if p - 52 < 11 {
                    lemma_pow2_strictly_increases((p - 52) as nat, 11);
                }
                let w = pow2(p as nat);
                assert(w == 0x10_0000_0000_0000 * div);
                assert(q >= 0x10_0000_0000_0000) by (nonlinear_arith)
                    requires
                        m >= 0x10_0000_0000_0000 * div,
                        q == (m as int) / (div as int),
                        div > 0,
                ;
                assert(q < 0x20_0000_0000_0000) by (nonlinear_arith)
                    requires
                        m < 2 * (0x10_0000_0000_0000 * div),
                        q == (m as int) / (div as int),
                        div > 0,
                ;
            }
            let rounded: u64 = if rem > div - rem || (rem == div - rem && q % 2 == 1) {
                q + 1
            } else {
                q
            };
            (p + 1023) * TWO_52 + (rounded - TWO_52)
        };
        if i > 0 {
            LiveFloat { bits: magnitude }
        } else {
            LiveFloat { bits: TWO_63 + magnitude }
        }
    }
}

/// A whole number of at least 1 lies between the power of two of its highest
/// set bit and the next power of two.
pub proof fn lemma_log2_floor(m: nat)
    requires
        m >= 1,
    ensures
        pow2(log2_floor(m)) <= m < 2 * pow2(log2_floor(m)),
    decreases m,
{
    lemma2_to64();
    if m > 1 {
        lemma_log2_floor(m / 2);
        lemma_pow2_unfold(log2_floor(m));
    }
}

/// An integer of no more than 53 bits is held exactly: the number nearest
/// to it, cut to an integer, is the integer again.
pub proof fn lemma_small_int_round_trip(i: i64)
    requires
        -0x20_0000_0000_0000 <= i <= 0x20_0000_0000_0000,
    ensures
        LiveFloat::spec_from_int(i).spec_to_int() == i,
{
    lemma2_to64();
    lemma2_to64_63();
    if i != 0 {
        let m: nat = if i > 0 {
            i as nat
        } else {
            (-i) as nat
        };
        let p = log2_floor(m);
        lemma_log2_floor(m);
        if p > 53 {
            lemma_pow2_strictly_increases(53, p);
        }
        let magnitude = magnitude_bits(m);
        let w = pow2(p);
        let frac: int = if p <= 52 {
            let scale = pow2((52 - p) as nat);
            lemma_pow2_adds(p, (52 - p) as nat);
            lemma_pow2_pos((52 - p) as nat);
            assert(m * scale < 2 * (w * scale)) by (nonlinear_arith)
                requires
                    m < 2 * w,
                    scale > 0,
            ;
            assert(m * scale >= w * scale) by (nonlinear_arith)
                requires
                    m >= w,
                    scale > 0,
            ;
            m * scale - TWO_52
        } else {
            // m is 2 to the power 53
            assert(w == 0x20_0000_0000_0000);
            lemma_pow2_unfold(1);
            assert(pow2(1) == 2);
            0
        };
        assert(0 <= frac < TWO_52);
        assert(magnitude == (p + 1023) * TWO_52 + frac);
        let bits: int = if i > 0 {
            magnitude as int
        } else {
            TWO_63 + magnitude
        };
        let e = p + 1023;
        assert(bits % (TWO_52 as int) == frac && (bits / (TWO_52 as int)) % 2048 == e) by (nonlinear_arith)
            requires
                0 <= frac < TWO_52,
                TWO_52 == 0x10_0000_0000_0000,
                TWO_63 == 0x8000_0000_0000_0000,
                bits == e * TWO_52 + frac || bits == TWO_63 + e * TWO_52 + frac,
                1023 <= e <= 1076,
        ;
        let float = LiveFloat::spec_from_int(i);
        assert(float.bits == bits);
        assert(float.exponent() == e);
        assert(float.fraction() == frac);
        let mant: nat = (TWO_52 + frac) as nat;
        if e >= 1075 {
            if p == 52 {
                assert(pow2(0) == 1);
                assert(mant == m) by (nonlinear_arith)
                    requires
                        mant == m * pow2(0),
                        pow2(0) == 1,
                ;
                assert(mant * pow2(0) == mant) by (nonlinear_arith)
                    requires
                        pow2(0) == 1,
                ;
                assert((e - 1075) as nat == 0);
            } else {
                lemma_pow2_unfold(1);
                assert(m == 0x20_0000_0000_0000);
                assert(mant * pow2(1) == m) by (nonlinear_arith)
                    requires
                        pow2(1) == 2,
                        mant == 0x10_0000_0000_0000,
                        m == 0x20_0000_0000_0000,
                ;
                assert((e - 1075) as nat == 1);
            }
        } else {
            let scale = pow2((52 - p) as nat);
            lemma_pow2_pos((52 - p) as nat);
            assert(mant == m * scale);
            assert((m * scale) / scale == m) by (nonlinear_arith)
                requires
                    scale > 0,
            ;
            assert((1075 - e) as nat == (52 - p) as nat);
        }
        assert(float.whole_magnitude() == m);
    }
}

/// A fraction brought to the scale of 53 bits: `num / den` times 2 to the
/// power `-exp` is the fraction that went in, and lies between 2 to the
/// power 52 and 2 to the power 53.
pub struct Scaled {
    pub num: nat,
    pub den: nat,
    pub exp: int,
}

/// The fraction `num / den`, which is greater than 0, brought to the scale
/// of 53 bits: the numerator is doubled until the quotient has 53 bits, or
/// the denominator is doubled until it has no more.
pub open spec fn scale_to_53(num: nat, den: nat, exp: int) -> Scaled
    decreases
            if num < den * TWO_52 {
                1nat
            } else {
                0nat
            },
            if num < den * TWO_52 {
                den * TWO_53 - num
            } else {
                (num / den) as int
            },
{
    if num == 0 || den == 0 {
        Scaled { num, den, exp }
    } else if num < den * TWO_52 {
        scale_to_53(2 * num, den, exp - 1)
    } else if num >= den * TWO_53 {
        proof {
            lemma_halved_quotient(num, den);
        }
        scale_to_53(num, 2 * den, exp + 1)
    } else {
        Scaled { num, den, exp }
    }
}

/// 2 to the power 53.
pub const TWO_53: u64 = 0x20_0000_0000_0000;

/// A quotient of at least 1 gets smaller when the denominator is doubled.
pub proof fn lemma_halved_quotient(num: nat, den: nat)
    requires
        den > 0,
        num >= den,
    ensures
        num / (2 * den) < num / den,
{
    let q = num / den;
    let h = num / (2 * den);
    assert(q >= 1 && h * 2 <= q) by (nonlinear_arith)
        requires
            den > 0,
            num >= den,
            q == num / den,
            h == num / (2 * den),
    ;
}

/// The exponent and fraction bits of the number nearest to the fraction
/// `num / den`, which is greater than 0: the fraction is brought to the
/// scale of 53 bits, and the quotient is rounded to the nearest whole
/// number, and to the even one of two that are equally near.
pub open spec fn fraction_bits(num: nat, den: nat) -> int {
    let scaled = scale_to_53(num, den, 0);
    let q = scaled.num / scaled.den;
    let rem = scaled.num % scaled.den;
    let rounded = if 2 * rem > scaled.den || (2 * rem == scaled.den && q % 2 == 1) {
        q + 1
    } else {
        q
    };
    (scaled.exp + 52 + 1023) * TWO_52 + (rounded - TWO_52)
}

/// 10 to the power `digits`.
pub open spec fn pow10(digits: nat) -> nat
    decreases digits,
{
    if digits == 0 {
        1
    } else {
        10 * pow10((digits - 1) as nat)
    }
}

/// The powers of 10 grow, and the 19th is the last below 2 to the power 64.
pub proof fn lemma_pow10(digits: nat)
    requires
        digits <= 19,
    ensures
        1 <= pow10(digits) <= 10_000_000_000_000_000_000,
    decreases 19 - digits,
{
    if digits == 19 {
        reveal_with_fuel(pow10, 20);
    } else {
        lemma_pow10(digits + 1);
    }
}

impl LiveFloat {
    /// The number nearest to `mantissa / 10^digits`, negative if asked: what
    /// a decimal numeral with `digits` digits after the point says.
    pub open spec fn spec_from_decimal(negative: bool, mantissa: u64, digits: nat) -> LiveFloat {
        let magnitude = if mantissa == 0 {
            0
        } else {
            fraction_bits(mantissa as nat, pow10(digits))
        };
        LiveFloat {
            bits: if negative {
                (TWO_63 + magnitude) as u64
            } else {
                magnitude as u64
            },
        }
    }
}

impl LiveFloat {
    /// The number that a decimal numeral says: the number nearest to
    /// `mantissa / 10^digits`, with the sign asked for.
    pub fn from_decimal(negative: bool, mantissa: u64, digits: u8) -> (r: LiveFloat)
        requires
            digits <= 19,
        ensures
            r == Self::spec_from_decimal(negative, mantissa, digits as nat),
    {
        if mantissa == 0 {
            return LiveFloat {
                bits: if negative {
                    TWO_63
                } else {
                    0
                },
            };
        }
        let mut den: u128 = 1;
        let mut i: u8 = 0;
        while i < digits
            invariant
                i <= digits <= 19,
                den == pow10(i as nat),
            decreases digits - i,
        {
            proof {
                lemma_pow10((i + 1) as nat);
            }
            den = den * 10;
            i += 1;
        }
        proof {
            lemma_pow10(digits as nat);
        }
        let ghost den0 = den;
        let mut num: u128 = mantissa as u128;
        let mut exp: i32 = 0;
        proof {
            lemma2_to64();
            lemma2_to64_63();
            lemma_pow2_adds(64, 52);
        }
        while num < den * (TWO_52 as u128)
            invariant
                den == den0,
                1 <= den <= 10_000_000_000_000_000_000,
                1 <= num,
                num < den * TWO_53 || num == mantissa,
                -116 <= exp <= 0,
                num >= pow2((-exp) as nat),
                pow2(116) == 0x1_0000_0000_0000_0000 * 0x10_0000_0000_0000,
                scale_to_53(num as nat, den as nat, exp as int) == scale_to_53(
                    mantissa as nat,
                    den0 as nat,
                    0,
                ),
            decreases den * TWO_53 - num,
        {
            proof {
                lemma_pow2_unfold((-exp + 1) as nat);
                assert(2 * num < den * TWO_53) by (nonlinear_arith)
                    requires
                        num < den * 0x10_0000_0000_0000,
                        TWO_53 == 0x20_0000_0000_0000,
                ;
                assert(den * 0x10_0000_0000_0000 < 0x1_0000_0000_0000_0000 * 0x10_0000_0000_0000)
                    by (nonlinear_arith)
                    requires
                        den <= 10_000_000_000_000_000_000,
                ;
                assert(den * TWO_53 < 0x1_0000_0000_0000_0000 * 0x20_0000_0000_0000)
                    by (nonlinear_arith)
                    requires
                        den <= 10_000_000_000_000_000_000,
                        TWO_53 == 0x20_0000_0000_0000,
                ;
                if exp == -116 {
                    assert(false);
                }
            }
            num = num * 2;
            exp = exp - 1;
        }
        proof {
            assert(den * TWO_53 < 0x1_0000_0000_0000_0000 * 0x20_0000_0000_0000) by (nonlinear_arith)
                requires
                    den <= 10_000_000_000_000_000_000,
                    TWO_53 == 0x20_0000_0000_0000,
            ;
        }
        let ghost mut doubled: nat = 0;
        while num >= den * (TWO_53 as u128)
            invariant
                1 <= den,
                1 <= num < 0x1_0000_0000_0000_0000 * 0x20_0000_0000_0000,
                den * TWO_53 < 2 * (0x1_0000_0000_0000_0000 * 0x20_0000_0000_0000),
                num >= den * TWO_52,
                den >= pow2(doubled),
                doubled <= 64,
                -116 <= exp <= doubled,
                scale_to_53(num as nat, den as nat, exp as int) == scale_to_53(
                    mantissa as nat,
                    den0 as nat,
                    0,
                ),
            decreases num / den,
        {
            proof {
                lemma_halved_quotient(num as nat, den as nat);
                lemma_pow2_unfold(doubled + 1);
                assert(den * TWO_53 >= den * 1) by (nonlinear_arith)
                    requires
                        TWO_53 == 0x20_0000_0000_0000,
                        den >= 1,
                ;
                assert(2 * den * TWO_52 == den * TWO_53) by (nonlinear_arith)
                    requires
                        TWO_53 == 0x20_0000_0000_0000,
                        TWO_52 == 0x10_0000_0000_0000,
                ;
                assert(2 * den * TWO_53 == 2 * (den * TWO_53)) by (nonlinear_arith);
                if doubled == 64 {
                    // the denominator would be beyond every numerator
                    lemma2_to64();
                    assert(den * TWO_53 >= 0x1_0000_0000_0000_0000 * 0x20_0000_0000_0000)
                        by (nonlinear_arith)
                        requires
                            den >= 0x1_0000_0000_0000_0000,
                            TWO_53 == 0x20_0000_0000_0000,
                    ;
                }
                doubled = doubled + 1;
            }
            den = den * 2;
            exp = exp + 1;
        }
        let q: u128 = num / den;
        let rem: u128 = num % den;
        proof {
            assert(q >= 0x10_0000_0000_0000 && q < 0x20_0000_0000_0000) by (nonlinear_arith)
                requires
                    num >= den * 0x10_0000_0000_0000,
                    num < den * 0x20_0000_0000_0000,
                    q == (num as int) / (den as int),
                    den >= 1,
            ;
        }
        let rounded: u128 = if rem > den - rem || (rem == den - rem && q % 2 == 1) {
            q + 1
        } else {
            q
        };
        let exponent: u64 = (exp + 1075) as u64;
        let magnitude: u64 = exponent * TWO_52 + ((rounded as u64) - TWO_52);
        if negative {
            LiveFloat { bits: TWO_63 + magnitude }
        } else {
            LiveFloat { bits: magnitude }
        }
    }
}

} // verus!
