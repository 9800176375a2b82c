//! Binary64 numbers held by their bit pattern and computed on exactly, with
//! integers only.
//!
//! A finite number with significand `m` and scale `s` has the magnitude
//! `m * 2^(s - 1075)`. The contracts speak of that magnitude in units of
//! `2^-1074`, the smallest step of the format, so that every finite number
//! is a natural number of units.

use vstd::prelude::*;
use vstd::arithmetic::power2::*;
use vstd::arithmetic::div_mod::*;
use vstd::string::*;
use crate::text::{
    canonical, decimal, digit_char, digit_str, digits_from, digits_to_text, digits_value,
    double_digits, lemma_digits_of, lemma_doubled, lemma_leading_text, push_decimal,
};

verus! {

/// The bit that holds the sign.
pub const SIGN_BIT: u64 = 0x8000_0000_0000_0000;

/// Two to the power 52: the weight of the exponent field's lowest bit, and
/// the significand's implicit leading bit.
pub const HIDDEN_BIT: u64 = 0x0010_0000_0000_0000;

/// A binary64 floating-point number, as its 64 bits.
#[derive(Clone, Copy, Debug)]
pub struct FasFloat {
    pub bits: u64,
}

/// Number of binary digits of `a`.
pub open spec fn bit_length(a: nat) -> nat
    decreases a,
{
    if a == 0 {
        0
    } else {
        1 + bit_length(a / 2)
    }
}

/// `a / 2^shift`, rounded to the nearest integer, a tie to the even one.
pub open spec fn round_half_even(a: nat, shift: nat) -> nat {
    let p = pow2(shift);
    let q = a / p;
    let r = a % p;
    if 2 * r > p || (2 * r == p && q % 2 == 1) {
        q + 1
    } else {
        q
    }
}

/// The four decimal digits of a number below ten thousand.
pub open spec fn four_digits(n: nat) -> Seq<char> {
    seq![
        digit_char((n / 1000) as int),
        digit_char(((n / 100) % 10) as int),
        digit_char(((n / 10) % 10) as int),
        digit_char((n % 10) as int),
    ]
}

/// The ratio `n / d`, rounded to the nearest integer, a tie to the even
/// one.
pub open spec fn round_ratio(n: nat, d: nat) -> nat {
    let q = n / d;
    let r = n % d;
    if 2 * r > d || (2 * r == d && q % 2 == 1) {
        q + 1
    } else {
        q
    }
}

/// Whether `p / q` is less than `2^53` units of the scale `s`, a unit being
/// `2^(s - 1075)`: a float of that scale can hold it.
pub open spec fn fits_scale(p: nat, q: nat, s: nat) -> bool {
    p * pow2(1074) < q * pow2(s + 52)
}

/// The least scale from `from` on that can hold `p / q`.
pub open spec fn ratio_scale(p: nat, q: nat, from: nat) -> nat
    decreases 2200 - from,
{
    if from >= 2200 || fits_scale(p, q, from) {
        from
    } else {
        ratio_scale(p, q, from + 1)
    }
}

/// The bits of the float nearest to `p / q`, which is not negative: the
/// ratio in units of the least scale that can hold it, rounded to the
/// nearest unit, a tie to the even one; infinity where no finite float is
/// that large.
pub open spec fn nearest_ratio(p: nat, q: nat) -> u64 {
    let s = ratio_scale(p, q, 1);
    let m = round_ratio(p * pow2(1074), q * pow2((s - 1) as nat));
    let body = (s - 1) * HIDDEN_BIT + m;
    if body >= 0x7ff0_0000_0000_0000 {
        0x7ff0_0000_0000_0000u64
    } else {
        body as u64
    }
}

impl FasFloat {
    /// The sign bit is set.
    pub open spec fn negative(self) -> bool {
        self.bits >= SIGN_BIT
    }

    /// The eleven bits of the exponent field.
    pub open spec fn exponent(self) -> nat {
        ((self.bits / HIDDEN_BIT) % 2048) as nat
    }

    /// The 52 bits of the fraction field.
    pub open spec fn fraction(self) -> nat {
        (self.bits % HIDDEN_BIT) as nat
    }

    /// The number is zero, with either sign.
    pub open spec fn zero(self) -> bool {
        self.bits == 0 || self.bits == SIGN_BIT
    }

    /// Neither an infinity nor a NaN.
    pub open spec fn finite(self) -> bool {
        self.exponent() != 2047
    }

    /// Not a number.
    pub open spec fn nan(self) -> bool {
        self.exponent() == 2047 && self.fraction() != 0
    }

    /// The significand: the fraction, with the implicit bit of a normal
    /// number.
    pub open spec fn significand(self) -> nat {
        if self.exponent() == 0 {
            self.fraction()
        } else {
            self.fraction() + HIDDEN_BIT as nat
        }
    }

    /// The exponent field, where a subnormal number counts as 1.
    pub open spec fn scale(self) -> nat {
        if self.exponent() == 0 {
            1
        } else {
            self.exponent()
        }
    }

    /// The magnitude of a finite number in units of `2^-1074`.
    pub open spec fn magnitude(self) -> nat {
        self.significand() * pow2((self.scale() - 1) as nat)
    }

    /// The value of a finite number in units of `2^-1074`.
    pub open spec fn scaled(self) -> int {
        if self.negative() {
            -(self.magnitude() as int)
        } else {
            self.magnitude() as int
        }
    }

    /// How far two finite numbers are apart, in units of `2^-1074`.
    pub open spec fn distance(self, other: FasFloat) -> nat {
        if self.scaled() >= other.scaled() {
            (self.scaled() - other.scaled()) as nat
        } else {
            (other.scaled() - self.scaled()) as nat
        }
    }

    /// Both numbers are finite and differ by at most one millionth.
    pub open spec fn close(self, other: FasFloat) -> bool {
        &&& self.finite()
        &&& other.finite()
        &&& self.distance(other) * 1_000_000 <= pow2(1074)
    }

    /// The magnitude of a finite number in ten-thousandths, rounded to the
    /// nearest one, a tie to the even one.
    pub open spec fn ten_thousandths(self) -> nat {
        round_half_even(self.magnitude() * 10_000, 1074)
    }

    /// The number in decimal notation with four digits after the point:
    /// the exact value, rounded to the nearest ten-thousandth, a tie to
    /// the even one. A negative number, a negative zero too, has a minus
    /// sign. What is not finite reads `NaN`, `inf` or `-inf`.
    pub open spec fn text(self) -> Seq<char> {
        if self.nan() {
            seq!['N', 'a', 'N']
        } else if !self.finite() {
            if self.negative() {
                seq!['-', 'i', 'n', 'f']
            } else {
                seq!['i', 'n', 'f']
            }
        } else {
            let r = self.ten_thousandths();
            let body = decimal(r / 10_000) + seq!['.'] + four_digits(r % 10_000);
            if self.negative() {
                seq!['-'] + body
            } else {
                body
            }
        }
    }

    /// The nearest integer, a half rounded away from zero; the nearest
    /// 64-bit integer where that is out of range; zero for a NaN.
    pub open spec fn rounded(self) -> int {
        if self.nan() {
            0
        } else if !self.finite() {
            if self.negative() {
                i64::MIN as int
            } else {
                i64::MAX as int
            }
        } else {
            let r = (2 * self.magnitude() + pow2(1074)) / pow2(1075);
            if self.negative() {
                if r >= 0x8000_0000_0000_0000 {
                    i64::MIN as int
                } else {
                    -(r as int)
                }
            } else {
                if r > i64::MAX {
                    i64::MAX as int
                } else {
                    r as int
                }
            }
        }
    }

    /// The number nearest to the integer `i`, a tie going to the even
    /// significand. Exact for every integer of at most 53 binary digits.
    pub open spec fn nearest(i: int) -> FasFloat {
        if i == 0 {
            FasFloat { bits: 0 }
        } else {
            let a = (if i < 0 {
                -i
            } else {
                i
            }) as nat;
            let len = bit_length(a);
            let body = if len <= 53 {
                (1022 + len) * HIDDEN_BIT + a * pow2((53 - len) as nat) - HIDDEN_BIT
            } else {
                (1021 + len) * HIDDEN_BIT + round_half_even(a, (len - 53) as nat)
            };
            FasFloat {
                bits: (if i < 0 {
                    SIGN_BIT + body
                } else {
                    body
                }) as u64,
            }
        }
    }

    pub fn is_negative(&self) -> (b: bool)
        ensures
            b == self.negative(),
    {
        self.bits >= SIGN_BIT
    }

    pub fn is_zero(&self) -> (b: bool)
        ensures
            b == self.zero(),
    {
        self.bits == 0 || self.bits == SIGN_BIT
    }

    pub fn is_finite(&self) -> (b: bool)
        ensures
            b == self.finite(),
    {
        (self.bits / HIDDEN_BIT) % 2048 != 2047
    }

    pub fn is_nan(&self) -> (b: bool)
        ensures
            b == self.nan(),
    {
        (self.bits / HIDDEN_BIT) % 2048 == 2047 && self.bits % HIDDEN_BIT != 0
    }

    /// The significand and the scale.
    fn parts(&self) -> (p: (u64, u64))
        ensures
            p.0 == self.significand(),
            p.1 == self.scale(),
            p.0 < 2 * HIDDEN_BIT,
            1 <= p.1 <= 2047,
            p.1 >= 2 ==> p.0 >= HIDDEN_BIT,
            self.finite() ==> p.1 <= 2046,
    {
        let e = (self.bits / HIDDEN_BIT) % 2048;
        let f = self.bits % HIDDEN_BIT;
        if e == 0 {
            (f, 1)
        } else {
            (f + HIDDEN_BIT, e)
        }
    }

    /// Rounds to the nearest integer, a half away from zero, and saturates
    /// at the ends of the 64-bit range. A NaN gives zero.
    pub fn to_int(&self) -> (r: i64)
        ensures
            r == self.rounded(),
    {
        let negative = self.is_negative();
        if !self.is_finite() {
            if self.is_nan() {
                0
            } else if negative {
                i64::MIN
            } else {
                i64::MAX
            }
        } else {
            let (m, s) = self.parts();
            if s >= 1086 {
                proof {
                    lemma_round_large(m as nat, s as nat);
                    lemma2_to64();
                    if s > 1086 {
                        lemma_pow2_strictly_increases(11, (s - 1075) as nat);
                    }
                    assert(m * pow2((s - 1075) as nat) >= 0x8000_0000_0000_0000) by (nonlinear_arith)
                        requires
                            m >= 0x0010_0000_0000_0000,
                            pow2((s - 1075) as nat) >= 0x800,
                    ;
                }
                if negative {
                    i64::MIN
                } else {
                    i64::MAX
                }
            } else if s >= 1075 {
                let p = power_of_two((s - 1075) as u32);
                proof {
                    lemma_round_large(m as nat, s as nat);
                    lemma2_to64();
                    if s < 1085 {
                        lemma_pow2_strictly_increases((s - 1075) as nat, 10);
                    }
                    assert(m * p < 0x8000_0000_0000_0000) by (nonlinear_arith)
                        requires
                            m < 0x0020_0000_0000_0000,
                            p <= 0x400,
                    ;
                }
                let mag: u128 = (m as u128) * p;
                if negative {
                    -(mag as i64)
                } else {
                    mag as i64
                }
            } else {
                let k = 1075 - s;
                if k >= 54 {
                    proof {
                        lemma_round_small(m as nat, s as nat);
                        lemma2_to64_rest();
                        if k > 54 {
                            lemma_pow2_strictly_increases(54, k as nat);
                        }
                        lemma_basic_div((2 * m + pow2(k as nat)) as int, (2 * pow2(k as nat)) as int);
                    }
                    0
                } else {
                    let p = power_of_two(k as u32);
                    proof {
                        lemma_round_small(m as nat, s as nat);
                        lemma2_to64_rest();
                        if k < 53 {
                            lemma_pow2_strictly_increases(k as nat, 53);
                        }
                        lemma_pow2_pos(k as nat);
                        lemma_div_is_ordered_by_denominator((2 * m + p) as int, 2, (2 * p) as int);
                    }
                    let mag: u128 = (2 * (m as u128) + p) / (2 * p);
                    if negative {
                        -(mag as i64)
                    } else {
                        mag as i64
                    }
                }
            }
        }
    }

    /// Whether the two numbers are finite and differ by at most one
    /// millionth. The difference is taken exactly, without rounding.
    pub fn close_to(&self, other: &FasFloat) -> (b: bool)
        ensures
            b == self.close(*other),
    {
        if !self.is_finite() || !other.is_finite() {
            return false;
        }
        let (m1, s1) = self.parts();
        let (m2, s2) = other.parts();
        let same_sign = self.is_negative() == other.is_negative();
        if s1 > s2 || (s1 == s2 && m1 >= m2) {
            proof {
                lemma_distance(*self, *other);
            }
            close_ordered(m1, s1, m2, s2, same_sign)
        } else {
            proof {
                lemma_distance(*other, *self);
            }
            close_ordered(m2, s2, m1, s1, same_sign)
        }
    }

    /// Renders the number with four digits after the decimal point.
    pub fn to_text(&self) -> (s: String)
        ensures
            s@ == self.text(),
    {
        proof {
            reveal_strlit("NaN");
            reveal_strlit("inf");
            reveal_strlit("-inf");
            reveal_strlit("-");
            reveal_strlit(".");
            reveal_strlit(".0000");
        }
        let negative = self.is_negative();
        if !self.is_finite() {
            let s = if self.is_nan() {
                String::from_str("NaN")
            } else if negative {
                String::from_str("-inf")
            } else {
                String::from_str("inf")
            };
            assert(s@ =~= self.text());
            return s;
        }
        let (m, scale) = self.parts();
        let mut s = String::new();
        if negative {
            s.append("-");
        }
        let ghost sign = s@;
        assert(sign =~= if negative {
            seq!['-']
        } else {
            Seq::<char>::empty()
        });
        if scale >= 1075 {
            let mut ds = digits_from(m);
            let mut i: u64 = 0;
            proof {
                lemma_digits_of(m as nat);
                lemma2_to64();
            }
            while i < scale - 1075
                invariant
                    i <= scale - 1075,
                    scale >= 1075,
                    canonical(ds@),
                    digits_value(ds@) == m * pow2(i as nat),
                decreases scale - 1075 - i,
            {
                proof {
                    lemma_doubled(ds@, 0);
                    lemma_pow2_unfold((i + 1) as nat);
                    assert(2 * (m * pow2(i as nat)) == m * (2 * pow2(i as nat)))
                        by (nonlinear_arith);
                }
                ds = double_digits(&ds);
                i = i + 1;
            }
            let whole = digits_to_text(&ds);
            s.append(whole.as_str());
            s.append(".0000");
            proof {
                lemma_leading_text(ds@);
                lemma_whole(m as nat, scale as nat);
                let r = self.ten_thousandths();
                assert(four_digits(0) =~= seq!['0', '0', '0', '0']);
                assert(s@ =~= sign + (decimal(r / 10_000) + seq!['.'] + four_digits(r % 10_000)));
            }
        } else {
            let k = 1075 - scale;
            let n: u128 = (m as u128) * 10_000;
            let r: u128 = if k >= 69 {
                0
            } else {
                let p = power_of_two(k as u32);
                let q = n / p;
                let rest = n % p;
                proof {
                    lemma_mod_bound(n as int, p as int);
                    lemma2_to64();
                    lemma_pow2_adds(64, 4);
                    if k > 1 {
                        lemma_pow2_strictly_increases(1, k as nat);
                    }
                    if k < 68 {
                        lemma_pow2_strictly_increases(k as nat, 68);
                    }
                    lemma_div_is_ordered_by_denominator(n as int, 2, p as int);
                }
                if 2 * rest > p || (2 * rest == p && q % 2 == 1) {
                    q + 1
                } else {
                    q
                }
            };
            proof {
                lemma_fraction(m as nat, scale as nat);
                if k >= 69 {
                    lemma_tiny(n as nat, k as nat);
                }
                assert(r == self.ten_thousandths());
            }
            let whole: u64 = (r / 10_000) as u64;
            let part: u64 = (r % 10_000) as u64;
            push_decimal(&mut s, whole);
            s.append(".");
            s.append(digit_str((part / 1000) as u8));
            s.append(digit_str(((part / 100) % 10) as u8));
            s.append(digit_str(((part / 10) % 10) as u8));
            s.append(digit_str((part % 10) as u8));
            proof {
                assert(s@ =~= sign + (decimal((r / 10_000) as nat) + seq!['.'] + four_digits(
                    (r % 10_000) as nat,
                )));
            }
        }
        assert(s@ =~= self.text());
        s
    }

    /// The number nearest to `i`.
    pub fn from_int(i: i64) -> (f: FasFloat)
        ensures
            f == Self::nearest(i as int),
    {
        if i == 0 {
            return FasFloat { bits: 0 };
        }
        let a: u64 = if i < 0 {
            ((-(i + 1)) as u64) + 1
        } else {
            i as u64
        };
        let len = count_bits(a);
        proof {
            lemma_bit_length_bounds(a as nat);
            lemma2_to64_rest();
        }
        let body: u64 = if len <= 53 {
            let p = power_of_two(53 - len);
            proof {
                lemma_pow2_adds(len as nat, (53 - len) as nat);
                lemma_pow2_adds((len - 1) as nat, (53 - len) as nat);
                assert(a * p < pow2(len as nat) * p) by (nonlinear_arith)
                    requires
                        a < pow2(len as nat),
                        p > 0,
                ;
                assert(a * p >= pow2((len - 1) as nat) * p) by (nonlinear_arith)
                    requires
                        a >= pow2((len - 1) as nat),
                        p > 0,
                ;
            }
            let m: u128 = (a as u128) * p;
            (1022 + len as u64) * HIDDEN_BIT + (m as u64 - HIDDEN_BIT)
        } else {
            let shift = len - 53;
            let p = power_of_two(shift);
            proof {
                lemma_pow2_adds(53, shift as nat);
                lemma_pow2_pos(shift as nat);
                lemma_quotient_between(a as nat, p as nat, pow2(52), pow2(53));
            }
            let q: u128 = (a as u128) / p;
            let r: u128 = (a as u128) % p;
            let m: u128 = if 2 * r > p || (2 * r == p && q % 2 == 1) {
                q + 1
            } else {
                q
            };
            (1021 + len as u64) * HIDDEN_BIT + m as u64
        };
        FasFloat {
            bits: if i < 0 {
                SIGN_BIT + body
            } else {
                body
            },
        }
    }
}

/// The gap between two magnitudes in units of `2^(sb - 1 - 1074)`, the
/// first magnitude being the larger.
pub open spec fn gap(ma: nat, sa: nat, mb: nat, sb: nat, same_sign: bool) -> int {
    if same_sign {
        ma * pow2((sa - sb) as nat) - mb
    } else {
        (ma * pow2((sa - sb) as nat) + mb) as int
    }
}

/// Ordered by magnitude, the significands and scales of finite numbers.
pub open spec fn ordered_parts(ma: nat, sa: nat, mb: nat, sb: nat) -> bool {
    &&& ma < 2 * HIDDEN_BIT
    &&& mb < 2 * HIDDEN_BIT
    &&& 1 <= sb <= sa <= 2046
    &&& sa >= 2 ==> ma >= HIDDEN_BIT
    &&& sa == sb ==> ma >= mb
}

/// Whether magnitudes that far apart are within one millionth.
fn close_ordered(ma: u64, sa: u64, mb: u64, sb: u64, same_sign: bool) -> (b: bool)
    requires
        ordered_parts(ma as nat, sa as nat, mb as nat, sb as nat),
    ensures
        gap(ma as nat, sa as nat, mb as nat, sb as nat, same_sign) >= 0,
        b == (gap(ma as nat, sa as nat, mb as nat, sb as nat, same_sign) * pow2((sb - 1) as nat)
            * 1_000_000 <= pow2(1074)),
{
    let d = sa - sb;
    let ghost g = gap(ma as nat, sa as nat, mb as nat, sb as nat, same_sign);
    let ghost unit = pow2((sb - 1) as nat);
    proof {
        lemma_gap_bounds(ma as nat, sa as nat, mb as nat, sb as nat, same_sign);
        lemma_pow2_pos((sb - 1) as nat);
        lemma_pow2_values();
    }
    if d <= 55 {
        let pd = power_of_two(d as u32);
        proof {
            if d < 55 {
                lemma_pow2_strictly_increases(d as nat, 55);
            }
            assert(ma * pd <= 0x0020_0000_0000_0000 * 0x0080_0000_0000_0000) by (nonlinear_arith)
                requires
                    ma <= 0x0020_0000_0000_0000,
                    pd <= 0x0080_0000_0000_0000,
            ;
        }
        let x: u128 = (ma as u128) * pd;
        let distance: u128 = if same_sign {
            x - mb as u128
        } else {
            x + mb as u128
        };
        assert(distance == g);
        if distance == 0 {
            assert(g * unit * 1_000_000 == 0) by (nonlinear_arith)
                requires
                    g == 0,
            ;
            true
        } else if sb >= 1056 {
            proof {
                lemma_far_apart(g as nat, sb as nat);
            }
            false
        } else {
            let t = 1075 - sb;
            proof {
                lemma_cancel_unit(g as nat, sb as nat);
            }
            if t >= 129 {
                proof {
                    if t > 129 {
                        lemma_pow2_strictly_increases(123, (t - 6) as nat);
                    }
                }
                true
            } else {
                distance * 15625 <= power_of_two((t - 6) as u32)
            }
        }
    } else {
        proof {
            let pd = pow2(d as nat);
            if d > 56 {
                lemma_pow2_strictly_increases(56, d as nat);
            }
            let x = ma * pd;
            assert(0x0010_0000_0000_0000 * pd <= x <= 0x001f_ffff_ffff_ffff * pd)
                by (nonlinear_arith)
                requires
                    0x0010_0000_0000_0000 <= ma <= 0x001f_ffff_ffff_ffff,
                    x == ma * pd,
                    pd > 0,
            ;
            assert(ma <= 4722366482869645 ==> x <= 4722366482869645 * pd) by (nonlinear_arith)
                requires
                    x == ma * pd,
                    pd > 0,
            ;
            assert(ma >= 4722366482869646 ==> x >= 4722366482869646 * pd) by (nonlinear_arith)
                requires
                    x == ma * pd,
                    pd > 0,
            ;
            if sb >= 1056 {
                lemma_far_apart(g as nat, sb as nat);
            } else {
                lemma_cancel_unit(g as nat, sb as nat);
                let t = (1075 - sb) as nat;
                // pow2(t - 6) against 2^65, 2^66 and 2^67 times pd
                if sa <= 1002 {
                    lemma_pow2_adds(67, d as nat);
                    if t - 6 > 67 + d {
                        lemma_pow2_strictly_increases((67 + d) as nat, (t - 6) as nat);
                    }
                } else if sa == 1003 {
                    lemma_pow2_adds(66, d as nat);
                } else {
                    lemma_pow2_adds(65, d as nat);
                    if t - 6 < 65 + d {
                        lemma_pow2_strictly_increases((t - 6) as nat, (65 + d) as nat);
                    }
                }
            }
        }
        sa <= 1002 || (sa == 1003 && ma <= 4722366482869645)
    }
}

/// The powers of two that the comparison of distances leans on.
proof fn lemma_pow2_values()
    ensures
        pow2(19) == 0x80000,
        pow2(55) == 0x0080_0000_0000_0000,
        pow2(56) == 0x0100_0000_0000_0000,
        pow2(65) == 0x2_0000_0000_0000_0000,
        pow2(66) == 0x4_0000_0000_0000_0000,
        pow2(67) == 0x8_0000_0000_0000_0000,
        pow2(123) == 0x0800_0000_0000_0000_0000_0000_0000_0000,
{
    lemma2_to64();
    lemma2_to64_rest();
    lemma_pow2_adds(64, 1);
    lemma_pow2_adds(64, 2);
    lemma_pow2_adds(64, 3);
    lemma_pow2_adds(64, 59);
}

/// The gap of ordered magnitudes is not negative, and is positive where
/// the scales differ.
proof fn lemma_gap_bounds(ma: nat, sa: nat, mb: nat, sb: nat, same_sign: bool)
    requires
        ordered_parts(ma, sa, mb, sb),
    ensures
        gap(ma, sa, mb, sb, same_sign) >= 0,
        sa > sb ==> gap(ma, sa, mb, sb, same_sign) >= 1,
{
    lemma2_to64();
    let pd = pow2((sa - sb) as nat);
    if sa > sb {
        if sa - sb > 1 {
            lemma_pow2_strictly_increases(1, (sa - sb) as nat);
        }
        assert(ma * pd >= 0x0020_0000_0000_0000) by (nonlinear_arith)
            requires
                ma >= 0x0010_0000_0000_0000,
                pd >= 2,
        ;
    } else {
        assert(ma * pd == ma) by (nonlinear_arith)
            requires
                pd == 1,
        ;
    }
}

/// A positive gap between magnitudes of scale 1056 or more is over one
/// millionth.
proof fn lemma_far_apart(g: nat, sb: nat)
    requires
        g >= 1,
        sb >= 1056,
    ensures
        !(g * pow2((sb - 1) as nat) * 1_000_000 <= pow2(1074)),
{
    let unit = pow2((sb - 1) as nat);
    let base = pow2(1055);
    lemma_pow2_values();
    lemma_pow2_adds(1055, 19);
    lemma_pow2_pos(1055);
    if sb > 1056 {
        lemma_pow2_strictly_increases(1055, (sb - 1) as nat);
    }
    assert(g * unit * 1_000_000 >= unit * 1_000_000) by (nonlinear_arith)
        requires
            g >= 1,
            unit >= 0,
    ;
}

/// For a scale of at most 1055 the unit cancels: the gap is within one
/// millionth exactly when 15625 times the gap is at most `2^(1069 - sb)`.
proof fn lemma_cancel_unit(g: nat, sb: nat)
    requires
        1 <= sb <= 1055,
    ensures
        (g * pow2((sb - 1) as nat) * 1_000_000 <= pow2(1074)) == (g * 15625 <= pow2(
            (1069 - sb) as nat,
        )),
{
    let unit = pow2((sb - 1) as nat);
    let rest = pow2((1069 - sb) as nat);
    lemma2_to64();
    lemma_pow2_adds((sb - 1) as nat, (1075 - sb) as nat);
    lemma_pow2_adds(6, (1069 - sb) as nat);
    lemma_pow2_pos((sb - 1) as nat);
    assert(pow2(1074) == unit * (64 * rest));
    assert((g * unit * 1_000_000 <= unit * (64 * rest)) == (g * 15625 <= rest))
        by (nonlinear_arith)
        requires
            unit > 0,
    ;
}

/// The distance of two finite numbers, the first of the larger magnitude,
/// is the gap of their parts in units of the smaller scale.
proof fn lemma_distance(a: FasFloat, b: FasFloat)
    requires
        a.finite(),
        b.finite(),
        ordered_parts(a.significand(), a.scale(), b.significand(), b.scale()),
    ensures
        a.distance(b) == gap(
            a.significand(),
            a.scale(),
            b.significand(),
            b.scale(),
            a.negative() == b.negative(),
        ) * pow2((b.scale() - 1) as nat),
        b.distance(a) == a.distance(b),
{
    let ma = a.significand();
    let mb = b.significand();
    let pd = pow2((a.scale() - b.scale()) as nat);
    let unit = pow2((b.scale() - 1) as nat);
    lemma_pow2_adds((a.scale() - b.scale()) as nat, (b.scale() - 1) as nat);
    lemma_gap_bounds(ma, a.scale(), mb, b.scale(), true);
    assert(a.magnitude() == ma * pd * unit) by (nonlinear_arith)
        requires
            a.magnitude() == ma * (pd * unit),
    ;
    assert((ma * pd - mb) * unit == ma * pd * unit - mb * unit) by (nonlinear_arith);
    assert((ma * pd + mb) * unit == ma * pd * unit + mb * unit) by (nonlinear_arith);
    assert(ma * pd * unit >= mb * unit) by (nonlinear_arith)
        requires
            ma * pd - mb >= 0,
            unit >= 0,
    ;
}

/// Two to the power `k`.
pub fn power_of_two(k: u32) -> (p: u128)
    requires
        k <= 126,
    ensures
        p == pow2(k as nat),
        p > 0,
{
    let mut p: u128 = 1;
    let mut i: u32 = 0;
    proof {
        lemma2_to64();
    }
    while i < k
        invariant
            i <= k,
            k <= 126,
            p == pow2(i as nat),
            p > 0,
        decreases k - i,
    {
        proof {
            lemma_pow2_unfold((i + 1) as nat);
            lemma_pow2_126();
            if i + 1 < 126 {
                lemma_pow2_strictly_increases((i + 1) as nat, 126);
            }
        }
        p = p * 2;
        i = i + 1;
    }
    p
}

/// Number of binary digits of `a`.
fn count_bits(a: u64) -> (len: u32)
    ensures
        len == bit_length(a as nat),
        len <= 64,
{
    let mut len: u32 = 0;
    let mut rest: u64 = a;
    proof {
        lemma_bit_length_u64(a);
    }
    while rest > 0
        invariant
            bit_length(a as nat) == len + bit_length(rest as nat),
            bit_length(a as nat) <= 64,
        decreases rest,
    {
        rest = rest / 2;
        len = len + 1;
    }
    len
}

pub proof fn lemma_pow2_126()
    ensures
        pow2(126) == 0x4000_0000_0000_0000_0000_0000_0000_0000,
{
    lemma2_to64_rest();
    lemma_pow2_adds(63, 63);
}

/// A positive number lies between the powers of two that its length names.
pub proof fn lemma_bit_length_bounds(a: nat)
    requires
        a >= 1,
    ensures
        bit_length(a) >= 1,
        pow2((bit_length(a) - 1) as nat) <= a < pow2(bit_length(a)),
    decreases a,
{
    lemma2_to64();
    if a == 1 {
        assert(bit_length(0) == 0);
        assert(bit_length(1) == 1);
    } else {
        lemma_bit_length_bounds(a / 2);
        let len = bit_length(a / 2);
        lemma_pow2_unfold(len);
        lemma_pow2_unfold(len + 1);
    }
}

proof fn lemma_bit_length_u64(a: u64)
    ensures
        bit_length(a as nat) <= 64,
{
    if a >= 1 {
        lemma_bit_length_bounds(a as nat);
        lemma2_to64();
        if bit_length(a as nat) > 65 {
            lemma_pow2_strictly_increases(64, (bit_length(a as nat) - 1) as nat);
        }
    }
}

/// A number between two multiples of `p` has its quotient between the
/// factors.
proof fn lemma_quotient_between(a: nat, p: nat, lo: nat, hi: nat)
    requires
        p > 0,
        lo * p <= a < hi * p,
    ensures
        lo <= a / p < hi,
        a % p < p,
{
    lemma_fundamental_div_mod(a as int, p as int);
    lemma_mod_bound(a as int, p as int);
    let q = a / p;
    let r = a % p;
    assert(lo <= q < hi) by (nonlinear_arith)
        requires
            a == p * q + r,
            0 <= r < p,
            lo * p <= a < hi * p,
            p > 0,
    ;
}

/// Closeness does not depend on the order of the two numbers, and every
/// finite number is close to itself.
pub proof fn lemma_close_is_symmetric(a: FasFloat, b: FasFloat)
    ensures
        a.close(b) == b.close(a),
        a.finite() ==> a.close(a),
{
    lemma_pow2_pos(1074);
}

/// An integer of at most 53 binary digits has a float of exactly its value,
/// and rounding that float gives the integer back.
pub proof fn lemma_nearest_is_exact(i: int)
    requires
        -0x0020_0000_0000_0000 < i < 0x0020_0000_0000_0000,
    ensures
        FasFloat::nearest(i).finite(),
        FasFloat::nearest(i).scaled() == i * pow2(1074),
        FasFloat::nearest(i).rounded() == i,
{
    let f = FasFloat::nearest(i);
    let h = pow2(1074);
    lemma_pow2_pos(1074);
    lemma_pow2_unfold(1075);
    lemma2_to64();
    lemma2_to64_rest();
    if i == 0 {
        assert(f.bits == 0);
        assert(f.magnitude() == 0) by (nonlinear_arith)
            requires
                f.magnitude() == 0 * pow2(0),
        ;
        lemma_basic_div(h as int, (2 * h) as int);
    } else {
        let a = (if i < 0 {
            -i
        } else {
            i
        }) as nat;
        let len = bit_length(a);
        lemma_bit_length_bounds(a);
        if len > 53 {
            if len > 54 {
                lemma_pow2_strictly_increases(53, (len - 1) as nat);
            }
        }
        let p = pow2((53 - len) as nat);
        lemma_pow2_adds(len, (53 - len) as nat);
        lemma_pow2_adds((len - 1) as nat, (53 - len) as nat);
        lemma_pow2_pos((53 - len) as nat);
        let m = a * p;
        assert(m < pow2(len) * p) by (nonlinear_arith)
            requires
                m == a * p,
                a < pow2(len),
                p > 0,
        ;
        assert(m >= pow2((len - 1) as nat) * p) by (nonlinear_arith)
            requires
                m == a * p,
                a >= pow2((len - 1) as nat),
                p > 0,
        ;
        let e = 1022 + len;
        let frac = m - 0x0010_0000_0000_0000;
        let body = e * 0x0010_0000_0000_0000 + frac;
        lemma_fundamental_div_mod_converse(body as int, 0x0010_0000_0000_0000, e as int, frac as int);
        if i < 0 {
            lemma_fundamental_div_mod_converse(
                (0x8000_0000_0000_0000 + body) as int,
                0x0010_0000_0000_0000,
                (2048 + e) as int,
                frac as int,
            );
        }
        assert(f.exponent() == e);
        assert(f.fraction() == frac);
        assert(f.significand() == m);
        lemma_pow2_adds((53 - len) as nat, (1021 + len) as nat);
        assert(f.magnitude() == a * h) by (nonlinear_arith)
            requires
                f.magnitude() == m * pow2((1021 + len) as nat),
                m == a * p,
                h == p * pow2((1021 + len) as nat),
        ;
        assert(2 * (a * h) + h == a * (2 * h) + h) by (nonlinear_arith);
        lemma_fundamental_div_mod_converse(
            (2 * (a * h) + h) as int,
            (2 * h) as int,
            a as int,
            h as int,
        );
        assert((-(a as int)) * h == -((a * h) as int)) by (nonlinear_arith);
    }
}

/// A number of scale 1075 or more is whole: its ten-thousandths are ten
/// thousand times the number.
proof fn lemma_whole(m: nat, s: nat)
    requires
        s >= 1075,
    ensures
        round_half_even(m * pow2((s - 1) as nat) * 10_000, 1074) == m * pow2((s - 1075) as nat)
            * 10_000,
{
    let a = pow2((s - 1075) as nat);
    let h = pow2(1074);
    lemma_pow2_adds((s - 1075) as nat, 1074);
    lemma_pow2_pos(1074);
    let n = m * pow2((s - 1) as nat) * 10_000;
    assert(n == (m * a * 10_000) * h + 0) by (nonlinear_arith)
        requires
            n == m * (a * h) * 10_000,
    ;
    lemma_fundamental_div_mod_converse(n as int, h as int, (m * a * 10_000) as int, 0);
}

/// Below scale 1075 the common power of two cancels from the rounding of
/// the ten-thousandths.
proof fn lemma_fraction(m: nat, s: nat)
    requires
        1 <= s < 1075,
    ensures
        round_half_even(m * pow2((s - 1) as nat) * 10_000, 1074) == round_half_even(
            m * 10_000,
            (1075 - s) as nat,
        ),
{
    let c = pow2((s - 1) as nat);
    let p = pow2((1075 - s) as nat);
    let x = m * 10_000;
    lemma_pow2_adds((s - 1) as nat, (1075 - s) as nat);
    lemma_pow2_pos((s - 1) as nat);
    lemma_pow2_pos((1075 - s) as nat);
    let n = m * c * 10_000;
    assert(n == c * x) by (nonlinear_arith)
        requires
            n == m * c * 10_000,
            x == m * 10_000,
    ;
    lemma_div_multiples_vanish_quotient(c as int, x as int, p as int);
    lemma_truncate_middle(x as int, c as int, p as int);
    let r = x % p;
    assert((2 * (c * r) > c * p) == (2 * r > p)) by (nonlinear_arith)
        requires
            c > 0,
    ;
    assert((2 * (c * r) == c * p) == (2 * r == p)) by (nonlinear_arith)
        requires
            c > 0,
    ;
}

/// What is below `2^67` vanishes when it is rounded at `2^69` or above.
proof fn lemma_tiny(n: nat, k: nat)
    requires
        n < 0x8_0000_0000_0000_0000,
        k >= 69,
    ensures
        round_half_even(n, k) == 0,
{
    lemma2_to64();
    lemma_pow2_adds(64, 5);
    if k > 69 {
        lemma_pow2_strictly_increases(69, k);
    }
    lemma_basic_div(n as int, pow2(k) as int);
    lemma_small_mod(n, pow2(k));
}

/// Rounding a magnitude of scale 1075 or more: it is a whole number.
proof fn lemma_round_large(m: nat, s: nat)
    requires
        s >= 1075,
    ensures
        (2 * (m * pow2((s - 1) as nat)) + pow2(1074)) / pow2(1075) == m * pow2(
            (s - 1075) as nat,
        ),
{
    let a = pow2((s - 1075) as nat);
    let h = pow2(1074);
    lemma_pow2_adds((s - 1075) as nat, 1074);
    lemma_pow2_unfold(1075);
    lemma_pow2_pos(1074);
    assert(2 * (m * (a * h)) + h == (m * a) * (2 * h) + h) by (nonlinear_arith);
    lemma_fundamental_div_mod_converse(
        (2 * (m * pow2((s - 1) as nat)) + h) as int,
        (2 * h) as int,
        (m * a) as int,
        h as int,
    );
}

/// Rounding a magnitude of scale below 1075: the common power of two
/// cancels.
proof fn lemma_round_small(m: nat, s: nat)
    requires
        1 <= s < 1075,
    ensures
        (2 * (m * pow2((s - 1) as nat)) + pow2(1074)) / pow2(1075) == (2 * m + pow2(
            (1075 - s) as nat,
        )) / (2 * pow2((1075 - s) as nat)),
{
    let c = pow2((s - 1) as nat);
    let pk = pow2((1075 - s) as nat);
    lemma_pow2_adds((s - 1) as nat, (1075 - s) as nat);
    lemma_pow2_unfold(1075);
    lemma_pow2_pos((s - 1) as nat);
    lemma_pow2_pos((1075 - s) as nat);
    assert(2 * (m * c) + c * pk == c * (2 * m + pk)) by (nonlinear_arith);
    assert(2 * (c * pk) == c * (2 * pk)) by (nonlinear_arith);
    lemma_div_multiples_vanish_quotient(c as int, (2 * m + pk) as int, (2 * pk) as int);
}

/// A common factor of the two parts of a ratio does not change what the
/// ratio rounds to.
proof fn lemma_round_ratio_scaled(c: nat, x: nat, d: nat)
    requires
        c > 0,
        d > 0,
    ensures
        round_ratio(c * x, c * d) == round_ratio(x, d),
{
    lemma_div_multiples_vanish_quotient(c as int, x as int, d as int);
    lemma_truncate_middle(x as int, c as int, d as int);
    let r = x % d;
    assert((2 * (c * r) > c * d) == (2 * r > d)) by (nonlinear_arith)
        requires
            c > 0,
    ;
    assert((2 * (c * r) == c * d) == (2 * r == d)) by (nonlinear_arith)
        requires
            c > 0,
    ;
}

/// A scale that can hold a ratio is followed by scales that can.
proof fn lemma_fits_next(p: nat, q: nat, s: nat)
    requires
        fits_scale(p, q, s),
    ensures
        fits_scale(p, q, s + 1),
{
    lemma_pow2_unfold(s + 53);
    assert(q * pow2(s + 52) <= q * (2 * pow2(s + 52))) by (nonlinear_arith);
}

/// Below a scale that cannot hold a ratio no scale can.
proof fn lemma_fits_not_below(p: nat, q: nat, s: nat, x: nat)
    requires
        !fits_scale(p, q, s),
        x <= s,
    ensures
        !fits_scale(p, q, x),
    decreases s - x,
{
    if x < s {
        if fits_scale(p, q, x) {
            lemma_fits_next(p, q, x);
        }
        lemma_fits_not_below(p, q, s, x + 1);
    }
}

/// The least scale that can hold a ratio is the one that can while the one
/// below it cannot.
proof fn lemma_ratio_scale(p: nat, q: nat, s: nat, from: nat)
    requires
        1 <= from <= s < 2200,
        fits_scale(p, q, s),
        s >= 2 ==> !fits_scale(p, q, (s - 1) as nat),
    ensures
        ratio_scale(p, q, from) == s,
    decreases s - from,
{
    if from < s {
        lemma_fits_not_below(p, q, (s - 1) as nat, from);
        lemma_ratio_scale(p, q, s, from + 1);
    }
}

/// What a ratio rounds to at its scale, with the common power of two taken
/// out of its two parts.
proof fn lemma_ratio_at_scale(p: nat, q: nat, s: nat)
    requires
        q > 0,
        1 <= s,
    ensures
        s <= 1075 ==> round_ratio(p * pow2(1074), q * pow2((s - 1) as nat)) == round_ratio(
            p * pow2((1075 - s) as nat),
            q,
        ),
        s > 1075 ==> round_ratio(p * pow2(1074), q * pow2((s - 1) as nat)) == round_ratio(
            p,
            q * pow2((s - 1075) as nat),
        ),
{
    if s <= 1075 {
        let c = pow2((s - 1) as nat);
        let rest = pow2((1075 - s) as nat);
        lemma_pow2_adds((s - 1) as nat, (1075 - s) as nat);
        lemma_pow2_pos((s - 1) as nat);
        assert(p * (c * rest) == c * (p * rest)) by (nonlinear_arith);
        assert(q * c == c * q) by (nonlinear_arith);
        lemma_round_ratio_scaled(c, p * rest, q);
    } else {
        let c = pow2(1074);
        let rest = pow2((s - 1075) as nat);
        lemma_pow2_adds(1074, (s - 1075) as nat);
        lemma_pow2_pos(1074);
        lemma_pow2_pos((s - 1075) as nat);
        assert(q * (c * rest) == c * (q * rest)) by (nonlinear_arith);
        assert(p * c == c * p) by (nonlinear_arith);
        assert(q * rest > 0) by (nonlinear_arith)
            requires
                q > 0,
                rest > 0,
        ;
        lemma_round_ratio_scaled(c, p, q * rest);
    }
}

/// The float nearest to an integer, taken as a ratio over one, is the
/// float nearest to the integer: a numeral without a point reads as the
/// float that its integer converts to.
pub proof fn lemma_nearest_ratio_of_integer(i: int)
    requires
        0 < i <= 0x8000_0000_0000_0000,
    ensures
        nearest_ratio(i as nat, 1) == FasFloat::nearest(i).bits,
        FasFloat::nearest(-i).bits == SIGN_BIT + nearest_ratio(i as nat, 1),
{
    let a = i as nat;
    let len = bit_length(a);
    lemma_bit_length_bounds(a);
    lemma2_to64();
    lemma2_to64_rest();
    if len > 64 {
        if len > 65 {
            lemma_pow2_strictly_increases(64, (len - 1) as nat);
        }
    }
    let s = 1022 + len;
    let c = pow2(1074);
    lemma_pow2_pos(1074);
    lemma_pow2_adds(len, 1074);
    lemma_pow2_adds((len - 1) as nat, 1074);
    assert(a * c < pow2(len) * c) by (nonlinear_arith)
        requires
            a < pow2(len),
            c > 0,
    ;
    assert(a * c >= pow2((len - 1) as nat) * c) by (nonlinear_arith)
        requires
            a >= pow2((len - 1) as nat),
            c > 0,
    ;
    assert(1 * pow2(s + 52) == pow2(len) * c);
    assert(1 * pow2((s - 1 + 52) as nat) == pow2((len - 1) as nat) * c);
    assert(fits_scale(a, 1, s));
    assert(!fits_scale(a, 1, (s - 1) as nat));
    lemma_ratio_scale(a, 1, s, 1);
    lemma_ratio_at_scale(a, 1, s);
    if len <= 53 {
        let p = pow2((53 - len) as nat);
        lemma_pow2_adds(len, (53 - len) as nat);
        lemma_pow2_adds((len - 1) as nat, (53 - len) as nat);
        lemma_pow2_pos((53 - len) as nat);
        let m = a * p;
        assert(m < pow2(len) * p) by (nonlinear_arith)
            requires
                m == a * p,
                a < pow2(len),
                p > 0,
        ;
        assert(m >= pow2((len - 1) as nat) * p) by (nonlinear_arith)
            requires
                m == a * p,
                a >= pow2((len - 1) as nat),
                p > 0,
        ;
        lemma_fundamental_div_mod_converse(m as int, 1, m as int, 0);
        assert(round_ratio(m, 1) == m);
    } else {
        let shift = (len - 53) as nat;
        let p = pow2(shift);
        lemma_pow2_adds(53, shift);
        lemma_pow2_adds(52, shift);
        lemma_pow2_pos(shift);
        assert(1 * p == p);
        assert(round_ratio(a, 1 * p) == round_half_even(a, shift));
        lemma_quotient_between(a, p, pow2(52), pow2(53));
    }
}

/// The ratio of two numbers rounded to the nearest integer, a tie to the
/// even one.
fn rounded_ratio(n: u128, d: u128) -> (m: u128)
    requires
        d > 0,
        d < 0x1000_0000_0000_0000_0000_0000_0000_0000,
        n < 0x1000_0000_0000_0000_0000_0000_0000_0000,
    ensures
        m == round_ratio(n as nat, d as nat),
        m <= n / d + 1,
{
    let q = n / d;
    let r = n % d;
    proof {
        lemma_mod_bound(n as int, d as int);
        lemma_div_nonincreasing(n as int, d as int);
    }
    if 2 * r > d || (2 * r == d && q % 2 == 1) {
        q + 1
    } else {
        q
    }
}

/// The bits of the float nearest to `p / q`.
pub fn ratio_to_bits(p: u64, q: u64) -> (bits: u64)
    requires
        q >= 1,
    ensures
        bits == nearest_ratio(p as nat, q as nat),
        bits < 0x7ff0_0000_0000_0000,
{
    let pp: u128 = p as u128;
    let qq: u128 = q as u128;
    proof {
        lemma2_to64();
        lemma2_to64_rest();
        lemma_pow2_pos(1074);
    }
    if p == 0 {
        proof {
            lemma_pow2_pos(53);
            assert(0 * pow2(1074) == 0) by (nonlinear_arith);
            assert(q * pow2(53) > 0) by (nonlinear_arith)
                requires
                    q > 0,
                    pow2(53) > 0,
            ;
            assert(fits_scale(0, q as nat, 1));
            lemma_pow2_pos(0);
            assert(q * pow2(0) > 0) by (nonlinear_arith)
                requires
                    q > 0,
                    pow2(0) > 0,
            ;
            lemma_basic_div(0, (q * pow2(0)) as int);
            lemma_small_mod(0, (q * pow2(0)) as nat);
        }
        return 0;
    }
    let scale: u64;
    let n: u128;
    let d: u128;
    if pp < qq {
        // The ratio is below one: find how often it doubles before it is
        // one or more.
        let mut j: u32 = 1;
        let mut doubled: u128 = pp * 2;
        proof {
            assert(pp * pow2(0) == pp) by (nonlinear_arith)
                requires
                    pow2(0) == 1,
            ;
        }
        while doubled < qq
            invariant
                1 <= j <= 64,
                pp >= 1,
                qq < 0x1_0000_0000_0000_0000,
                doubled == pp * pow2(j as nat),
                pp * pow2((j - 1) as nat) < qq,
            decreases 64 - j,
        {
            proof {
                lemma2_to64();
                lemma_pow2_unfold((j + 1) as nat);
                if j == 64 {
                    assert(pp * pow2(64) >= pow2(64)) by (nonlinear_arith)
                        requires
                            pp >= 1,
                    ;
                }
                assert(pp * (2 * pow2(j as nat)) == 2 * (pp * pow2(j as nat))) by (nonlinear_arith);
            }
            doubled = doubled * 2;
            j = j + 1;
        }
        scale = 1023 - j as u64;
        proof {
            let s = scale as nat;
            let jj = j as nat;
            // The scale can hold the ratio, and the one below cannot.
            let c = pow2((1075 - jj) as nat);
            lemma_pow2_adds((jj - 1) as nat, (1075 - jj) as nat);
            lemma_pow2_pos((1075 - jj) as nat);
            assert(pp * (pow2((jj - 1) as nat) * c) < qq * c) by (nonlinear_arith)
                requires
                    pp * pow2((jj - 1) as nat) < qq,
                    c > 0,
            ;
            assert(fits_scale(pp as nat, qq as nat, s));
            let c2 = pow2((1074 - jj) as nat);
            lemma_pow2_adds(jj, (1074 - jj) as nat);
            assert(pp * (pow2(jj) * c2) >= qq * c2) by (nonlinear_arith)
                requires
                    pp * pow2(jj) >= qq,
                    c2 >= 0,
            ;
            assert(!fits_scale(pp as nat, qq as nat, (s - 1) as nat));
            lemma_ratio_scale(pp as nat, qq as nat, s, 1);
            lemma_ratio_at_scale(pp as nat, qq as nat, s);
            lemma_pow2_adds(jj, 52);
            assert(pp * (pow2(jj) * pow2(52)) == (pp * pow2(jj)) * pow2(52)) by (nonlinear_arith);
            assert(doubled < 2 * qq) by {
                lemma_pow2_unfold(jj);
                assert(pp * (2 * pow2((jj - 1) as nat)) == 2 * (pp * pow2((jj - 1) as nat)))
                    by (nonlinear_arith);
            }
        }
        n = doubled * 0x0010_0000_0000_0000;
        d = qq;
    } else {
        // The ratio is one or more: find how often the divisor doubles
        // before it is more than the ratio's upper part.
        let mut t: u32 = 1;
        let mut bound: u128 = qq * 2;
        proof {
            assert(qq * pow2(0) == qq) by (nonlinear_arith)
                requires
                    pow2(0) == 1,
            ;
        }
        while pp >= bound
            invariant
                1 <= t <= 64,
                qq >= 1,
                pp < 0x1_0000_0000_0000_0000,
                bound == qq * pow2(t as nat),
                pp >= qq * pow2((t - 1) as nat),
            decreases 64 - t,
        {
            proof {
                lemma2_to64();
                lemma_pow2_unfold((t + 1) as nat);
                if t == 64 {
                    assert(qq * pow2(64) >= pow2(64)) by (nonlinear_arith)
                        requires
                            qq >= 1,
                    ;
                }
                assert(qq * (2 * pow2(t as nat)) == 2 * (qq * pow2(t as nat))) by (nonlinear_arith);
            }
            bound = bound * 2;
            t = t + 1;
        }
        scale = 1022 + t as u64;
        proof {
            let s = scale as nat;
            let tt = t as nat;
            let c = pow2(1074);
            lemma_pow2_adds(tt, 1074);
            lemma_pow2_adds((tt - 1) as nat, 1074);
            assert(pp * c < qq * (pow2(tt) * c)) by (nonlinear_arith)
                requires
                    pp < qq * pow2(tt),
                    c > 0,
            ;
            assert(fits_scale(pp as nat, qq as nat, s));
            assert(pp * c >= qq * (pow2((tt - 1) as nat) * c)) by (nonlinear_arith)
                requires
                    pp >= qq * pow2((tt - 1) as nat),
                    c >= 0,
            ;
            assert(!fits_scale(pp as nat, qq as nat, (s - 1) as nat));
            lemma_ratio_scale(pp as nat, qq as nat, s, 1);
            lemma_ratio_at_scale(pp as nat, qq as nat, s);
        }
        if t <= 53 {
            let up = power_of_two(53 - t);
            proof {
                lemma_pow2_adds(t as nat, (53 - t) as nat);
                assert(pp * up < (qq * pow2(t as nat)) * up) by (nonlinear_arith)
                    requires
                        pp < qq * pow2(t as nat),
                        up > 0,
                ;
                assert((qq * pow2(t as nat)) * up == qq * (pow2(t as nat) * up))
                    by (nonlinear_arith);
                assert(qq * pow2(53) < 0x1_0000_0000_0000_0000 * 0x0020_0000_0000_0000)
                    by (nonlinear_arith)
                    requires
                        qq < 0x1_0000_0000_0000_0000,
                        pow2(53) == 0x0020_0000_0000_0000,
                ;
            }
            n = pp * up;
            d = qq;
        } else {
            let up = power_of_two(t - 53);
            proof {
                if t < 64 {
                    lemma_pow2_strictly_increases((t - 53) as nat, 11);
                }
                assert(qq * up <= 0x1_0000_0000_0000_0000 * 0x800) by (nonlinear_arith)
                    requires
                        qq < 0x1_0000_0000_0000_0000,
                        up <= 0x800,
                ;
                assert(qq * up > 0) by (nonlinear_arith)
                    requires
                        qq >= 1,
                        up > 0,
                ;
            }
            n = pp;
            d = qq * up;
        }
    }
    proof {
        // The ratio in units of its scale is below 2^53.
        assert(n < d * 0x0020_0000_0000_0000) by {
            let s = scale as nat;
            if s <= 1075 {
                lemma_pow2_adds((1075 - s) as nat, (s - 1) as nat);
                lemma_pow2_adds((s - 1) as nat, 53);
                lemma_pow2_pos((s - 1) as nat);
                let c = pow2((s - 1) as nat);
                assert(n * c < (d * pow2(53)) * c ==> n < d * pow2(53)) by (nonlinear_arith)
                    requires
                        c > 0,
                ;
                assert(n * c == pp * pow2(1074)) by (nonlinear_arith)
                    requires
                        n == pp * pow2((1075 - s) as nat),
                        pow2(1074) == pow2((1075 - s) as nat) * c,
                ;
                assert((d * pow2(53)) * c == qq * pow2(s + 52)) by (nonlinear_arith)
                    requires
                        d == qq,
                        pow2(s + 52) == c * pow2(53),
                ;
            } else {
                lemma_pow2_adds((s - 1075) as nat, 1127);
                lemma_pow2_adds(1074, 53);
                lemma_pow2_pos(1074);
                let c = pow2(1074);
                assert(n * c < (d * pow2(53)) * c ==> n < d * pow2(53)) by (nonlinear_arith)
                    requires
                        c > 0,
                ;
                assert((d * pow2(53)) * c == qq * pow2(s + 52)) by (nonlinear_arith)
                    requires
                        d == qq * pow2((s - 1075) as nat),
                        pow2(s + 52) == pow2((s - 1075) as nat) * pow2(1127),
                        pow2(1127) == c * pow2(53),
                ;
            }
        }
        lemma_quotient_between(n as nat, d as nat, 0, 0x0020_0000_0000_0000);
        assert(d < 0x1000_0000_0000_0000_0000);
        assert(n < 0x0100_0000_0000_0000_0000_0000_0000_0000);
    }
    let m = rounded_ratio(n, d);
    ((scale - 1) * HIDDEN_BIT + m as u64)
}

} // verus!
