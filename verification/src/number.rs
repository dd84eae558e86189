//! Numeric values of the language.
//!
//! The scanner produces decimal literals (`Decimal`: a mantissa and a count of
//! fraction digits); the evaluator computes with `Number`, an exact rational
//! held as a 64-bit numerator and denominator, extended with two infinities
//! and a not-a-number value so that division by zero never fails.
//!
//! Arithmetic is exact: results are reduced by their greatest common divisor.
//! When a reduced result does not fit the 64-bit carriers, numerator and
//! denominator are halved together until they fit (rounding toward zero); if
//! the denominator is already 1 and the numerator still does not fit, the
//! result is the infinity of the result's sign.  Equality over numbers is
//! total and reflexive: the not-a-number value equals itself.

use vstd::prelude::*;
use vstd::arithmetic::div_mod::lemma_mod_division_less_than_divisor;
use vstd::arithmetic::div_mod::lemma_div_non_zero;

verus! {

/// A decimal literal as scanned from source text: the value is
/// `mantissa / 10^scale`.  `12.5` is held as mantissa 125, scale 1;
/// `42` as mantissa 42, scale 0.
#[derive(Debug, PartialEq, Eq, Clone, Copy)]
pub struct Decimal {
    pub mantissa: u128,
    pub scale: usize,
}

/// The mathematical model of a `Decimal`.
pub struct DecimalModel {
    pub mantissa: nat,
    pub scale: nat,
}

impl View for Decimal {
    type V = DecimalModel;

    open spec fn view(&self) -> DecimalModel {
        DecimalModel { mantissa: self.mantissa as nat, scale: self.scale as nat }
    }
}

impl Decimal {
    pub fn new(mantissa: u128, scale: usize) -> (d: Decimal)
        ensures
            d@.mantissa == mantissa as nat,
            d@.scale == scale as nat,
    {
        Decimal { mantissa, scale }
    }
}

/// A runtime number: an exact rational `num / den` with `den >= 1`, or one of
/// the three special values that keep division total.
#[derive(Debug, PartialEq, Eq, Clone, Copy)]
pub enum Number {
    Finite { num: i64, den: u64 },
    PosInf,
    NegInf,
    Nan,
}

/// The mathematical model of a `Number`.
pub enum NumberModel {
    Finite { num: int, den: int },
    PosInf,
    NegInf,
    Nan,
}

impl View for Number {
    type V = NumberModel;

    open spec fn view(&self) -> NumberModel {
        match *self {
            Number::Finite { num, den } => NumberModel::Finite { num: num as int, den: den as int },
            Number::PosInf => NumberModel::PosInf,
            Number::NegInf => NumberModel::NegInf,
            Number::Nan => NumberModel::Nan,
        }
    }
}

pub open spec fn model_wf(v: NumberModel) -> bool {
    v matches NumberModel::Finite { num, den } ==> den >= 1
}

impl Number {
    /// Well-formedness: a finite number's denominator is positive.
    pub open spec fn wf(self) -> bool {
        model_wf(self@)
    }
}

/// Euclid's greatest common divisor.
pub open spec fn gcd(a: nat, b: nat) -> nat
    decreases b,
{
    if b == 0 {
        a
    } else {
        gcd(b, a % b)
    }
}

proof fn lemma_gcd_bounds(a: nat, b: nat)
    requires
        b >= 1,
    ensures
        1 <= gcd(a, b) <= b,
    decreases b,
{
    lemma_mod_division_less_than_divisor(a as int, b as int);
    let r = a % b;
    if r == 0 {
        assert(gcd(a, b) == gcd(b, 0));
    } else {
        lemma_gcd_bounds(b, r);
    }
}

/// Does a magnitude fit the signed 64-bit numerator carrier?
pub open spec fn num_fits(neg: bool, n: nat) -> bool {
    if neg {
        n <= 0x8000_0000_0000_0000
    } else {
        n <= 0x7fff_ffff_ffff_ffff
    }
}

/// Halve numerator and denominator together until both fit their carriers
/// (a rounding toward zero); a numerator that still does not fit over
/// denominator 1 is an infinity.
pub open spec fn fit(neg: bool, n: nat, d: nat) -> NumberModel
    decreases d,
{
    if num_fits(neg, n) && d <= 0xffff_ffff_ffff_ffff {
        NumberModel::Finite {
            num: if neg { -(n as int) } else { n as int },
            den: d as int,
        }
    } else if d >= 2 {
        fit(neg, n / 2, d / 2)
    } else if neg {
        NumberModel::NegInf
    } else {
        NumberModel::PosInf
    }
}

/// Reduce a signed magnitude ratio by its greatest common divisor, then make
/// it fit the carriers.
pub open spec fn norm(neg: bool, n: nat, d: nat) -> NumberModel {
    if n == 0 {
        NumberModel::Finite { num: 0, den: 1 }
    } else {
        fit(neg, n / gcd(n, d), d / gcd(n, d))
    }
}

pub open spec fn norm_int(n: int, d: nat) -> NumberModel {
    if n >= 0 {
        norm(false, n as nat, d)
    } else {
        norm(true, (-n) as nat, d)
    }
}

pub open spec fn abs_i(n: int) -> nat {
    if n >= 0 {
        n as nat
    } else {
        (-n) as nat
    }
}

/// Addition over number models: not-a-number propagates; opposite infinities
/// cancel to not-a-number; finite values add exactly and are normalized.  A
/// cross product beyond the 128-bit working range saturates to an infinity.
pub open spec fn spec_add(a: NumberModel, b: NumberModel) -> NumberModel {
    match (a, b) {
        (NumberModel::Nan, _) => NumberModel::Nan,
        (_, NumberModel::Nan) => NumberModel::Nan,
        (NumberModel::PosInf, NumberModel::NegInf) => NumberModel::Nan,
        (NumberModel::NegInf, NumberModel::PosInf) => NumberModel::Nan,
        (NumberModel::PosInf, _) => NumberModel::PosInf,
        (_, NumberModel::PosInf) => NumberModel::PosInf,
        (NumberModel::NegInf, _) => NumberModel::NegInf,
        (_, NumberModel::NegInf) => NumberModel::NegInf,
        (NumberModel::Finite { num: an, den: ad }, NumberModel::Finite { num: bn, den: bd }) => {
            let s = an * bd + bn * ad;
            if s > i128::MAX {
                NumberModel::PosInf
            } else if s < i128::MIN {
                NumberModel::NegInf
            } else {
                norm_int(s, (ad * bd) as nat)
            }
        },
    }
}

/// Subtraction over number models, the mirror image of `spec_add`.
pub open spec fn spec_sub(a: NumberModel, b: NumberModel) -> NumberModel {
    match (a, b) {
        (NumberModel::Nan, _) => NumberModel::Nan,
        (_, NumberModel::Nan) => NumberModel::Nan,
        (NumberModel::PosInf, NumberModel::PosInf) => NumberModel::Nan,
        (NumberModel::NegInf, NumberModel::NegInf) => NumberModel::Nan,
        (NumberModel::PosInf, _) => NumberModel::PosInf,
        (_, NumberModel::NegInf) => NumberModel::PosInf,
        (NumberModel::NegInf, _) => NumberModel::NegInf,
        (_, NumberModel::PosInf) => NumberModel::NegInf,
        (NumberModel::Finite { num: an, den: ad }, NumberModel::Finite { num: bn, den: bd }) => {
            let s = an * bd - bn * ad;
            if s > i128::MAX {
                NumberModel::PosInf
            } else if s < i128::MIN {
                NumberModel::NegInf
            } else {
                norm_int(s, (ad * bd) as nat)
            }
        },
    }
}

/// Multiplication over number models; an infinity times zero is not-a-number.
pub open spec fn spec_mul(a: NumberModel, b: NumberModel) -> NumberModel {
    match (a, b) {
        (NumberModel::Nan, _) => NumberModel::Nan,
        (_, NumberModel::Nan) => NumberModel::Nan,
        (NumberModel::PosInf, NumberModel::PosInf) => NumberModel::PosInf,
        (NumberModel::PosInf, NumberModel::NegInf) => NumberModel::NegInf,
        (NumberModel::NegInf, NumberModel::PosInf) => NumberModel::NegInf,
        (NumberModel::NegInf, NumberModel::NegInf) => NumberModel::PosInf,
        (NumberModel::PosInf, NumberModel::Finite { num, .. }) => {
            if num > 0 {
                NumberModel::PosInf
            } else if num < 0 {
                NumberModel::NegInf
            } else {
                NumberModel::Nan
            }
        },
        (NumberModel::Finite { num, .. }, NumberModel::PosInf) => {
            if num > 0 {
                NumberModel::PosInf
            } else if num < 0 {
                NumberModel::NegInf
            } else {
                NumberModel::Nan
            }
        },
        (NumberModel::NegInf, NumberModel::Finite { num, .. }) => {
            if num > 0 {
                NumberModel::NegInf
            } else if num < 0 {
                NumberModel::PosInf
            } else {
                NumberModel::Nan
            }
        },
        (NumberModel::Finite { num, .. }, NumberModel::NegInf) => {
            if num > 0 {
                NumberModel::NegInf
            } else if num < 0 {
                NumberModel::PosInf
            } else {
                NumberModel::Nan
            }
        },
        (NumberModel::Finite { num: an, den: ad }, NumberModel::Finite { num: bn, den: bd }) => {
            norm_int(an * bn, (ad * bd) as nat)
        },
    }
}

/// Division over number models: a nonzero finite value over zero is the
/// infinity of its sign, zero over zero is not-a-number, a finite value over
/// an infinity is zero.
pub open spec fn spec_div(a: NumberModel, b: NumberModel) -> NumberModel {
    match (a, b) {
        (NumberModel::Nan, _) => NumberModel::Nan,
        (_, NumberModel::Nan) => NumberModel::Nan,
        (NumberModel::PosInf, NumberModel::PosInf) => NumberModel::Nan,
        (NumberModel::PosInf, NumberModel::NegInf) => NumberModel::Nan,
        (NumberModel::NegInf, NumberModel::PosInf) => NumberModel::Nan,
        (NumberModel::NegInf, NumberModel::NegInf) => NumberModel::Nan,
        (NumberModel::PosInf, NumberModel::Finite { num, .. }) => {
            if num < 0 {
                NumberModel::NegInf
            } else {
                NumberModel::PosInf
            }
        },
        (NumberModel::NegInf, NumberModel::Finite { num, .. }) => {
            if num < 0 {
                NumberModel::PosInf
            } else {
                NumberModel::NegInf
            }
        },
        (NumberModel::Finite { .. }, NumberModel::PosInf) => NumberModel::Finite { num: 0, den: 1 },
        (NumberModel::Finite { .. }, NumberModel::NegInf) => NumberModel::Finite { num: 0, den: 1 },
        (NumberModel::Finite { num: an, den: ad }, NumberModel::Finite { num: bn, den: bd }) => {
            if bn == 0 {
                if an > 0 {
                    NumberModel::PosInf
                } else if an < 0 {
                    NumberModel::NegInf
                } else {
                    NumberModel::Nan
                }
            } else {
                norm((an < 0) != (bn < 0), abs_i(an) * (bd as nat), (ad as nat) * abs_i(bn))
            }
        },
    }
}

/// Arithmetic negation over number models.
pub open spec fn spec_neg(a: NumberModel) -> NumberModel {
    match a {
        NumberModel::Nan => NumberModel::Nan,
        NumberModel::PosInf => NumberModel::NegInf,
        NumberModel::NegInf => NumberModel::PosInf,
        NumberModel::Finite { num, den } => norm_int(-num, den as nat),
    }
}

/// Equality over number models.  It is total and reflexive: not-a-number
/// equals itself, and finite values compare by cross-multiplication.
pub open spec fn spec_eq(a: NumberModel, b: NumberModel) -> bool {
    match (a, b) {
        (NumberModel::Nan, NumberModel::Nan) => true,
        (NumberModel::PosInf, NumberModel::PosInf) => true,
        (NumberModel::NegInf, NumberModel::NegInf) => true,
        (NumberModel::Finite { num: an, den: ad }, NumberModel::Finite { num: bn, den: bd }) => {
            an * bd == bn * ad
        },
        _ => false,
    }
}

/// Strict order over number models; any comparison against not-a-number is
/// false.
pub open spec fn spec_lt(a: NumberModel, b: NumberModel) -> bool {
    match (a, b) {
        (NumberModel::Nan, _) => false,
        (_, NumberModel::Nan) => false,
        (NumberModel::NegInf, NumberModel::NegInf) => false,
        (NumberModel::NegInf, _) => true,
        (_, NumberModel::NegInf) => false,
        (NumberModel::PosInf, _) => false,
        (NumberModel::Finite { .. }, NumberModel::PosInf) => true,
        (NumberModel::Finite { num: an, den: ad }, NumberModel::Finite { num: bn, den: bd }) => {
            an * bd < bn * ad
        },
    }
}

/// Non-strict order over number models; any comparison against not-a-number
/// is false.
pub open spec fn spec_le(a: NumberModel, b: NumberModel) -> bool {
    match (a, b) {
        (NumberModel::Nan, _) => false,
        (_, NumberModel::Nan) => false,
        (NumberModel::NegInf, _) => true,
        (_, NumberModel::NegInf) => false,
        (_, NumberModel::PosInf) => true,
        (NumberModel::PosInf, _) => false,
        (NumberModel::Finite { num: an, den: ad }, NumberModel::Finite { num: bn, den: bd }) => {
            an * bd <= bn * ad
        },
    }
}

proof fn lemma_abs_mul(x: int, y: int, xb: int, yb: int)
    by (nonlinear_arith)
    requires
        -xb <= x <= xb,
        -yb <= y <= yb,
        0 <= xb,
        0 <= yb,
    ensures
        -(xb * yb) <= x * y <= xb * yb,
{
}

proof fn lemma_pos_mul(x: int, y: int)
    by (nonlinear_arith)
    requires
        x >= 1,
        y >= 1,
    ensures
        x * y >= 1,
{
}

fn gcd_u128(a: u128, b: u128) -> (g: u128)
    ensures
        g as nat == gcd(a as nat, b as nat),
{
    let mut x = a;
    let mut y = b;
    while y != 0
        invariant
            gcd(x as nat, y as nat) == gcd(a as nat, b as nat),
        decreases y,
    {
        proof {
            lemma_mod_division_less_than_divisor(x as int, y as int);
        }
        let r = x % y;
        x = y;
        y = r;
    }
    x
}

/// Exec counterpart of `norm`.
fn normalize(neg: bool, n: u128, d: u128) -> (r: Number)
    requires
        d >= 1,
    ensures
        r@ == norm(neg, n as nat, d as nat),
        r.wf(),
{
    if n == 0 {
        return Number::Finite { num: 0, den: 1 };
    }
    let g = gcd_u128(n, d);
    proof {
        lemma_gcd_bounds(n as nat, d as nat);
        lemma_div_non_zero(d as int, g as int);
    }
    let mut nn = n / g;
    let mut dd = d / g;
    let bound: u128 = if neg {
        0x8000_0000_0000_0000
    } else {
        0x7fff_ffff_ffff_ffff
    };
    loop
        invariant
            dd >= 1,
            n != 0,
            g as nat == gcd(n as nat, d as nat),
            (bound == 0x8000_0000_0000_0000 && neg) || (bound == 0x7fff_ffff_ffff_ffff && !neg),
            fit(neg, nn as nat, dd as nat) == fit(neg, (n / g) as nat, (d / g) as nat),
        decreases dd,
    {
        if nn <= bound && dd <= 0xffff_ffff_ffff_ffff {
            let num: i64 = if neg {
                (-(nn as i128)) as i64
            } else {
                nn as i64
            };
            proof {
                assert(num_fits(neg, nn as nat));
                assert(fit(neg, nn as nat, dd as nat) == NumberModel::Finite {
                    num: if neg { -(nn as int) } else { nn as int },
                    den: dd as int,
                });
                assert(num as int == if neg { -(nn as int) } else { nn as int });
            }
            return Number::Finite { num, den: dd as u64 };
        } else if dd >= 2 {
            proof {
                assert(fit(neg, nn as nat, dd as nat) == fit(neg, (nn / 2) as nat, (dd / 2) as nat));
            }
            nn = nn / 2;
            dd = dd / 2;
        } else {
            proof {
                assert(!(num_fits(neg, nn as nat) && dd as nat <= 0xffff_ffff_ffff_ffff));
                assert(fit(neg, nn as nat, dd as nat) == if neg { NumberModel::NegInf } else { NumberModel::PosInf });
            }
            return if neg {
                Number::NegInf
            } else {
                Number::PosInf
            };
        }
    }
}

fn abs64(n: i64) -> (m: u64)
    ensures
        m as nat == abs_i(n as int),
{
    if n >= 0 {
        n as u64
    } else if n == i64::MIN {
        0x8000_0000_0000_0000u64
    } else {
        (-n) as u64
    }
}

/// Exec counterpart of `norm_int` for a signed 128-bit numerator.
fn from_i128_ratio(n: i128, d: u128) -> (r: Number)
    requires
        d >= 1,
    ensures
        r@ == norm_int(n as int, d as nat),
        r.wf(),
{
    if n >= 0 {
        normalize(false, n as u128, d)
    } else if n == i128::MIN {
        normalize(true, 0x8000_0000_0000_0000_0000_0000_0000_0000u128, d)
    } else {
        normalize(true, (-n) as u128, d)
    }
}

impl Number {
    pub fn from_int(n: i64) -> (r: Number)
        ensures
            r@ == (NumberModel::Finite { num: n as int, den: 1 }),
            r.wf(),
    {
        Number::Finite { num: n, den: 1 }
    }

    /// Convert a scanned decimal literal to a runtime number: trailing zero
    /// fraction digits are dropped, fraction digits beyond the nineteenth are
    /// truncated (ten to the nineteenth is the largest power of ten the
    /// denominator carrier holds), and the resulting ratio over a power of
    /// ten is normalized.
    pub fn from_decimal(d: &Decimal) -> (r: Number)
        ensures
            r@ == spec_from_decimal(d@),
            r.wf(),
    {
        let mut m: u128 = d.mantissa;
        let mut s: usize = d.scale;
        while s > 0 && m % 10 == 0
            invariant
                strip_zeros(m as nat, s as nat) == strip_zeros(d@.mantissa, d@.scale),
            decreases s,
        {
            proof {
                assert(strip_zeros(m as nat, s as nat) == strip_zeros((m as nat) / 10, (s - 1) as nat));
            }
            m = m / 10;
            s = s - 1;
        }
        proof {
            assert(strip_zeros(m as nat, s as nat) == (m as nat, s as nat));
        }
        while s > 19
            invariant
                trunc19(m as nat, s as nat) == trunc19(strip_zeros(d@.mantissa, d@.scale).0, strip_zeros(d@.mantissa, d@.scale).1),
            decreases s,
        {
            proof {
                assert(trunc19(m as nat, s as nat) == trunc19((m as nat) / 10, (s - 1) as nat));
            }
            m = m / 10;
            s = s - 1;
        }
        proof {
            assert(trunc19(m as nat, s as nat) == (m as nat, s as nat));
        }
        let mut den: u64 = 1;
        let mut i: usize = 0;
        while i < s
            invariant
                i <= s <= 19,
                den as nat == pow10(i as nat),
            decreases s - i,
        {
            proof {
                lemma_pow10_bound(19);
                lemma_pow10_increases(i as nat, 18);
            }
            den = den * 10;
            i = i + 1;
        }
        proof {
            lemma_pow10_pos(s as nat);
        }
        normalize(false, m, den as u128)
    }

    pub fn add(self, rhs: Number) -> (r: Number)
        requires
            self.wf(),
            rhs.wf(),
        ensures
            r@ == spec_add(self@, rhs@),
            r.wf(),
    {
        match (self, rhs) {
            (Number::Nan, _) => Number::Nan,
            (_, Number::Nan) => Number::Nan,
            (Number::PosInf, Number::NegInf) => Number::Nan,
            (Number::NegInf, Number::PosInf) => Number::Nan,
            (Number::PosInf, _) => Number::PosInf,
            (_, Number::PosInf) => Number::PosInf,
            (Number::NegInf, _) => Number::NegInf,
            (_, Number::NegInf) => Number::NegInf,
            (Number::Finite { num: an, den: ad }, Number::Finite { num: bn, den: bd }) => {
                proof {
                    lemma_abs_mul(an as int, bd as int, 0x8000_0000_0000_0000, 0xffff_ffff_ffff_ffff);
                    lemma_abs_mul(bn as int, ad as int, 0x8000_0000_0000_0000, 0xffff_ffff_ffff_ffff);
                    lemma_abs_mul(ad as int, bd as int, 0xffff_ffff_ffff_ffff, 0xffff_ffff_ffff_ffff);
                    lemma_pos_mul(ad as int, bd as int);
                }
                let p1: i128 = (an as i128) * (bd as i128);
                let p2: i128 = (bn as i128) * (ad as i128);
                let dd: u128 = (ad as u128) * (bd as u128);
                match p1.checked_add(p2) {
                    Some(s) => from_i128_ratio(s, dd),
                    None => {
                        if p1 > 0 {
                            Number::PosInf
                        } else {
                            Number::NegInf
                        }
                    },
                }
            },
        }
    }

    pub fn sub(self, rhs: Number) -> (r: Number)
        requires
            self.wf(),
            rhs.wf(),
        ensures
            r@ == spec_sub(self@, rhs@),
            r.wf(),
    {
        match (self, rhs) {
            (Number::Nan, _) => Number::Nan,
            (_, Number::Nan) => Number::Nan,
            (Number::PosInf, Number::PosInf) => Number::Nan,
            (Number::NegInf, Number::NegInf) => Number::Nan,
            (Number::PosInf, _) => Number::PosInf,
            (_, Number::NegInf) => Number::PosInf,
            (Number::NegInf, _) => Number::NegInf,
            (_, Number::PosInf) => Number::NegInf,
            (Number::Finite { num: an, den: ad }, Number::Finite { num: bn, den: bd }) => {
                proof {
                    lemma_abs_mul(an as int, bd as int, 0x8000_0000_0000_0000, 0xffff_ffff_ffff_ffff);
                    lemma_abs_mul(bn as int, ad as int, 0x8000_0000_0000_0000, 0xffff_ffff_ffff_ffff);
                    lemma_abs_mul(ad as int, bd as int, 0xffff_ffff_ffff_ffff, 0xffff_ffff_ffff_ffff);
                    lemma_pos_mul(ad as int, bd as int);
                }
                let p1: i128 = (an as i128) * (bd as i128);
                let p2: i128 = (bn as i128) * (ad as i128);
                let dd: u128 = (ad as u128) * (bd as u128);
                match p1.checked_sub(p2) {
                    Some(s) => from_i128_ratio(s, dd),
                    None => {
                        if p1 > 0 {
                            Number::PosInf
                        } else {
                            Number::NegInf
                        }
                    },
                }
            },
        }
    }

    pub fn mul(self, rhs: Number) -> (r: Number)
        requires
            self.wf(),
            rhs.wf(),
        ensures
            r@ == spec_mul(self@, rhs@),
            r.wf(),
    {
        match (self, rhs) {
            (Number::Nan, _) => Number::Nan,
            (_, Number::Nan) => Number::Nan,
            (Number::PosInf, Number::PosInf) => Number::PosInf,
            (Number::PosInf, Number::NegInf) => Number::NegInf,
            (Number::NegInf, Number::PosInf) => Number::NegInf,
            (Number::NegInf, Number::NegInf) => Number::PosInf,
            (Number::PosInf, Number::Finite { num, .. }) => {
                if num > 0 {
                    Number::PosInf
                } else if num < 0 {
                    Number::NegInf
                } else {
                    Number::Nan
                }
            },
            (Number::Finite { num, .. }, Number::PosInf) => {
                if num > 0 {
                    Number::PosInf
                } else if num < 0 {
                    Number::NegInf
                } else {
                    Number::Nan
                }
            },
            (Number::NegInf, Number::Finite { num, .. }) => {
                if num > 0 {
                    Number::NegInf
                } else if num < 0 {
                    Number::PosInf
                } else {
                    Number::Nan
                }
            },
            (Number::Finite { num, .. }, Number::NegInf) => {
                if num > 0 {
                    Number::NegInf
                } else if num < 0 {
                    Number::PosInf
                } else {
                    Number::Nan
                }
            },
            (Number::Finite { num: an, den: ad }, Number::Finite { num: bn, den: bd }) => {
                proof {
                    lemma_abs_mul(an as int, bn as int, 0x8000_0000_0000_0000, 0x8000_0000_0000_0000);
                    lemma_abs_mul(ad as int, bd as int, 0xffff_ffff_ffff_ffff, 0xffff_ffff_ffff_ffff);
                    lemma_pos_mul(ad as int, bd as int);
                }
                let p: i128 = (an as i128) * (bn as i128);
                let dd: u128 = (ad as u128) * (bd as u128);
                from_i128_ratio(p, dd)
            },
        }
    }

    pub fn div(self, rhs: Number) -> (r: Number)
        requires
            self.wf(),
            rhs.wf(),
        ensures
            r@ == spec_div(self@, rhs@),
            r.wf(),
    {
        match (self, rhs) {
            (Number::Nan, _) => Number::Nan,
            (_, Number::Nan) => Number::Nan,
            (Number::PosInf, Number::PosInf) => Number::Nan,
            (Number::PosInf, Number::NegInf) => Number::Nan,
            (Number::NegInf, Number::PosInf) => Number::Nan,
            (Number::NegInf, Number::NegInf) => Number::Nan,
            (Number::PosInf, Number::Finite { num, .. }) => {
                if num < 0 {
                    Number::NegInf
                } else {
                    Number::PosInf
                }
            },
            (Number::NegInf, Number::Finite { num, .. }) => {
                if num < 0 {
                    Number::PosInf
                } else {
                    Number::NegInf
                }
            },
            (Number::Finite { .. }, Number::PosInf) => Number::Finite { num: 0, den: 1 },
            (Number::Finite { .. }, Number::NegInf) => Number::Finite { num: 0, den: 1 },
            (Number::Finite { num: an, den: ad }, Number::Finite { num: bn, den: bd }) => {
                if bn == 0 {
                    if an > 0 {
                        Number::PosInf
                    } else if an < 0 {
                        Number::NegInf
                    } else {
                        Number::Nan
                    }
                } else {
                    let na = abs64(an);
                    let nb = abs64(bn);
                    proof {
                        lemma_abs_mul(na as int, bd as int, 0x8000_0000_0000_0000, 0xffff_ffff_ffff_ffff);
                        lemma_abs_mul(ad as int, nb as int, 0xffff_ffff_ffff_ffff, 0x8000_0000_0000_0000);
                        lemma_pos_mul(ad as int, nb as int);
                    }
                    let n_mag: u128 = (na as u128) * (bd as u128);
                    let d_mag: u128 = (ad as u128) * (nb as u128);
                    normalize((an < 0) != (bn < 0), n_mag, d_mag)
                }
            },
        }
    }

    /// Arithmetic negation.
    pub fn neg(self) -> (r: Number)
        requires
            self.wf(),
        ensures
            r@ == spec_neg(self@),
            r.wf(),
    {
        match self {
            Number::Nan => Number::Nan,
            Number::PosInf => Number::NegInf,
            Number::NegInf => Number::PosInf,
            Number::Finite { num, den } => {
                let mag = abs64(num);
                if num > 0 {
                    normalize(true, mag as u128, den as u128)
                } else {
                    normalize(false, mag as u128, den as u128)
                }
            },
        }
    }

    pub fn num_eq(self, rhs: Number) -> (r: bool)
        requires
            self.wf(),
            rhs.wf(),
        ensures
            r == spec_eq(self@, rhs@),
    {
        match (self, rhs) {
            (Number::Nan, Number::Nan) => true,
            (Number::PosInf, Number::PosInf) => true,
            (Number::NegInf, Number::NegInf) => true,
            (Number::Finite { num: an, den: ad }, Number::Finite { num: bn, den: bd }) => {
                proof {
                    lemma_abs_mul(an as int, bd as int, 0x8000_0000_0000_0000, 0xffff_ffff_ffff_ffff);
                    lemma_abs_mul(bn as int, ad as int, 0x8000_0000_0000_0000, 0xffff_ffff_ffff_ffff);
                }
                (an as i128) * (bd as i128) == (bn as i128) * (ad as i128)
            },
            _ => false,
        }
    }

    pub fn num_lt(self, rhs: Number) -> (r: bool)
        requires
            self.wf(),
            rhs.wf(),
        ensures
            r == spec_lt(self@, rhs@),
    {
        match (self, rhs) {
            (Number::Nan, _) => false,
            (_, Number::Nan) => false,
            (Number::NegInf, Number::NegInf) => false,
            (Number::NegInf, _) => true,
            (_, Number::NegInf) => false,
            (Number::PosInf, _) => false,
            (Number::Finite { .. }, Number::PosInf) => true,
            (Number::Finite { num: an, den: ad }, Number::Finite { num: bn, den: bd }) => {
                proof {
                    lemma_abs_mul(an as int, bd as int, 0x8000_0000_0000_0000, 0xffff_ffff_ffff_ffff);
                    lemma_abs_mul(bn as int, ad as int, 0x8000_0000_0000_0000, 0xffff_ffff_ffff_ffff);
                }
                (an as i128) * (bd as i128) < (bn as i128) * (ad as i128)
            },
        }
    }

    pub fn num_le(self, rhs: Number) -> (r: bool)
        requires
            self.wf(),
            rhs.wf(),
        ensures
            r == spec_le(self@, rhs@),
    {
        match (self, rhs) {
            (Number::Nan, _) => false,
            (_, Number::Nan) => false,
            (Number::NegInf, _) => true,
            (_, Number::NegInf) => false,
            (_, Number::PosInf) => true,
            (Number::PosInf, _) => false,
            (Number::Finite { num: an, den: ad }, Number::Finite { num: bn, den: bd }) => {
                proof {
                    lemma_abs_mul(an as int, bd as int, 0x8000_0000_0000_0000, 0xffff_ffff_ffff_ffff);
                    lemma_abs_mul(bn as int, ad as int, 0x8000_0000_0000_0000, 0xffff_ffff_ffff_ffff);
                }
                (an as i128) * (bd as i128) <= (bn as i128) * (ad as i128)
            },
        }
    }
}

/// Drop trailing zero fraction digits of a decimal.
pub open spec fn strip_zeros(m: nat, s: nat) -> (nat, nat)
    decreases s,
{
    if s > 0 && m % 10 == 0 {
        strip_zeros(m / 10, (s - 1) as nat)
    } else {
        (m, s)
    }
}

/// Truncate fraction digits beyond the nineteenth.
pub open spec fn trunc19(m: nat, s: nat) -> (nat, nat)
    decreases s,
{
    if s > 19 {
        trunc19(m / 10, (s - 1) as nat)
    } else {
        (m, s)
    }
}

pub open spec fn pow10(n: nat) -> nat
    decreases n,
{
    if n == 0 {
        1
    } else {
        10 * pow10((n - 1) as nat)
    }
}

proof fn lemma_pow10_bound(n: nat)
    requires
        n <= 19,
    ensures
        pow10(n) <= 10_000_000_000_000_000_000,
    decreases n,
{
    lemma_pow10_increases(n, 19);
    reveal_with_fuel(pow10, 21);
    assert(pow10(19) == 10_000_000_000_000_000_000);
}

proof fn lemma_pow10_increases(a: nat, b: nat)
    requires
        a <= b,
    ensures
        pow10(a) <= pow10(b),
    decreases b,
{
    if a < b {
        lemma_pow10_increases(a, (b - 1) as nat);
        assert(pow10(b) == 10 * pow10((b - 1) as nat));
        assert(pow10((b - 1) as nat) >= 1) by {
            lemma_pow10_pos((b - 1) as nat);
        }
    }
}

proof fn lemma_pow10_pos(n: nat)
    ensures
        pow10(n) >= 1,
    decreases n,
{
    if n > 0 {
        lemma_pow10_pos((n - 1) as nat);
    }
}

/// The number denoted by a decimal literal, after stripping, truncation and
/// normalization.
pub open spec fn spec_from_decimal(d: DecimalModel) -> NumberModel {
    let stripped = strip_zeros(d.mantissa, d.scale);
    let truncated = trunc19(stripped.0, stripped.1);
    norm(false, truncated.0, pow10(truncated.1))
}

pub open spec fn digit_char(d: nat) -> char {
    if d == 0 {
        '0'
    } else if d == 1 {
        '1'
    } else if d == 2 {
        '2'
    } else if d == 3 {
        '3'
    } else if d == 4 {
        '4'
    } else if d == 5 {
        '5'
    } else if d == 6 {
        '6'
    } else if d == 7 {
        '7'
    } else if d == 8 {
        '8'
    } else {
        '9'
    }
}

fn digit_str(d: u128) -> (r: &'static str)
    requires
        d < 10,
    ensures
        r@ == seq![digit_char(d as nat)],
{
    let r = match d {
        0 => "0",
        1 => "1",
        2 => "2",
        3 => "3",
        4 => "4",
        5 => "5",
        6 => "6",
        7 => "7",
        8 => "8",
        _ => "9",
    };
    proof {
        reveal_strlit("0");
        reveal_strlit("1");
        reveal_strlit("2");
        reveal_strlit("3");
        reveal_strlit("4");
        reveal_strlit("5");
        reveal_strlit("6");
        reveal_strlit("7");
        reveal_strlit("8");
        reveal_strlit("9");
        assert(r@ =~= seq![digit_char(d as nat)]);
    }
    r
}

/// The decimal digit string of a natural number, most significant digit
/// first.
pub open spec fn dec_str(n: nat) -> Seq<char>
    decreases n,
{
    if n < 10 {
        seq![digit_char(n)]
    } else {
        dec_str(n / 10).push(digit_char(n % 10))
    }
}

fn u128_string(n: u128) -> (r: String)
    ensures
        r@ == dec_str(n as nat),
    decreases n,
{
    if n < 10 {
        String::from_str(digit_str(n))
    } else {
        proof {
            vstd::arithmetic::div_mod::lemma_div_decreases(n as int, 10);
        }
        let mut r = u128_string(n / 10);
        r.append(digit_str(n % 10));
        proof {
            assert(r@ =~= dec_str(n as nat));
        }
        r
    }
}

/// The last `s` decimal digits of `m`, zero-padded to length `s`.
pub open spec fn frac_str(m: nat, s: nat) -> Seq<char>
    decreases s,
{
    if s == 0 {
        Seq::empty()
    } else {
        frac_str(m / 10, (s - 1) as nat).push(digit_char(m % 10))
    }
}

/// `m` with its last `s` decimal digits removed.
pub open spec fn int_part(m: nat, s: nat) -> nat
    decreases s,
{
    if s == 0 {
        m
    } else {
        int_part(m / 10, (s - 1) as nat)
    }
}

/// The canonical text of a decimal literal: the integer part's digits, and,
/// if the scale is positive, a point and the zero-padded fraction digits.
pub open spec fn dec_render(d: DecimalModel) -> Seq<char> {
    if d.scale == 0 {
        dec_str(d.mantissa)
    } else {
        dec_str(int_part(d.mantissa, d.scale)) + "."@ + frac_str(d.mantissa, d.scale)
    }
}

fn frac_part(m: u128, s: usize) -> (r: (String, u128))
    ensures
        r.0@ == frac_str(m as nat, s as nat),
        r.1 as nat == int_part(m as nat, s as nat),
    decreases s,
{
    if s == 0 {
        (String::new(), m)
    } else {
        let d = m % 10;
        let (mut f, rest) = frac_part(m / 10, s - 1);
        f.append(digit_str(d));
        proof {
            assert(f@ =~= frac_str(m as nat, s as nat));
        }
        (f, rest)
    }
}

impl Decimal {
    /// The canonical text of this decimal, mirroring the scanned digits.
    pub fn render(&self) -> (r: String)
        ensures
            r@ == dec_render(self@),
    {
        if self.scale == 0 {
            u128_string(self.mantissa)
        } else {
            let (f, ip) = frac_part(self.mantissa, self.scale);
            let mut r = u128_string(ip);
            r.append(".");
            r.append(f.as_str());
            proof {
                assert(r@ =~= dec_render(self@));
            }
            r
        }
    }
}

} // verus!
