//! Exact rational numbers on machine integers.
//!
//! A `Rat` is a fraction of two `i64`s with a positive denominator; it is not
//! kept in lowest terms. Its mathematical value is the spec-level fraction
//! `SRat` of unbounded integers. The arithmetic operations compute the exact
//! numerator and denominator of the textbook formulas in 128-bit intermediates
//! and return `None` exactly when that exact pair leaves the `i64` range.

use vstd::prelude::*;

verus! {

/// The mathematical value of a rational: an unbounded numerator and
/// denominator. Well-formed values have a positive denominator.
pub ghost struct SRat {
    pub num: int,
    pub den: int,
}

/// A well-formed spec rational has a positive denominator.
pub open spec fn srat_wf(a: SRat) -> bool {
    a.den > 0
}

/// The rational with integer value `n`.
pub open spec fn srat_int(n: int) -> SRat {
    SRat { num: n, den: 1 }
}

/// Equality of fractions by cross-multiplication.
pub open spec fn srat_eq(a: SRat, b: SRat) -> bool {
    a.num * b.den == b.num * a.den
}

/// Exact sum: `a/b + c/d == (a*d + c*b) / (b*d)`.
pub open spec fn srat_add(a: SRat, b: SRat) -> SRat {
    SRat { num: a.num * b.den + b.num * a.den, den: a.den * b.den }
}

/// Exact difference: `a/b - c/d == (a*d - c*b) / (b*d)`.
pub open spec fn srat_sub(a: SRat, b: SRat) -> SRat {
    SRat { num: a.num * b.den - b.num * a.den, den: a.den * b.den }
}

/// Exact product.
pub open spec fn srat_mul(a: SRat, b: SRat) -> SRat {
    SRat { num: a.num * b.num, den: a.den * b.den }
}

/// Exact quotient, with the sign moved into the numerator so that a
/// well-formed dividend and a divisor with nonzero numerator give a
/// well-formed result.
pub open spec fn srat_div(a: SRat, b: SRat) -> SRat {
    if b.num >= 0 {
        SRat { num: a.num * b.den, den: a.den * b.num }
    } else {
        SRat { num: -(a.num * b.den), den: -(a.den * b.num) }
    }
}

/// Whether an unbounded integer fits in an `i64`.
pub open spec fn in_i64(x: int) -> bool {
    i64::MIN <= x <= i64::MAX
}

/// Whether the exact sum of `a` and `b` is representable.
pub open spec fn add_fits(a: SRat, b: SRat) -> bool {
    in_i64(srat_add(a, b).num) && in_i64(srat_add(a, b).den)
}

/// Whether the exact difference of `a` and `b` is representable.
pub open spec fn sub_fits(a: SRat, b: SRat) -> bool {
    in_i64(srat_sub(a, b).num) && in_i64(srat_sub(a, b).den)
}

/// Whether the exact product of `a` and `b` is representable.
pub open spec fn mul_fits(a: SRat, b: SRat) -> bool {
    in_i64(srat_mul(a, b).num) && in_i64(srat_mul(a, b).den)
}

/// Whether the exact quotient of `a` by `b` is representable.
pub open spec fn div_fits(a: SRat, b: SRat) -> bool {
    in_i64(srat_div(a, b).num) && in_i64(srat_div(a, b).den)
}

/// `|x| <= bx` and `|y| <= by` bound the product by `bx * by`.
proof fn lemma_mul_bound(x: int, y: int, bx: int, by: int)
    by (nonlinear_arith)
    requires
        -bx <= x <= bx,
        -by <= y <= by,
        0 <= bx,
        0 <= by,
    ensures
        -(bx * by) <= x * y <= bx * by,
{
}

/// The product of two positive integers is positive.
proof fn lemma_mul_pos(x: int, y: int)
    by (nonlinear_arith)
    requires
        x > 0,
        y > 0,
    ensures
        x * y > 0,
{
}

/// An executable rational number: an `i64` fraction with positive
/// denominator, not necessarily in lowest terms.
#[derive(Clone, Copy, Debug)]
pub struct Rat {
    num: i64,
    den: i64,
}

impl View for Rat {
    type V = SRat;

    closed spec fn view(&self) -> SRat {
        SRat { num: self.num as int, den: self.den as int }
    }
}

impl Rat {
    /// A well-formed rational has a positive denominator.
    pub open spec fn wf(&self) -> bool {
        srat_wf(self@)
    }

    /// Builds the fraction `num / den`.
    pub fn new(num: i64, den: i64) -> (r: Rat)
        requires
            den > 0,
        ensures
            r.wf(),
            r@ == (SRat { num: num as int, den: den as int }),
    {
        Rat { num, den }
    }

    /// Builds the rational with integer value `n`.
    pub fn from_int(n: i64) -> (r: Rat)
        ensures
            r.wf(),
            r@ == srat_int(n as int),
    {
        Rat { num: n, den: 1 }
    }

    /// The numerator.
    pub fn num(&self) -> (r: i64)
        ensures
            r as int == self@.num,
    {
        self.num
    }

    /// The denominator.
    pub fn den(&self) -> (r: i64)
        ensures
            r as int == self@.den,
    {
        self.den
    }

    /// Whether the numerator is zero, i.e. the value is zero.
    pub fn is_zero(&self) -> (r: bool)
        ensures
            r == (self@.num == 0),
    {
        self.num == 0
    }

    /// Exact sum; `None` exactly when the exact numerator or denominator
    /// leaves the `i64` range.
    pub fn try_add(&self, other: &Rat) -> (r: Option<Rat>)
        requires
            self.wf(),
            other.wf(),
        ensures
            r is Some <==> add_fits(self@, other@),
            r matches Some(c) ==> c@ == srat_add(self@, other@) && c.wf(),
    {
        proof {
            lemma_mul_bound(self.num as int, other.den as int, 0x8000_0000_0000_0000, 0x7fff_ffff_ffff_ffff);
            lemma_mul_bound(other.num as int, self.den as int, 0x8000_0000_0000_0000, 0x7fff_ffff_ffff_ffff);
            lemma_mul_bound(self.den as int, other.den as int, 0x7fff_ffff_ffff_ffff, 0x7fff_ffff_ffff_ffff);
            lemma_mul_pos(self.den as int, other.den as int);
        }
        let n1: i128 = (self.num as i128) * (other.den as i128);
        let n2: i128 = (other.num as i128) * (self.den as i128);
        let n: i128 = n1 + n2;
        let d: i128 = (self.den as i128) * (other.den as i128);
        if n >= i64::MIN as i128 && n <= i64::MAX as i128 && d <= i64::MAX as i128 {
            Some(Rat { num: n as i64, den: d as i64 })
        } else {
            None
        }
    }

    /// Exact difference; `None` exactly when the exact numerator or
    /// denominator leaves the `i64` range.
    pub fn try_sub(&self, other: &Rat) -> (r: Option<Rat>)
        requires
            self.wf(),
            other.wf(),
        ensures
            r is Some <==> sub_fits(self@, other@),
            r matches Some(c) ==> c@ == srat_sub(self@, other@) && c.wf(),
    {
        proof {
            lemma_mul_bound(self.num as int, other.den as int, 0x8000_0000_0000_0000, 0x7fff_ffff_ffff_ffff);
            lemma_mul_bound(other.num as int, self.den as int, 0x8000_0000_0000_0000, 0x7fff_ffff_ffff_ffff);
            lemma_mul_bound(self.den as int, other.den as int, 0x7fff_ffff_ffff_ffff, 0x7fff_ffff_ffff_ffff);
            lemma_mul_pos(self.den as int, other.den as int);
        }
        let n1: i128 = (self.num as i128) * (other.den as i128);
        let n2: i128 = (other.num as i128) * (self.den as i128);
        let n: i128 = n1 - n2;
        let d: i128 = (self.den as i128) * (other.den as i128);
        if n >= i64::MIN as i128 && n <= i64::MAX as i128 && d <= i64::MAX as i128 {
            Some(Rat { num: n as i64, den: d as i64 })
        } else {
            None
        }
    }

    /// Exact product; `None` exactly when the exact numerator or denominator
    /// leaves the `i64` range.
    pub fn try_mul(&self, other: &Rat) -> (r: Option<Rat>)
        requires
            self.wf(),
            other.wf(),
        ensures
            r is Some <==> mul_fits(self@, other@),
            r matches Some(c) ==> c@ == srat_mul(self@, other@) && c.wf(),
    {
        proof {
            lemma_mul_bound(self.num as int, other.num as int, 0x8000_0000_0000_0000, 0x8000_0000_0000_0000);
            lemma_mul_bound(self.den as int, other.den as int, 0x7fff_ffff_ffff_ffff, 0x7fff_ffff_ffff_ffff);
            lemma_mul_pos(self.den as int, other.den as int);
        }
        let n: i128 = (self.num as i128) * (other.num as i128);
        let d: i128 = (self.den as i128) * (other.den as i128);
        if n >= i64::MIN as i128 && n <= i64::MAX as i128 && d <= i64::MAX as i128 {
            Some(Rat { num: n as i64, den: d as i64 })
        } else {
            None
        }
    }

    /// Exact quotient by a rational with nonzero numerator; `None` exactly
    /// when the exact numerator or denominator leaves the `i64` range.
    pub fn try_div(&self, other: &Rat) -> (r: Option<Rat>)
        requires
            self.wf(),
            other.wf(),
            other@.num != 0,
        ensures
            r is Some <==> div_fits(self@, other@),
            r matches Some(c) ==> c@ == srat_div(self@, other@) && c.wf(),
    {
        proof {
            lemma_mul_bound(self.num as int, other.den as int, 0x8000_0000_0000_0000, 0x7fff_ffff_ffff_ffff);
            lemma_mul_bound(self.den as int, other.num as int, 0x7fff_ffff_ffff_ffff, 0x8000_0000_0000_0000);
            if other.num > 0 {
                lemma_mul_pos(self.den as int, other.num as int);
            } else {
                lemma_mul_pos(self.den as int, -(other.num as int));
            }
        }
        let n0: i128 = (self.num as i128) * (other.den as i128);
        let d0: i128 = (self.den as i128) * (other.num as i128);
        proof {
            if other.num < 0 {
                lemma_mul_bound(self.den as int, other.num as int, 0x7fff_ffff_ffff_ffff, 0x8000_0000_0000_0000);
                assert((self.den as int) * (other.num as int) < 0) by (nonlinear_arith)
                    requires
                        self.den as int > 0,
                        (other.num as int) < 0,
                ;
            }
        }
        let (n, d): (i128, i128) = if d0 < 0 { (-n0, -d0) } else { (n0, d0) };
        if n >= i64::MIN as i128 && n <= i64::MAX as i128 && d <= i64::MAX as i128 {
            Some(Rat { num: n as i64, den: d as i64 })
        } else {
            None
        }
    }
}

} // verus!
