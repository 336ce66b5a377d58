//! Exact rational numbers in machine integers.
//!
//! A [`Ratio`] is a fraction of two `i64` with a positive denominator. Its
//! arithmetic is exact: a result is the fraction that the schoolbook formula
//! gives, divided through by the greatest common divisor of its two parts.
//! An operation whose result does not fit the fields even so returns `None`.

use vstd::prelude::*;
use vstd::arithmetic::div_mod::{lemma_fundamental_div_mod, lemma_mod_multiples_vanish,
    lemma_mod_self_0, lemma_small_mod};

verus! {

/// The largest numerator and denominator that a [`Ratio`] holds.
pub const LIMIT: i64 = 0x7fff_ffff_ffff_ffff;

/// A fraction of two mathematical integers: what a [`Ratio`] denotes.
pub struct Frac {
    pub num: int,
    pub den: int,
}

/// The greatest common divisor of two integers that are not negative, by
/// Euclid's rule.
pub open spec fn gcd(a: int, b: int) -> int
    decreases b,
{
    if b <= 0 {
        a
    } else {
        gcd(b, a % b)
    }
}

impl Frac {
    /// The same number with both parts divided by their greatest common
    /// divisor, for a proper fraction.
    #[verifier::opaque]
    pub open spec fn reduced(self) -> Frac {
        let g = gcd(self.magnitude().num, self.den);
        Frac {
            num: if self.num < 0 {
                -((-self.num) / g)
            } else {
                self.num / g
            },
            den: self.den / g,
        }
    }

    /// The fraction `n / 1`.
    pub open spec fn whole(n: int) -> Frac {
        Frac { num: n, den: 1 }
    }

    /// The denominator is positive.
    pub open spec fn proper(self) -> bool {
        self.den > 0
    }

    /// Numerator and denominator fit a [`Ratio`].
    pub open spec fn fits(self) -> bool {
        &&& -(LIMIT as int) <= self.num <= LIMIT as int
        &&& 0 < self.den <= LIMIT as int
    }

    /// Both fractions denote the same number.
    pub open spec fn same(self, other: Frac) -> bool {
        self.num * other.den == other.num * self.den
    }

    /// The fraction is not above the other, both being proper.
    pub open spec fn le(self, other: Frac) -> bool {
        self.num * other.den <= other.num * self.den
    }

    /// The sum as the schoolbook formula gives it, not reduced.
    pub open spec fn plus(self, other: Frac) -> Frac {
        Frac { num: self.num * other.den + other.num * self.den, den: self.den * other.den }
    }

    /// The difference as the schoolbook formula gives it, not reduced.
    pub open spec fn minus(self, other: Frac) -> Frac {
        Frac { num: self.num * other.den - other.num * self.den, den: self.den * other.den }
    }

    /// The product as the schoolbook formula gives it, not reduced.
    pub open spec fn times(self, other: Frac) -> Frac {
        Frac { num: self.num * other.num, den: self.den * other.den }
    }

    /// The quotient by a fraction that is not zero; the sign goes to the
    /// numerator, so that the result is proper where both operands are.
    pub open spec fn over(self, other: Frac) -> Frac {
        if other.num >= 0 {
            Frac { num: self.num * other.den, den: self.den * other.num }
        } else {
            Frac { num: -(self.num * other.den), den: self.den * (-other.num) }
        }
    }

    /// The absolute value.
    pub open spec fn magnitude(self) -> Frac {
        Frac { num: if self.num < 0 { -self.num } else { self.num }, den: self.den }
    }
}

/// The greatest common divisor of two integers that are not negative and
/// not both zero is positive and divides both.
proof fn lemma_gcd_divides(a: int, b: int)
    requires
        a >= 0,
        b >= 0,
        a + b > 0,
    ensures
        gcd(a, b) > 0,
        a % gcd(a, b) == 0,
        b % gcd(a, b) == 0,
        b > 0 ==> gcd(a, b) <= b,
    decreases b,
{
    if b == 0 {
        lemma_mod_self_0(a);
        lemma_small_mod(0, a as nat);
    } else {
        let r = a % b;
        let q = a / b;
        lemma_gcd_divides(b, r);
        let g = gcd(b, r);
        lemma_fundamental_div_mod(a, b);
        lemma_fundamental_div_mod(b, g);
        lemma_fundamental_div_mod(r, g);
        let k = (b / g) * q + r / g;
        assert(a == g * k + 0) by (nonlinear_arith)
            requires
                a == b * q + r,
                b == g * (b / g),
                r == g * (r / g),
                k == (b / g) * q + r / g,
        ;
        lemma_mod_multiples_vanish(k, 0, g);
        lemma_small_mod(0, g as nat);
        assert(g <= b) by (nonlinear_arith)
            requires
                b == g * (b / g),
                b > 0,
                g > 0,
        ;
    }
}

/// A proper fraction and its reduced form denote the same number; the
/// reduced form is proper, keeps the sign, and is no larger in either part.
pub proof fn lemma_reduced(q: Frac)
    requires
        q.den > 0,
    ensures
        q.reduced().same(q),
        q.same(q.reduced()),
        0 < q.reduced().den <= q.den,
        q.num >= 0 ==> 0 <= q.reduced().num <= q.num,
        q.num <= 0 ==> q.num <= q.reduced().num <= 0,
        q.num != 0 ==> q.reduced().num != 0,
{
    reveal(Frac::reduced);
    let n = q.magnitude().num;
    let g = gcd(n, q.den);
    lemma_gcd_divides(n, q.den);
    lemma_fundamental_div_mod(n, g);
    lemma_fundamental_div_mod(q.den, g);
    let a = n / g;
    let b = q.den / g;
    assert(a * q.den == n * b && b > 0 && b <= q.den && 0 <= a <= n && (n != 0 ==> a != 0))
        by (nonlinear_arith)
        requires
            n == g * a,
            q.den == g * b,
            g > 0,
            q.den > 0,
            n >= 0,
    ;
    assert(q.reduced().num * q.den == q.num * q.reduced().den) by (nonlinear_arith)
        requires
            a * q.den == n * b,
            q.reduced().den == b,
            q.num < 0 ==> q.reduced().num == -a && n == -q.num,
            q.num >= 0 ==> q.reduced().num == a && n == q.num,
    ;
}

/// Two fractions that denote the same number as a third, whose denominator
/// is not zero, denote the same number.
pub proof fn lemma_same_transitive(a: Frac, b: Frac, c: Frac)
    requires
        a.same(b),
        b.same(c),
        b.den != 0,
    ensures
        a.same(c),
{
    assert((a.num * c.den - c.num * a.den) * b.den == 0) by (nonlinear_arith)
        requires
            a.num * b.den == b.num * a.den,
            b.num * c.den == c.num * b.den,
    ;
    assert(a.num * c.den - c.num * a.den == 0) by (nonlinear_arith)
        requires
            (a.num * c.den - c.num * a.den) * b.den == 0,
            b.den != 0,
    ;
}

/// Sum, difference and product of proper fractions are proper, and so is
/// the quotient by one that is positive.
pub proof fn lemma_proper_results(a: Frac, b: Frac)
    requires
        a.den > 0,
        b.den > 0,
    ensures
        a.plus(b).den > 0,
        a.minus(b).den > 0,
        a.times(b).den > 0,
        b.num > 0 ==> a.over(b).den > 0,
        a.num >= 0 && b.num >= 0 ==> a.plus(b).num >= 0 && a.times(b).num >= 0,
        a.num >= 0 && b.num > 0 ==> a.over(b).num >= 0,
{
    assert(a.den * b.den > 0) by (nonlinear_arith)
        requires
            a.den > 0,
            b.den > 0,
    ;
    assert(b.num > 0 ==> a.den * b.num > 0) by (nonlinear_arith)
        requires
            a.den > 0,
    ;
    assert(a.num >= 0 && b.num >= 0 ==> a.num * b.den + b.num * a.den >= 0 && a.num * b.num >= 0)
        by (nonlinear_arith)
        requires
            a.den > 0,
            b.den > 0,
    ;
    assert(a.num >= 0 ==> a.num * b.den >= 0) by (nonlinear_arith)
        requires
            b.den > 0,
    ;
}

/// A product of two products, with the factors paired anew.
proof fn lemma_regroup(p: int, q: int, r: int, s: int)
    ensures
        (p * q) * (r * s) == (p * r) * (q * s),
        (p * q) * (r * s) == (p * s) * (q * r),
{
    assert((p * q) * (r * s) == (p * r) * (q * s)) by (nonlinear_arith);
    assert((p * q) * (r * s) == (p * s) * (q * r)) by (nonlinear_arith);
}

/// A sum and a difference times a third number, multiplied out.
proof fn lemma_distribute(a: int, b: int, d: int)
    ensures
        (a + b) * d == a * d + b * d,
        (a - b) * d == a * d - b * d,
        (-a) * (-d) == a * d,
{
    assert((a + b) * d == a * d + b * d) by (nonlinear_arith);
    assert((a - b) * d == a * d - b * d) by (nonlinear_arith);
    assert((-a) * (-d) == a * d) by (nonlinear_arith);
}

/// Cross products of a sum and of a difference, multiplied out.
proof fn lemma_cross_products(x: int, xd: int, yd: int, cn: int, cd: int)
    ensures
        (x * cd + cn * xd) * (yd * cd) == (x * yd) * (cd * cd) + (cn * cd) * (xd * yd),
        (x * cd - cn * xd) * (yd * cd) == (x * yd) * (cd * cd) - (cn * cd) * (xd * yd),
        (cn * xd - x * cd) * (cd * yd) == (cn * cd) * (xd * yd) - (x * yd) * (cd * cd),
        (x * cn) * (yd * cd) == (x * yd) * (cd * cn),
        (x * cd) * (yd * cn) == (x * yd) * (cd * cn),
        (-(x * cd)) * (yd * (-cn)) == (x * yd) * (cd * cn),
{
    lemma_distribute(x * cd, cn * xd, yd * cd);
    lemma_regroup(x, cd, yd, cd);
    lemma_regroup(cn, xd, yd, cd);
    lemma_distribute(cn * xd, x * cd, cd * yd);
    lemma_regroup(cn, xd, cd, yd);
    lemma_regroup(x, cd, cd, yd);
    lemma_regroup(x, cn, yd, cd);
    lemma_regroup(x, cd, yd, cn);
    assert(yd * (-cn) == -(yd * cn)) by (nonlinear_arith);
    lemma_distribute(x * cd, 0, yd * cn);
}

/// The four operations give the same number for operands that denote the
/// same number.
pub proof fn lemma_operations_respect_same(a: Frac, b: Frac, c: Frac)
    requires
        a.same(b),
    ensures
        a.plus(c).same(b.plus(c)),
        a.minus(c).same(b.minus(c)),
        c.minus(a).same(c.minus(b)),
        a.times(c).same(b.times(c)),
        a.over(c).same(b.over(c)),
{
    lemma_cross_products(a.num, a.den, b.den, c.num, c.den);
    lemma_cross_products(b.num, b.den, a.den, c.num, c.den);
    assert(a.den * b.den == b.den * a.den) by (nonlinear_arith);
}

/// The order of two proper fractions does not depend on the form of one
/// of them.
pub proof fn lemma_order_respects_same(a: Frac, b: Frac, c: Frac)
    requires
        a.same(b),
        a.den > 0,
        b.den > 0,
    ensures
        b.le(c) ==> a.le(c),
        c.le(b) ==> c.le(a),
{
    assert(b.le(c) ==> a.le(c)) by (nonlinear_arith)
        requires
            a.num * b.den == b.num * a.den,
            a.den > 0,
            b.den > 0,
    ;
    assert(c.le(b) ==> c.le(a)) by (nonlinear_arith)
        requires
            a.num * b.den == b.num * a.den,
            a.den > 0,
            b.den > 0,
    ;
}

/// The reduced form of a proper fraction denotes what every fraction
/// denotes that is the same number as the unreduced one.
pub proof fn lemma_reduced_same_as(raw: Frac, other: Frac)
    requires
        raw.den > 0,
        raw.same(other),
    ensures
        raw.reduced().same(other),
        raw.reduced().den > 0,
{
    lemma_reduced(raw);
    lemma_same_transitive(raw.reduced(), raw, other);
}

fn greatest_common_divisor(a: u128, b: u128) -> (g: u128)
    ensures
        g == gcd(a as int, b as int),
{
    let mut x: u128 = a;
    let mut y: u128 = b;
    while y != 0
        invariant
            gcd(x as int, y as int) == gcd(a as int, b as int),
        decreases y,
    {
        let t: u128 = x % y;
        x = y;
        y = t;
    }
    x
}

/// A product of two integers within `LIMIT` in size stays within `LIMIT * LIMIT`.
proof fn lemma_product_bound(x: int, y: int)
    requires
        -(LIMIT as int) <= x <= LIMIT as int,
        -(LIMIT as int) <= y <= LIMIT as int,
    ensures
        -(LIMIT as int) * (LIMIT as int) <= x * y <= (LIMIT as int) * (LIMIT as int),
        (LIMIT as int) * (LIMIT as int) == 0x3fff_ffff_ffff_ffff_0000_0000_0000_0001,
        (x >= 0 && y >= 0) ==> x * y >= 0,
        (x > 0 && y > 0) ==> x * y > 0,
{
    assert(-(LIMIT as int) * (LIMIT as int) <= x * y <= (LIMIT as int) * (LIMIT as int))
        by (nonlinear_arith)
        requires
            -(LIMIT as int) <= x <= LIMIT as int,
            -(LIMIT as int) <= y <= LIMIT as int,
    ;
    assert((LIMIT as int) * (LIMIT as int) == 0x3fff_ffff_ffff_ffff_0000_0000_0000_0001)
        by (nonlinear_arith);
    assert((x >= 0 && y >= 0) ==> x * y >= 0) by (nonlinear_arith);
    assert((x > 0 && y > 0) ==> x * y > 0) by (nonlinear_arith);
}

/// An exact rational number.
#[derive(Clone, Copy, Debug)]
pub struct Ratio {
    num: i64,
    den: i64,
}

impl View for Ratio {
    type V = Frac;

    closed spec fn view(&self) -> Frac {
        Frac { num: self.num as int, den: self.den as int }
    }
}

/// The wide pair in reduced form as a `Ratio`, where that fits.
fn narrow(num: i128, den: i128) -> (r: Option<Ratio>)
    requires
        -0x7fff_ffff_ffff_ffff_ffff_ffff_ffff_ffff <= num,
        den > 0,
    ensures
        r is Some <==> (Frac { num: num as int, den: den as int }).reduced().fits(),
        r matches Some(x) ==> x@ == (Frac { num: num as int, den: den as int }).reduced(),
{
    let size: u128 = if num < 0 {
        (-num) as u128
    } else {
        num as u128
    };
    let g: u128 = greatest_common_divisor(size, den as u128);
    proof {
        reveal(Frac::reduced);
        lemma_gcd_divides(size as int, den as int);
        lemma_reduced(Frac { num: num as int, den: den as int });
    }
    let n: u128 = size / g;
    let d: u128 = (den as u128) / g;
    let limit: u128 = LIMIT as u128;
    if n <= limit && d <= limit {
        let m: i64 = n as i64;
        Some(
            Ratio {
                num: if num < 0 {
                    -m
                } else {
                    m
                },
                den: d as i64,
            },
        )
    } else {
        None
    }
}

impl Ratio {
    /// Every value of the type is a proper fraction within the limits.
    #[verifier::type_invariant]
    pub open spec fn wf(self) -> bool {
        self@.fits()
    }

    /// The fraction `num / den` as it is written, for a positive `den` and
    /// both within `LIMIT`.
    pub fn new(num: i64, den: i64) -> (r: Option<Ratio>)
        ensures
            r is Some <==> (Frac { num: num as int, den: den as int }).fits(),
            r matches Some(x) ==> x.wf() && x@ == (Frac { num: num as int, den: den as int }),
    {
        if -LIMIT <= num && 0 < den {
            Some(Ratio { num, den })
        } else {
            None
        }
    }

    /// The same number in lowest terms.
    pub fn reduced(&self) -> (r: Ratio)
        ensures
            r.wf(),
            r@ == self@.reduced(),
    {
        proof {
            use_type_invariant(self);
            lemma_reduced(self@);
        }
        narrow(self.num as i128, self.den as i128).unwrap()
    }

    /// The whole number `n`.
    pub fn from_int(n: i32) -> (r: Ratio)
        ensures
            r.wf(),
            r@ == Frac::whole(n as int),
    {
        Ratio { num: n as i64, den: 1 }
    }

    pub fn numerator(&self) -> (n: i64)
        ensures
            n == self@.num,
    {
        self.num
    }

    pub fn denominator(&self) -> (d: i64)
        ensures
            d == self@.den,
    {
        self.den
    }

    pub fn is_zero(&self) -> (b: bool)
        ensures
            b == (self@.num == 0),
    {
        self.num == 0
    }

    pub fn is_negative(&self) -> (b: bool)
        ensures
            b == (self@.num < 0),
    {
        self.num < 0
    }

    /// Whether both denote the same number, whatever their form.
    pub fn same(&self, other: &Ratio) -> (b: bool)
        ensures
            b == self@.same(other@),
    {
        proof {
            use_type_invariant(self);
            use_type_invariant(other);
        }
        proof {
            lemma_product_bound(self.num as int, other.den as int);
            lemma_product_bound(other.num as int, self.den as int);
        }
        (self.num as i128) * (other.den as i128) == (other.num as i128) * (self.den as i128)
    }

    /// The absolute value.
    pub fn abs(&self) -> (r: Ratio)
        ensures
            r.wf(),
            r@ == self@.magnitude(),
    {
        proof {
            use_type_invariant(self);
        }
        if self.num < 0 {
            Ratio { num: -self.num, den: self.den }
        } else {
            *self
        }
    }

    /// The sum in lowest terms, where it fits.
    pub fn checked_add(&self, other: &Ratio) -> (r: Option<Ratio>)
        ensures
            r is Some <==> self@.plus(other@).reduced().fits(),
            r matches Some(x) ==> x.wf() && x@ == self@.plus(other@).reduced(),
    {
        proof {
            use_type_invariant(self);
            use_type_invariant(other);
        }
        proof {
            lemma_product_bound(self.num as int, other.den as int);
            lemma_product_bound(other.num as int, self.den as int);
            lemma_product_bound(self.den as int, other.den as int);
        }
        let num: i128 = (self.num as i128) * (other.den as i128) + (other.num as i128) * (
        self.den as i128);
        let den: i128 = (self.den as i128) * (other.den as i128);
        narrow(num, den)
    }

    /// The difference in lowest terms, where it fits.
    pub fn checked_sub(&self, other: &Ratio) -> (r: Option<Ratio>)
        ensures
            r is Some <==> self@.minus(other@).reduced().fits(),
            r matches Some(x) ==> x.wf() && x@ == self@.minus(other@).reduced(),
    {
        proof {
            use_type_invariant(self);
            use_type_invariant(other);
        }
        proof {
            lemma_product_bound(self.num as int, other.den as int);
            lemma_product_bound(other.num as int, self.den as int);
            lemma_product_bound(self.den as int, other.den as int);
        }
        let num: i128 = (self.num as i128) * (other.den as i128) - (other.num as i128) * (
        self.den as i128);
        let den: i128 = (self.den as i128) * (other.den as i128);
        narrow(num, den)
    }

    /// The product in lowest terms, where it fits.
    pub fn checked_mul(&self, other: &Ratio) -> (r: Option<Ratio>)
        ensures
            r is Some <==> self@.times(other@).reduced().fits(),
            r matches Some(x) ==> x.wf() && x@ == self@.times(other@).reduced(),
    {
        proof {
            use_type_invariant(self);
            use_type_invariant(other);
        }
        proof {
            lemma_product_bound(self.num as int, other.num as int);
            lemma_product_bound(self.den as int, other.den as int);
        }
        let num: i128 = (self.num as i128) * (other.num as i128);
        let den: i128 = (self.den as i128) * (other.den as i128);
        narrow(num, den)
    }

    /// The quotient in lowest terms, where the divisor is not zero and the
    /// result fits.
    pub fn checked_div(&self, other: &Ratio) -> (r: Option<Ratio>)
        ensures
            r is Some <==> other@.num != 0 && self@.over(other@).reduced().fits(),
            r matches Some(x) ==> x.wf() && x@ == self@.over(other@).reduced(),
    {
        proof {
            use_type_invariant(self);
            use_type_invariant(other);
        }
        proof {
            lemma_product_bound(self.num as int, other.den as int);
            lemma_product_bound(self.den as int, other.num as int);
            lemma_product_bound(self.den as int, -(other.num as int));
        }
        if other.num == 0 {
            None
        } else if other.num > 0 {
            let num: i128 = (self.num as i128) * (other.den as i128);
            let den: i128 = (self.den as i128) * (other.num as i128);
            narrow(num, den)
        } else {
            let num: i128 = -((self.num as i128) * (other.den as i128));
            let den: i128 = (self.den as i128) * (-(other.num as i128));
            narrow(num, den)
        }
    }
}

} // verus!
