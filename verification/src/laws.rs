//! What holds of the arithmetic of measures, whatever the operands.
//!
//! Results are kept in lowest terms, so two magnitudes are compared as
//! numbers, with `Frac::same`, where the law is not about their form.

use vstd::prelude::*;
use crate::measure::{Measure, MeasureModel};
use crate::ratio::{lemma_operations_respect_same, lemma_order_respects_same,
    lemma_proper_results, lemma_reduced, lemma_reduced_same_as, lemma_same_transitive, Frac,
    Ratio};
use crate::uncertainty::{coarser, hundredth, Kind, Uncertainty};

verus! {

/// The uncertainty of a measure in the units of its value is a proper
/// fraction and not negative.
pub proof fn lemma_spread_is_a_magnitude(m: MeasureModel)
    requires
        m.wf(),
    ensures
        m.spread().den > 0,
        m.spread().num >= 0,
{
    let u = m.uncertainty;
    if u.kind == Kind::Relative {
        let s = m.value.magnitude();
        lemma_proper_results(u.magnitude, hundredth());
        lemma_reduced(u.magnitude.times(hundredth()));
        lemma_proper_results(u.share(), s);
        lemma_reduced(u.share().times(s));
    }
}

/// The sum of two measures with absolute uncertainties has the sum of their
/// magnitudes as its own, in lowest terms: nothing is converted on the way.
/// The same holds of their difference.
pub proof fn lemma_sum_adds_absolute_magnitudes(a: Measure, b: Measure)
    requires
        a.wf(),
        b.wf(),
        a@.uncertainty.kind == Kind::Absolute,
        b@.uncertainty.kind == Kind::Absolute,
    ensures
        a@.sum(b@).uncertainty.kind == Kind::Absolute,
        a@.sum(b@).uncertainty.magnitude == a@.uncertainty.magnitude.plus(
            b@.uncertainty.magnitude,
        ).reduced(),
        a@.sum(b@).uncertainty.magnitude.same(
            a@.uncertainty.magnitude.plus(b@.uncertainty.magnitude),
        ),
        a@.difference(b@).uncertainty.magnitude == a@.sum(b@).uncertainty.magnitude,
{
    lemma_proper_results(a@.uncertainty.magnitude, b@.uncertainty.magnitude);
    lemma_reduced(a@.uncertainty.magnitude.plus(b@.uncertainty.magnitude));
}

/// A relative uncertainty that is made absolute and relative again, with
/// the same value, which is not zero, is the uncertainty it was: of the same
/// kind and precision, and of a magnitude that denotes the same number.
pub proof fn lemma_relative_round_trip(u: Uncertainty, v: Ratio)
    requires
        u.wf(),
        v.wf(),
        v@.num != 0,
        u@.kind == Kind::Relative,
    ensures
        u@.to_absolute(v@).kind == Kind::Absolute,
        u@.to_absolute(v@).to_relative(v@).kind == Kind::Relative,
        u@.to_absolute(v@).to_relative(v@).precision == u@.precision,
        u@.to_absolute(v@).to_relative(v@).magnitude.same(u@.magnitude),
        u@.to_absolute(v@).to_relative(v@).magnitude.proper(),
{
    let m = u@.magnitude;
    let h = hundredth();
    let s = v@.magnitude();
    let c = Frac::whole(100);
    let y1 = m.times(h);
    let x1 = y1.reduced();
    lemma_proper_results(m, h);
    lemma_reduced(y1);
    let y2 = y1.times(s);
    let r2 = x1.times(s);
    lemma_operations_respect_same(x1, y1, s);
    lemma_proper_results(x1, s);
    lemma_proper_results(y1, s);
    lemma_reduced_same_as(r2, y2);
    let x2 = r2.reduced();
    let y3 = y2.over(s);
    let r3 = x2.over(s);
    lemma_operations_respect_same(x2, y2, s);
    lemma_proper_results(x2, s);
    lemma_proper_results(y2, s);
    lemma_reduced_same_as(r3, y3);
    let x3 = r3.reduced();
    let y4 = y3.times(c);
    let r4 = x3.times(c);
    lemma_operations_respect_same(x3, y3, c);
    lemma_proper_results(x3, c);
    lemma_proper_results(y3, c);
    lemma_reduced_same_as(r4, y4);
    let x4 = r4.reduced();
    assert(y4.num == m.num * 1 * s.num * s.den * 100 && y4.den == m.den * 100 * s.den * s.num
        * 1);
    assert(y4.same(m)) by (nonlinear_arith)
        requires
            y4.num == m.num * 1 * s.num * s.den * 100,
            y4.den == m.den * 100 * s.den * s.num * 1,
    ;
    lemma_same_transitive(x4, y4, m);
    assert(u@.to_absolute(v@).to_relative(v@).magnitude == x4);
}

/// An absolute uncertainty that is made relative and absolute again, with
/// the same value, which is not zero, is the uncertainty it was.
pub proof fn lemma_absolute_round_trip(u: Uncertainty, v: Ratio)
    requires
        u.wf(),
        v.wf(),
        v@.num != 0,
        u@.kind == Kind::Absolute,
    ensures
        u@.to_relative(v@).kind == Kind::Relative,
        u@.to_relative(v@).to_absolute(v@).kind == Kind::Absolute,
        u@.to_relative(v@).to_absolute(v@).precision == u@.precision,
        u@.to_relative(v@).to_absolute(v@).magnitude.same(u@.magnitude),
        u@.to_relative(v@).to_absolute(v@).magnitude.proper(),
{
    let m = u@.magnitude;
    let h = hundredth();
    let s = v@.magnitude();
    let c = Frac::whole(100);
    let y1 = m.over(s);
    let x1 = y1.reduced();
    lemma_proper_results(m, s);
    lemma_reduced(y1);
    let y2 = y1.times(c);
    let r2 = x1.times(c);
    lemma_operations_respect_same(x1, y1, c);
    lemma_proper_results(x1, c);
    lemma_proper_results(y1, c);
    lemma_reduced_same_as(r2, y2);
    let x2 = r2.reduced();
    let y3 = y2.times(h);
    let r3 = x2.times(h);
    lemma_operations_respect_same(x2, y2, h);
    lemma_proper_results(x2, h);
    lemma_proper_results(y2, h);
    lemma_reduced_same_as(r3, y3);
    let x3 = r3.reduced();
    let y4 = y3.times(s);
    let r4 = x3.times(s);
    lemma_operations_respect_same(x3, y3, s);
    lemma_proper_results(x3, s);
    lemma_proper_results(y3, s);
    lemma_reduced_same_as(r4, y4);
    let x4 = r4.reduced();
    assert(y4.num == m.num * s.den * 100 * 1 * s.num && y4.den == m.den * s.num * 1 * 100
        * s.den);
    assert(y4.same(m)) by (nonlinear_arith)
        requires
            y4.num == m.num * s.den * 100 * 1 * s.num,
            y4.den == m.den * s.num * 1 * 100 * s.den,
    ;
    lemma_same_transitive(x4, y4, m);
    assert(u@.to_relative(v@).to_absolute(v@).magnitude == x4);
}

/// The result of each of the four operations is shown at the coarser of the
/// precisions of its operands.
pub proof fn lemma_result_precision(a: Measure, b: Measure)
    requires
        a.wf(),
        b.wf(),
    ensures
        a@.sum(b@).uncertainty.precision == coarser(
            a@.uncertainty.precision,
            b@.uncertainty.precision,
        ),
        a@.difference(b@).uncertainty.precision == coarser(
            a@.uncertainty.precision,
            b@.uncertainty.precision,
        ),
        a@.product(b@).uncertainty.precision == coarser(
            a@.uncertainty.precision,
            b@.uncertainty.precision,
        ),
        a@.quotient(b@).uncertainty.precision == coarser(
            a@.uncertainty.precision,
            b@.uncertainty.precision,
        ),
        coarser(a@.uncertainty.precision, b@.uncertainty.precision) <= a@.uncertainty.precision,
        coarser(a@.uncertainty.precision, b@.uncertainty.precision) <= b@.uncertainty.precision,
{
}

/// A sum or a difference has an absolute uncertainty and a product or a
/// quotient a relative one, whatever the kinds of the operands.
pub proof fn lemma_result_kind(a: Measure, b: Measure)
    requires
        a.wf(),
        b.wf(),
    ensures
        a@.sum(b@).uncertainty.kind == Kind::Absolute,
        a@.difference(b@).uncertainty.kind == Kind::Absolute,
        a@.product(b@).uncertainty.kind == Kind::Relative,
        a@.quotient(b@).uncertainty.kind == Kind::Relative,
{
}

/// The error bar is symmetric: the upper end of the interval lies as far
/// above the value as the lower end lies below it, and that distance is the
/// uncertainty in the units of the value.
pub proof fn lemma_interval_symmetric(m: Measure)
    requires
        m.wf(),
    ensures
        m@.high().minus(m@.value).same(m@.value.minus(m@.low())),
        m@.high().minus(m@.value).same(m@.spread()),
        m@.low().le(m@.value),
        m@.value.le(m@.high()),
{
    let v = m@.value;
    let s = m@.spread();
    lemma_spread_is_a_magnitude(m@);
    let above = v.plus(s);
    let below = v.minus(s);
    lemma_proper_results(v, s);
    lemma_reduced(above);
    lemma_reduced(below);
    lemma_operations_respect_same(m@.high(), above, v);
    lemma_operations_respect_same(m@.low(), below, v);
    lemma_proper_results(above, v);
    lemma_proper_results(v, below);
    assert(above.minus(v).same(s)) by (nonlinear_arith)
        requires
            above == v.plus(s),
    ;
    assert(v.minus(below).same(s)) by (nonlinear_arith)
        requires
            below == v.minus(s),
    ;
    lemma_same_transitive(m@.high().minus(v), above.minus(v), s);
    lemma_same_transitive(v.minus(m@.low()), v.minus(below), s);
    lemma_same_transitive(m@.high().minus(v), s, v.minus(m@.low()));
    assert(below.le(v)) by (nonlinear_arith)
        requires
            below == v.minus(s),
            s.num >= 0,
            s.den > 0,
            v.den > 0,
    ;
    assert(v.le(above)) by (nonlinear_arith)
        requires
            above == v.plus(s),
            s.num >= 0,
            s.den > 0,
            v.den > 0,
    ;
    lemma_order_respects_same(m@.low(), below, v);
    lemma_order_respects_same(m@.high(), above, v);
}

} // verus!
