//! A value with its error bar, and the arithmetic that propagates it.
//!
//! Sums and differences add the absolute uncertainties of their operands;
//! products and quotients add the relative ones. Each operand's uncertainty
//! is first brought to the form that the operation needs, with the operand's
//! own value, so a caller never converts by hand.

use vstd::prelude::*;
use crate::decimal::{collect_text, decimal_text, write_decimal};
use crate::ratio::{Frac, Ratio};
use crate::uncertainty::{coarser, min_precision, Kind, MeasureError, Uncertainty,
    UncertaintyModel, DEFAULT_PRECISION};

verus! {

/// What a [`Measure`] denotes.
pub struct MeasureModel {
    pub value: Frac,
    pub uncertainty: UncertaintyModel,
}

impl MeasureModel {
    pub open spec fn wf(self) -> bool {
        self.value.fits() && self.uncertainty.wf()
    }

    /// The uncertainty in the units of the value.
    pub open spec fn spread(self) -> Frac {
        self.uncertainty.to_absolute(self.value).magnitude
    }

    /// The uncertainty in percent of the value.
    pub open spec fn percent(self) -> Frac {
        self.uncertainty.to_relative(self.value).magnitude
    }

    /// The lower end of the interval that the error bar spans.
    pub open spec fn low(self) -> Frac {
        self.value.minus(self.spread()).reduced()
    }

    /// The upper end of the interval that the error bar spans.
    pub open spec fn high(self) -> Frac {
        self.value.plus(self.spread()).reduced()
    }

    /// Both ends of the interval can be computed.
    pub open spec fn interval_fits(self) -> bool {
        &&& self.uncertainty.to_absolute_failure(self.value) is None
        &&& self.low().fits()
        &&& self.high().fits()
    }

    /// The text of the measure: the value, its uncertainty, and the interval
    /// in round brackets behind `:=`, each number with as many decimals as
    /// the uncertainty's precision says.
    pub open spec fn text(self) -> Seq<char> {
        let digits = self.uncertainty.precision;
        decimal_text(self.value, digits) + seq![' ', '\u{b1}', ' ']
            + self.uncertainty.quantity_text() + seq![
            ' ',
            ':',
            '=',
            ' ',
            '(',
        ] + decimal_text(self.low(), digits) + seq![',', ' '] + decimal_text(self.high(), digits)
            + seq![')']
    }

    /// The absolute uncertainties of both operands add, at the coarser of
    /// the operands' precisions.
    pub open spec fn additive_uncertainty(self, other: MeasureModel) -> UncertaintyModel {
        UncertaintyModel {
            kind: Kind::Absolute,
            magnitude: self.spread().plus(other.spread()).reduced(),
            precision: coarser(self.uncertainty.precision, other.uncertainty.precision),
        }
    }

    /// The additive propagation can be computed.
    pub open spec fn additive_fits(self, other: MeasureModel) -> bool {
        &&& self.uncertainty.to_absolute_failure(self.value) is None
        &&& other.uncertainty.to_absolute_failure(other.value) is None
        &&& self.spread().plus(other.spread()).reduced().fits()
    }

    /// The relative uncertainties of both operands add, at the coarser of
    /// the operands' precisions.
    pub open spec fn relative_uncertainty(self, other: MeasureModel) -> UncertaintyModel {
        UncertaintyModel {
            kind: Kind::Relative,
            magnitude: self.percent().plus(other.percent()).reduced(),
            precision: coarser(self.uncertainty.precision, other.uncertainty.precision),
        }
    }

    /// On which error the relative propagation ends, if on any: the left
    /// operand's conversion, the right one's, then the sum.
    pub open spec fn relative_failure(self, other: MeasureModel) -> Option<MeasureError> {
        if self.uncertainty.to_relative_failure(self.value) is Some {
            self.uncertainty.to_relative_failure(self.value)
        } else if other.uncertainty.to_relative_failure(other.value) is Some {
            other.uncertainty.to_relative_failure(other.value)
        } else if !self.percent().plus(other.percent()).reduced().fits() {
            Some(MeasureError::Overflow)
        } else {
            None
        }
    }

    pub open spec fn sum(self, other: MeasureModel) -> MeasureModel {
        MeasureModel {
            value: self.value.plus(other.value).reduced(),
            uncertainty: self.additive_uncertainty(other),
        }
    }

    pub open spec fn sum_fits(self, other: MeasureModel) -> bool {
        self.value.plus(other.value).reduced().fits() && self.additive_fits(other)
    }

    pub open spec fn difference(self, other: MeasureModel) -> MeasureModel {
        MeasureModel {
            value: self.value.minus(other.value).reduced(),
            uncertainty: self.additive_uncertainty(other),
        }
    }

    pub open spec fn difference_fits(self, other: MeasureModel) -> bool {
        self.value.minus(other.value).reduced().fits() && self.additive_fits(other)
    }

    pub open spec fn product(self, other: MeasureModel) -> MeasureModel {
        MeasureModel {
            value: self.value.times(other.value).reduced(),
            uncertainty: self.relative_uncertainty(other),
        }
    }

    /// On which error a product ends, if on any: the propagation first, then
    /// the value.
    pub open spec fn product_failure(self, other: MeasureModel) -> Option<MeasureError> {
        if self.relative_failure(other) is Some {
            self.relative_failure(other)
        } else if !self.value.times(other.value).reduced().fits() {
            Some(MeasureError::Overflow)
        } else {
            None
        }
    }

    pub open spec fn quotient(self, other: MeasureModel) -> MeasureModel {
        MeasureModel {
            value: self.value.over(other.value).reduced(),
            uncertainty: self.relative_uncertainty(other),
        }
    }

    /// On which error a quotient ends, if on any: a divisor of value zero
    /// first, then the propagation, then the value.
    pub open spec fn quotient_failure(self, other: MeasureModel) -> Option<MeasureError> {
        if other.value.num == 0 {
            Some(MeasureError::ZeroValue)
        } else if self.relative_failure(other) is Some {
            self.relative_failure(other)
        } else if !self.value.over(other.value).reduced().fits() {
            Some(MeasureError::Overflow)
        } else {
            None
        }
    }
}

/// A measured quantity: a value and its uncertainty.
#[derive(Clone, Copy, Debug)]
pub struct Measure {
    value: Ratio,
    uncertainty: Uncertainty,
}

impl View for Measure {
    type V = MeasureModel;

    closed spec fn view(&self) -> MeasureModel {
        MeasureModel { value: self.value@, uncertainty: self.uncertainty@ }
    }
}

impl Measure {
    /// Every value of the type has a value and an uncertainty that are
    /// well formed.
    #[verifier::type_invariant]
    pub open spec fn wf(self) -> bool {
        self@.wf()
    }

    /// An exact value.
    pub fn with_no_err(value: Ratio) -> (m: Measure)
        ensures
            m.wf(),
            m@.value == value@,
            m@.uncertainty == (UncertaintyModel {
                kind: Kind::Certain,
                magnitude: Frac::whole(0),
                precision: DEFAULT_PRECISION as nat,
            }),
    {
        proof {
            use_type_invariant(value);
        }
        Measure { value, uncertainty: Uncertainty::certain(DEFAULT_PRECISION) }
    }

    /// A value that is off by up to the size of `percent`, in percent of it.
    pub fn with_rel_err(value: Ratio, percent: Ratio) -> (m: Measure)
        ensures
            m.wf(),
            m@.value == value@,
            m@.uncertainty == (UncertaintyModel {
                kind: Kind::Relative,
                magnitude: percent@.magnitude(),
                precision: DEFAULT_PRECISION as nat,
            }),
    {
        proof {
            use_type_invariant(value);
        }
        Measure { value, uncertainty: Uncertainty::relative(percent, DEFAULT_PRECISION) }
    }

    /// A value that is off by up to the size of `magnitude`.
    pub fn with_abs_err(value: Ratio, magnitude: Ratio) -> (m: Measure)
        ensures
            m.wf(),
            m@.value == value@,
            m@.uncertainty == (UncertaintyModel {
                kind: Kind::Absolute,
                magnitude: magnitude@.magnitude(),
                precision: DEFAULT_PRECISION as nat,
            }),
    {
        proof {
            use_type_invariant(value);
        }
        Measure { value, uncertainty: Uncertainty::absolute(magnitude, DEFAULT_PRECISION) }
    }

    /// The same measure shown with `precision` decimals.
    pub fn with_precision(&self, precision: usize) -> (m: Measure)
        ensures
            m.wf(),
            m@.value == self@.value,
            m@.uncertainty == (UncertaintyModel {
                precision: precision as nat,
                ..self@.uncertainty
            }),
    {
        proof {
            use_type_invariant(self);
        }
        Measure { value: self.value, uncertainty: self.uncertainty.with_precision(precision) }
    }

    pub fn value(&self) -> (v: Ratio)
        ensures
            v@ == self@.value,
    {
        self.value
    }

    pub fn uncertainty(&self) -> (u: Uncertainty)
        ensures
            u@ == self@.uncertainty,
    {
        self.uncertainty
    }

    /// The two ends of the interval that the error bar spans around the
    /// value, the lower one first.
    pub fn resolve_interval(&self) -> (r: Result<(Ratio, Ratio), MeasureError>)
        ensures
            match r {
                Ok((low, high)) => {
                    &&& self@.interval_fits()
                    &&& low.wf() && low@ == self@.low()
                    &&& high.wf() && high@ == self@.high()
                },
                Err(e) => !self@.interval_fits() && e == MeasureError::Overflow,
            },
    {
        proof {
            use_type_invariant(self);
        }
        let spread = match self.uncertainty.to_absolute(&self.value) {
            Ok(u) => u.magnitude(),
            Err(_) => { return Err(MeasureError::Overflow); },
        };
        let low = match self.value.checked_sub(&spread) {
            Some(x) => x,
            None => { return Err(MeasureError::Overflow); },
        };
        match self.value.checked_add(&spread) {
            Some(high) => Ok((low, high)),
            None => Err(MeasureError::Overflow),
        }
    }

    /// The measure as text. It fails only where an end of the interval
    /// cannot be computed.
    pub fn render(&self) -> (r: Result<String, MeasureError>)
        ensures
            match r {
                Ok(s) => self@.interval_fits() && s@ == self@.text(),
                Err(e) => !self@.interval_fits() && e == MeasureError::Overflow,
            },
    {
        proof {
            use_type_invariant(self);
        }
        let digits = self.uncertainty.precision();
        let (low, high) = match self.resolve_interval() {
            Ok(ends) => ends,
            Err(e) => { return Err(e); },
        };
        let mut out: Vec<char> = Vec::new();
        write_decimal(&mut out, &self.value, digits);
        out.push(' ');
        out.push('\u{b1}');
        out.push(' ');
        self.uncertainty.write_quantity(&mut out);
        out.push(' ');
        out.push(':');
        out.push('=');
        out.push(' ');
        out.push('(');
        write_decimal(&mut out, &low, digits);
        out.push(',');
        out.push(' ');
        write_decimal(&mut out, &high, digits);
        out.push(')');
        assert(out@ =~= self@.text());
        Ok(collect_text(out))
    }

    /// The uncertainty of a sum or difference with `other`.
    fn propagate_additive(&self, other: &Measure) -> (r: Result<Uncertainty, MeasureError>)
        ensures
            match r {
                Ok(u) => self@.additive_fits(other@) && u.wf() && u@ == self@.additive_uncertainty(
                    other@,
                ),
                Err(e) => !self@.additive_fits(other@) && e == MeasureError::Overflow,
            },
    {
        proof {
            use_type_invariant(self);
            use_type_invariant(other);
        }
        let left = match self.uncertainty.to_absolute(&self.value) {
            Ok(u) => u,
            Err(e) => { return Err(e); },
        };
        let right = match other.uncertainty.to_absolute(&other.value) {
            Ok(u) => u,
            Err(e) => { return Err(e); },
        };
        let precision = min_precision(self.uncertainty.precision(), other.uncertainty.precision());
        match left.add(right) {
            Ok(u) => Ok(u.with_precision(precision)),
            Err(e) => Err(e),
        }
    }

    /// The uncertainty of a product or quotient with `other`.
    fn propagate_relative(&self, other: &Measure) -> (r: Result<Uncertainty, MeasureError>)
        ensures
            match r {
                Ok(u) => self@.relative_failure(other@) is None && u.wf() && u@
                    == self@.relative_uncertainty(other@),
                Err(e) => self@.relative_failure(other@) == Some(e),
            },
    {
        proof {
            use_type_invariant(self);
            use_type_invariant(other);
        }
        let left = match self.uncertainty.to_relative(&self.value) {
            Ok(u) => u,
            Err(e) => { return Err(e); },
        };
        let right = match other.uncertainty.to_relative(&other.value) {
            Ok(u) => u,
            Err(e) => { return Err(e); },
        };
        let precision = min_precision(self.uncertainty.precision(), other.uncertainty.precision());
        match left.mul(right) {
            Ok(u) => Ok(u.with_precision(precision)),
            Err(e) => Err(e),
        }
    }

    /// The sum: the values add, and so do the absolute uncertainties.
    pub fn add(self, other: Measure) -> (r: Result<Measure, MeasureError>)
        ensures
            match r {
                Ok(m) => self@.sum_fits(other@) && m.wf() && m@ == self@.sum(other@),
                Err(e) => !self@.sum_fits(other@) && e == MeasureError::Overflow,
            },
    {
        proof {
            use_type_invariant(self);
            use_type_invariant(other);
        }
        let value = match self.value.checked_add(&other.value) {
            Some(v) => v,
            None => { return Err(MeasureError::Overflow); },
        };
        match self.propagate_additive(&other) {
            Ok(uncertainty) => Ok(Measure { value, uncertainty }),
            Err(e) => Err(e),
        }
    }

    /// The difference: the values subtract, the absolute uncertainties add.
    pub fn sub(self, other: Measure) -> (r: Result<Measure, MeasureError>)
        ensures
            match r {
                Ok(m) => self@.difference_fits(other@) && m.wf() && m@ == self@.difference(
                    other@,
                ),
                Err(e) => !self@.difference_fits(other@) && e == MeasureError::Overflow,
            },
    {
        proof {
            use_type_invariant(self);
            use_type_invariant(other);
        }
        let value = match self.value.checked_sub(&other.value) {
            Some(v) => v,
            None => { return Err(MeasureError::Overflow); },
        };
        match self.propagate_additive(&other) {
            Ok(uncertainty) => Ok(Measure { value, uncertainty }),
            Err(e) => Err(e),
        }
    }

    /// The product: the values multiply, the relative uncertainties add.
    pub fn mul(self, other: Measure) -> (r: Result<Measure, MeasureError>)
        ensures
            match r {
                Ok(m) => self@.product_failure(other@) is None && m.wf() && m@ == self@.product(
                    other@,
                ),
                Err(e) => self@.product_failure(other@) == Some(e),
            },
    {
        proof {
            use_type_invariant(self);
            use_type_invariant(other);
        }
        let uncertainty = match self.propagate_relative(&other) {
            Ok(u) => u,
            Err(e) => { return Err(e); },
        };
        match self.value.checked_mul(&other.value) {
            Some(value) => Ok(Measure { value, uncertainty }),
            None => Err(MeasureError::Overflow),
        }
    }

    /// The quotient: the values divide, the relative uncertainties add.
    pub fn div(self, other: Measure) -> (r: Result<Measure, MeasureError>)
        ensures
            match r {
                Ok(m) => self@.quotient_failure(other@) is None && m.wf() && m@
                    == self@.quotient(other@),
                Err(e) => self@.quotient_failure(other@) == Some(e),
            },
    {
        proof {
            use_type_invariant(self);
            use_type_invariant(other);
        }
        if other.value.is_zero() {
            return Err(MeasureError::ZeroValue);
        }
        let uncertainty = match self.propagate_relative(&other) {
            Ok(u) => u,
            Err(e) => { return Err(e); },
        };
        match self.value.checked_div(&other.value) {
            Some(value) => Ok(Measure { value, uncertainty }),
            None => Err(MeasureError::Overflow),
        }
    }
}

} // verus!
