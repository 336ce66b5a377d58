//! The error bar of a measured quantity.
//!
//! An [`Uncertainty`] is no uncertainty at all, an absolute one (a magnitude
//! in the units of the value it belongs to) or a relative one (a percentage
//! of that value). Each carries the number of decimals it is shown with. The
//! value itself is not part of it: a conversion between the absolute and the
//! relative form takes the value as an argument.

use vstd::prelude::*;
use crate::decimal::{collect_text, decimal_text, write_decimal};
use crate::ratio::{lemma_reduced, Frac, Ratio};

verus! {

/// The number of decimals of an uncertainty that was given none.
pub const DEFAULT_PRECISION: usize = 5;

/// The three forms of an uncertainty.
#[derive(Clone, Copy, Debug, PartialEq, Eq, Structural)]
pub enum Kind {
    Certain,
    Absolute,
    Relative,
}

/// Why a conversion or a combination gave no result.
#[derive(Clone, Copy, Debug, PartialEq, Eq, Structural)]
pub enum MeasureError {
    /// A relative uncertainty was asked of a value that is zero, or a
    /// quotient by a measure whose value is zero.
    ZeroValue,
    /// The exact result, or a step on the way to it, does not fit a `Ratio`
    /// even in lowest terms.
    Overflow,
}

/// What an [`Uncertainty`] denotes.
pub struct UncertaintyModel {
    pub kind: Kind,
    pub magnitude: Frac,
    pub precision: nat,
}

/// The smaller of two digit counts.
pub open spec fn coarser(a: nat, b: nat) -> nat {
    if a <= b {
        a
    } else {
        b
    }
}

/// One hundredth, the factor from percent to a share.
pub open spec fn hundredth() -> Frac {
    Frac { num: 1, den: 100 }
}

impl UncertaintyModel {
    /// The magnitude is proper and not negative, and that of a certain value
    /// is zero.
    pub open spec fn wf(self) -> bool {
        &&& self.magnitude.fits()
        &&& self.magnitude.num >= 0
        &&& self.kind == Kind::Certain ==> self.magnitude == Frac::whole(0)
    }

    /// A relative magnitude as a share of one: the hundredth part of it.
    pub open spec fn share(self) -> Frac {
        self.magnitude.times(hundredth()).reduced()
    }

    /// An absolute magnitude as a share of the size of `value`.
    pub open spec fn share_of(self, value: Frac) -> Frac {
        self.magnitude.over(value.magnitude()).reduced()
    }

    /// The uncertainty in the units of `value`: a relative one is that
    /// percentage of the size of `value`, a certain one is zero at the
    /// default precision.
    pub open spec fn to_absolute(self, value: Frac) -> UncertaintyModel {
        match self.kind {
            Kind::Absolute => self,
            Kind::Relative => UncertaintyModel {
                kind: Kind::Absolute,
                magnitude: self.share().times(value.magnitude()).reduced(),
                precision: self.precision,
            },
            Kind::Certain => UncertaintyModel {
                kind: Kind::Absolute,
                magnitude: Frac::whole(0),
                precision: DEFAULT_PRECISION as nat,
            },
        }
    }

    /// On which error the conversion to the absolute form ends, if on any.
    pub open spec fn to_absolute_failure(self, value: Frac) -> Option<MeasureError> {
        if self.kind == Kind::Relative && !(self.share().fits() && self.to_absolute(
            value,
        ).magnitude.fits()) {
            Some(MeasureError::Overflow)
        } else {
            None
        }
    }

    /// The uncertainty as a percentage of the size of `value`, which is not
    /// zero where the uncertainty is absolute; a certain one is zero percent
    /// at the default precision.
    pub open spec fn to_relative(self, value: Frac) -> UncertaintyModel {
        match self.kind {
            Kind::Relative => self,
            Kind::Absolute => UncertaintyModel {
                kind: Kind::Relative,
                magnitude: self.share_of(value).times(Frac::whole(100)).reduced(),
                precision: self.precision,
            },
            Kind::Certain => UncertaintyModel {
                kind: Kind::Relative,
                magnitude: Frac::whole(0),
                precision: DEFAULT_PRECISION as nat,
            },
        }
    }

    /// On which error the conversion to the relative form ends, if on any.
    pub open spec fn to_relative_failure(self, value: Frac) -> Option<MeasureError> {
        if self.kind != Kind::Absolute {
            None
        } else if value.num == 0 {
            Some(MeasureError::ZeroValue)
        } else if !(self.share_of(value).fits() && self.to_relative(value).magnitude.fits()) {
            Some(MeasureError::Overflow)
        } else {
            None
        }
    }

    /// The text of the magnitude with its unit: as many decimals as the
    /// precision says, and a percent sign behind a relative one.
    pub open spec fn quantity_text(self) -> Seq<char> {
        let unit = if self.kind == Kind::Relative {
            seq![' ', '%']
        } else {
            Seq::empty()
        };
        decimal_text(self.magnitude, self.precision) + unit
    }

    /// The text of the uncertainty: the sign for "more or less" and,
    /// directly behind it, the magnitude with its unit.
    pub open spec fn text(self) -> Seq<char> {
        seq!['\u{b1}'] + self.quantity_text()
    }

    /// The uncertainty of a sum or a difference, for two uncertainties in
    /// the units of their values: the magnitudes add, at the coarser
    /// precision.
    pub open spec fn add(self, other: UncertaintyModel) -> UncertaintyModel {
        UncertaintyModel {
            kind: Kind::Absolute,
            magnitude: self.magnitude.plus(other.magnitude).reduced(),
            precision: coarser(self.precision, other.precision),
        }
    }

    /// The uncertainty of a product or a quotient, for two relative
    /// uncertainties: the percentages add, at the coarser precision.
    pub open spec fn mul(self, other: UncertaintyModel) -> UncertaintyModel {
        UncertaintyModel {
            kind: Kind::Relative,
            magnitude: self.magnitude.plus(other.magnitude).reduced(),
            precision: coarser(self.precision, other.precision),
        }
    }
}

/// The error bar of a measured quantity.
#[derive(Clone, Copy, Debug)]
pub struct Uncertainty {
    kind: Kind,
    magnitude: Ratio,
    precision: usize,
}

impl View for Uncertainty {
    type V = UncertaintyModel;

    closed spec fn view(&self) -> UncertaintyModel {
        UncertaintyModel {
            kind: self.kind,
            magnitude: self.magnitude@,
            precision: self.precision as nat,
        }
    }
}

/// The smaller of two digit counts.
pub fn min_precision(a: usize, b: usize) -> (m: usize)
    ensures
        m as nat == coarser(a as nat, b as nat),
{
    if a <= b {
        a
    } else {
        b
    }
}

impl Uncertainty {
    /// Every value of the type has a magnitude that is a proper fraction
    /// and not negative, and a certain one has magnitude zero.
    #[verifier::type_invariant]
    pub open spec fn wf(self) -> bool {
        self@.wf()
    }

    /// No uncertainty, shown with `precision` decimals.
    pub fn certain(precision: usize) -> (u: Uncertainty)
        ensures
            u.wf(),
            u@ == (UncertaintyModel {
                kind: Kind::Certain,
                magnitude: Frac::whole(0),
                precision: precision as nat,
            }),
    {
        Uncertainty { kind: Kind::Certain, magnitude: Ratio::from_int(0), precision }
    }

    /// An absolute uncertainty of the size of `magnitude`.
    pub fn absolute(magnitude: Ratio, precision: usize) -> (u: Uncertainty)
        ensures
            u.wf(),
            u@ == (UncertaintyModel {
                kind: Kind::Absolute,
                magnitude: magnitude@.magnitude(),
                precision: precision as nat,
            }),
    {
        Uncertainty { kind: Kind::Absolute, magnitude: magnitude.abs(), precision }
    }

    /// A relative uncertainty of the size of `magnitude`, in percent.
    pub fn relative(magnitude: Ratio, precision: usize) -> (u: Uncertainty)
        ensures
            u.wf(),
            u@ == (UncertaintyModel {
                kind: Kind::Relative,
                magnitude: magnitude@.magnitude(),
                precision: precision as nat,
            }),
    {
        Uncertainty { kind: Kind::Relative, magnitude: magnitude.abs(), precision }
    }

    pub fn kind(&self) -> (k: Kind)
        ensures
            k == self@.kind,
    {
        self.kind
    }

    pub fn magnitude(&self) -> (m: Ratio)
        ensures
            m@ == self@.magnitude,
    {
        self.magnitude
    }

    pub fn precision(&self) -> (p: usize)
        ensures
            p as nat == self@.precision,
    {
        self.precision
    }

    /// The same uncertainty shown with `precision` decimals.
    pub fn with_precision(self, precision: usize) -> (u: Uncertainty)
        ensures
            u.wf(),
            u@ == (UncertaintyModel { precision: precision as nat, ..self@ }),
    {
        proof {
            use_type_invariant(self);
        }
        Uncertainty { kind: self.kind, magnitude: self.magnitude, precision }
    }

    /// The uncertainty in the units of `value`. Only a relative one can fail,
    /// and only where the exact magnitude does not fit.
    pub fn to_absolute(self, value: &Ratio) -> (r: Result<Uncertainty, MeasureError>)
        ensures
            match r {
                Ok(u) => self@.to_absolute_failure(value@) is None && u.wf() && u@
                    == self@.to_absolute(value@),
                Err(e) => self@.to_absolute_failure(value@) == Some(e),
            },
    {
        proof {
            use_type_invariant(self);
            use_type_invariant(value);
        }
        match self.kind {
            Kind::Absolute => Ok(self),
            Kind::Certain => Ok(
                Uncertainty {
                    kind: Kind::Absolute,
                    magnitude: Ratio::from_int(0),
                    precision: DEFAULT_PRECISION,
                },
            ),
            Kind::Relative => {
                let size = value.abs();
                let percent = Ratio::new(1, 100).unwrap();
                proof {
                    let first = self.magnitude@.times(hundredth());
                    lemma_reduced(first);
                    let second = first.reduced().times(size@);
                    assert(second.den > 0 && second.num >= 0) by (nonlinear_arith)
                        requires
                            second == first.reduced().times(size@),
                            first.reduced().den > 0,
                            first.reduced().num >= 0,
                            size@.den > 0,
                            size@.num >= 0,
                    ;
                    lemma_reduced(second);
                }
                match self.magnitude.checked_mul(&percent) {
                    None => Err(MeasureError::Overflow),
                    Some(share) => match share.checked_mul(&size) {
                        None => Err(MeasureError::Overflow),
                        Some(m) => Ok(
                            Uncertainty {
                                kind: Kind::Absolute,
                                magnitude: m,
                                precision: self.precision,
                            },
                        ),
                    },
                }
            },
        }
    }

    /// The uncertainty in percent of `value`. An absolute one has no relative
    /// form where `value` is zero.
    pub fn to_relative(self, value: &Ratio) -> (r: Result<Uncertainty, MeasureError>)
        ensures
            match r {
                Ok(u) => self@.to_relative_failure(value@) is None && u.wf() && u@
                    == self@.to_relative(value@),
                Err(e) => self@.to_relative_failure(value@) == Some(e),
            },
    {
        proof {
            use_type_invariant(self);
            use_type_invariant(value);
        }
        match self.kind {
            Kind::Relative => Ok(self),
            Kind::Certain => Ok(
                Uncertainty {
                    kind: Kind::Relative,
                    magnitude: Ratio::from_int(0),
                    precision: DEFAULT_PRECISION,
                },
            ),
            Kind::Absolute => {
                if value.is_zero() {
                    return Err(MeasureError::ZeroValue);
                }
                let size = value.abs();
                let hundred = Ratio::from_int(100);
                proof {
                    let first = self.magnitude@.over(size@);
                    assert(first.den > 0 && first.num >= 0) by (nonlinear_arith)
                        requires
                            first == self.magnitude@.over(size@),
                            self.magnitude@.den > 0,
                            self.magnitude@.num >= 0,
                            size@.den > 0,
                            size@.num > 0,
                    ;
                    lemma_reduced(first);
                    let second = first.reduced().times(Frac::whole(100));
                    lemma_reduced(second);
                }
                match self.magnitude.checked_div(&size) {
                    None => Err(MeasureError::Overflow),
                    Some(share) => match share.checked_mul(&hundred) {
                        None => Err(MeasureError::Overflow),
                        Some(m) => Ok(
                            Uncertainty {
                                kind: Kind::Relative,
                                magnitude: m,
                                precision: self.precision,
                            },
                        ),
                    },
                }
            },
        }
    }

    /// The sum of the magnitudes of both, as an uncertainty of kind `kind`
    /// at the coarser precision, where it fits.
    fn pooled(self, other: Uncertainty, kind: Kind) -> (r: Option<Uncertainty>)
        requires
            kind != Kind::Certain,
        ensures
            r is Some <==> self@.magnitude.plus(other@.magnitude).reduced().fits(),
            r matches Some(u) ==> u.wf() && u@ == (UncertaintyModel {
                kind,
                magnitude: self@.magnitude.plus(other@.magnitude).reduced(),
                precision: coarser(self@.precision, other@.precision),
            }),
    {
        proof {
            use_type_invariant(self);
            use_type_invariant(other);
            let total = self@.magnitude.plus(other@.magnitude);
            assert(total.num >= 0 && total.den > 0) by (nonlinear_arith)
                requires
                    total == self@.magnitude.plus(other@.magnitude),
                    self@.magnitude.fits(),
                    other@.magnitude.fits(),
                    self@.magnitude.num >= 0,
                    other@.magnitude.num >= 0,
            ;
            lemma_reduced(total);
        }
        let precision = min_precision(self.precision, other.precision);
        match self.magnitude.checked_add(&other.magnitude) {
            None => None,
            Some(magnitude) => Some(Uncertainty { kind, magnitude, precision }),
        }
    }

    /// Additive propagation: the magnitudes of two uncertainties in the
    /// units of their values add. A relative operand has no place here: it
    /// is converted first, with the value it belongs to. The sum fails only
    /// where it does not fit.
    pub fn add(self, other: Uncertainty) -> (r: Result<Uncertainty, MeasureError>)
        requires
            self@.kind != Kind::Relative,
            other@.kind != Kind::Relative,
        ensures
            match r {
                Ok(u) => self@.add(other@).magnitude.fits() && u.wf() && u@ == self@.add(other@),
                Err(e) => !self@.add(other@).magnitude.fits() && e == MeasureError::Overflow,
            },
    {
        match self.pooled(other, Kind::Absolute) {
            None => Err(MeasureError::Overflow),
            Some(u) => Ok(u),
        }
    }

    /// Multiplicative propagation: the percentages of two relative
    /// uncertainties add. Any other operand has no place here: it is
    /// converted first, with the value it belongs to. The sum fails only
    /// where it does not fit.
    pub fn mul(self, other: Uncertainty) -> (r: Result<Uncertainty, MeasureError>)
        requires
            self@.kind == Kind::Relative,
            other@.kind == Kind::Relative,
        ensures
            match r {
                Ok(u) => self@.mul(other@).magnitude.fits() && u.wf() && u@ == self@.mul(other@),
                Err(e) => !self@.mul(other@).magnitude.fits() && e == MeasureError::Overflow,
            },
    {
        match self.pooled(other, Kind::Relative) {
            None => Err(MeasureError::Overflow),
            Some(u) => Ok(u),
        }
    }

    /// Appends the magnitude with its unit to `out`.
    pub(crate) fn write_quantity(&self, out: &mut Vec<char>)
        ensures
            final(out)@ == old(out)@ + self@.quantity_text(),
    {
        write_decimal(out, &self.magnitude, self.precision);
        if self.kind == Kind::Relative {
            out.push(' ');
            out.push('%');
        }
        assert(final(out)@ =~= old(out)@ + self@.quantity_text());
    }

    /// The uncertainty as text.
    pub fn render(&self) -> (s: String)
        ensures
            s@ == self@.text(),
    {
        let mut out: Vec<char> = Vec::new();
        out.push('\u{b1}');
        self.write_quantity(&mut out);
        assert(out@ =~= self@.text());
        collect_text(out)
    }
}

impl Default for Uncertainty {
    /// No uncertainty at the default precision.
    fn default() -> (u: Uncertainty)
        ensures
            u.wf(),
            u@ == (UncertaintyModel {
                kind: Kind::Certain,
                magnitude: Frac::whole(0),
                precision: DEFAULT_PRECISION as nat,
            }),
    {
        Uncertainty::certain(DEFAULT_PRECISION)
    }
}

} // verus!
