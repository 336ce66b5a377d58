//! Measured quantities with error bars, over exact rational numbers.
//!
//! A [`measure::Measure`] pairs a value with an [`uncertainty::Uncertainty`]
//! that is either absolute (in the units of the value) or relative (a
//! percentage of it). The four arithmetic operations propagate the error bar,
//! and a measure renders as text at a chosen number of decimals.

pub mod ratio;
pub mod uncertainty;
pub mod measure;
pub mod decimal;
pub mod laws;
