//! Validation, grouping and ordering for four-parameter logistic immunoassay
//! quantification.
//!
//! A microplate of wells is checked, its readings are gathered per role and
//! per group, the means of the groups are checked against each other, and the
//! calibration standards are put in dose order. The gradient descent that
//! fits the curve is kept on course: where it starts, how long it runs, and
//! within which bounds its zero-dose response stays.
//!
//! Readings, doses and parameters are IEEE 754 binary64 values carried by
//! their 64-bit encodings, so every decision made here is a statement about
//! integers. The arithmetic on the values, from the mean of a group to the
//! gradient of a step, is the caller's: it works in two turns with the
//! library, which hands out what is to be averaged or stepped and takes the
//! result back.
//!
//! The way through the modules: [`tally::Tally::new`] gathers the readings
//! of a [`plate::Microplate`]; [`regression::Regression::new`] checks their
//! means; [`descent::Descent`] runs the fit. Around them stand what an
//! editor of plates needs: [`measurements`] and [`sheet`] bring readings in,
//! the plate takes them and keeps its group lists fitted to its wells,
//! [`palette`] colours the roles, and [`report`] sets the description of a
//! run on the lines of a page.

use vstd::prelude::*;

pub mod binary64;
pub mod descent;
pub mod error;
pub mod laws;
pub mod measurements;
pub mod palette;
pub mod plate;
pub mod regression;
pub mod report;
pub mod sheet;
pub mod standards;
pub mod tally;

verus! {

/// The default value of any type that has one.
pub fn default<D: Default>() -> (value: D)
    ensures
        call_ensures(D::default, (), value),
{
    D::default()
}

} // verus!
