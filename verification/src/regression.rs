//! The fit request: the means of a plate, checked against each other, with
//! the standards in dose order.
//!
//! Every number is the binary64 encoding of a value. The arithmetic of the
//! fit itself is done on the values by the caller; what is decided on their
//! order is decided here.

use vstd::prelude::*;
use crate::binary64::{exceeds, greater};
use crate::error::ValueError;
use crate::standards::{
    dose_ordered, is_dose_ordering_of, lemma_weakest_of_rearrangement, lowest_response,
    sort_by_dose, weakest,
};

verus! {

/// The four parameters of the curve `y = d + (a - d) / (1 + (x / c)^b)`.
#[derive(Clone, Copy, Debug, PartialEq, Eq, Structural)]
pub struct Parameters {
    /// The response at zero dose.
    pub a: u64,
    /// The slope at the inflection point.
    pub b: u64,
    /// The dose at the inflection point.
    pub c: u64,
    /// The response at infinite dose.
    pub d: u64,
}

impl Parameters {
    /// All four parameters at positive zero.
    pub open spec fn zero() -> Parameters {
        Parameters { a: 0, b: 0, c: 0, d: 0 }
    }
}

impl Default for Parameters {
    fn default() -> (p: Parameters)
        ensures
            p == Parameters::zero(),
    {
        Parameters { a: 0, b: 0, c: 0, d: 0 }
    }
}

/// A fit and what it was made from. `standards` holds (dose, response) pairs
/// in dose order; `unknowns` holds (estimated dose, response, label) triples.
#[derive(Clone, Debug)]
pub struct Regression {
    pub abcd: Parameters,
    pub blank: u64,
    pub control: u64,
    pub unknowns: Vec<(u64, u64, String)>,
    pub standards: Vec<(u64, u64)>,
    pub sse: u64,
    pub mse: u64,
    pub rmse: u64,
    pub sy_x: u64,
    pub r_sq: u64,
}

impl Default for Regression {
    fn default() -> (r: Regression)
        ensures
            r.unfitted(),
            r.blank == 0,
            r.control == 0,
            r.unknowns@.len() == 0,
            r.standards@.len() == 0,
    {
        Regression {
            abcd: Parameters { a: 0, b: 0, c: 0, d: 0 },
            blank: 0,
            control: 0,
            unknowns: Vec::new(),
            standards: Vec::new(),
            sse: 0,
            mse: 0,
            rmse: 0,
            sy_x: 0,
            r_sq: 0,
        }
    }
}

/// The mean of a role's readings: positive zero where the role has no well.
pub open spec fn mean_or_zero(mean: Option<u64>) -> u64 {
    match mean {
        Some(m) => m,
        None => 0,
    }
}

/// Why the means cannot be fitted, if they cannot: too few standards first,
/// then a control above the weakest standard response, then a blank above it.
pub open spec fn bounds_fault(blank: u64, control: u64, standards: Seq<(u64, u64)>) -> Option<
    ValueError,
> {
    if standards.len() < 4 {
        Some(ValueError::NotEnoughStandards)
    } else if greater(control, weakest(standards)) {
        Some(ValueError::ControlTooBig)
    } else if greater(blank, weakest(standards)) {
        Some(ValueError::BlankTooBig)
    } else {
        None
    }
}

/// The unknowns as a fit starts with them: the estimated dose at positive
/// zero, then the response and the label as given.
pub open spec fn unestimated(unknowns: Seq<(u64, String)>) -> Seq<(u64, u64, String)> {
    unknowns.map_values(|u: (u64, String)| (0u64, u.0, u.1))
}

impl Regression {
    /// Whether nothing has been fitted yet: parameters and statistics are all
    /// at positive zero.
    pub open spec fn unfitted(&self) -> bool {
        &&& self.abcd == Parameters::zero()
        &&& self.sse == 0
        &&& self.mse == 0
        &&& self.rmse == 0
        &&& self.sy_x == 0
        &&& self.r_sq == 0
    }

    /// Whether the fit stands on checked ground: at least four standards, in
    /// dose order, and neither the control nor the blank above the weakest
    /// standard response.
    pub open spec fn validated(&self) -> bool {
        &&& self.standards@.len() >= 4
        &&& dose_ordered(self.standards@)
        &&& !greater(self.control, weakest(self.standards@))
        &&& !greater(self.blank, weakest(self.standards@))
    }

    /// Checks the means against each other and sets up the fit: the standards
    /// in dose order, the unknowns without an estimate yet.
    ///
    /// `blank` and `control` are the means of the blank and of the control
    /// readings, or nothing where the plate has no such well: the mean then
    /// counts as positive zero. `standards` holds one (dose, mean response)
    /// pair per standard group and `unknowns` one (mean response, label) pair
    /// per unknown group.
    pub fn new(
        blank: Option<u64>,
        control: Option<u64>,
        standards: &Vec<(u64, u64)>,
        unknowns: &Vec<(u64, String)>,
    ) -> (r: Result<Regression, ValueError>)
        ensures
            match r {
                Ok(fit) => {
                    &&& bounds_fault(mean_or_zero(blank), mean_or_zero(control), standards@)
                        is None
                    &&& fit.blank == mean_or_zero(blank)
                    &&& fit.control == mean_or_zero(control)
                    &&& is_dose_ordering_of(fit.standards@, standards@)
                    &&& fit.unknowns@ == unestimated(unknowns@)
                    &&& fit.unfitted()
                    &&& fit.validated()
                },
                Err(e) => bounds_fault(mean_or_zero(blank), mean_or_zero(control), standards@)
                    == Some(e),
            },
    {
        let blank: u64 = match blank {
            Some(m) => m,
            None => 0,
        };
        let control: u64 = match control {
            Some(m) => m,
            None => 0,
        };
        if standards.len() < 4 {
            return Err(ValueError::NotEnoughStandards);
        }
        let sorted = sort_by_dose(standards);
        let standard_min = lowest_response(standards);
        proof {
            lemma_weakest_of_rearrangement(standards@, sorted@);
        }
        if exceeds(control, standard_min) {
            return Err(ValueError::ControlTooBig);
        }
        if exceeds(blank, standard_min) {
            return Err(ValueError::BlankTooBig);
        }
        let mut pending: Vec<(u64, u64, String)> = Vec::new();
        let mut i: usize = 0;
        while i < unknowns.len()
            invariant
                i <= unknowns@.len(),
                pending@ == unestimated(unknowns@.take(i as int)),
            decreases unknowns@.len() - i,
        {
            let label = unknowns[i].1.clone();
            pending.push((0, unknowns[i].0, label));
            assert(pending@ =~= unestimated(unknowns@.take(i + 1)));
            i += 1;
        }
        assert(unknowns@.take(unknowns@.len() as int) =~= unknowns@);
        Ok(
            Regression {
                abcd: Parameters { a: 0, b: 0, c: 0, d: 0 },
                blank,
                control,
                unknowns: pending,
                standards: sorted,
                sse: 0,
                mse: 0,
                rmse: 0,
                sy_x: 0,
                r_sq: 0,
            },
        )
    }
}

} // verus!
