//! The reasons for which a microplate is refused.

use vstd::prelude::*;

verus! {

/// Why a microplate cannot be fitted. The kinds exclude one another; when
/// several apply, the one reported is fixed by the order of validation.
#[derive(Clone, Copy, Debug, PartialEq, Eq, Structural)]
pub enum ValueError {
    /// A referenced standard group has no concentration.
    UnassignedConcentration,
    /// A used well has no reading.
    UnassignedValue,
    /// A referenced standard group has a concentration that is not finite.
    InvalidConcentration,
    /// A used well has a reading that is not finite.
    InvalidValue,
    /// Fewer than four standard groups have readings.
    NotEnoughStandards,
    /// The blank mean is greater than the weakest standard response.
    BlankTooBig,
    /// The control mean is greater than the weakest standard response.
    ControlTooBig,
}

impl ValueError {
    /// What to tell the user.
    pub open spec fn text(&self) -> Seq<char> {
        match self {
            ValueError::UnassignedConcentration => {
                "Microplate has a standard sample without a concentration."@
            },
            ValueError::UnassignedValue => "Microplate has a sample without a value."@,
            ValueError::InvalidConcentration => {
                "Microplate has a standard sample with an invalid concentration."@
            },
            ValueError::InvalidValue => "Microplate has a sample an invalid value."@,
            ValueError::NotEnoughStandards => {
                "Microplate does not have enough standards for four parameter analysis."@
            },
            ValueError::BlankTooBig => {
                "The blank is greater than one of the standard measurements"@
            },
            ValueError::ControlTooBig => {
                "The control is greater than one of the standard measurements"@
            },
        }
    }

    /// What to tell the user.
    pub fn message(&self) -> (message: &'static str)
        ensures
            message@ == self.text(),
    {
        match self {
            ValueError::UnassignedConcentration => {
                "Microplate has a standard sample without a concentration."
            },
            ValueError::UnassignedValue => "Microplate has a sample without a value.",
            ValueError::InvalidConcentration => {
                "Microplate has a standard sample with an invalid concentration."
            },
            ValueError::InvalidValue => "Microplate has a sample an invalid value.",
            ValueError::NotEnoughStandards => {
                "Microplate does not have enough standards for four parameter analysis."
            },
            ValueError::BlankTooBig => "The blank is greater than one of the standard measurements",
            ValueError::ControlTooBig => {
                "The control is greater than one of the standard measurements"
            },
        }
    }
}

} // verus!
