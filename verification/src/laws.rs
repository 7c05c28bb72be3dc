//! What holds of validation as a whole: which fault is reported when several
//! apply, when none is, and what a plate that passed is known to satisfy.

use vstd::prelude::*;
use crate::binary64::{finite, greater, nan, total_rank, value_rank};
use crate::error::ValueError;
use crate::plate::{Microplate, SampleType};
use crate::regression::bounds_fault;
use crate::standards::{lemma_weakest_exists, weakest};
use crate::tally::{
    group_fault, group_faults, lemma_first_fault_at, lemma_first_fault_prefix,
    lemma_first_fault_suffix, lemma_no_fault, plate_fault, referenced, well_fault, well_faults,
};

verus! {

/// The fault of the whole validation: what is wrong with the plate, else
/// what is wrong with the means.
pub open spec fn verdict(
    plate: &Microplate,
    blank: u64,
    control: u64,
    standards: Seq<(u64, u64)>,
) -> Option<ValueError> {
    if plate_fault(plate) is Some {
        plate_fault(plate)
    } else {
        bounds_fault(blank, control, standards)
    }
}

/// The first faulty well decides: its fault is reported whatever is wrong
/// with later wells, with the standard groups, with the number of standards
/// or with the means.
pub proof fn lemma_first_faulty_well_decides(
    plate: &Microplate,
    i: int,
    blank: u64,
    control: u64,
    standards: Seq<(u64, u64)>,
)
    requires
        0 <= i < plate.samples@.len(),
        well_fault(plate.samples@[i]) is Some,
        forall|k: int| 0 <= k < i ==> well_fault(plate.samples@[k]) is None,
    ensures
        plate_fault(plate) == well_fault(plate.samples@[i]),
        verdict(plate, blank, control, standards) == well_fault(plate.samples@[i]),
        plate_fault(plate) == Some(ValueError::UnassignedValue) || plate_fault(plate) == Some(
            ValueError::InvalidValue,
        ),
{
    lemma_first_fault_at(well_faults(plate), i);
    lemma_first_fault_prefix(well_faults(plate), group_faults(plate));
}

/// Where every well is sound, the first faulty standard group decides: its
/// fault is reported whatever is wrong with later groups, with the number of
/// standards or with the means.
pub proof fn lemma_first_faulty_group_decides(
    plate: &Microplate,
    g: int,
    blank: u64,
    control: u64,
    standards: Seq<(u64, u64)>,
)
    requires
        forall|k: int| 0 <= k < plate.samples@.len() ==> well_fault(plate.samples@[k]) is None,
        0 <= g < plate.standard_groups@.len(),
        group_fault(plate, g) is Some,
        forall|k: int| 0 <= k < g ==> group_fault(plate, k) is None,
    ensures
        plate_fault(plate) == group_fault(plate, g),
        verdict(plate, blank, control, standards) == group_fault(plate, g),
        plate_fault(plate) == Some(ValueError::UnassignedConcentration) || plate_fault(plate)
            == Some(ValueError::InvalidConcentration),
{
    lemma_no_fault(well_faults(plate));
    lemma_first_fault_suffix(well_faults(plate), group_faults(plate), g);
}

/// A plate is tallied exactly if every used well has a finite reading and
/// every standard group that a well belongs to has a finite concentration.
pub proof fn lemma_sound_plate_has_no_fault(plate: &Microplate)
    ensures
        plate_fault(plate) is None <==> {
            &&& forall|i: int|
                0 <= i < plate.samples@.len() && (#[trigger] plate.samples@[i]).typ
                    != SampleType::Unused ==> plate.samples@[i].value is Some && finite(
                    plate.samples@[i].value->0,
                )
            &&& forall|g: int|
                0 <= g < plate.standard_groups@.len() && referenced(
                    plate.samples@,
                    SampleType::Standard,
                )(g as usize) ==> (#[trigger] plate.standard_groups@[g]).concentration is Some
                    && finite(plate.standard_groups@[g].concentration->0)
        },
{
    let wells = well_faults(plate);
    let groups = group_faults(plate);
    let all = wells + groups;
    lemma_no_fault(all);
    if plate_fault(plate) is None {
        assert forall|i: int|
            0 <= i < plate.samples@.len() && (#[trigger] plate.samples@[i]).typ
                != SampleType::Unused implies plate.samples@[i].value is Some && finite(
            plate.samples@[i].value->0,
        ) by {
            assert(all[i] is None);
            assert(all[i] == well_fault(plate.samples@[i]));
        }
        assert forall|g: int|
            0 <= g < plate.standard_groups@.len() && referenced(
                plate.samples@,
                SampleType::Standard,
            )(g as usize) implies (#[trigger] plate.standard_groups@[g]).concentration is Some
            && finite(plate.standard_groups@[g].concentration->0) by {
            assert(all[wells.len() + g] is None);
            assert(all[wells.len() + g] == group_fault(plate, g));
        }
    } else {
        let k = choose|k: int| 0 <= k < all.len() && !(all[k] is None);
        if k < wells.len() {
            assert(all[k] == well_fault(plate.samples@[k]));
        } else {
            assert(all[k] == group_fault(plate, k - wells.len()));
        }
    }
}

/// A plate without a fault passes validation exactly if at least four
/// standards have a mean and neither the control nor the blank is above the
/// weakest of them.
pub proof fn lemma_verdict_of_sound_plate(
    plate: &Microplate,
    blank: u64,
    control: u64,
    standards: Seq<(u64, u64)>,
)
    requires
        plate_fault(plate) is None,
    ensures
        verdict(plate, blank, control, standards) is None <==> {
            &&& standards.len() >= 4
            &&& !greater(control, weakest(standards))
            &&& !greater(blank, weakest(standards))
        },
{
}

/// Too few standards are reported before anything about the control or the
/// blank.
pub proof fn lemma_shortage_before_bounds(blank: u64, control: u64, standards: Seq<(u64, u64)>)
    ensures
        standards.len() < 4 <==> bounds_fault(blank, control, standards) == Some(
            ValueError::NotEnoughStandards,
        ),
{
}

/// With enough standards, a control above the weakest standard response is
/// reported whatever the blank is.
pub proof fn lemma_control_before_blank(blank: u64, control: u64, standards: Seq<(u64, u64)>)
    requires
        standards.len() >= 4,
        greater(control, weakest(standards)),
    ensures
        bounds_fault(blank, control, standards) == Some(ValueError::ControlTooBig),
{
}

/// Means that passed hold the bound against every standard: where all the
/// responses are numbers, neither the control nor the blank is above any of
/// them.
pub proof fn lemma_bounds_hold_for_every_standard(
    blank: u64,
    control: u64,
    standards: Seq<(u64, u64)>,
    j: int,
)
    requires
        bounds_fault(blank, control, standards) is None,
        forall|k: int| 0 <= k < standards.len() ==> !nan((#[trigger] standards[k]).1),
        0 <= j < standards.len(),
    ensures
        !greater(control, standards[j].1),
        !greater(blank, standards[j].1),
{
    lemma_weakest_exists(standards);
    let w = weakest(standards);
    assert(total_rank(w) <= total_rank(standards[j].1));
    assert(value_rank(w) <= value_rank(standards[j].1));
}

} // verus!
