//! Gathering the readings of a plate, role by role and group by group, after
//! checking that every used well and every referenced standard group is fit
//! for it.

use vstd::prelude::*;
use crate::binary64::{finite, is_finite};
use crate::error::ValueError;
use crate::plate::{Microplate, Sample, SampleType};

verus! {

/// What is wrong with a well, if anything: a used well needs a reading, and
/// the reading must be finite.
pub open spec fn well_fault(sample: Sample) -> Option<ValueError> {
    if sample.typ == SampleType::Unused {
        None
    } else {
        match sample.value {
            None => Some(ValueError::UnassignedValue),
            Some(v) => if finite(v) {
                None
            } else {
                Some(ValueError::InvalidValue)
            },
        }
    }
}

/// The first finding that is a fault, if there is one.
pub open spec fn first_fault(findings: Seq<Option<ValueError>>) -> Option<ValueError>
    decreases findings.len(),
{
    if findings.len() == 0 {
        None
    } else if first_fault(findings.drop_last()) is Some {
        first_fault(findings.drop_last())
    } else {
        findings.last()
    }
}

/// The wells of `role`; with a `group`, only those of that group.
pub open spec fn chosen(role: SampleType, group: Option<usize>) -> spec_fn(Sample) -> bool {
    |s: Sample| s.typ == role && (group is None || group == Some(s.group))
}

/// The reading of a well that has one.
pub open spec fn reading() -> spec_fn(Sample) -> u64 {
    |s: Sample| s.value->0
}

/// Whether every well of `role` has a reading.
pub open spec fn all_read(samples: Seq<Sample>, role: SampleType) -> bool {
    forall|i: int|
        0 <= i < samples.len() && (#[trigger] samples[i]).typ == role ==> samples[i].value is Some
}

/// The readings of the chosen wells, in plate order.
pub open spec fn readings(samples: Seq<Sample>, role: SampleType, group: Option<usize>) -> Seq<
    u64,
> {
    samples.filter(chosen(role, group)).map_values(reading())
}

/// Whether some well of `role` belongs to the group.
pub open spec fn referenced(samples: Seq<Sample>, role: SampleType) -> spec_fn(usize) -> bool {
    |g: usize| readings(samples, role, Some(g)).len() > 0
}

/// The groups below `count` that some well of `role` belongs to, ascending.
pub open spec fn referenced_groups(samples: Seq<Sample>, role: SampleType, count: nat) -> Seq<
    usize,
> {
    Seq::new(count, |g: int| g as usize).filter(referenced(samples, role))
}

/// What is wrong with standard group `g`, if anything: a group that some
/// standard well belongs to needs a concentration, and a finite one.
pub open spec fn group_fault(plate: &Microplate, g: int) -> Option<ValueError> {
    if !referenced(plate.samples@, SampleType::Standard)(g as usize) {
        None
    } else {
        match plate.standard_groups@[g].concentration {
            None => Some(ValueError::UnassignedConcentration),
            Some(c) => if finite(c) {
                None
            } else {
                Some(ValueError::InvalidConcentration)
            },
        }
    }
}

/// The findings on the wells, in plate order.
pub open spec fn well_faults(plate: &Microplate) -> Seq<Option<ValueError>> {
    plate.samples@.map_values(|s: Sample| well_fault(s))
}

/// The findings on the standard groups, in group order.
pub open spec fn group_faults(plate: &Microplate) -> Seq<Option<ValueError>> {
    Seq::new(plate.standard_groups@.len(), |g: int| group_fault(plate, g))
}

/// Why the plate cannot be tallied, if it cannot: the wells are examined
/// first, in plate order, then the standard groups, in group order, and the
/// first fault met is the one reported.
pub open spec fn plate_fault(plate: &Microplate) -> Option<ValueError> {
    first_fault(well_faults(plate) + group_faults(plate))
}

/// The readings of one standard group, with its dose.
#[derive(Debug)]
pub struct StandardReadings {
    /// The group's index in the plate.
    pub group: usize,
    /// The binary64 encoding of the group's concentration.
    pub concentration: u64,
    /// The binary64 encodings of its wells' readings, in plate order.
    pub values: Vec<u64>,
}

/// The readings of one unknown group, with its label.
#[derive(Debug)]
pub struct UnknownReadings {
    /// The group's index in the plate.
    pub group: usize,
    /// The group's label.
    pub label: String,
    /// The binary64 encodings of its wells' readings, in plate order.
    pub values: Vec<u64>,
}

/// The readings of a plate, gathered per role and per group. Groups that no
/// well belongs to are left out.
#[derive(Debug)]
pub struct Tally {
    pub blank: Vec<u64>,
    pub control: Vec<u64>,
    pub standards: Vec<StandardReadings>,
    pub unknowns: Vec<UnknownReadings>,
}

impl StandardReadings {
    /// Whether this is what `plate` holds for the group.
    pub open spec fn drawn_from(&self, plate: &Microplate) -> bool {
        &&& self.group < plate.standard_groups@.len()
        &&& plate.standard_groups@[self.group as int].concentration == Some(self.concentration)
        &&& finite(self.concentration)
        &&& self.values@ == readings(plate.samples@, SampleType::Standard, Some(self.group))
        &&& self.values@.len() > 0
    }
}

impl UnknownReadings {
    /// Whether this is what `plate` holds for the group.
    pub open spec fn drawn_from(&self, plate: &Microplate) -> bool {
        &&& self.group < plate.unknown_groups@.len()
        &&& plate.unknown_groups@[self.group as int].label == self.label
        &&& self.values@ == readings(plate.samples@, SampleType::Unknown, Some(self.group))
        &&& self.values@.len() > 0
    }
}

impl Tally {
    /// Whether this is the tally of `plate`: the blank and control readings in
    /// plate order, and one entry for each referenced group, in group order.
    pub open spec fn drawn_from(&self, plate: &Microplate) -> bool {
        &&& self.blank@ == readings(plate.samples@, SampleType::Blank, None)
        &&& self.control@ == readings(plate.samples@, SampleType::Control, None)
        &&& self.standards@.map_values(|s: StandardReadings| s.group) == referenced_groups(
            plate.samples@,
            SampleType::Standard,
            plate.standard_groups@.len(),
        )
        &&& forall|i: int|
            0 <= i < self.standards@.len() ==> (#[trigger] self.standards@[i]).drawn_from(plate)
        &&& self.unknowns@.map_values(|u: UnknownReadings| u.group) == referenced_groups(
            plate.samples@,
            SampleType::Unknown,
            plate.unknown_groups@.len(),
        )
        &&& forall|i: int|
            0 <= i < self.unknowns@.len() ==> (#[trigger] self.unknowns@[i]).drawn_from(plate)
    }

    /// The (dose, mean response) pair of each standard group, given the mean
    /// of each group's readings in the order of `standards`. None where the
    /// means are not as many as the groups.
    pub fn standard_points(&self, means: &Vec<u64>) -> (points: Option<Vec<(u64, u64)>>)
        ensures
            points is Some <==> means@.len() == self.standards@.len(),
            points is Some ==> points->0@.len() == means@.len() && forall|i: int|
                0 <= i < means@.len() ==> (#[trigger] points->0@[i]) == (
                    self.standards@[i].concentration,
                    means@[i],
                ),
    {
        if means.len() != self.standards.len() {
            return None;
        }
        let mut points: Vec<(u64, u64)> = Vec::new();
        let mut i: usize = 0;
        while i < means.len()
            invariant
                i <= means@.len(),
                means@.len() == self.standards@.len(),
                points@.len() == i,
                forall|k: int|
                    0 <= k < i ==> (#[trigger] points@[k]) == (
                        self.standards@[k].concentration,
                        means@[k],
                    ),
            decreases means@.len() - i,
        {
            points.push((self.standards[i].concentration, means[i]));
            i += 1;
        }
        Some(points)
    }

    /// The (mean response, label) pair of each unknown group, given the mean
    /// of each group's readings in the order of `unknowns`. None where the
    /// means are not as many as the groups.
    pub fn unknown_points(&self, means: &Vec<u64>) -> (points: Option<Vec<(u64, String)>>)
        ensures
            points is Some <==> means@.len() == self.unknowns@.len(),
            points is Some ==> points->0@.len() == means@.len() && forall|i: int|
                0 <= i < means@.len() ==> (#[trigger] points->0@[i]) == (
                    means@[i],
                    self.unknowns@[i].label,
                ),
    {
        if means.len() != self.unknowns.len() {
            return None;
        }
        let mut points: Vec<(u64, String)> = Vec::new();
        let mut i: usize = 0;
        while i < means.len()
            invariant
                i <= means@.len(),
                means@.len() == self.unknowns@.len(),
                points@.len() == i,
                forall|k: int|
                    0 <= k < i ==> (#[trigger] points@[k]) == (means@[k], self.unknowns@[k].label),
            decreases means@.len() - i,
        {
            let label = self.unknowns[i].label.clone();
            points.push((means[i], label));
            i += 1;
        }
        Some(points)
    }

    /// Gathers the readings of `plate`, or says why it cannot be tallied.
    pub fn new(plate: &Microplate) -> (r: Result<Tally, ValueError>)
        requires
            plate.wf(),
        ensures
            match r {
                Ok(tally) => plate_fault(plate) is None && tally.drawn_from(plate),
                Err(e) => plate_fault(plate) == Some(e),
            },
    {
        match check_wells(&plate.samples) {
            Some(e) => {
                proof {
                    lemma_first_fault_prefix(well_faults(plate), group_faults(plate));
                }
                return Err(e);
            },
            None => {},
        }
        proof {
            lemma_sound_wells_are_read(plate.samples@);
        }
        let blank = gather(&plate.samples, SampleType::Blank, None);
        let control = gather(&plate.samples, SampleType::Control, None);

        let mut unknowns: Vec<UnknownReadings> = Vec::new();
        let mut g: usize = 0;
        while g < plate.unknown_groups.len()
            invariant
                g <= plate.unknown_groups@.len(),
                all_read(plate.samples@, SampleType::Unknown),
                unknowns@.map_values(|u: UnknownReadings| u.group) == referenced_groups(
                    plate.samples@,
                    SampleType::Unknown,
                    g as nat,
                ),
                forall|i: int|
                    0 <= i < unknowns@.len() ==> (#[trigger] unknowns@[i]).drawn_from(plate),
            decreases plate.unknown_groups@.len() - g,
        {
            let values = gather(&plate.samples, SampleType::Unknown, Some(g));
            proof {
                lemma_referenced_groups_step(plate.samples@, SampleType::Unknown, g);
            }
            if values.len() > 0 {
                let label = plate.unknown_groups[g].label.clone();
                let ghost before = unknowns@;
                let entry = UnknownReadings { group: g, label, values };
                unknowns.push(entry);
                assert(unknowns@.map_values(|u: UnknownReadings| u.group) =~= before.map_values(
                    |u: UnknownReadings| u.group,
                ).push(g));
            }
            g += 1;
        }

        let mut standards: Vec<StandardReadings> = Vec::new();
        let mut g: usize = 0;
        while g < plate.standard_groups.len()
            invariant
                g <= plate.standard_groups@.len(),
                all_read(plate.samples@, SampleType::Standard),
                first_fault(well_faults(plate)) is None,
                forall|k: int| 0 <= k < g ==> group_fault(plate, k) is None,
                standards@.map_values(|s: StandardReadings| s.group) == referenced_groups(
                    plate.samples@,
                    SampleType::Standard,
                    g as nat,
                ),
                forall|i: int|
                    0 <= i < standards@.len() ==> (#[trigger] standards@[i]).drawn_from(plate),
            decreases plate.standard_groups@.len() - g,
        {
            let values = gather(&plate.samples, SampleType::Standard, Some(g));
            proof {
                lemma_referenced_groups_step(plate.samples@, SampleType::Standard, g);
            }
            if values.len() > 0 {
                let concentration = match plate.standard_groups[g].concentration {
                    Some(c) => c,
                    None => {
                        proof {
                            lemma_first_fault_suffix(
                                well_faults(plate),
                                group_faults(plate),
                                g as int,
                            );
                        }
                        return Err(ValueError::UnassignedConcentration);
                    },
                };
                if !is_finite(concentration) {
                    proof {
                        lemma_first_fault_suffix(well_faults(plate), group_faults(plate), g as int);
                    }
                    return Err(ValueError::InvalidConcentration);
                }
                let ghost before = standards@;
                let entry = StandardReadings { group: g, concentration, values };
                standards.push(entry);
                assert(standards@.map_values(|s: StandardReadings| s.group) =~= before.map_values(
                    |s: StandardReadings| s.group,
                ).push(g));
            }
            g += 1;
        }
        proof {
            let wells = well_faults(plate);
            let groups = group_faults(plate);
            lemma_no_fault(wells);
            assert forall|k: int| 0 <= k < (wells + groups).len() implies (wells + groups)[k]
                is None by {
                if k >= wells.len() {
                    assert(group_fault(plate, k - wells.len()) is None);
                }
            }
            lemma_no_fault(wells + groups);
        }
        Ok(Tally { blank, control, standards, unknowns })
    }
}

/// The fault of the first faulty well, if any well is faulty.
fn check_wells(samples: &Vec<Sample>) -> (r: Option<ValueError>)
    ensures
        r == first_fault(samples@.map_values(|s: Sample| well_fault(s))),
{
    let ghost findings = samples@.map_values(|s: Sample| well_fault(s));
    let mut i: usize = 0;
    while i < samples.len()
        invariant
            i <= samples@.len(),
            findings == samples@.map_values(|s: Sample| well_fault(s)),
            forall|k: int| 0 <= k < i ==> findings[k] is None,
        decreases samples@.len() - i,
    {
        let sample = samples[i];
        if sample.typ != SampleType::Unused {
            let fault = match sample.value {
                None => Some(ValueError::UnassignedValue),
                Some(v) => if is_finite(v) {
                    None
                } else {
                    Some(ValueError::InvalidValue)
                },
            };
            if fault.is_some() {
                proof {
                    lemma_first_fault_at(findings, i as int);
                }
                return fault;
            }
        }
        i += 1;
    }
    proof {
        lemma_no_fault(findings);
    }
    None
}

/// The readings of the chosen wells, in plate order.
fn gather(samples: &Vec<Sample>, role: SampleType, group: Option<usize>) -> (values: Vec<u64>)
    requires
        all_read(samples@, role),
    ensures
        values@ == readings(samples@, role, group),
{
    let mut values: Vec<u64> = Vec::new();
    let mut i: usize = 0;
    while i < samples.len()
        invariant
            i <= samples@.len(),
            all_read(samples@, role),
            values@ == readings(samples@.take(i as int), role, group),
        decreases samples@.len() - i,
    {
        let sample = samples[i];
        let of_group = match group {
            None => true,
            Some(g) => sample.group == g,
        };
        proof {
            let seen = samples@.take(i as int);
            assert(samples@.take(i + 1) =~= seen.push(samples@[i as int]));
            seen.lemma_filter_push(samples@[i as int], chosen(role, group));
            seen.filter(chosen(role, group)).lemma_push_map_commute(reading(), samples@[i as int]);
        }
        if sample.typ == role && of_group {
            if let Some(value) = sample.value {
                values.push(value);
            }
        }
        i += 1;
    }
    assert(samples@.take(samples@.len() as int) =~= samples@);
    values
}

/// Where no well is faulty, every well of a role that is used has a reading.
proof fn lemma_sound_wells_are_read(samples: Seq<Sample>)
    requires
        first_fault(samples.map_values(|s: Sample| well_fault(s))) is None,
    ensures
        all_read(samples, SampleType::Blank),
        all_read(samples, SampleType::Control),
        all_read(samples, SampleType::Standard),
        all_read(samples, SampleType::Unknown),
{
    let findings = samples.map_values(|s: Sample| well_fault(s));
    lemma_no_fault(findings);
    assert forall|i: int| 0 <= i < samples.len() && (#[trigger] samples[i]).typ
        != SampleType::Unused implies samples[i].value is Some by {
        assert(findings[i] is None);
    }
}

/// Counting one more group adds it to the referenced groups exactly if some
/// well belongs to it.
proof fn lemma_referenced_groups_step(samples: Seq<Sample>, role: SampleType, g: usize)
    requires
        g < usize::MAX,
    ensures
        referenced_groups(samples, role, (g + 1) as nat) == if referenced(samples, role)(g) {
            referenced_groups(samples, role, g as nat).push(g)
        } else {
            referenced_groups(samples, role, g as nat)
        },
{
    let below = Seq::new(g as nat, |k: int| k as usize);
    assert(Seq::new((g + 1) as nat, |k: int| k as usize) =~= below.push(g));
    below.lemma_filter_push(g, referenced(samples, role));
}

/// Where nothing before place `i` is a fault and the finding at `i` is one,
/// that finding is the first fault.
pub proof fn lemma_first_fault_at(findings: Seq<Option<ValueError>>, i: int)
    requires
        0 <= i < findings.len(),
        findings[i] is Some,
        forall|k: int| 0 <= k < i ==> findings[k] is None,
    ensures
        first_fault(findings) == findings[i],
    decreases findings.len(),
{
    if i == findings.len() - 1 {
        lemma_no_fault(findings.drop_last());
    } else {
        lemma_first_fault_at(findings.drop_last(), i);
    }
}

/// Findings of which none is a fault have no first fault, and the other way
/// round.
pub proof fn lemma_no_fault(findings: Seq<Option<ValueError>>)
    ensures
        first_fault(findings) is None <==> forall|k: int|
            0 <= k < findings.len() ==> findings[k] is None,
    decreases findings.len(),
{
    if findings.len() > 0 {
        lemma_no_fault(findings.drop_last());
        if first_fault(findings) is None {
            assert forall|k: int| 0 <= k < findings.len() implies findings[k] is None by {
                if k < findings.len() - 1 {
                    assert(findings.drop_last()[k] is None);
                }
            }
        } else {
            if first_fault(findings.drop_last()) is Some {
                let k = choose|k: int|
                    0 <= k < findings.drop_last().len() && !(findings.drop_last()[k] is None);
                assert(findings[k] is Some);
            }
        }
    }
}

/// A fault among the earlier findings is the first fault of the whole,
/// whatever comes later.
pub proof fn lemma_first_fault_prefix(
    earlier: Seq<Option<ValueError>>,
    later: Seq<Option<ValueError>>,
)
    requires
        first_fault(earlier) is Some,
    ensures
        first_fault(earlier + later) == first_fault(earlier),
    decreases later.len(),
{
    if later.len() == 0 {
        assert(earlier + later =~= earlier);
    } else {
        lemma_first_fault_prefix(earlier, later.drop_last());
        assert((earlier + later).drop_last() =~= earlier + later.drop_last());
    }
}

/// Where the earlier findings hold no fault, the first fault of the whole is
/// the first faulty finding among the later ones.
pub proof fn lemma_first_fault_suffix(
    earlier: Seq<Option<ValueError>>,
    later: Seq<Option<ValueError>>,
    i: int,
)
    requires
        first_fault(earlier) is None,
        0 <= i < later.len(),
        later[i] is Some,
        forall|k: int| 0 <= k < i ==> later[k] is None,
    ensures
        first_fault(earlier + later) == later[i],
{
    lemma_no_fault(earlier);
    lemma_first_fault_at(earlier + later, earlier.len() + i);
}

} // verus!
