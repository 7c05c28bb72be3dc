//! The microplate: wells, their roles, and the groups that wells belong to.

use vstd::prelude::*;

verus! {

/// What a well holds.
#[derive(Clone, Copy, Debug, PartialEq, Eq, Structural)]
pub enum SampleType {
    /// Nothing: the well is ignored.
    Unused,
    /// Background signal, with no analyte.
    Blank,
    /// The nominal zero dose.
    Control,
    /// A known concentration, used to calibrate the curve.
    Standard,
    /// A concentration to be estimated.
    Unknown,
}

impl Default for SampleType {
    fn default() -> (role: SampleType)
        ensures
            role == SampleType::Unused,
    {
        SampleType::Unused
    }
}

/// One well. `group` counts only for a standard or an unknown; `value` is the
/// binary64 encoding of the reading, once there is one.
#[derive(Clone, Copy, Debug)]
pub struct Sample {
    pub typ: SampleType,
    pub group: usize,
    pub value: Option<u64>,
}

impl Default for Sample {
    fn default() -> (sample: Sample)
        ensures
            sample == Sample::unused(),
    {
        Sample { typ: SampleType::Unused, group: 0, value: None }
    }
}

impl Sample {
    /// The well that nobody has touched yet.
    pub open spec fn unused() -> Sample {
        Sample { typ: SampleType::Unused, group: 0, value: None }
    }
}

/// A group of wells. `concentration` is the binary64 encoding of the known
/// dose of a standard group; `label` is free text.
#[derive(Debug)]
pub struct Group {
    pub concentration: Option<u64>,
    pub label: String,
}

impl Group {
    /// Whether the group has neither a concentration nor a label.
    pub open spec fn is_blank(&self) -> bool {
        self.concentration is None && self.label@ == Seq::<char>::empty()
    }
}

impl Default for Group {
    fn default() -> (group: Group)
        ensures
            group.is_blank(),
    {
        Group { concentration: None, label: String::new() }
    }
}

/// A plate of `width` times `height` wells with its standard groups and its
/// unknown groups.
#[derive(Debug)]
pub struct Microplate {
    pub name: String,
    pub description: String,
    pub height: usize,
    pub width: usize,
    pub samples: Vec<Sample>,
    pub standard_groups: Vec<Group>,
    pub unknown_groups: Vec<Group>,
}

impl Default for Microplate {
    fn default() -> (plate: Microplate)
        ensures
            plate.height == 0,
            plate.width == 0,
            plate.name@ == Seq::<char>::empty(),
            plate.description@ == Seq::<char>::empty(),
            plate.samples@.len() == 0,
            plate.standard_groups@.len() == 0,
            plate.unknown_groups@.len() == 0,
    {
        Microplate {
            name: String::new(),
            description: String::new(),
            height: 0,
            width: 0,
            samples: Vec::new(),
            standard_groups: Vec::new(),
            unknown_groups: Vec::new(),
        }
    }
}

impl Microplate {
    /// Whether the sample addresses a group that its list holds. Only
    /// standards and unknowns address one.
    pub open spec fn addresses_group(&self, sample: Sample) -> bool {
        match sample.typ {
            SampleType::Standard => sample.group < self.standard_groups@.len(),
            SampleType::Unknown => sample.group < self.unknown_groups@.len(),
            _ => true,
        }
    }

    /// Every well addresses a group that exists.
    pub open spec fn wf(&self) -> bool {
        forall|i: int|
            0 <= i < self.samples@.len() ==> self.addresses_group(#[trigger] self.samples@[i])
    }

    /// A plate of `width * height` unused wells, with one blank standard group
    /// and one blank unknown group.
    pub fn new(width: usize, height: usize) -> (plate: Microplate)
        requires
            width * height <= usize::MAX,
        ensures
            plate.width == width,
            plate.height == height,
            plate.name@ == Seq::<char>::empty(),
            plate.description@ == Seq::<char>::empty(),
            plate.samples@.len() == width * height,
            forall|i: int| 0 <= i < width * height ==> plate.samples@[i] == Sample::unused(),
            plate.standard_groups@.len() == 1,
            plate.standard_groups@[0].is_blank(),
            plate.unknown_groups@.len() == 1,
            plate.unknown_groups@[0].is_blank(),
            plate.wf(),
            plate.rectangular(),
    {
        let wells: usize = width * height;
        let mut samples: Vec<Sample> = Vec::new();
        let mut i: usize = 0;
        while i < wells
            invariant
                i <= wells,
                samples@.len() == i,
                forall|k: int| 0 <= k < i ==> samples@[k] == Sample::unused(),
            decreases wells - i,
        {
            samples.push(Sample { typ: SampleType::Unused, group: 0, value: None });
            i += 1;
        }
        let mut standard_groups: Vec<Group> = Vec::new();
        standard_groups.push(Group { concentration: None, label: String::new() });
        let mut unknown_groups: Vec<Group> = Vec::new();
        unknown_groups.push(Group { concentration: None, label: String::new() });
        Microplate {
            name: String::new(),
            description: String::new(),
            height,
            width,
            samples,
            standard_groups,
            unknown_groups,
        }
    }

    /// Whether the plate has as many wells as its width and height say.
    pub open spec fn rectangular(&self) -> bool {
        self.samples@.len() == self.width * self.height
    }

    /// Whether the plate has a well for every column and row.
    pub open spec fn has_every_well(&self) -> bool {
        self.width * self.height <= self.samples@.len()
    }

    /// The place of the well in `column` and `row` among the samples: the
    /// wells are kept column by column.
    pub open spec fn place(&self, column: int, row: int) -> int {
        self.height * column + row
    }

    /// Whether `data`, a list of rows of readings, fits on the plate: no more
    /// rows than the plate is high, and no row longer than the plate is wide.
    pub open spec fn fits(&self, data: Seq<Vec<Option<u64>>>) -> bool {
        &&& data.len() <= self.height
        &&& forall|row: int| 0 <= row < data.len() ==> (#[trigger] data[row])@.len() <= self.width
    }

    /// Whether the plate has as many wells as its width and height say.
    pub fn is_rectangular(&self) -> (r: bool)
        ensures
            r == self.rectangular(),
    {
        let wells = self.samples.len();
        match self.width.checked_mul(self.height) {
            Some(product) => product == wells,
            None => false,
        }
    }

    /// Whether the plate has a well for every column and row.
    pub fn is_complete(&self) -> (r: bool)
        ensures
            r == self.has_every_well(),
    {
        let wells = self.samples.len();
        match self.width.checked_mul(self.height) {
            Some(product) => product <= wells,
            None => false,
        }
    }

    /// The place of the well in `column` and `row` among the samples.
    pub fn index_of(&self, column: usize, row: usize) -> (i: usize)
        requires
            self.has_every_well(),
            column < self.width,
            row < self.height,
        ensures
            i == self.place(column as int, row as int),
            i < self.samples@.len(),
    {
        proof {
            assert(self.samples@.len() == self.samples.len());
        }
        well_index(self.width, self.height, column, row)
    }

    /// Whether `data` fits on the plate.
    pub fn has_room_for(&self, data: &Vec<Vec<Option<u64>>>) -> (r: bool)
        ensures
            r == self.fits(data@),
    {
        if data.len() > self.height {
            return false;
        }
        let mut row: usize = 0;
        while row < data.len()
            invariant
                row <= data@.len(),
                forall|k: int| 0 <= k < row ==> (#[trigger] data@[k])@.len() <= self.width,
            decreases data@.len() - row,
        {
            if data[row].len() > self.width {
                return false;
            }
            row += 1;
        }
        true
    }

    /// Writes the readings of `data` into the wells: the entry at place
    /// `column` of row `row` becomes the reading of the well in that column
    /// and row, be it a value or none. Wells that `data` does not reach, roles
    /// and groups stay as they are.
    pub fn assign_values(&mut self, data: &Vec<Vec<Option<u64>>>)
        requires
            old(self).has_every_well(),
            old(self).fits(data@),
        ensures
            final(self).width == old(self).width,
            final(self).height == old(self).height,
            final(self).name == old(self).name,
            final(self).description == old(self).description,
            final(self).standard_groups == old(self).standard_groups,
            final(self).unknown_groups == old(self).unknown_groups,
            final(self).samples@.len() == old(self).samples@.len(),
            forall|i: int|
                0 <= i < old(self).samples@.len() ==> (#[trigger] final(self).samples@[i]).typ
                    == old(self).samples@[i].typ && final(self).samples@[i].group == old(
                    self,
                ).samples@[i].group,
            forall|column: int, row: int|
                0 <= column < old(self).width && 0 <= row < old(self).height ==> (
                #[trigger] final(self).samples@[old(self).place(column, row)]).value == (if row
                    < data@.len() && column < data@[row]@.len() {
                    data@[row]@[column]
                } else {
                    old(self).samples@[old(self).place(column, row)].value
                }),
    {
        let ghost before = self.samples@;
        let width = self.width;
        let height = self.height;
        let mut row: usize = 0;
        assert(self.samples@.len() == self.samples.len());
        while row < data.len()
            invariant
                row <= data@.len(),
                before.len() <= usize::MAX,
                width == self.width,
                height == self.height,
                self.width == old(self).width,
                self.height == old(self).height,
                self.name == old(self).name,
                self.description == old(self).description,
                self.standard_groups == old(self).standard_groups,
                self.unknown_groups == old(self).unknown_groups,
                before == old(self).samples@,
                old(self).has_every_well(),
                old(self).fits(data@),
                self.samples@.len() == before.len(),
                forall|i: int|
                    0 <= i < before.len() ==> (#[trigger] self.samples@[i]).typ == before[i].typ
                        && self.samples@[i].group == before[i].group,
                forall|c: int, r: int|
                    0 <= c < width && 0 <= r < height ==> (#[trigger] self.samples@[height * c
                        + r]).value == (if r < row && c < data@[r]@.len() {
                        data@[r]@[c]
                    } else {
                        before[height * c + r].value
                    }),
            decreases data@.len() - row,
        {
            let line = &data[row];
            let mut column: usize = 0;
            while column < line.len()
                invariant
                    row < data@.len(),
                    before.len() <= usize::MAX,
                    line@ == data@[row as int]@,
                    column <= line@.len(),
                    line@.len() <= width,
                    row < height,
                    width == self.width,
                    height == self.height,
                    self.width == old(self).width,
                    self.height == old(self).height,
                    self.name == old(self).name,
                    self.description == old(self).description,
                    self.standard_groups == old(self).standard_groups,
                    self.unknown_groups == old(self).unknown_groups,
                    before == old(self).samples@,
                    old(self).has_every_well(),
                    self.samples@.len() == before.len(),
                    forall|i: int|
                        0 <= i < before.len() ==> (#[trigger] self.samples@[i]).typ
                            == before[i].typ && self.samples@[i].group == before[i].group,
                    forall|c: int, r: int|
                        0 <= c < width && 0 <= r < height ==> (#[trigger] self.samples@[height * c
                            + r]).value == (if (r < row && c < data@[r]@.len()) || (r == row && c
                            < column) {
                            data@[r]@[c]
                        } else {
                            before[height * c + r].value
                        }),
                decreases line@.len() - column,
            {
                proof {
                    lemma_place_on_plate(width as int, height as int, column as int, row as int);
                }
                let i: usize = height * column + row;
                let ghost earlier = self.samples@;
                let sample = self.samples[i];
                self.samples[i] = Sample {
                    typ: sample.typ,
                    group: sample.group,
                    value: line[column],
                };
                proof {
                    assert forall|c: int, r: int| 0 <= c < width && 0 <= r < height implies (
                    #[trigger] self.samples@[height * c + r]).value == (if (r < row && c
                        < data@[r]@.len()) || (r == row && c < column + 1) {
                        data@[r]@[c]
                    } else {
                        before[height * c + r].value
                    }) by {
                        lemma_place_on_plate(width as int, height as int, c, r);
                        lemma_places_differ(height as int, c, r, column as int, row as int);
                        if c == column && r == row {
                        } else {
                            assert(self.samples@[height * c + r] == earlier[height * c + r]);
                        }
                    }
                }
                column += 1;
            }
            row += 1;
        }
    }

    /// Whether both group lists can be fitted to the wells.
    pub open spec fn groups_countable(&self) -> bool {
        countable(self.samples@)
    }

    /// Whether both group lists can be fitted to the wells.
    pub fn has_countable_groups(&self) -> (r: bool)
        ensures
            r == self.groups_countable(),
    {
        are_countable(&self.samples)
    }

    /// Fits both group lists to the wells: each list ends with the highest
    /// group that a well of its role belongs to, and has one group where no
    /// well has the role. A list that was longer loses its last groups; one
    /// that was shorter gains blank ones. Afterwards every well addresses a
    /// group that exists.
    pub fn fit_groups(&mut self)
        requires
            old(self).groups_countable(),
        ensures
            final(self).width == old(self).width,
            final(self).height == old(self).height,
            final(self).name == old(self).name,
            final(self).description == old(self).description,
            final(self).samples == old(self).samples,
            is_highest_group(
                old(self).samples@,
                SampleType::Standard,
                final(self).standard_groups@.len() - 1,
            ),
            is_resized(
                final(self).standard_groups@,
                old(self).standard_groups@,
                final(self).standard_groups@.len() as int,
            ),
            is_highest_group(
                old(self).samples@,
                SampleType::Unknown,
                final(self).unknown_groups@.len() - 1,
            ),
            is_resized(
                final(self).unknown_groups@,
                old(self).unknown_groups@,
                final(self).unknown_groups@.len() as int,
            ),
            final(self).wf(),
    {
        fit_group_list(&self.samples, SampleType::Standard, &mut self.standard_groups);
        fit_group_list(&self.samples, SampleType::Unknown, &mut self.unknown_groups);
    }

    /// Whether every well addresses a group that exists.
    pub fn is_well_formed(&self) -> (r: bool)
        ensures
            r == self.wf(),
    {
        let mut i: usize = 0;
        while i < self.samples.len()
            invariant
                i <= self.samples@.len(),
                forall|k: int| 0 <= k < i ==> self.addresses_group(#[trigger] self.samples@[k]),
            decreases self.samples@.len() - i,
        {
            let sample = self.samples[i];
            let inside = match sample.typ {
                SampleType::Standard => sample.group < self.standard_groups.len(),
                SampleType::Unknown => sample.group < self.unknown_groups.len(),
                _ => true,
            };
            if !inside {
                return false;
            }
            i += 1;
        }
        true
    }
}

/// The place of the well in `column` and `row` among the wells of a plate of
/// `width` by `height` wells, kept column by column.
pub fn well_index(width: usize, height: usize, column: usize, row: usize) -> (i: usize)
    requires
        width * height <= usize::MAX,
        column < width,
        row < height,
    ensures
        i == height * column + row,
        i < width * height,
{
    proof {
        lemma_place_on_plate(width as int, height as int, column as int, row as int);
    }
    height * column + row
}

/// Whether `g` is the highest group that a well of `role` belongs to, or zero
/// where no well has the role.
pub open spec fn is_highest_group(samples: Seq<Sample>, role: SampleType, g: int) -> bool {
    &&& forall|i: int|
        0 <= i < samples.len() && (#[trigger] samples[i]).typ == role ==> samples[i].group <= g
    &&& g == 0 || exists|i: int|
        0 <= i < samples.len() && (#[trigger] samples[i]).typ == role && samples[i].group == g
}

/// Whether `groups` is `before` brought to length `len`: cut where it was
/// longer, filled up with blank groups where it was shorter.
pub open spec fn is_resized(groups: Seq<Group>, before: Seq<Group>, len: int) -> bool {
    &&& groups.len() == len
    &&& forall|i: int| 0 <= i < len && i < before.len() ==> #[trigger] groups[i] == before[i]
    &&& forall|i: int| before.len() <= i < len ==> (#[trigger] groups[i]).is_blank()
}

/// The highest group that a well of `role` belongs to, or zero where no well
/// has the role.
pub fn highest_group(samples: &Vec<Sample>, role: SampleType) -> (g: usize)
    ensures
        is_highest_group(samples@, role, g as int),
{
    let mut g: usize = 0;
    let mut i: usize = 0;
    while i < samples.len()
        invariant
            i <= samples@.len(),
            is_highest_group(samples@.take(i as int), role, g as int),
        decreases samples@.len() - i,
    {
        let ghost seen = samples@.take(i as int);
        let ghost next = samples@.take(i + 1);
        let ghost lower = g;
        if samples[i].typ == role && samples[i].group > g {
            g = samples[i].group;
        }
        proof {
            assert forall|k: int| 0 <= k < next.len() && (#[trigger] next[k]).typ
                == role implies next[k].group <= g by {
                if k < i {
                    assert(seen[k] == next[k]);
                }
            }
            if g != 0 {
                if g == lower {
                    let k = choose|k: int|
                        0 <= k < seen.len() && (#[trigger] seen[k]).typ == role && seen[k].group
                            == lower;
                    assert(next[k] == seen[k]);
                } else {
                    assert(next[i as int] == samples@[i as int]);
                }
            }
        }
        i += 1;
    }
    assert(samples@.take(samples@.len() as int) =~= samples@);
    g
}

/// Whether a sample is a standard or an unknown: these belong to a group.
pub open spec fn grouped(sample: Sample) -> bool {
    sample.typ == SampleType::Standard || sample.typ == SampleType::Unknown
}

/// Whether a group list can be fitted to the wells: no standard and no
/// unknown belongs to the last group that can be counted.
pub open spec fn countable(samples: Seq<Sample>) -> bool {
    forall|i: int|
        0 <= i < samples.len() && grouped(#[trigger] samples[i]) ==> samples[i].group < usize::MAX
}

/// Whether a group list can be fitted to the wells.
pub fn are_countable(samples: &Vec<Sample>) -> (r: bool)
    ensures
        r == countable(samples@),
{
    let mut i: usize = 0;
    while i < samples.len()
        invariant
            i <= samples@.len(),
            forall|k: int|
                0 <= k < i && grouped(#[trigger] samples@[k]) ==> samples@[k].group < usize::MAX,
        decreases samples@.len() - i,
    {
        let sample = samples[i];
        let in_group = sample.typ == SampleType::Standard || sample.typ == SampleType::Unknown;
        if in_group && sample.group == usize::MAX {
            return false;
        }
        i += 1;
    }
    true
}

/// Fits the group list of `role` to the wells: the list ends with the highest
/// group that a well of the role belongs to, and has one group where no well
/// has the role. A list that was longer loses its last groups; one that was
/// shorter gains blank ones.
pub fn fit_group_list(samples: &Vec<Sample>, role: SampleType, groups: &mut Vec<Group>)
    requires
        countable(samples@),
        role == SampleType::Standard || role == SampleType::Unknown,
    ensures
        is_highest_group(samples@, role, final(groups)@.len() - 1),
        is_resized(final(groups)@, old(groups)@, final(groups)@.len() as int),
{
    let highest = highest_group(samples, role);
    resize_groups(groups, highest + 1);
}

/// Brings `groups` to length `len`: cuts it where it is longer, fills it up
/// with blank groups where it is shorter.
fn resize_groups(groups: &mut Vec<Group>, len: usize)
    ensures
        is_resized(final(groups)@, old(groups)@, len as int),
{
    groups.truncate(len);
    while groups.len() < len
        invariant
            groups@.len() <= len,
            old(groups)@.len() <= groups@.len() || groups@.len() == len,
            forall|i: int|
                0 <= i < groups@.len() && i < old(groups)@.len() ==> #[trigger] groups@[i] == old(
                    groups,
                )@[i],
            forall|i: int|
                old(groups)@.len() <= i < groups@.len() ==> (#[trigger] groups@[i]).is_blank(),
        decreases len - groups@.len(),
    {
        groups.push(Group { concentration: None, label: String::new() });
    }
}

/// Only one group can be the highest of a role.
pub proof fn lemma_highest_group_is_unique(samples: Seq<Sample>, role: SampleType, g: int, h: int)
    requires
        is_highest_group(samples, role, g),
        is_highest_group(samples, role, h),
    ensures
        g == h,
{
    if g != 0 {
        let i = choose|i: int|
            0 <= i < samples.len() && (#[trigger] samples[i]).typ == role && samples[i].group == g;
        assert(samples[i].group <= h);
    }
    if h != 0 {
        let i = choose|i: int|
            0 <= i < samples.len() && (#[trigger] samples[i]).typ == role && samples[i].group == h;
        assert(samples[i].group <= g);
    }
}

/// A place on the plate is a place among its wells.
pub proof fn lemma_place_on_plate(width: int, height: int, column: int, row: int)
    requires
        0 <= column < width,
        0 <= row < height,
    ensures
        0 <= height * column + row < width * height,
{
    assert(height * column + height <= height * width) by (nonlinear_arith)
        requires
            0 <= column < width,
            0 < height,
    ;
    assert(0 <= height * column) by (nonlinear_arith)
        requires
            0 <= column,
            0 < height,
    ;
    assert(width * height == height * width) by (nonlinear_arith);
}

/// Two wells share a place only if they share column and row.
pub proof fn lemma_places_differ(
    height: int,
    column: int,
    row: int,
    other_column: int,
    other_row: int,
)
    requires
        0 <= row < height,
        0 <= other_row < height,
        0 <= column,
        0 <= other_column,
    ensures
        height * column + row == height * other_column + other_row <==> column == other_column
            && row == other_row,
{
    if column < other_column {
        assert(height * column + height <= height * other_column) by (nonlinear_arith)
            requires
                column < other_column,
                0 < height,
        ;
    } else if other_column < column {
        assert(height * other_column + height <= height * column) by (nonlinear_arith)
            requires
                other_column < column,
                0 < height,
        ;
    }
}

} // verus!
