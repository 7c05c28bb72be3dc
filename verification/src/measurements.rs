//! A table of readings as it is typed or pasted: rows of entries, to be
//! checked against the size of the plate before they are written to it.

use vstd::prelude::*;

verus! {

/// One entry of a row.
#[derive(Clone, Copy, Debug, PartialEq, Eq, Structural)]
pub enum Entry {
    /// The well is left without a reading.
    Missing,
    /// The binary64 encoding of the reading.
    Reading(u64),
    /// Text that is no number.
    Unreadable,
}

/// Why a table is refused.
#[derive(Clone, Copy, Debug, PartialEq, Eq, Structural)]
pub enum TableError {
    /// A row has more entries than the plate is wide.
    WidthTooLarge,
    /// The table has more rows than the plate is high.
    HeightTooLarge,
    /// The entry at this place is no number.
    Parse { row: usize, column: usize },
}

/// What an entry leaves in a well.
pub open spec fn reading_of(entry: Entry) -> Option<u64> {
    match entry {
        Entry::Reading(v) => Some(v),
        _ => None,
    }
}

/// Whether every entry of the row can be read.
pub open spec fn readable(row: Seq<Entry>) -> bool {
    forall|c: int| 0 <= c < row.len() ==> row[c] != Entry::Unreadable
}

/// Whether the row can be read and is no longer than `width`.
pub open spec fn row_sound(row: Seq<Entry>, width: int) -> bool {
    readable(row) && row.len() <= width
}

/// Whether `error` is the first thing wrong with the table. The rows are
/// examined in order, in each row the entries before its length, and the
/// number of rows last.
pub open spec fn is_first_fault(
    rows: Seq<Vec<Entry>>,
    width: int,
    height: int,
    error: TableError,
) -> bool {
    match error {
        TableError::Parse { row, column } => {
            &&& row < rows.len()
            &&& column < rows[row as int]@.len()
            &&& rows[row as int]@[column as int] == Entry::Unreadable
            &&& forall|c: int| 0 <= c < column ==> rows[row as int]@[c] != Entry::Unreadable
            &&& forall|r: int| 0 <= r < row ==> row_sound((#[trigger] rows[r])@, width)
        },
        TableError::WidthTooLarge => exists|row: int|
            {
                &&& 0 <= row < rows.len()
                &&& readable((#[trigger] rows[row])@)
                &&& rows[row]@.len() > width
                &&& forall|r: int| 0 <= r < row ==> row_sound((#[trigger] rows[r])@, width)
            },
        TableError::HeightTooLarge => {
            &&& forall|r: int| 0 <= r < rows.len() ==> row_sound((#[trigger] rows[r])@, width)
            &&& rows.len() > height
        },
    }
}

/// Whether `data` holds what the entries of `rows` leave in the wells.
pub open spec fn is_read_from(data: Seq<Vec<Option<u64>>>, rows: Seq<Vec<Entry>>) -> bool {
    &&& data.len() == rows.len()
    &&& forall|r: int|
        0 <= r < rows.len() ==> (#[trigger] data[r])@ =~= rows[r]@.map_values(
            |e: Entry| reading_of(e),
        )
}

/// The readings of a table that fits a plate of `width` by `height` wells,
/// or the first thing wrong with the table.
pub fn check_table(rows: &Vec<Vec<Entry>>, width: usize, height: usize) -> (r: Result<
    Vec<Vec<Option<u64>>>,
    TableError,
>)
    ensures
        match r {
            Ok(data) => {
                &&& forall|k: int|
                    0 <= k < rows@.len() ==> row_sound((#[trigger] rows@[k])@, width as int)
                &&& rows@.len() <= height
                &&& is_read_from(data@, rows@)
            },
            Err(error) => is_first_fault(rows@, width as int, height as int, error),
        },
{
    let mut data: Vec<Vec<Option<u64>>> = Vec::new();
    let mut r: usize = 0;
    while r < rows.len()
        invariant
            r <= rows@.len(),
            forall|k: int| 0 <= k < r ==> row_sound((#[trigger] rows@[k])@, width as int),
            is_read_from(data@, rows@.take(r as int)),
        decreases rows@.len() - r,
    {
        let row = &rows[r];
        let mut line: Vec<Option<u64>> = Vec::new();
        let mut c: usize = 0;
        while c < row.len()
            invariant
                r < rows@.len(),
                row@ == rows@[r as int]@,
                c <= row@.len(),
                forall|k: int| 0 <= k < c ==> row@[k] != Entry::Unreadable,
                line@ =~= row@.take(c as int).map_values(|e: Entry| reading_of(e)),
                forall|k: int| 0 <= k < r ==> row_sound((#[trigger] rows@[k])@, width as int),
            decreases row@.len() - c,
        {
            match row[c] {
                Entry::Missing => line.push(None),
                Entry::Reading(v) => line.push(Some(v)),
                Entry::Unreadable => {
                    return Err(TableError::Parse { row: r, column: c });
                },
            }
            c += 1;
        }
        assert(row@.take(row@.len() as int) =~= row@);
        if row.len() > width {
            return Err(TableError::WidthTooLarge);
        }
        let ghost before = data@;
        data.push(line);
        assert(is_read_from(data@, rows@.take(r + 1))) by {
            assert forall|k: int| 0 <= k < r + 1 implies (#[trigger] data@[k])@
                =~= rows@.take(r + 1)[k]@.map_values(|e: Entry| reading_of(e)) by {
                if k < r {
                    assert(data@[k] == before[k]);
                    assert(rows@.take(r as int)[k] == rows@.take(r + 1)[k]);
                }
            }
        }
        r += 1;
    }
    assert(rows@.take(rows@.len() as int) =~= rows@);
    if data.len() > height {
        return Err(TableError::HeightTooLarge);
    }
    Ok(data)
}

/// Only one thing can be the first that is wrong with a table.
pub proof fn lemma_first_fault_is_unique(
    rows: Seq<Vec<Entry>>,
    width: int,
    height: int,
    first: TableError,
    second: TableError,
)
    requires
        is_first_fault(rows, width, height, first),
        is_first_fault(rows, width, height, second),
    ensures
        first == second,
{
    match (first, second) {
        (
            TableError::Parse { row: r1, column: c1 },
            TableError::Parse { row: r2, column: c2 },
        ) => {
            if r1 < r2 {
                assert(row_sound(rows[r1 as int]@, width));
            } else if r2 < r1 {
                assert(row_sound(rows[r2 as int]@, width));
            }
        },
        (TableError::Parse { row, column }, TableError::WidthTooLarge) => {
            lemma_unreadable_is_not_too_wide(rows, width, height, row, column);
        },
        (TableError::WidthTooLarge, TableError::Parse { row, column }) => {
            lemma_unreadable_is_not_too_wide(rows, width, height, row, column);
        },
        (TableError::Parse { row, column }, TableError::HeightTooLarge) => {
            assert(row_sound(rows[row as int]@, width));
        },
        (TableError::HeightTooLarge, TableError::Parse { row, column }) => {
            assert(row_sound(rows[row as int]@, width));
        },
        (TableError::WidthTooLarge, TableError::HeightTooLarge) => {
            let wide = choose|row: int|
                0 <= row < rows.len() && readable((#[trigger] rows[row])@) && rows[row]@.len()
                    > width;
            assert(row_sound(rows[wide]@, width));
        },
        (TableError::HeightTooLarge, TableError::WidthTooLarge) => {
            let wide = choose|row: int|
                0 <= row < rows.len() && readable((#[trigger] rows[row])@) && rows[row]@.len()
                    > width;
            assert(row_sound(rows[wide]@, width));
        },
        _ => {},
    }
}

/// A table whose first fault is an unreadable entry does not have a row that
/// is too wide as its first fault.
proof fn lemma_unreadable_is_not_too_wide(
    rows: Seq<Vec<Entry>>,
    width: int,
    height: int,
    row: usize,
    column: usize,
)
    requires
        is_first_fault(rows, width, height, TableError::Parse { row, column }),
    ensures
        !is_first_fault(rows, width, height, TableError::WidthTooLarge),
{
    if is_first_fault(rows, width, height, TableError::WidthTooLarge) {
        let wide = choose|wide: int|
            {
                &&& 0 <= wide < rows.len()
                &&& readable((#[trigger] rows[wide])@)
                &&& rows[wide]@.len() > width
                &&& forall|r: int| 0 <= r < wide ==> row_sound((#[trigger] rows[r])@, width)
            };
        if wide < row {
            assert(row_sound(rows[wide]@, width));
        } else if wide > row {
            assert(row_sound(rows[row as int]@, width));
        } else {
            assert(rows[row as int]@[column as int] == Entry::Unreadable);
        }
    }
}

} // verus!
