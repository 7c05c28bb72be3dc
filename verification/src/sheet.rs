//! Reading the block of readings out of a sheet of a plate reader's export.
//!
//! The sheet names the size of its table in one cell: the letters of that
//! cell's text are the rows of the table, `A` the first. The readings stand
//! in a block of as many rows as the table has, below a heading whose length
//! depends on that number, and in each row after a first cell that names the
//! row.

use vstd::prelude::*;

verus! {

/// The least number of rows of a sheet that holds a table.
pub const LEAST_ROWS: usize = 65;

/// The least number of columns of a sheet that has only the least number of
/// rows.
pub const LEAST_COLUMNS: usize = 8;

/// The number of rows above the heading of the block.
pub const BLOCK_OFFSET: usize = 37;

/// Why a sheet is refused.
#[derive(Clone, Copy, Debug, PartialEq, Eq, Structural)]
pub enum SheetError {
    /// The sheet is too small to hold a table.
    SheetSize,
    /// The cell that names the size of the table holds no text.
    NoDimensions,
}

/// Whether the letter is an upper-case ASCII letter.
pub open spec fn is_row_letter(c: char) -> bool {
    'A' <= c <= 'Z'
}

/// The place of a letter in the alphabet, `A` at one.
pub open spec fn place_of(c: char) -> int {
    c as u32 - 'A' as u32 + 1
}

/// Whether `height` is the number of rows that the text names: the place in
/// the alphabet of its last upper-case letter in alphabetical order, or one
/// where it has none.
pub open spec fn is_table_height(dimensions: Seq<char>, height: int) -> bool {
    &&& 1 <= height <= 26
    &&& forall|i: int|
        0 <= i < dimensions.len() && is_row_letter(#[trigger] dimensions[i]) ==> place_of(
            dimensions[i],
        ) <= height
    &&& height == 1 || exists|i: int|
        0 <= i < dimensions.len() && is_row_letter(#[trigger] dimensions[i]) && place_of(
            dimensions[i],
        ) == height
}

/// Whether a sheet of this size is too small: sizes are ordered by rows
/// first, then by columns.
pub open spec fn too_small(rows: int, columns: int) -> bool {
    rows < LEAST_ROWS || (rows == LEAST_ROWS && columns < LEAST_COLUMNS)
}

/// The row at which the block of a table of `height` rows begins.
pub open spec fn block_start(height: int) -> int {
    BLOCK_OFFSET + 2 * height
}

/// The number of rows of the block that the sheet holds: all of them, or as
/// many as the sheet has from where the block begins.
pub open spec fn block_rows(rows: int, height: int) -> int {
    if rows <= block_start(height) {
        0
    } else if rows - block_start(height) < height {
        rows - block_start(height)
    } else {
        height
    }
}

/// A row without its first cell.
pub open spec fn after_first(row: Seq<Option<u64>>) -> Seq<Option<u64>> {
    if row.len() == 0 {
        row
    } else {
        row.subrange(1, row.len() as int)
    }
}

/// Whether `block` is the block of a table of `height` rows in `cells`.
pub open spec fn is_block_of(
    block: Seq<Vec<Option<u64>>>,
    cells: Seq<Vec<Option<u64>>>,
    height: int,
) -> bool {
    &&& block.len() == block_rows(cells.len() as int, height)
    &&& forall|r: int|
        0 <= r < block.len() ==> (#[trigger] block[r])@ == after_first(
            cells[block_start(height) + r]@,
        )
}

/// Whether a sheet of this size is too small to hold a table.
pub fn is_too_small(rows: usize, columns: usize) -> (r: bool)
    ensures
        r == too_small(rows as int, columns as int),
{
    rows < LEAST_ROWS || (rows == LEAST_ROWS && columns < LEAST_COLUMNS)
}

/// The number of rows of the table that the text names.
pub fn table_height(dimensions: &Vec<char>) -> (height: usize)
    ensures
        is_table_height(dimensions@, height as int),
{
    let mut height: usize = 1;
    let mut i: usize = 0;
    while i < dimensions.len()
        invariant
            i <= dimensions@.len(),
            is_table_height(dimensions@.take(i as int), height as int),
        decreases dimensions@.len() - i,
    {
        let ghost seen = dimensions@.take(i as int);
        let ghost next = dimensions@.take(i + 1);
        let ghost lower = height;
        let c = dimensions[i];
        if 'A' <= c && c <= 'Z' {
            let place: usize = (c as u32 - 'A' as u32) as usize + 1;
            if place > height {
                height = place;
            }
        }
        proof {
            assert forall|k: int|
                0 <= k < next.len() && is_row_letter(#[trigger] next[k]) implies place_of(next[k])
                <= height by {
                if k < i {
                    assert(seen[k] == next[k]);
                }
            }
            if height != 1 {
                if height == lower {
                    let k = choose|k: int|
                        0 <= k < seen.len() && is_row_letter(#[trigger] seen[k]) && place_of(
                            seen[k],
                        ) == lower;
                    assert(next[k] == seen[k]);
                } else {
                    assert(next[i as int] == c);
                }
            }
        }
        i += 1;
    }
    assert(dimensions@.take(dimensions@.len() as int) =~= dimensions@);
    height
}

/// The block of readings of a sheet, or why the sheet has none.
///
/// `rows` and `columns` are the size of the sheet, `dimensions` the text of
/// the cell that names the size of the table, if it holds text, and `cells`
/// the rows of the sheet, each cell with its number where it holds one.
pub fn read_sheet(
    rows: usize,
    columns: usize,
    dimensions: Option<&Vec<char>>,
    cells: &Vec<Vec<Option<u64>>>,
) -> (r: Result<Vec<Vec<Option<u64>>>, SheetError>)
    ensures
        match r {
            Err(SheetError::SheetSize) => too_small(rows as int, columns as int),
            Err(SheetError::NoDimensions) => !too_small(rows as int, columns as int) && dimensions
                is None,
            Ok(block) => {
                &&& !too_small(rows as int, columns as int)
                &&& dimensions is Some
                &&& exists|height: int|
                    is_table_height(dimensions->0@, height) && is_block_of(block@, cells@, height)
            },
        },
{
    if is_too_small(rows, columns) {
        return Err(SheetError::SheetSize);
    }
    let text = match dimensions {
        Some(text) => text,
        None => {
            return Err(SheetError::NoDimensions);
        },
    };
    let height = table_height(text);
    let start: usize = BLOCK_OFFSET + 2 * height;
    let mut block: Vec<Vec<Option<u64>>> = Vec::new();
    let mut r: usize = 0;
    while r < height && start + r < cells.len()
        invariant
            height <= 26,
            start == block_start(height as int),
            r <= height,
            start + r <= cells@.len() || r == 0,
            block@.len() == r,
            forall|k: int|
                0 <= k < r ==> (#[trigger] block@[k])@ == after_first(cells@[start + k]@),
        decreases height - r,
    {
        let row = &cells[start + r];
        let mut rest: Vec<Option<u64>> = Vec::new();
        let mut c: usize = 1;
        while c < row.len()
            invariant
                1 <= c,
                c <= row@.len() || row@.len() == 0,
                row@.len() > 0 ==> rest@ == row@.subrange(1, c as int),
                row@.len() == 0 ==> rest@ == row@,
            decreases row@.len() - c,
        {
            rest.push(row[c]);
            assert(rest@ =~= row@.subrange(1, c + 1));
            c += 1;
        }
        proof {
            if row@.len() > 0 {
                assert(c == row@.len());
            }
        }
        block.push(rest);
        r += 1;
    }
    assert(is_block_of(block@, cells@, height as int));
    Ok(block)
}

/// A text names only one number of rows.
pub proof fn lemma_table_height_is_unique(dimensions: Seq<char>, first: int, second: int)
    requires
        is_table_height(dimensions, first),
        is_table_height(dimensions, second),
    ensures
        first == second,
{
    if first != 1 {
        let i = choose|i: int|
            0 <= i < dimensions.len() && is_row_letter(#[trigger] dimensions[i]) && place_of(
                dimensions[i],
            ) == first;
        assert(place_of(dimensions[i]) <= second);
    }
    if second != 1 {
        let i = choose|i: int|
            0 <= i < dimensions.len() && is_row_letter(#[trigger] dimensions[i]) && place_of(
                dimensions[i],
            ) == second;
        assert(place_of(dimensions[i]) <= first);
    }
}

} // verus!
