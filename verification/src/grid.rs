//! The grid itself: a mutable, row-addressable sparse table of text
//! cells, stored as a vector of cells kept sorted by (row, column).
//!
//! The primitives here — reading a cell, writing a cell, inserting a
//! blank row — are specified against the abstract [`CellMap`] contents;
//! the locator queries and the inserter build on them in other modules.

use vstd::prelude::*;
use crate::model::{
    CellMap, begin_col, begin_num, cell_text, grid_has, grid_val, is_begin_col,
    lemma_begin_col_unique, one_based, row_empty, row_has_cell, rows_below,
    with_blank_row_inserted,
};
use crate::num::parse_index;

verus! {

/// One populated cell: its 1-based column and row, and its text.
pub struct GridCell {
    pub col: u32,
    pub row: u32,
    pub value: String,
}

/// Row-major order of cell positions.
pub open spec fn cell_before(a: GridCell, b: GridCell) -> bool {
    a.row < b.row || (a.row == b.row && a.col < b.col)
}

pub open spec fn sorted_cells(cells: Seq<GridCell>) -> bool {
    forall|i: int, j: int| 0 <= i < j < cells.len() ==> cell_before(cells[i], cells[j])
}

/// Columns are 1-based: every cell sits in column 1 or later.
pub open spec fn cells_cols_positive(cells: Seq<GridCell>) -> bool {
    forall|i: int| 0 <= i < cells.len() ==> #[trigger] cells[i].col >= 1
}

/// A vector of 1-based cells denotes contents with no zeroth column.
pub proof fn lemma_cells_one_based(cells: Seq<GridCell>)
    requires
        cells_cols_positive(cells),
    ensures
        one_based(cells_map(cells)),
{
    assert forall|row: u32| !grid_has(cells_map(cells), 0, row) by {
        if grid_has(cells_map(cells), 0, row) {
            let j = choose|j: int| cell_at(cells, j, 0u32, row);
            assert(cells[j].col >= 1);
        }
    }
}

/// The cell at position `i` of the vector sits at `(col, row)`.
pub open spec fn cell_at(cells: Seq<GridCell>, i: int, col: u32, row: u32) -> bool {
    0 <= i < cells.len() && cells[i].col == col && cells[i].row == row
}

/// The abstract contents of a cell vector.
pub open spec fn cells_map(cells: Seq<GridCell>) -> CellMap {
    Map::new(
        |k: (u32, u32)| exists|i: int| cell_at(cells, i, k.0, k.1),
        |k: (u32, u32)| cells[choose|i: int| cell_at(cells, i, k.0, k.1)].value@,
    )
}

pub proof fn lemma_cell_at_unique(cells: Seq<GridCell>, i: int, j: int, col: u32, row: u32)
    requires
        sorted_cells(cells),
        cell_at(cells, i, col, row),
        cell_at(cells, j, col, row),
    ensures
        i == j,
{
    if i < j {
        assert(cell_before(cells[i], cells[j]));
    }
    if j < i {
        assert(cell_before(cells[j], cells[i]));
    }
}

/// A cell of a sorted vector is in the contents, with its text.
pub proof fn lemma_cells_map_index(cells: Seq<GridCell>, i: int)
    requires
        sorted_cells(cells),
        0 <= i < cells.len(),
    ensures
        grid_has(cells_map(cells), cells[i].col, cells[i].row),
        grid_val(cells_map(cells), cells[i].col, cells[i].row) == cells[i].value@,
{
    let k = (cells[i].col, cells[i].row);
    assert(cell_at(cells, i, k.0, k.1));
    assert(grid_has(cells_map(cells), cells[i].col, cells[i].row));
    let j = choose|j: int| cell_at(cells, j, k.0, k.1);
    lemma_cell_at_unique(cells, i, j, k.0, k.1);
}

/// Rows never decrease along a sorted cell vector.
pub proof fn lemma_rows_monotone(cells: Seq<GridCell>, i: int, j: int)
    requires
        sorted_cells(cells),
        0 <= i <= j < cells.len(),
    ensures
        cells[i].row <= cells[j].row,
{
    if i < j {
        assert(cell_before(cells[i], cells[j]));
    }
}

proof fn lemma_map_insert_at(cells: Seq<GridCell>, i: int, c: GridCell)
    requires
        sorted_cells(cells),
        0 <= i <= cells.len(),
        forall|j: int| 0 <= j < i ==> cell_before(cells[j], c),
        forall|j: int| i <= j < cells.len() ==> cell_before(c, cells[j]),
    ensures
        sorted_cells(cells.insert(i, c)),
        cells_map(cells.insert(i, c)) =~= cells_map(cells).insert((c.col, c.row), c.value@),
{
    let s2 = cells.insert(i, c);
    assert forall|a: int, b: int| 0 <= a < b < s2.len() implies cell_before(s2[a], s2[b]) by {
        if a < i && b < i {
            assert(s2[a] == cells[a] && s2[b] == cells[b]);
        } else if a < i && b == i {
            assert(s2[a] == cells[a] && s2[b] == c);
        } else if a < i && b > i {
            assert(s2[a] == cells[a] && s2[b] == cells[b - 1]);
        } else if a == i {
            assert(s2[a] == c && s2[b] == cells[b - 1]);
        } else {
            assert(s2[a] == cells[a - 1] && s2[b] == cells[b - 1]);
        }
    }
    let m1 = cells_map(cells).insert((c.col, c.row), c.value@);
    let m2 = cells_map(s2);
    assert forall|k: (u32, u32)| m1.dom().contains(k) implies m2.dom().contains(k) by {
        if k == (c.col, c.row) {
            assert(cell_at(s2, i, k.0, k.1));
        } else {
            let j = choose|j: int| cell_at(cells, j, k.0, k.1);
            if j < i {
                assert(cell_at(s2, j, k.0, k.1));
            } else {
                assert(s2[j + 1] == cells[j]);
                assert(cell_at(s2, j + 1, k.0, k.1));
            }
        }
    }
    assert forall|k: (u32, u32)| m2.dom().contains(k) implies m1.dom().contains(k) by {
        let j = choose|j: int| cell_at(s2, j, k.0, k.1);
        if j == i {
            assert(k == (c.col, c.row));
        } else if j < i {
            assert(cell_at(cells, j, k.0, k.1));
        } else {
            assert(s2[j] == cells[j - 1]);
            assert(cell_at(cells, j - 1, k.0, k.1));
        }
    }
    assert forall|k: (u32, u32)| m2.dom().contains(k) implies m2[k] == m1[k] by {
        let j = choose|j: int| cell_at(s2, j, k.0, k.1);
        lemma_cells_map_index(s2, j);
        if j == i {
            assert(cell_before(c, c) == false);
            if i < cells.len() {
                assert(cell_before(c, cells[i]));
            }
            assert(k == (c.col, c.row));
            assert(m2[k] == c.value@);
        } else if j < i {
            assert(k != (c.col, c.row)) by {
                assert(cell_before(cells[j], c));
            }
            lemma_cells_map_index(cells, j);
            assert(s2[j] == cells[j]);
        } else {
            assert(s2[j] == cells[j - 1]);
            assert(k != (c.col, c.row)) by {
                assert(cell_before(c, cells[j - 1]));
            }
            lemma_cells_map_index(cells, j - 1);
        }
    }
}

proof fn lemma_map_update_at(cells: Seq<GridCell>, i: int, c: GridCell)
    requires
        sorted_cells(cells),
        0 <= i < cells.len(),
        cells[i].col == c.col,
        cells[i].row == c.row,
    ensures
        sorted_cells(cells.update(i, c)),
        cells_map(cells.update(i, c)) =~= cells_map(cells).insert((c.col, c.row), c.value@),
{
    let s2 = cells.update(i, c);
    assert forall|a: int, b: int| 0 <= a < b < s2.len() implies cell_before(s2[a], s2[b]) by {
        assert(cell_before(cells[a], cells[b]));
    }
    let m1 = cells_map(cells).insert((c.col, c.row), c.value@);
    let m2 = cells_map(s2);
    assert forall|k: (u32, u32)| m1.dom().contains(k) implies m2.dom().contains(k) by {
        if k == (c.col, c.row) {
            assert(cell_at(s2, i, k.0, k.1));
        } else {
            let j = choose|j: int| cell_at(cells, j, k.0, k.1);
            assert(j != i);
            assert(cell_at(s2, j, k.0, k.1));
        }
    }
    assert forall|k: (u32, u32)| m2.dom().contains(k) implies m1.dom().contains(k) by {
        let j = choose|j: int| cell_at(s2, j, k.0, k.1);
        if j == i {
            assert(k == (c.col, c.row));
        } else {
            assert(cell_at(cells, j, k.0, k.1));
        }
    }
    assert forall|k: (u32, u32)| m2.dom().contains(k) implies m2[k] == m1[k] by {
        let j = choose|j: int| cell_at(s2, j, k.0, k.1);
        lemma_cells_map_index(s2, j);
        if j == i {
            assert(k == (c.col, c.row));
        } else {
            assert(k != (c.col, c.row)) by {
                if k == (c.col, c.row) {
                    lemma_cell_at_unique(s2, i, j, c.col, c.row);
                }
            }
            lemma_cells_map_index(cells, j);
        }
    }
}

/// Position `j` holds the first cell of its row in a sorted vector.
pub open spec fn is_group_begin(cells: Seq<GridCell>, j: int) -> bool {
    0 <= j < cells.len() && (j == 0 || cells[j - 1].row != cells[j].row)
}

/// The first cell of a row group is the row's leftmost cell.
pub proof fn lemma_group_begin_is_begin_col(cells: Seq<GridCell>, j: int)
    requires
        sorted_cells(cells),
        is_group_begin(cells, j),
    ensures
        is_begin_col(cells_map(cells), cells[j].row, cells[j].col),
{
    let m = cells_map(cells);
    let row = cells[j].row;
    lemma_cells_map_index(cells, j);
    assert forall|c2: u32| c2 < cells[j].col implies !grid_has(m, c2, row) by {
        if grid_has(m, c2, row) {
            let i = choose|i: int| cell_at(cells, i, c2, row);
            if i < j {
                lemma_rows_monotone(cells, i, j - 1);
                lemma_rows_monotone(cells, j - 1, j);
                assert(cells[j - 1].row == row);
            }
            if i > j {
                assert(cell_before(cells[j], cells[i]));
            }
        }
    }
}

proof fn lemma_group_begin_before(cells: Seq<GridCell>, i: int)
    requires
        sorted_cells(cells),
        0 <= i < cells.len(),
    ensures
        exists|j: int|
            is_group_begin(cells, j) && #[trigger] cells[j].row == cells[i].row && j <= i,
    decreases i,
{
    if i == 0 || cells[i - 1].row != cells[i].row {
        assert(is_group_begin(cells, i) && cells[i].row == cells[i].row && i <= i);
    } else {
        lemma_group_begin_before(cells, i - 1);
    }
}

/// Every populated row has a row-group begin cell.
pub proof fn lemma_row_has_group_begin(cells: Seq<GridCell>, r: u32)
    requires
        sorted_cells(cells),
        row_has_cell(cells_map(cells), r),
    ensures
        exists|j: int| is_group_begin(cells, j) && #[trigger] cells[j].row == r,
{
    let c = choose|c: u32| grid_has(cells_map(cells), c, r);
    let i = choose|i: int| cell_at(cells, i, c, r);
    lemma_group_begin_before(cells, i);
}

/// What a row-group begin cell says of the row: its leftmost column,
/// its numeric reading, and its emptiness.
pub proof fn lemma_group_begin_num(cells: Seq<GridCell>, j: int)
    requires
        sorted_cells(cells),
        is_group_begin(cells, j),
    ensures
        row_has_cell(cells_map(cells), cells[j].row),
        begin_col(cells_map(cells), cells[j].row) == cells[j].col,
        begin_num(cells_map(cells), cells[j].row) == parse_index(cells[j].value@),
        row_empty(cells_map(cells), cells[j].row) == (cells[j].value@.len() == 0),
{
    let m = cells_map(cells);
    let row = cells[j].row;
    lemma_cells_map_index(cells, j);
    lemma_group_begin_is_begin_col(cells, j);
    let c2 = begin_col(m, row);
    assert(is_begin_col(m, row, c2));
    lemma_begin_col_unique(m, row, cells[j].col, c2);
}

/// The grid: an exclusively owned, in-memory table of text cells.
pub struct Grid {
    pub(crate) cells: Vec<GridCell>,
}

impl View for Grid {
    type V = CellMap;

    closed spec fn view(&self) -> CellMap {
        cells_map(self.cells@)
    }
}

impl Grid {
    #[verifier::type_invariant]
    pub(crate) open spec fn wf(self) -> bool {
        sorted_cells(self.cells@) && cells_cols_positive(self.cells@)
    }

    /// What a grid's contents are in terms of its cell vector.
    pub(crate) proof fn lemma_view(&self)
        ensures
            self@ == cells_map(self.cells@),
    {
    }

    /// A grid with no cells at all.
    pub fn new() -> (g: Grid)
        ensures
            g@ == Map::<(u32, u32), Seq<char>>::empty(),
    {
        let g = Grid { cells: Vec::new() };
        proof {
            assert(g@ =~= Map::<(u32, u32), Seq<char>>::empty());
        }
        g
    }

    /// Writes or overwrites the cell at `(col, row)`; columns are
    /// 1-based.
    pub fn set_cell(&mut self, col: u32, row: u32, value: String)
        requires
            col >= 1,
        ensures
            final(self)@ == old(self)@.insert((col, row), value@),
    {
        proof {
            use_type_invariant(&*self);
        }
        let mut cs: Vec<GridCell> = Vec::new();
        core::mem::swap(&mut cs, &mut self.cells);
        let ghost orig = cs@;
        let n: usize = cs.len();
        let mut i: usize = 0;
        while i < n && (cs[i].row < row || (cs[i].row == row && cs[i].col < col))
            invariant
                0 <= i <= n,
                n == cs@.len(),
                cs@ == orig,
                sorted_cells(orig),
                cells_cols_positive(orig),
                forall|j: int|
                    0 <= j < i ==> (orig[j].row < row || (orig[j].row == row && orig[j].col
                        < col)),
            decreases n - i,
        {
            i = i + 1;
        }
        let c = GridCell { col, row, value };
        if i < n && cs[i].row == row && cs[i].col == col {
            cs.remove(i);
            cs.insert(i, c);
            proof {
                assert(cs@ =~= orig.update(i as int, c));
                lemma_map_update_at(orig, i as int, c);
                assert forall|t: int| 0 <= t < cs@.len() implies #[trigger] cs@[t].col >= 1 by {
                    if t != i {
                        assert(cs@[t] == orig[t]);
                    }
                }
            }
        } else {
            proof {
                assert forall|j: int| i <= j < orig.len() implies cell_before(c, orig[j]) by {
                    if j > i {
                        assert(cell_before(orig[i as int], orig[j]));
                    }
                }
            }
            cs.insert(i, c);
            proof {
                lemma_map_insert_at(orig, i as int, c);
                assert forall|t: int| 0 <= t < cs@.len() implies #[trigger] cs@[t].col >= 1 by {
                    if t < i {
                        assert(cs@[t] == orig[t]);
                    } else if t > i {
                        assert(cs@[t] == orig[t - 1]);
                    }
                }
            }
        }
        self.cells = cs;
    }

    /// Reads the cell at `(col, row)`; absent cells read as empty text.
    pub fn cell(&self, col: u32, row: u32) -> (r: String)
        ensures
            r@ == cell_text(self@, col, row),
    {
        proof {
            use_type_invariant(self);
        }
        let n: usize = self.cells.len();
        let mut i: usize = 0;
        while i < n
            invariant
                0 <= i <= n,
                n == self.cells@.len(),
                sorted_cells(self.cells@),
                self@ == cells_map(self.cells@),
                forall|j: int| 0 <= j < i ==> !cell_at(self.cells@, j, col, row),
            decreases n - i,
        {
            if self.cells[i].row == row && self.cells[i].col == col {
                proof {
                    lemma_cells_map_index(self.cells@, i as int);
                }
                return self.cells[i].value.clone();
            }
            i = i + 1;
        }
        proof {
            if grid_has(self@, col, row) {
                let j = choose|j: int| cell_at(self.cells@, j, col, row);
                assert(!cell_at(self.cells@, j, col, row));
            }
        }
        String::new()
    }

    /// Every populated cell as (column, row, text), for the caller to
    /// serialize; exactly the grid's contents, nothing else.
    pub fn to_cells(&self) -> (r: Vec<(u32, u32, String)>)
        ensures
            forall|t: int| #![trigger r@[t]]
                0 <= t < r@.len() ==> grid_has(self@, r@[t].0, r@[t].1) && r@[t].2@ == grid_val(
                    self@,
                    r@[t].0,
                    r@[t].1,
                ),
            forall|c: u32, row: u32|
                #[trigger] grid_has(self@, c, row) ==> exists|t: int|
                    #![trigger r@[t]]
                    0 <= t < r@.len() && r@[t].0 == c && r@[t].1 == row,
            forall|t1: int, t2: int|
                0 <= t1 < t2 < r@.len() ==> (r@[t1].1 < r@[t2].1 || (r@[t1].1 == r@[t2].1
                    && r@[t1].0 < r@[t2].0)),
    {
        proof {
            use_type_invariant(self);
        }
        let n: usize = self.cells.len();
        let mut r: Vec<(u32, u32, String)> = Vec::new();
        let mut i: usize = 0;
        while i < n
            invariant
                0 <= i <= n,
                n == self.cells@.len(),
                sorted_cells(self.cells@),
                self@ == cells_map(self.cells@),
                r@.len() == i,
                forall|t: int| #![trigger r@[t]]
                    0 <= t < i ==> r@[t].0 == self.cells@[t].col && r@[t].1 == self.cells@[t].row
                        && r@[t].2@ == self.cells@[t].value@,
            decreases n - i,
        {
            proof {
                lemma_cells_map_index(self.cells@, i as int);
            }
            r.push((self.cells[i].col, self.cells[i].row, self.cells[i].value.clone()));
            i = i + 1;
        }
        proof {
            assert forall|c: u32, row: u32| #[trigger] grid_has(self@, c, row) implies exists|
                t: int,
            |
                #![trigger r@[t]]
                0 <= t < r@.len() && r@[t].0 == c && r@[t].1 == row by {
                let j = choose|j: int| cell_at(self.cells@, j, c, row);
                assert(r@[j].0 == c && r@[j].1 == row);
            }
            assert forall|t: int| #![trigger r@[t]] 0 <= t < r@.len() implies grid_has(
                self@,
                r@[t].0,
                r@[t].1,
            ) && r@[t].2@ == grid_val(self@, r@[t].0, r@[t].1) by {
                lemma_cells_map_index(self.cells@, t);
            }
            assert forall|t1: int, t2: int| 0 <= t1 < t2 < r@.len() implies (r@[t1].1 < r@[t2].1
                || (r@[t1].1 == r@[t2].1 && r@[t1].0 < r@[t2].0)) by {
                assert(cell_before(self.cells@[t1], self.cells@[t2]));
            }
        }
        r
    }

    /// Inserts a fully blank row at `row`, shifting every row at or past
    /// it down by one.
    pub fn insert_blank_row(&mut self, row: u32)
        requires
            rows_below(old(self)@, u32::MAX),
        ensures
            final(self)@ == with_blank_row_inserted(old(self)@, row),
    {
        proof {
            use_type_invariant(&*self);
        }
        let mut cs: Vec<GridCell> = Vec::new();
        core::mem::swap(&mut cs, &mut self.cells);
        let ghost orig = cs@;
        let ghost m0 = cells_map(orig);
        let n: usize = cs.len();
        let mut out: Vec<GridCell> = Vec::new();
        let mut i: usize = 0;
        while i < n
            invariant
                0 <= i <= n,
                n == cs@.len(),
                cs@ == orig,
                sorted_cells(orig),
                cells_cols_positive(orig),
                rows_below(cells_map(orig), u32::MAX),
                out@.len() == i,
                forall|j: int| #![trigger out@[j]]
                    0 <= j < i ==> out@[j].col == orig[j].col && out@[j].value@ == orig[j].value@
                        && out@[j].row == (if orig[j].row >= row {
                        (orig[j].row + 1) as u32
                    } else {
                        orig[j].row
                    }),
            decreases n - i,
        {
            proof {
                lemma_cells_map_index(orig, i as int);
            }
            let nrow: u32 = if cs[i].row >= row {
                cs[i].row + 1
            } else {
                cs[i].row
            };
            out.push(GridCell { col: cs[i].col, row: nrow, value: cs[i].value.clone() });
            i = i + 1;
        }
        proof {
            let s2 = out@;
            assert forall|a: int, b: int| 0 <= a < b < s2.len() implies cell_before(s2[a], s2[b]) by {
                lemma_cells_map_index(orig, a);
                lemma_cells_map_index(orig, b);
                assert(cell_before(orig[a], orig[b]));
            }
            let m1 = with_blank_row_inserted(m0, row);
            let m2 = cells_map(s2);
            assert forall|k: (u32, u32)| #![trigger m1.dom().contains(k)]
                m1.dom().contains(k) implies m2.dom().contains(k) && m2[k] == m1[k] by {
                if k.1 < row {
                    let j = choose|j: int| cell_at(orig, j, k.0, k.1);
                    assert(cell_at(s2, j, k.0, k.1));
                    lemma_cells_map_index(s2, j);
                    lemma_cells_map_index(orig, j);
                } else {
                    let r0: u32 = (k.1 - 1) as u32;
                    let j = choose|j: int| cell_at(orig, j, k.0, r0);
                    assert(orig[j].row == r0 && orig[j].row >= row);
                    assert(cell_at(s2, j, k.0, k.1));
                    lemma_cells_map_index(s2, j);
                    lemma_cells_map_index(orig, j);
                }
            }
            assert forall|k: (u32, u32)| #![trigger m2.dom().contains(k)]
                m2.dom().contains(k) implies m1.dom().contains(k) by {
                let j = choose|j: int| cell_at(s2, j, k.0, k.1);
                lemma_cells_map_index(orig, j);
                if orig[j].row >= row {
                    assert(k.1 == orig[j].row + 1);
                    assert(cell_at(orig, j, k.0, (k.1 - 1) as u32));
                } else {
                    assert(k.1 == orig[j].row && k.1 < row);
                    assert(cell_at(orig, j, k.0, k.1));
                }
            }
            assert forall|k: (u32, u32)| m2.dom().contains(k) == m1.dom().contains(k) by {
                if m1.dom().contains(k) {
                    assert(m2.dom().contains(k));
                }
                if m2.dom().contains(k) {
                    assert(m1.dom().contains(k));
                }
            }
            assert(m2.dom() =~= m1.dom());
            assert(m2 =~= m1);
        }
        self.cells = out;
    }
}

} // verus!
