//! The field projector: turns a sparse, arbitrarily ordered cell list
//! for one row into the dense, 0-based field vector the rest of the
//! system expects.

use vstd::prelude::*;
use vstd::pervasive::VecAdditionalExecFns;
use crate::grid::Grid;
use crate::model::{cell_text, end_line, grid_has};

verus! {

/// The text landing at field position `pos`: the last cell listed for
/// that position wins; positions nothing is listed for read as empty.
pub open spec fn projected_at(cells: Seq<(usize, String)>, pos: int) -> Seq<char>
    decreases cells.len(),
{
    if cells.len() == 0 {
        Seq::empty()
    } else if cells.last().0 == pos {
        cells.last().1@
    } else {
        projected_at(cells.drop_last(), pos)
    }
}

/// Projects one row's cells into a dense field vector of `field_size`
/// entries: a cell listed at position `offset + j` lands in entry `j`,
/// cells outside that range are ignored, and entries nothing lands in
/// default to empty text.
pub fn sort_cells(cells: Vec<(usize, String)>, field_size: usize, offset: usize) -> (r: Vec<
    String,
>)
    ensures
        r@.len() == field_size,
        forall|j: int| 0 <= j < field_size ==> r@[j]@ == projected_at(cells@, j + offset),
{
    let mut r: Vec<String> = Vec::new();
    let mut t: usize = 0;
    while t < field_size
        invariant
            0 <= t <= field_size,
            r@.len() == t,
            forall|j: int| 0 <= j < t ==> r@[j]@ == Seq::<char>::empty(),
        decreases field_size - t,
    {
        r.push(String::new());
        t = t + 1;
    }
    let n: usize = cells.len();
    proof {
        assert(cells@.take(0) =~= Seq::<(usize, String)>::empty());
    }
    let mut i: usize = 0;
    while i < n
        invariant
            0 <= i <= n,
            n == cells@.len(),
            r@.len() == field_size,
            forall|j: int|
                0 <= j < field_size ==> r@[j]@ == projected_at(cells@.take(i as int), j + offset),
        decreases n - i,
    {
        let pos = cells[i].0;
        if pos >= offset {
            let k = pos - offset;
            if k < field_size {
                r.set(k, cells[i].1.clone());
            }
        }
        proof {
            let prefix = cells@.take(i + 1 as int);
            assert(prefix.drop_last() =~= cells@.take(i as int));
            assert(prefix.last() == cells@[i as int]);
        }
        i = i + 1;
    }
    proof {
        assert(cells@.take(n as int) =~= cells@);
    }
    r
}

/// In a list with strictly ascending positions, the projection at the
/// position of entry `t` is that entry's text.
proof fn lemma_projected_match(cells: Seq<(usize, String)>, t: int, pos: int)
    requires
        0 <= t < cells.len(),
        cells[t].0 == pos,
        forall|t1: int, t2: int| 0 <= t1 < t2 < cells.len() ==> cells[t1].0 < cells[t2].0,
    ensures
        projected_at(cells, pos) == cells[t].1@,
    decreases cells.len(),
{
    if t == cells.len() - 1 {
    } else {
        assert(cells[t].0 < cells[cells.len() - 1].0);
        assert(cells.drop_last()[t] == cells[t]);
        lemma_projected_match(cells.drop_last(), t, pos);
    }
}

/// The projection at a position no entry lists is empty text.
proof fn lemma_projected_absent(cells: Seq<(usize, String)>, pos: int)
    requires
        forall|t: int| 0 <= t < cells.len() ==> cells[t].0 != pos,
    ensures
        projected_at(cells, pos) == Seq::<char>::empty(),
    decreases cells.len(),
{
    if cells.len() > 0 {
        assert(forall|t: int|
            0 <= t < cells.drop_last().len() ==> cells.drop_last()[t] == cells[t]);
        lemma_projected_absent(cells.drop_last(), pos);
    }
}

impl Grid {
    /// The end line projected into `field_size` dense entries, starting
    /// at column `offset`: slot `j` holds the text of that row's cell
    /// at column `offset + j`, or empty text where there is none.
    pub fn get_end_data(&self, field_size: usize, offset: usize) -> (r: Vec<String>)
        requires
            offset + field_size <= u32::MAX,
        ensures
            r@.len() == field_size,
            forall|j: int|
                0 <= j < r@.len() ==> r@[j]@ == cell_text(
                    self@,
                    (j + offset) as u32,
                    end_line(self@),
                ),
    {
        let line_cells = self.get_row(self.get_end_line_index());
        let k: usize = line_cells.len();
        let mut conv: Vec<(usize, String)> = Vec::new();
        let mut t: usize = 0;
        while t < k
            invariant
                0 <= t <= k,
                k == line_cells@.len(),
                conv@.len() == t,
                forall|u: int| #![trigger conv@[u]]
                    0 <= u < t ==> conv@[u].0 == line_cells@[u].0 && conv@[u].1@
                        == line_cells@[u].1@,
            decreases k - t,
        {
            conv.push((line_cells[t].0 as usize, line_cells[t].1.clone()));
            t = t + 1;
        }
        let r = sort_cells(conv, field_size, offset);
        proof {
            let m = self@;
            let row = end_line(m);
            assert forall|j: int| 0 <= j < r@.len() implies r@[j]@ == cell_text(
                m,
                (j + offset) as u32,
                row,
            ) by {
                let pos = j + offset;
                let col = (j + offset) as u32;
                if grid_has(m, col, row) {
                    let t0 = choose|t0: int|
                        #![trigger line_cells@[t0]]
                        0 <= t0 < line_cells@.len() && line_cells@[t0].0 == col;
                    assert(conv@[t0].0 == pos);
                    lemma_projected_match(conv@, t0, pos);
                } else {
                    assert forall|t0: int| 0 <= t0 < conv@.len() implies conv@[t0].0 != pos by {
                        if conv@[t0].0 == pos {
                            assert(grid_has(m, line_cells@[t0].0, row));
                        }
                    }
                    lemma_projected_absent(conv@, pos);
                }
            }
        }
        r
    }
}

} // verus!
