//! Read-only locator queries over the grid, and the row-level writes
//! the inserter builds on.
//!
//! The queries find where the table starts and ends, locate the row of a
//! given catalog index, count reusable blank rows, and list the missing
//! indices between the least and greatest known ones.

use vstd::prelude::*;
use crate::grid::{
    Grid, cell_at, cells_map, is_group_begin, lemma_cells_map_index, lemma_cells_one_based,
    lemma_group_begin_is_begin_col, lemma_group_begin_num, lemma_row_has_group_begin,
    lemma_rows_monotone, sorted_cells,
};
use crate::grid::cell_before;
use crate::model::{
    begin_col, begin_num, count_empty_back, count_empty_fwd, end_index,
    end_line, grid_has, grid_nonempty, grid_val, has_begin_num, is_begin_col,
    is_end_line, is_gap, is_max_row, is_min_row, is_row_of, is_row_repr, is_row_strings,
    is_start_cand, is_start_line, leading_nonempty, lemma_count_empty_back_run,
    lemma_count_empty_fwd_run, lemma_end_line_unique,
    lemma_max_row_unique, lemma_min_row_unique,
    lemma_row_of_unique, lemma_start_line_unique, matches_index, max_row, min_row, exists_index,
    row_empty, row_has_cell, row_of, rows_below, start_index, start_line, views_of,
    with_blank_row_inserted, with_row_written,
};
use crate::num::{parse_index, parse_index_str};

verus! {

/// Whether `x` occurs in the vector.
fn contains_u32(v: &Vec<u32>, x: u32) -> (r: bool)
    ensures
        r == v@.contains(x),
{
    let n: usize = v.len();
    let mut i: usize = 0;
    while i < n
        invariant
            0 <= i <= n,
            n == v@.len(),
            forall|j: int| 0 <= j < i ==> v@[j] != x,
        decreases n - i,
    {
        if v[i] == x {
            return true;
        }
        i = i + 1;
    }
    proof {
        if v@.contains(x) {
            let j = choose|j: int| 0 <= j < v@.len() && v@[j] == x;
        }
    }
    false
}

impl Grid {
    /// The leftmost populated cell of a row, with its column and text.
    pub fn get_begin_cell_in_row(&self, row_num: u32) -> (r: Option<(u32, String)>)
        ensures
            match r {
                Option::None => !row_has_cell(self@, row_num),
                Option::Some(p) => is_begin_col(self@, row_num, p.0) && p.0 == begin_col(
                    self@,
                    row_num,
                ) && p.1@ == grid_val(self@, p.0, row_num),
            },
    {
        proof {
            use_type_invariant(self);
            self.lemma_view();
        }
        let n: usize = self.cells.len();
        let mut i: usize = 0;
        while i < n
            invariant
                0 <= i <= n,
                n == self.cells@.len(),
                sorted_cells(self.cells@),
                self@ == cells_map(self.cells@),
                forall|j: int| 0 <= j < i ==> #[trigger] self.cells@[j].row != row_num,
            decreases n - i,
        {
            if self.cells[i].row == row_num {
                proof {
                    assert(is_group_begin(self.cells@, i as int));
                    lemma_group_begin_num(self.cells@, i as int);
                    lemma_group_begin_is_begin_col(self.cells@, i as int);
                    lemma_cells_map_index(self.cells@, i as int);
                }
                return Some((self.cells[i].col, self.cells[i].value.clone()));
            }
            i = i + 1;
        }
        proof {
            if row_has_cell(self@, row_num) {
                let c = choose|c: u32| grid_has(self@, c, row_num);
                let j = choose|j: int| cell_at(self.cells@, j, c, row_num);
                assert(self.cells@[j].row != row_num);
            }
        }
        None
    }

    /// The rightmost populated cell of a row, with its column and text.
    pub fn get_end_cell_in_row(&self, row_num: u32) -> (r: Option<(u32, String)>)
        ensures
            match r {
                Option::None => !row_has_cell(self@, row_num),
                Option::Some(p) => grid_has(self@, p.0, row_num) && p.1@ == grid_val(
                    self@,
                    p.0,
                    row_num,
                ) && (forall|c2: u32| c2 > p.0 ==> !grid_has(self@, c2, row_num)),
            },
    {
        proof {
            use_type_invariant(self);
            self.lemma_view();
        }
        let n: usize = self.cells.len();
        let mut best: Option<(u32, String)> = None;
        let mut i: usize = 0;
        while i < n
            invariant
                0 <= i <= n,
                n == self.cells@.len(),
                sorted_cells(self.cells@),
                self@ == cells_map(self.cells@),
                match best {
                    Option::None => forall|j: int|
                        0 <= j < i ==> #[trigger] self.cells@[j].row != row_num,
                    Option::Some(p) => grid_has(self@, p.0, row_num) && p.1@ == grid_val(
                        self@,
                        p.0,
                        row_num,
                    ) && (forall|j: int|
                        0 <= j < i && #[trigger] self.cells@[j].row == row_num
                            ==> self.cells@[j].col <= p.0),
                },
            decreases n - i,
        {
            if self.cells[i].row == row_num {
                proof {
                    lemma_cells_map_index(self.cells@, i as int);
                    assert forall|j: int|
                        0 <= j < i && #[trigger] self.cells@[j].row == row_num implies
                        self.cells@[j].col <= self.cells@[i as int].col by {
                        assert(cell_before(self.cells@[j], self.cells@[i as int]));
                    }
                }
                best = Some((self.cells[i].col, self.cells[i].value.clone()));
            }
            i = i + 1;
        }
        proof {
            if best is None {
                if row_has_cell(self@, row_num) {
                    let c = choose|c: u32| grid_has(self@, c, row_num);
                    let j = choose|j: int| cell_at(self.cells@, j, c, row_num);
                    assert(self.cells@[j].row != row_num);
                }
            } else {
                let p = best->Some_0;
                assert forall|c2: u32| c2 > p.0 implies !grid_has(self@, c2, row_num) by {
                    if grid_has(self@, c2, row_num) {
                        let j = choose|j: int| cell_at(self.cells@, j, c2, row_num);
                        assert(self.cells@[j].row == row_num);
                    }
                }
            }
        }
        best
    }

    /// Whether the row's leading cell is absent or blank.
    pub fn row_is_empty(&self, row_num: u32) -> (r: bool)
        ensures
            r == row_empty(self@, row_num),
    {
        let b = self.get_begin_cell_in_row(row_num);
        match b {
            Option::None => true,
            Option::Some(p) => {
                proof {
                    assert(grid_has(self@, p.0, row_num));
                    assert(row_has_cell(self@, row_num));
                }
                p.1.as_str().is_empty()
            },
        }
    }

    /// The last row whose column 1 holds text; 0 when no row does.
    pub fn get_end_line_index(&self) -> (r: u32)
        ensures
            is_end_line(self@, r),
            r == end_line(self@),
    {
        proof {
            use_type_invariant(self);
            self.lemma_view();
        }
        let n: usize = self.cells.len();
        let mut result: u32 = 0;
        let mut i: usize = 0;
        while i < n
            invariant
                0 <= i <= n,
                n == self.cells@.len(),
                sorted_cells(self.cells@),
                self@ == cells_map(self.cells@),
                forall|j: int| #![trigger self.cells@[j]]
                    0 <= j < i && self.cells@[j].col == 1 && self.cells@[j].value@.len() > 0
                        ==> self.cells@[j].row <= result,
                result == 0 || exists|j: int| #![trigger self.cells@[j]]
                    0 <= j < i && self.cells@[j].col == 1 && self.cells@[j].value@.len() > 0
                        && self.cells@[j].row == result,
            decreases n - i,
        {
            if self.cells[i].col == 1 && !self.cells[i].value.as_str().is_empty() && result
                < self.cells[i].row {
                result = self.cells[i].row;
            }
            i = i + 1;
        }
        proof {
            assert forall|r2: u32| leading_nonempty(self@, r2) implies r2 <= result by {
                let j = choose|j: int| cell_at(self.cells@, j, 1u32, r2);
                lemma_cells_map_index(self.cells@, j);
            }
            if result != 0 {
                let j = choose|j: int| #![trigger self.cells@[j]]
                    0 <= j < n && self.cells@[j].col == 1 && self.cells@[j].value@.len() > 0
                        && self.cells@[j].row == result;
                lemma_cells_map_index(self.cells@, j);
                assert(leading_nonempty(self@, result));
            }
            assert(is_end_line(self@, result));
            assert(is_end_line(self@, end_line(self@)));
            lemma_end_line_unique(self@, result, end_line(self@));
        }
        result
    }

    /// The first row with a numeric leading cell; with none, the end
    /// line stands in.
    pub fn get_start_line_index(&self) -> (r: u32)
        ensures
            is_start_line(self@, r),
            r == start_line(self@),
    {
        proof {
            use_type_invariant(self);
            self.lemma_view();
        }
        let n: usize = self.cells.len();
        let mut i: usize = 0;
        while i < n
            invariant
                0 <= i <= n,
                n == self.cells@.len(),
                sorted_cells(self.cells@),
                self@ == cells_map(self.cells@),
                forall|j: int|
                    0 <= j < i && #[trigger] is_group_begin(self.cells@, j) ==> parse_index(
                        self.cells@[j].value@,
                    ) is None,
            decreases n - i,
        {
            let gb: bool = i == 0 || self.cells[i - 1].row != self.cells[i].row;
            if gb {
                if parse_index_str(self.cells[i].value.as_str()).is_some() {
                    let r = self.cells[i].row;
                    proof {
                        assert(is_group_begin(self.cells@, i as int));
                        lemma_group_begin_num(self.cells@, i as int);
                        assert(is_start_cand(self@, r));
                        assert forall|r2: u32| r2 < r implies !is_start_cand(self@, r2) by {
                            if is_start_cand(self@, r2) {
                                lemma_row_has_group_begin(self.cells@, r2);
                                let j = choose|j: int|
                                    is_group_begin(self.cells@, j) && #[trigger] self.cells@[j].row
                                        == r2;
                                lemma_group_begin_num(self.cells@, j);
                                if j >= i {
                                    lemma_rows_monotone(self.cells@, i as int, j);
                                }
                            }
                        }
                        assert(is_start_line(self@, r));
                        assert(is_start_line(self@, start_line(self@)));
                        lemma_start_line_unique(self@, r, start_line(self@));
                    }
                    return r;
                }
            }
            i = i + 1;
        }
        let e = self.get_end_line_index();
        proof {
            assert forall|r2: u32| !is_start_cand(self@, r2) by {
                if is_start_cand(self@, r2) {
                    lemma_row_has_group_begin(self.cells@, r2);
                    let j = choose|j: int|
                        is_group_begin(self.cells@, j) && #[trigger] self.cells@[j].row == r2;
                    lemma_group_begin_num(self.cells@, j);
                }
            }
            assert(is_start_line(self@, e));
            assert(is_start_line(self@, start_line(self@)));
            lemma_start_line_unique(self@, e, start_line(self@));
        }
        e
    }

    /// The first row whose column 1 reads as the catalog index `index`.
    pub fn get_row_index_from_index(&self, index: u32) -> (r: Option<u32>)
        ensures
            match r {
                Option::None => !exists_index(self@, index),
                Option::Some(row) => is_row_of(self@, index, row) && row == row_of(self@, index),
            },
    {
        proof {
            use_type_invariant(self);
            self.lemma_view();
        }
        let n: usize = self.cells.len();
        let mut i: usize = 0;
        while i < n
            invariant
                0 <= i <= n,
                n == self.cells@.len(),
                sorted_cells(self.cells@),
                self@ == cells_map(self.cells@),
                forall|j: int| #![trigger self.cells@[j]]
                    0 <= j < i ==> !(self.cells@[j].col == 1 && parse_index(self.cells@[j].value@)
                        == Some(index)),
            decreases n - i,
        {
            if self.cells[i].col == 1 {
                if let Some(v) = parse_index_str(self.cells[i].value.as_str()) {
                    if v == index {
                        let row = self.cells[i].row;
                        proof {
                            lemma_cells_map_index(self.cells@, i as int);
                            assert(matches_index(self@, row, index));
                            assert forall|r2: u32| r2 < row implies !matches_index(
                                self@,
                                r2,
                                index,
                            ) by {
                                if matches_index(self@, r2, index) {
                                    let j = choose|j: int| cell_at(self.cells@, j, 1u32, r2);
                                    lemma_cells_map_index(self.cells@, j);
                                    if j >= i {
                                        lemma_rows_monotone(self.cells@, i as int, j);
                                    }
                                }
                            }
                            assert(is_row_of(self@, index, row));
                            assert(exists_index(self@, index));
                            assert(is_row_of(self@, index, row_of(self@, index)));
                            lemma_row_of_unique(self@, index, row, row_of(self@, index));
                        }
                        return Some(row);
                    }
                }
            }
            i = i + 1;
        }
        proof {
            if exists_index(self@, index) {
                let r2 = choose|row: u32| matches_index(self@, row, index);
                let j = choose|j: int| cell_at(self.cells@, j, 1u32, r2);
                lemma_cells_map_index(self.cells@, j);
            }
        }
        None
    }

    /// The catalog index at column 1 of the end line, or 0.
    pub fn get_end_index(&self) -> (r: u32)
        ensures
            r == end_index(self@),
    {
        let line = self.get_end_line_index();
        let txt = self.cell(1, line);
        match parse_index_str(txt.as_str()) {
            Option::Some(v) => v,
            Option::None => 0,
        }
    }

    /// The catalog index at column 1 of the start line, or 0.
    pub fn get_start_index(&self) -> (r: u32)
        ensures
            r == start_index(self@),
    {
        let line = self.get_start_line_index();
        let txt = self.cell(1, line);
        match parse_index_str(txt.as_str()) {
            Option::Some(v) => v,
            Option::None => 0,
        }
    }

    /// Counts consecutive blank rows adjacent to `line_index`: upward
    /// (`top`) the count runs to just before the end line; downward it
    /// runs to row 1.
    pub fn get_count_empty_rows(&self, line_index: u32, top: bool) -> (r: u32)
        ensures
            top ==> r == count_empty_fwd(self@, line_index, end_line(self@)),
            !top ==> r == count_empty_back(self@, line_index),
    {
        if top {
            let end = self.get_end_line_index();
            let mut cnt: u32 = 0;
            while (line_index as u64) + (cnt as u64) + 1 < (end as u64) && self.row_is_empty(
                line_index + cnt + 1,
            )
                invariant
                    end == end_line(self@),
                    cnt == 0 || line_index + cnt < end,
                    forall|rr: u32|
                        line_index < rr <= line_index + cnt ==> #[trigger] row_empty(self@, rr)
                            && rr < end,
                decreases end - line_index - cnt,
            {
                cnt = cnt + 1;
            }
            proof {
                lemma_count_empty_fwd_run(self@, line_index, end, cnt);
            }
            cnt
        } else {
            let mut cnt: u32 = 0;
            while (line_index as u64) >= (cnt as u64) + 2 && self.row_is_empty(
                line_index - cnt - 1,
            )
                invariant
                    cnt == 0 || (cnt <= line_index && line_index - cnt >= 1),
                    forall|rr: u32|
                        line_index - cnt <= rr < line_index ==> #[trigger] row_empty(self@, rr)
                            && rr >= 1,
                decreases line_index - cnt,
            {
                cnt = cnt + 1;
            }
            proof {
                lemma_count_empty_back_run(self@, line_index, cnt);
            }
            cnt
        }
    }

    /// The populated cells of a row, ordered by ascending column.
    #[verifier::rlimit(50)]
    pub fn get_row(&self, row_num: u32) -> (r: Vec<(u32, String)>)
        ensures
            is_row_repr(self@, row_num, r@),
    {
        proof {
            use_type_invariant(self);
            self.lemma_view();
        }
        let n: usize = self.cells.len();
        let mut r: Vec<(u32, String)> = Vec::new();
        let ghost mut last_src: int = 0;
        let mut i: usize = 0;
        while i < n
            invariant
                0 <= i <= n,
                n == self.cells@.len(),
                sorted_cells(self.cells@),
                self@ == cells_map(self.cells@),
                forall|t: int| #![trigger r@[t]]
                    0 <= t < r@.len() ==> grid_has(self@, r@[t].0, row_num) && r@[t].1@
                        == grid_val(self@, r@[t].0, row_num),
                forall|t1: int, t2: int| 0 <= t1 < t2 < r@.len() ==> r@[t1].0 < r@[t2].0,
                r@.len() > 0 ==> 0 <= last_src < i && cell_at(
                    self.cells@,
                    last_src,
                    r@[r@.len() - 1].0,
                    row_num,
                ),
                forall|j: int| #![trigger self.cells@[j]]
                    0 <= j < i && self.cells@[j].row == row_num ==> exists|t: int|
                        #![trigger r@[t]]
                        0 <= t < r@.len() && r@[t].0 == self.cells@[j].col,
            decreases n - i,
        {
            if self.cells[i].row == row_num {
                proof {
                    lemma_cells_map_index(self.cells@, i as int);
                    if r@.len() > 0 {
                        assert(cell_before(self.cells@[last_src], self.cells@[i as int]));
                        assert(r@[r@.len() - 1].0 < self.cells@[i as int].col);
                    }
                }
                let ghost old_r = r@;
                r.push((self.cells[i].col, self.cells[i].value.clone()));
                proof {
                    last_src = i as int;
                    assert(cell_at(self.cells@, i as int, r@[r@.len() - 1].0, row_num));
                    assert forall|j: int| #![trigger self.cells@[j]]
                        0 <= j < i + 1 && self.cells@[j].row == row_num implies exists|t: int|
                        #![trigger r@[t]]
                        0 <= t < r@.len() && r@[t].0 == self.cells@[j].col by {
                        if j < i {
                            let t0 = choose|t0: int|
                                #![trigger old_r[t0]]
                                0 <= t0 < old_r.len() && old_r[t0].0 == self.cells@[j].col;
                            assert(r@[t0] == old_r[t0]);
                            assert(0 <= t0 < r@.len() && r@[t0].0 == self.cells@[j].col);
                        } else {
                            let t1 = r@.len() - 1;
                            assert(0 <= t1 < r@.len() && r@[t1].0 == self.cells@[j].col);
                        }
                    }
                }
            } else {
                proof {
                    assert forall|j: int| #![trigger self.cells@[j]]
                        0 <= j < i + 1 && self.cells@[j].row == row_num implies exists|t: int|
                        #![trigger r@[t]]
                        0 <= t < r@.len() && r@[t].0 == self.cells@[j].col by {
                        assert(j < i);
                    }
                }
            }
            i = i + 1;
        }
        proof {
            assert forall|c: u32| grid_has(self@, c, row_num) implies exists|t: int|
                #![trigger r@[t]]
                0 <= t < r@.len() && r@[t].0 == c by {
                let j = choose|j: int| cell_at(self.cells@, j, c, row_num);
                assert(0 <= j < n && self.cells@[j].row == row_num);
            }
        }
        r
    }

    /// The cells of the end line, by ascending column.
    pub fn get_end_line(&self) -> (r: Vec<(u32, String)>)
        ensures
            is_row_repr(self@, end_line(self@), r@),
    {
        let line = self.get_end_line_index();
        self.get_row(line)
    }

    /// The cells of the start line, by ascending column.
    pub fn get_start_line(&self) -> (r: Vec<(u32, String)>)
        ensures
            is_row_repr(self@, start_line(self@), r@),
    {
        let line = self.get_start_line_index();
        self.get_row(line)
    }

    /// Every row between the least and greatest populated rows, each as
    /// its populated cells by ascending column.
    pub fn get_matrix(&self) -> (r: Vec<Vec<(u32, String)>>)
        ensures
            !grid_nonempty(self@) ==> r@.len() == 0,
            grid_nonempty(self@) ==> {
                &&& is_min_row(self@, min_row(self@))
                &&& is_max_row(self@, max_row(self@))
                &&& r@.len() == max_row(self@) - min_row(self@) + 1
                &&& forall|t: int|
                    0 <= t < r@.len() ==> is_row_repr(
                        self@,
                        (min_row(self@) + t) as u32,
                        #[trigger] r@[t]@,
                    )
            },
    {
        proof {
            use_type_invariant(self);
            self.lemma_view();
        }
        let n: usize = self.cells.len();
        if n == 0 {
            proof {
                if grid_nonempty(self@) {
                    let r2 = choose|r2: u32| row_has_cell(self@, r2);
                    let c = choose|c: u32| grid_has(self@, c, r2);
                    let j = choose|j: int| cell_at(self.cells@, j, c, r2);
                }
            }
            return Vec::new();
        }
        let lo = self.cells[0].row;
        let hi = self.cells[n - 1].row;
        proof {
            lemma_cells_map_index(self.cells@, 0);
            lemma_cells_map_index(self.cells@, n - 1 as int);
            assert(row_has_cell(self@, lo));
            assert(row_has_cell(self@, hi));
            assert forall|r2: u32| r2 < lo implies !row_has_cell(self@, r2) by {
                if row_has_cell(self@, r2) {
                    let c = choose|c: u32| grid_has(self@, c, r2);
                    let j = choose|j: int| cell_at(self.cells@, j, c, r2);
                    lemma_rows_monotone(self.cells@, 0, j);
                }
            }
            assert forall|r2: u32| r2 > hi implies !row_has_cell(self@, r2) by {
                if row_has_cell(self@, r2) {
                    let c = choose|c: u32| grid_has(self@, c, r2);
                    let j = choose|j: int| cell_at(self.cells@, j, c, r2);
                    lemma_rows_monotone(self.cells@, j, n - 1 as int);
                }
            }
            assert(is_min_row(self@, lo));
            assert(is_max_row(self@, hi));
            assert(is_min_row(self@, min_row(self@)));
            assert(is_max_row(self@, max_row(self@)));
            lemma_min_row_unique(self@, lo, min_row(self@));
            lemma_max_row_unique(self@, hi, max_row(self@));
        }
        let total: u64 = ((hi - lo) as u64) + 1;
        let mut out: Vec<Vec<(u32, String)>> = Vec::new();
        let mut t: u64 = 0;
        while t < total
            invariant
                lo <= hi,
                total == hi - lo + 1,
                out@.len() == t,
                t <= total,
                self@ == cells_map(self.cells@),
                forall|u: int|
                    0 <= u < t ==> is_row_repr(self@, (lo + u) as u32, #[trigger] out@[u]@),
            decreases total - t,
        {
            let rowv = self.get_row(lo + (t as u32));
            out.push(rowv);
            t = t + 1;
        }
        out
    }

    /// Every row between the least and greatest populated rows, each as
    /// the text of its populated cells by ascending column.
    pub fn get_string_matrix(&self) -> (r: Vec<Vec<String>>)
        ensures
            !grid_nonempty(self@) ==> r@.len() == 0,
            grid_nonempty(self@) ==> {
                &&& is_min_row(self@, min_row(self@))
                &&& is_max_row(self@, max_row(self@))
                &&& r@.len() == max_row(self@) - min_row(self@) + 1
                &&& forall|t: int|
                    0 <= t < r@.len() ==> is_row_strings(
                        self@,
                        (min_row(self@) + t) as u32,
                        #[trigger] r@[t]@,
                    )
            },
    {
        let mat = self.get_matrix();
        let mut out: Vec<Vec<String>> = Vec::new();
        let mut t: usize = 0;
        let n: usize = mat.len();
        while t < n
            invariant
                0 <= t <= n,
                n == mat@.len(),
                out@.len() == t,
                forall|u: int| #![trigger out@[u]]
                    0 <= u < t ==> out@[u]@.len() == mat@[u]@.len() && (forall|w: int|
                        0 <= w < out@[u]@.len() ==> out@[u]@[w]@ == #[trigger] mat@[u]@[w].1@),
            decreases n - t,
        {
            let rowv = &mat[t];
            let mut svals: Vec<String> = Vec::new();
            let mut w: usize = 0;
            let k: usize = rowv.len();
            while w < k
                invariant
                    0 <= w <= k,
                    k == rowv@.len(),
                    svals@.len() == w,
                    forall|u: int| 0 <= u < w ==> svals@[u]@ == #[trigger] rowv@[u].1@,
                decreases k - w,
            {
                svals.push(rowv[w].1.clone());
                w = w + 1;
            }
            out.push(svals);
            t = t + 1;
        }
        proof {
            if grid_nonempty(self@) {
                assert forall|u: int| 0 <= u < out@.len() implies is_row_strings(
                    self@,
                    (min_row(self@) + u) as u32,
                    #[trigger] out@[u]@,
                ) by {
                    assert(is_row_repr(self@, (min_row(self@) + u) as u32, mat@[u]@));
                }
            }
        }
        out
    }

    /// The catalog indices missing strictly between the least and
    /// greatest leading numbers of the grid, ascending.
    pub fn skips(&self) -> (r: Vec<u32>)
        ensures
            forall|t1: int, t2: int| 0 <= t1 < t2 < r@.len() ==> r@[t1] < r@[t2],
            forall|v: u32| #[trigger] r@.contains(v) <==> is_gap(self@, v),
            forall|v: u32| #[trigger] r@.contains(v) ==> !exists_index(self@, v),
    {
        proof {
            use_type_invariant(self);
            self.lemma_view();
        }
        let n: usize = self.cells.len();
        let mut nums: Vec<u32> = Vec::new();
        let mut i: usize = 0;
        while i < n
            invariant
                0 <= i <= n,
                n == self.cells@.len(),
                sorted_cells(self.cells@),
                self@ == cells_map(self.cells@),
                forall|v: u32|
                    #[trigger] nums@.contains(v) <==> exists|j: int|
                        0 <= j < i && #[trigger] is_group_begin(self.cells@, j) && parse_index(
                            self.cells@[j].value@,
                        ) == Some(v),
            decreases n - i,
        {
            let gb: bool = i == 0 || self.cells[i - 1].row != self.cells[i].row;
            if gb {
                if let Some(v0) = parse_index_str(self.cells[i].value.as_str()) {
                    proof {
                        assert(is_group_begin(self.cells@, i as int));
                    }
                    let ghost old_nums = nums@;
                    nums.push(v0);
                    proof {
                        assert forall|v: u32| #[trigger] nums@.contains(v) implies exists|j: int|
                            0 <= j < i + 1 && #[trigger] is_group_begin(self.cells@, j)
                                && parse_index(self.cells@[j].value@) == Some(v) by {
                            let u = choose|u: int| 0 <= u < nums@.len() && nums@[u] == v;
                            if u < old_nums.len() {
                                assert(old_nums.contains(v));
                            } else {
                                assert(v == v0);
                                assert(is_group_begin(self.cells@, i as int) && parse_index(
                                    self.cells@[i as int].value@,
                                ) == Some(v));
                            }
                        }
                        assert forall|v: u32|
                            (exists|j: int|
                                0 <= j < i + 1 && #[trigger] is_group_begin(self.cells@, j)
                                    && parse_index(self.cells@[j].value@) == Some(
                                    v,
                                )) implies #[trigger] nums@.contains(v) by {
                            let j = choose|j: int|
                                0 <= j < i + 1 && #[trigger] is_group_begin(self.cells@, j)
                                    && parse_index(self.cells@[j].value@) == Some(v);
                            if j < i {
                                assert(old_nums.contains(v));
                                let u = choose|u: int|
                                    0 <= u < old_nums.len() && old_nums[u] == v;
                                assert(nums@[u] == v);
                            } else {
                                assert(nums@[nums@.len() - 1] == v0);
                            }
                        }
                    }
                } else {
                    proof {
                        assert forall|v: u32| #[trigger] nums@.contains(v) implies exists|j: int|
                            0 <= j < i + 1 && #[trigger] is_group_begin(self.cells@, j)
                                && parse_index(self.cells@[j].value@) == Some(v) by {}
                    }
                }
            }
            i = i + 1;
        }
        proof {
            assert forall|v: u32| #[trigger] nums@.contains(v) == has_begin_num(self@, v) by {
                if nums@.contains(v) {
                    let j = choose|j: int|
                        0 <= j < n && #[trigger] is_group_begin(self.cells@, j) && parse_index(
                            self.cells@[j].value@,
                        ) == Some(v);
                    lemma_group_begin_num(self.cells@, j);
                    assert(begin_num(self@, self.cells@[j].row) == Some(v));
                }
                if has_begin_num(self@, v) {
                    let r2 = choose|r2: u32| begin_num(self@, r2) == Some(v);
                    assert(row_has_cell(self@, r2));
                    lemma_row_has_group_begin(self.cells@, r2);
                    let j = choose|j: int|
                        is_group_begin(self.cells@, j) && #[trigger] self.cells@[j].row == r2;
                    lemma_group_begin_num(self.cells@, j);
                    assert(0 <= j < n && is_group_begin(self.cells@, j) && parse_index(
                        self.cells@[j].value@,
                    ) == Some(v));
                }
            }
        }
        let mut out: Vec<u32> = Vec::new();
        let k: usize = nums.len();
        if k == 0 {
            proof {
                assert forall|v: u32| !is_gap(self@, v) by {
                    if is_gap(self@, v) {
                        let w = choose|w: u32| w < v && has_begin_num(self@, w);
                        assert(nums@.contains(w));
                    }
                }
            }
            return out;
        }
        let mut lo: u32 = nums[0];
        let mut hi: u32 = nums[0];
        let mut t: usize = 1;
        proof {
            assert(nums@.contains(nums@[0]));
        }
        while t < k
            invariant
                1 <= t <= k,
                k == nums@.len(),
                nums@.contains(lo),
                nums@.contains(hi),
                lo <= hi,
                forall|u: int| 0 <= u < t ==> lo <= #[trigger] nums@[u] <= hi,
            decreases k - t,
        {
            if nums[t] < lo {
                lo = nums[t];
            }
            if nums[t] > hi {
                hi = nums[t];
            }
            proof {
                assert(nums@.contains(nums@[t as int]));
            }
            t = t + 1;
        }
        proof {
            assert forall|v: u32| #[trigger] nums@.contains(v) implies lo <= v <= hi by {
                let u = choose|u: int| 0 <= u < nums@.len() && nums@[u] == v;
            }
        }
        if lo >= hi {
            proof {
                assert forall|v: u32| !is_gap(self@, v) by {
                    if is_gap(self@, v) {
                        let w1 = choose|w: u32| w < v && has_begin_num(self@, w);
                        let w2 = choose|w: u32| w > v && has_begin_num(self@, w);
                        assert(nums@.contains(w1));
                        assert(nums@.contains(w2));
                    }
                }
            }
            return out;
        }
        let mut v: u32 = lo + 1;
        while v < hi
            invariant
                lo < v <= hi,
                forall|u: u32|
                    #[trigger] out@.contains(u) <==> (lo < u < v && !nums@.contains(u)),
                forall|t1: int, t2: int| 0 <= t1 < t2 < out@.len() ==> out@[t1] < out@[t2],
                forall|u: int| 0 <= u < out@.len() ==> #[trigger] out@[u] < v,
            decreases hi - v,
        {
            if !contains_u32(&nums, v) {
                let ghost old_out = out@;
                out.push(v);
                proof {
                    assert forall|u: u32| #[trigger] out@.contains(u) implies (lo < u < v + 1
                        && !nums@.contains(u)) by {
                        let w = choose|w: int| 0 <= w < out@.len() && out@[w] == u;
                        if w < old_out.len() {
                            assert(old_out.contains(u));
                        }
                    }
                    assert forall|u: u32|
                        (lo < u < v + 1 && !nums@.contains(u)) implies #[trigger] out@.contains(
                        u,
                    ) by {
                        if u < v {
                            assert(old_out.contains(u));
                            let w = choose|w: int| 0 <= w < old_out.len() && old_out[w] == u;
                            assert(out@[w] == u);
                        } else {
                            assert(out@[out@.len() - 1] == v);
                        }
                    }
                }
            } else {
                proof {
                    assert forall|u: u32| #[trigger] out@.contains(u) implies (lo < u < v + 1
                        && !nums@.contains(u)) by {}
                }
            }
            v = v + 1;
        }
        proof {
            assert forall|u: u32| #[trigger] out@.contains(u) == is_gap(self@, u) by {
                if out@.contains(u) {
                    assert(has_begin_num(self@, lo) && lo < u);
                    assert(has_begin_num(self@, hi) && hi > u);
                }
                if is_gap(self@, u) {
                    let w1 = choose|w: u32| w < u && has_begin_num(self@, w);
                    let w2 = choose|w: u32| w > u && has_begin_num(self@, w);
                    assert(nums@.contains(w1));
                    assert(nums@.contains(w2));
                }
            }
            lemma_cells_one_based(self.cells@);
            assert forall|u: u32| #[trigger] out@.contains(u) implies !exists_index(
                self@,
                u,
            ) by {
                crate::laws::lemma_gaps_exclude_records(self@, u);
            }
        }
        out
    }

    /// Writes `cells` into columns 1 onward of `row_num`, overwriting
    /// what those positions held; columns past `cells` are untouched.
    pub fn set_row(&mut self, row_num: u32, cells: Vec<String>)
        requires
            cells@.len() <= u32::MAX,
        ensures
            final(self)@ == with_row_written(old(self)@, row_num, views_of(cells@)),
    {
        let ghost m0 = self@;
        let ghost vals = views_of(cells@);
        let n: usize = cells.len();
        proof {
            assert(with_row_written(m0, row_num, vals.take(0)) =~= m0);
        }
        let mut i: usize = 0;
        while i < n
            invariant
                0 <= i <= n,
                n == cells@.len(),
                n <= u32::MAX,
                vals == views_of(cells@),
                self@ == with_row_written(m0, row_num, vals.take(i as int)),
            decreases n - i,
        {
            self.set_cell((i as u32) + 1, row_num, cells[i].clone());
            proof {
                let prev = with_row_written(m0, row_num, vals.take(i as int));
                let next = with_row_written(m0, row_num, vals.take(i + 1 as int));
                assert(vals[i as int] == cells@[i as int]@);
                assert(prev.insert((((i + 1) as u32), row_num), cells@[i as int]@) =~= next);
            }
            i = i + 1;
        }
        proof {
            assert(vals.take(n as int) =~= vals);
        }
    }

    /// Physically inserts a new row at `row_num`, shifting rows at or
    /// past it down by one, and writes `cells` into it.
    pub fn insert_row(&mut self, row_num: u32, cells: Vec<String>)
        requires
            rows_below(old(self)@, u32::MAX),
            cells@.len() <= u32::MAX,
        ensures
            final(self)@ == with_row_written(
                with_blank_row_inserted(old(self)@, row_num),
                row_num,
                views_of(cells@),
            ),
    {
        self.insert_blank_row(row_num);
        self.set_row(row_num, cells);
    }
}

} // verus!
