//! Properties of the store that hold across operations: how the start
//! and end indices relate on a well-formed catalog, and what the
//! placement rule does and does not touch.

use vstd::prelude::*;
use crate::model::{
    CellMap, anchor_value, appended_records, begin_col, begin_num, count_empty_fwd, end_index,
    end_line, exists_index, grid_has, grid_nonempty, grid_val, has_begin_num, is_begin_col,
    is_gap, is_max_row, is_min_row, is_record, is_start_cand, leading_nonempty,
    lemma_begin_col_unique, lemma_count_empty_fwd_bound, lemma_end_line_is, lemma_max_row_unique,
    lemma_min_row_unique, lemma_row_of_is, lemma_start_line_is, matches_index, max_row, min_row,
    one_based, placed_at_index, record_cells, record_index, row_has_cell, row_of, start_index,
    start_line, views_of, well_indexed, with_blank_row_inserted, with_row_written,
};
use crate::num::{lemma_parse_index_empty, lemma_parse_index_some_nonempty, lemma_parse_of_digits, parse_index, u32_digits};
use crate::sort_cells::projected_at;

verus! {

/// On a well-formed catalog with at least one record, the first
/// record's index never exceeds the last one's.
pub proof fn lemma_start_index_le_end_index(m: CellMap)
    requires
        well_indexed(m),
        exists|row: u32| is_record(m, row),
    ensures
        start_index(m) <= end_index(m),
{
    lemma_start_line_is(m);
    lemma_end_line_is(m);
    let rs = start_line(m);
    let re = end_line(m);
    if exists|r2: u32| is_start_cand(m, r2) {
        assert(is_start_cand(m, rs));
        if is_record(m, rs) {
            lemma_parse_index_some_nonempty(grid_val(m, 1, rs));
            assert(leading_nonempty(m, rs));
            assert(rs <= re);
            assert(is_record(m, re)) by {
                if !is_record(m, re) {
                    assert(leading_nonempty(m, re) || re == 0);
                    if re == 0 {
                        assert(rs == 0);
                    } else {
                        assert(re < rs);
                    }
                }
            }
            assert(start_index(m) == record_index(m, rs));
            assert(end_index(m) == record_index(m, re));
            if rs < re {
                assert(record_index(m, rs) < record_index(m, re));
            }
        } else {
            assert(start_index(m) == 0) by {
                if !grid_has(m, 1, rs) {
                    lemma_parse_index_empty();
                }
            }
        }
    } else {
        assert(rs == re);
    }
}

/// Placing a record at a catalog index that already exists overwrites
/// that record's row in place: no row is inserted, every other cell
/// keeps its place and text, and the populated rows stay the same.
pub proof fn lemma_place_exact_overwrites(m: CellMap, index: u32, data: Seq<String>)
    requires
        index >= 1,
        exists_index(m, index),
    ensures
        placed_at_index(m, index, data) == with_row_written(
            m,
            row_of(m, index),
            record_cells(index, data),
        ),
        forall|r: u32|
            #[trigger] row_has_cell(placed_at_index(m, index, data), r) <==> row_has_cell(m, r),
{
    lemma_row_of_is(m, index);
    let target = row_of(m, index);
    assert(anchor_value(m, index) == Some(index));
    let m2 = placed_at_index(m, index, data);
    assert(m2 == with_row_written(m, target, record_cells(index, data)));
    assert forall|r: u32| #[trigger] row_has_cell(m2, r) <==> row_has_cell(m, r) by {
        if row_has_cell(m2, r) {
            let c = choose|c: u32| grid_has(m2, c, r);
            if !grid_has(m, c, r) {
                assert(r == target);
                assert(grid_has(m, 1, target));
            }
        }
        if row_has_cell(m, r) {
            let c = choose|c: u32| grid_has(m, c, r);
            assert(grid_has(m2, c, r));
        }
    }
}

/// Placing into a gap while at least one blank row is available beside
/// the anchor never inserts a row: the record is written into an
/// existing row, and the least and greatest populated rows stay put.
pub proof fn lemma_place_with_capacity_keeps_rows(m: CellMap, index: u32, data: Seq<String>)
    requires
        index >= 1,
        anchor_value(m, index) is Some,
        anchor_value(m, index) != Some(index),
        count_empty_fwd(m, row_of(m, anchor_value(m, index)->Some_0), end_line(m)) > 0,
    ensures
        ({
            let v = anchor_value(m, index)->Some_0;
            let arow = row_of(m, v);
            let cap = count_empty_fwd(m, arow, end_line(m));
            let step = if index - v <= cap {
                (index - v) as nat
            } else {
                cap
            };
            placed_at_index(m, index, data) == with_row_written(
                m,
                (arow + step) as u32,
                record_cells(index, data),
            )
        }),
        grid_nonempty(placed_at_index(m, index, data)),
        min_row(placed_at_index(m, index, data)) == min_row(m),
        max_row(placed_at_index(m, index, data)) == max_row(m),
{
    let v = anchor_value(m, index)->Some_0;
    lemma_anchor_some_exists(m, index);
    lemma_row_of_is(m, v);
    let arow = row_of(m, v);
    let e = end_line(m);
    let cap = count_empty_fwd(m, arow, e);
    lemma_count_empty_fwd_bound(m, arow, e);
    let step = if index - v <= cap {
        (index - v) as nat
    } else {
        cap
    };
    assert(index != v);
    assert(1 <= step <= cap);
    assert(arow < e);
    let target = (arow + step) as u32;
    let m2 = placed_at_index(m, index, data);
    assert(m2 == with_row_written(m, target, record_cells(index, data)));
    lemma_end_line_is(m);
    assert(leading_nonempty(m, e) || e == 0);
    assert(grid_has(m, 1, e));
    assert(grid_has(m, 1, arow));
    assert(row_has_cell(m, arow));
    assert(row_has_cell(m, e));
    assert(grid_nonempty(m));
    lemma_min_max_exist(m);
    assert(is_min_row(m, min_row(m)));
    assert(is_max_row(m, max_row(m)));
    assert(min_row(m) <= arow < target < e <= max_row(m));
    assert(is_min_row(m2, min_row(m))) by {
        assert(grid_has(m2, choose|c: u32| grid_has(m, c, min_row(m)), min_row(m)));
        assert forall|r2: u32| r2 < min_row(m) implies !row_has_cell(m2, r2) by {
            if row_has_cell(m2, r2) {
                let c = choose|c: u32| grid_has(m2, c, r2);
                assert(r2 != target);
                assert(grid_has(m, c, r2));
                assert(row_has_cell(m, r2));
            }
        }
    }
    assert(is_max_row(m2, max_row(m))) by {
        assert(grid_has(m2, choose|c: u32| grid_has(m, c, max_row(m)), max_row(m)));
        assert forall|r2: u32| r2 > max_row(m) implies !row_has_cell(m2, r2) by {
            if row_has_cell(m2, r2) {
                let c = choose|c: u32| grid_has(m2, c, r2);
                assert(r2 != target);
                assert(grid_has(m, c, r2));
                assert(row_has_cell(m, r2));
            }
        }
    }
    assert(grid_nonempty(m2)) by {
        assert(row_has_cell(m2, max_row(m)));
    }
    lemma_min_row_unique(m2, min_row(m), min_row(m2));
    lemma_max_row_unique(m2, max_row(m), max_row(m2));
}

/// Placing into a gap with no blank row available always inserts one
/// fresh row: the greatest populated row moves down by exactly one and
/// the least stays put.
pub proof fn lemma_place_without_capacity_inserts(m: CellMap, index: u32, data: Seq<String>)
    requires
        index >= 1,
        anchor_value(m, index) is Some,
        anchor_value(m, index) != Some(index),
        count_empty_fwd(m, row_of(m, anchor_value(m, index)->Some_0), end_line(m)) == 0,
        max_row(m) < u32::MAX,
    ensures
        ({
            let arow = row_of(m, anchor_value(m, index)->Some_0);
            placed_at_index(m, index, data) == with_row_written(
                with_blank_row_inserted(m, (arow + 1) as u32),
                (arow + 1) as u32,
                record_cells(index, data),
            )
        }),
        grid_nonempty(placed_at_index(m, index, data)),
        min_row(placed_at_index(m, index, data)) == min_row(m),
        max_row(placed_at_index(m, index, data)) == max_row(m) + 1,
{
    let v = anchor_value(m, index)->Some_0;
    lemma_anchor_some_exists(m, index);
    lemma_row_of_is(m, v);
    let arow = row_of(m, v);
    assert(grid_has(m, 1, arow));
    assert(row_has_cell(m, arow));
    assert(grid_nonempty(m));
    lemma_min_max_exist(m);
    assert(is_min_row(m, min_row(m)));
    assert(is_max_row(m, max_row(m)));
    assert(arow <= max_row(m));
    assert(min_row(m) <= arow);
    let target = (arow + 1) as u32;
    let m2 = placed_at_index(m, index, data);
    assert(m2 == with_row_written(
        with_blank_row_inserted(m, target),
        target,
        record_cells(index, data),
    ));
    let hi2 = (max_row(m) + 1) as u32;
    assert(is_max_row(m2, hi2)) by {
        if arow == max_row(m) {
            assert(target == hi2);
            assert(record_cells(index, data).len() >= 1);
            assert(grid_has(m2, 1, hi2));
        } else {
            let c = choose|c: u32| grid_has(m, c, max_row(m));
            assert(hi2 > target);
            assert(grid_has(with_blank_row_inserted(m, target), c, hi2));
            assert(grid_has(m2, c, hi2));
        }
        assert(row_has_cell(m2, hi2));
        assert forall|r2: u32| r2 > hi2 implies !row_has_cell(m2, r2) by {
            if row_has_cell(m2, r2) {
                let c2 = choose|c2: u32| grid_has(m2, c2, r2);
                assert(r2 != target);
                assert(grid_has(with_blank_row_inserted(m, target), c2, r2));
                assert(grid_has(m, c2, (r2 - 1) as u32));
                assert(row_has_cell(m, (r2 - 1) as u32));
            }
        }
    }
    assert(is_min_row(m2, min_row(m))) by {
        let c = choose|c: u32| grid_has(m, c, min_row(m));
        assert(min_row(m) < target);
        assert(grid_has(with_blank_row_inserted(m, target), c, min_row(m)));
        assert(grid_has(m2, c, min_row(m)));
        assert forall|r2: u32| r2 < min_row(m) implies !row_has_cell(m2, r2) by {
            if row_has_cell(m2, r2) {
                let c2 = choose|c2: u32| grid_has(m2, c2, r2);
                assert(r2 != target);
                assert(grid_has(with_blank_row_inserted(m, target), c2, r2));
                assert(grid_has(m, c2, r2));
                assert(row_has_cell(m, r2));
            }
        }
    }
    assert(grid_nonempty(m2)) by {
        assert(row_has_cell(m2, hi2));
    }
    lemma_min_row_unique(m2, min_row(m), min_row(m2));
    lemma_max_row_unique(m2, hi2, max_row(m2));
}

/// On a grid whose columns are 1-based, a reported gap is never the
/// catalog index of an existing record.
pub proof fn lemma_gaps_exclude_records(m: CellMap, v: u32)
    requires
        one_based(m),
        is_gap(m, v),
    ensures
        !exists_index(m, v),
{
    if exists_index(m, v) {
        let row = choose|row: u32| matches_index(m, row, v);
        assert(is_begin_col(m, row, 1)) by {
            assert forall|c2: u32| c2 < 1 implies !grid_has(m, c2, row) by {
                assert(c2 == 0);
            }
        }
        assert(row_has_cell(m, row));
        assert(is_begin_col(m, row, begin_col(m, row)));
        lemma_begin_col_unique(m, row, 1, begin_col(m, row));
        assert(begin_num(m, row) == Some(v));
        assert(has_begin_num(m, v));
    }
}

/// Appending leaves every row at or above the append line untouched.
proof fn lemma_appended_preserves_low(
    m: CellMap,
    line: u32,
    idx: u32,
    k: nat,
    data: Seq<String>,
    c: u32,
    r: u32,
)
    requires
        r <= line,
        line + k <= u32::MAX,
    ensures
        grid_has(appended_records(m, line, idx, k, data), c, r) == grid_has(m, c, r),
        grid_has(m, c, r) ==> grid_val(appended_records(m, line, idx, k, data), c, r) == grid_val(
            m,
            c,
            r,
        ),
    decreases k,
{
    if k > 0 {
        let m1 = with_row_written(m, (line + 1) as u32, record_cells((idx + 1) as u32, data));
        lemma_appended_preserves_low(
            m1,
            (line + 1) as u32,
            (idx + 1) as u32,
            (k - 1) as nat,
            data,
            c,
            r,
        );
    }
}

/// Appending `k` records after `line` materialises, at each step `j`,
/// a record in row `line + j` whose column 1 reads as catalog index
/// `idx + j`.
pub proof fn lemma_appended_records_exist(
    m: CellMap,
    line: u32,
    idx: u32,
    k: nat,
    data: Seq<String>,
    j: nat,
)
    requires
        1 <= j <= k,
        line + k <= u32::MAX,
        idx + k <= u32::MAX,
        data.len() + 1 <= u32::MAX,
    ensures
        grid_has(appended_records(m, line, idx, k, data), 1, (line + j) as u32),
        grid_val(appended_records(m, line, idx, k, data), 1, (line + j) as u32) == u32_digits(
            (idx + j) as int,
        ),
        parse_index(
            grid_val(appended_records(m, line, idx, k, data), 1, (line + j) as u32),
        ) == Some((idx + j) as u32),
    decreases j,
{
    let cells = record_cells((idx + 1) as u32, data);
    let m1 = with_row_written(m, (line + 1) as u32, cells);
    let m2 = appended_records(m, line, idx, k, data);
    lemma_parse_of_digits((idx + j) as int);
    if j == 1 {
        let row = (line + 1) as u32;
        assert(grid_has(m1, 1, row));
        assert(grid_val(m1, 1, row) == cells[0]);
        assert(cells[0] == u32_digits((idx + 1) as int));
        lemma_appended_preserves_low(
            m1,
            (line + 1) as u32,
            (idx + 1) as u32,
            (k - 1) as nat,
            data,
            1,
            row,
        );
    } else {
        lemma_appended_records_exist(
            m1,
            (line + 1) as u32,
            (idx + 1) as u32,
            (k - 1) as nat,
            data,
            (j - 1) as nat,
        );
    }
}

/// The record appended at step `j` also carries the supplied field
/// values: field `f` stands in column `f + 2` of row `line + j`.
pub proof fn lemma_appended_records_fields(
    m: CellMap,
    line: u32,
    idx: u32,
    k: nat,
    data: Seq<String>,
    j: nat,
    f: int,
)
    requires
        1 <= j <= k,
        line + k <= u32::MAX,
        idx + k <= u32::MAX,
        data.len() + 1 <= u32::MAX,
        0 <= f < data.len(),
    ensures
        grid_has(appended_records(m, line, idx, k, data), (f + 2) as u32, (line + j) as u32),
        grid_val(appended_records(m, line, idx, k, data), (f + 2) as u32, (line + j) as u32)
            == data[f]@,
    decreases j,
{
    let cells = record_cells((idx + 1) as u32, data);
    let m1 = with_row_written(m, (line + 1) as u32, cells);
    if j == 1 {
        let row = (line + 1) as u32;
        let c = (f + 2) as u32;
        assert(1 <= c <= cells.len());
        assert(grid_has(m1, c, row));
        assert(cells[c - 1] == views_of(data)[f]);
        assert(grid_val(m1, c, row) == data[f]@);
        lemma_appended_preserves_low(
            m1,
            (line + 1) as u32,
            (idx + 1) as u32,
            (k - 1) as nat,
            data,
            c,
            row,
        );
    } else {
        lemma_appended_records_fields(
            m1,
            (line + 1) as u32,
            (idx + 1) as u32,
            (k - 1) as nat,
            data,
            (j - 1) as nat,
            f,
        );
    }
}

/// Projection is a pure function of its inputs: any two outputs that
/// meet its contract on the same inputs agree entrywise.
pub proof fn lemma_sort_cells_deterministic(
    cells: Seq<(usize, String)>,
    field_size: usize,
    offset: usize,
    r1: Seq<String>,
    r2: Seq<String>,
)
    requires
        r1.len() == field_size,
        r2.len() == field_size,
        forall|j: int| 0 <= j < field_size ==> r1[j]@ == projected_at(cells, j + offset),
        forall|j: int| 0 <= j < field_size ==> r2[j]@ == projected_at(cells, j + offset),
    ensures
        forall|j: int| 0 <= j < field_size ==> r1[j]@ == #[trigger] r2[j]@,
{
}

proof fn lemma_anchor_some_exists(m: CellMap, index: u32)
    requires
        anchor_value(m, index) is Some,
    ensures
        exists_index(m, anchor_value(m, index)->Some_0),
        anchor_value(m, index)->Some_0 <= index,
    decreases index,
{
    if exists_index(m, index) {
    } else if index <= 1 {
    } else {
        lemma_anchor_some_exists(m, (index - 1) as u32);
    }
}

proof fn lemma_min_max_exist(m: CellMap)
    requires
        grid_nonempty(m),
    ensures
        is_min_row(m, min_row(m)),
        is_max_row(m, max_row(m)),
{
    let r0 = choose|r: u32| row_has_cell(m, r);
    lemma_min_below(m, r0);
    lemma_max_above(m, r0);
}

proof fn lemma_min_below(m: CellMap, b: u32)
    requires
        row_has_cell(m, b),
    ensures
        is_min_row(m, min_row(m)),
    decreases b,
{
    if exists|r2: u32| r2 < b && row_has_cell(m, r2) {
        let r2 = choose|r2: u32| r2 < b && row_has_cell(m, r2);
        lemma_min_below(m, r2);
    } else {
        assert(is_min_row(m, b));
    }
}

proof fn lemma_max_above(m: CellMap, b: u32)
    requires
        row_has_cell(m, b),
    ensures
        is_max_row(m, max_row(m)),
    decreases u32::MAX - b,
{
    if exists|r2: u32| r2 > b && row_has_cell(m, r2) {
        let r2 = choose|r2: u32| r2 > b && row_has_cell(m, r2);
        lemma_max_above(m, r2);
    } else {
        assert(is_max_row(m, b));
    }
}

} // verus!
