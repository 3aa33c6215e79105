//! The mathematical model of a grid.
//!
//! A grid's contents are a map from (column, row) positions to cell text.
//! Rows and columns are 1-based in ordinary use; positions the map lacks
//! read as empty. The functions here define the locator queries (start
//! and end of the table, record lookup, gaps, blank-row runs) and the
//! grid transformations (writing a row, inserting a blank row) that the
//! executable grid is specified against.

use vstd::prelude::*;
use crate::num::{parse_index, u32_digits};

verus! {

/// The abstract contents of a grid.
pub type CellMap = Map<(u32, u32), Seq<char>>;

pub open spec fn grid_has(m: CellMap, col: u32, row: u32) -> bool {
    m.dom().contains((col, row))
}

pub open spec fn grid_val(m: CellMap, col: u32, row: u32) -> Seq<char> {
    m[(col, row)]
}

/// Text read at a position: absent cells read as empty.
pub open spec fn cell_text(m: CellMap, col: u32, row: u32) -> Seq<char> {
    if grid_has(m, col, row) {
        grid_val(m, col, row)
    } else {
        Seq::empty()
    }
}

pub open spec fn row_has_cell(m: CellMap, row: u32) -> bool {
    exists|c: u32| grid_has(m, c, row)
}

/// `c` is the leftmost populated column of `row`.
pub open spec fn is_begin_col(m: CellMap, row: u32, c: u32) -> bool {
    grid_has(m, c, row) && (forall|c2: u32| c2 < c ==> !grid_has(m, c2, row))
}

pub open spec fn begin_col(m: CellMap, row: u32) -> u32 {
    choose|c: u32| is_begin_col(m, row, c)
}

pub proof fn lemma_begin_col_unique(m: CellMap, row: u32, c1: u32, c2: u32)
    requires
        is_begin_col(m, row, c1),
        is_begin_col(m, row, c2),
    ensures
        c1 == c2,
{
    if c1 < c2 {
        assert(!grid_has(m, c1, row));
    }
    if c2 < c1 {
        assert(!grid_has(m, c2, row));
    }
}

/// A row is empty when its leading cell is absent or blank.
pub open spec fn row_empty(m: CellMap, row: u32) -> bool {
    !row_has_cell(m, row) || grid_val(m, begin_col(m, row), row).len() == 0
}

/// Column 1 of the row holds some text.
pub open spec fn leading_nonempty(m: CellMap, row: u32) -> bool {
    grid_has(m, 1, row) && grid_val(m, 1, row).len() > 0
}

/// `r` is the last row whose column 1 holds text, or 0 when none does.
pub open spec fn is_end_line(m: CellMap, r: u32) -> bool {
    (leading_nonempty(m, r) || r == 0) && (forall|r2: u32| leading_nonempty(m, r2) ==> r2 <= r)
}

pub open spec fn end_line(m: CellMap) -> u32 {
    choose|r: u32| is_end_line(m, r)
}

pub proof fn lemma_end_line_unique(m: CellMap, r1: u32, r2: u32)
    requires
        is_end_line(m, r1),
        is_end_line(m, r2),
    ensures
        r1 == r2,
{
    if r1 < r2 {
        assert(leading_nonempty(m, r2));
        assert(r2 <= r1);
    }
    if r2 < r1 {
        assert(leading_nonempty(m, r1));
        assert(r1 <= r2);
    }
}

proof fn lemma_end_line_exists_below(m: CellMap, b: u32)
    requires
        forall|r2: u32| leading_nonempty(m, r2) ==> r2 <= b,
    ensures
        exists|r: u32| is_end_line(m, r),
    decreases b,
{
    if leading_nonempty(m, b) || b == 0 {
        assert(is_end_line(m, b));
    } else {
        assert forall|r2: u32| leading_nonempty(m, r2) implies r2 <= (b - 1) as u32 by {
            assert(r2 <= b && r2 != b);
        }
        lemma_end_line_exists_below(m, (b - 1) as u32);
    }
}

pub proof fn lemma_end_line_is(m: CellMap)
    ensures
        is_end_line(m, end_line(m)),
{
    lemma_end_line_exists_below(m, u32::MAX);
}

/// The numeric reading of a row's leading (leftmost) cell.
pub open spec fn begin_num(m: CellMap, row: u32) -> Option<u32> {
    if row_has_cell(m, row) {
        parse_index(grid_val(m, begin_col(m, row), row))
    } else {
        None
    }
}

/// A row that can start the table: populated, numeric leading cell.
pub open spec fn is_start_cand(m: CellMap, row: u32) -> bool {
    begin_num(m, row) is Some
}

/// `r` is the first row with a numeric leading cell; with none, the end
/// line stands in.
pub open spec fn is_start_line(m: CellMap, r: u32) -> bool {
    if exists|r2: u32| is_start_cand(m, r2) {
        is_start_cand(m, r) && (forall|r2: u32| r2 < r ==> !is_start_cand(m, r2))
    } else {
        r == end_line(m)
    }
}

pub open spec fn start_line(m: CellMap) -> u32 {
    choose|r: u32| is_start_line(m, r)
}

pub proof fn lemma_start_line_unique(m: CellMap, r1: u32, r2: u32)
    requires
        is_start_line(m, r1),
        is_start_line(m, r2),
    ensures
        r1 == r2,
{
    if exists|r0: u32| is_start_cand(m, r0) {
        if r1 < r2 {
            assert(!is_start_cand(m, r1));
        }
        if r2 < r1 {
            assert(!is_start_cand(m, r2));
        }
    }
}

proof fn lemma_start_cand_min(m: CellMap, b: u32)
    requires
        is_start_cand(m, b),
    ensures
        exists|r: u32| is_start_cand(m, r) && (forall|r2: u32| r2 < r ==> !is_start_cand(m, r2)),
    decreases b,
{
    if exists|r2: u32| r2 < b && is_start_cand(m, r2) {
        let r2 = choose|r2: u32| r2 < b && is_start_cand(m, r2);
        lemma_start_cand_min(m, r2);
    } else {
        assert(is_start_cand(m, b) && (forall|r2: u32| r2 < b ==> !is_start_cand(m, r2)));
    }
}

pub proof fn lemma_start_line_is(m: CellMap)
    ensures
        is_start_line(m, start_line(m)),
{
    if exists|r2: u32| is_start_cand(m, r2) {
        let b = choose|r2: u32| is_start_cand(m, r2);
        lemma_start_cand_min(m, b);
        let r = choose|r: u32|
            is_start_cand(m, r) && (forall|r2: u32| r2 < r ==> !is_start_cand(m, r2));
        assert(is_start_line(m, r));
    } else {
        assert(is_start_line(m, end_line(m)));
    }
}

pub open spec fn or_zero(v: Option<u32>) -> u32 {
    match v {
        Some(n) => n,
        None => 0,
    }
}

/// The catalog index read at column 1 of a row, defaulting to 0.
pub open spec fn index_at(m: CellMap, row: u32) -> u32 {
    or_zero(parse_index(cell_text(m, 1, row)))
}

pub open spec fn end_index(m: CellMap) -> u32 {
    index_at(m, end_line(m))
}

pub open spec fn start_index(m: CellMap) -> u32 {
    index_at(m, start_line(m))
}

/// The row holds a record: its column 1 reads as a catalog index.
pub open spec fn is_record(m: CellMap, row: u32) -> bool {
    grid_has(m, 1, row) && parse_index(grid_val(m, 1, row)) is Some
}

/// The catalog index of a record row.
pub open spec fn record_index(m: CellMap, row: u32) -> u32 {
    or_zero(parse_index(grid_val(m, 1, row)))
}

/// The catalog invariants of a well-formed grid: record indices grow
/// strictly down the rows, and a row whose column 1 holds non-numeric
/// text is a header standing before every record.
pub open spec fn well_indexed(m: CellMap) -> bool {
    &&& forall|r1: u32, r2: u32|
        r1 < r2 && #[trigger] is_record(m, r1) && #[trigger] is_record(m, r2) ==> record_index(
            m,
            r1,
        ) < record_index(m, r2)
    &&& forall|row: u32, r2: u32|
        #[trigger] leading_nonempty(m, row) && !is_record(m, row) && #[trigger] is_record(m, r2)
            ==> row < r2
}

/// Row `row` holds the record with catalog index `v`.
pub open spec fn matches_index(m: CellMap, row: u32, v: u32) -> bool {
    grid_has(m, 1, row) && parse_index(grid_val(m, 1, row)) == Some(v)
}

pub open spec fn exists_index(m: CellMap, v: u32) -> bool {
    exists|row: u32| matches_index(m, row, v)
}

/// `row` is the first row holding catalog index `v`.
pub open spec fn is_row_of(m: CellMap, v: u32, row: u32) -> bool {
    matches_index(m, row, v) && (forall|r2: u32| r2 < row ==> !matches_index(m, r2, v))
}

pub open spec fn row_of(m: CellMap, v: u32) -> u32 {
    choose|row: u32| is_row_of(m, v, row)
}

pub proof fn lemma_row_of_unique(m: CellMap, v: u32, r1: u32, r2: u32)
    requires
        is_row_of(m, v, r1),
        is_row_of(m, v, r2),
    ensures
        r1 == r2,
{
    if r1 < r2 {
        assert(!matches_index(m, r1, v));
    }
    if r2 < r1 {
        assert(!matches_index(m, r2, v));
    }
}

proof fn lemma_row_of_min(m: CellMap, v: u32, b: u32)
    requires
        matches_index(m, b, v),
    ensures
        exists|row: u32| is_row_of(m, v, row),
    decreases b,
{
    if exists|r2: u32| r2 < b && matches_index(m, r2, v) {
        let r2 = choose|r2: u32| r2 < b && matches_index(m, r2, v);
        lemma_row_of_min(m, v, r2);
    } else {
        assert(is_row_of(m, v, b));
    }
}

pub proof fn lemma_row_of_is(m: CellMap, v: u32)
    requires
        exists_index(m, v),
    ensures
        is_row_of(m, v, row_of(m, v)),
{
    let b = choose|row: u32| matches_index(m, row, v);
    lemma_row_of_min(m, v, b);
}

/// Count of consecutive blank rows after `from`, strictly before `end`.
pub open spec fn count_empty_fwd(m: CellMap, from: u32, end: u32) -> nat
    decreases end - from,
{
    if from + 1 >= end {
        0
    } else if row_empty(m, (from + 1) as u32) {
        1 + count_empty_fwd(m, (from + 1) as u32, end)
    } else {
        0
    }
}

/// Count of consecutive blank rows before `from`, down to row 1.
pub open spec fn count_empty_back(m: CellMap, from: u32) -> nat
    decreases from,
{
    if from <= 1 {
        0
    } else if row_empty(m, (from - 1) as u32) {
        1 + count_empty_back(m, (from - 1) as u32)
    } else {
        0
    }
}

pub proof fn lemma_count_empty_fwd_bound(m: CellMap, from: u32, end: u32)
    ensures
        from < end ==> count_empty_fwd(m, from, end) <= end - from - 1,
        from >= end ==> count_empty_fwd(m, from, end) == 0,
    decreases end - from,
{
    if from + 1 < end {
        lemma_count_empty_fwd_bound(m, (from + 1) as u32, end);
    }
}

pub proof fn lemma_count_empty_back_bound(m: CellMap, from: u32)
    ensures
        count_empty_back(m, from) <= (if from >= 1 { (from - 1) as int } else { 0 }),
    decreases from,
{
    if from > 1 {
        lemma_count_empty_back_bound(m, (from - 1) as u32);
    }
}

/// The consecutive blank rows after `from` number exactly `cnt`: each of
/// them is empty, stays strictly before `end`, and the run stops there.
pub proof fn lemma_count_empty_fwd_run(m: CellMap, from: u32, end: u32, cnt: u32)
    requires
        from + cnt <= u32::MAX,
        forall|r: u32| from < r <= from + cnt ==> #[trigger] row_empty(m, r) && r < end,
        from + cnt + 1 >= end || !row_empty(m, (from + cnt + 1) as u32),
    ensures
        count_empty_fwd(m, from, end) == cnt,
    decreases cnt,
{
    if from + 1 >= end {
        if cnt > 0 {
            let r1: u32 = (from + 1) as u32;
            assert(from < r1 <= from + cnt);
            assert(row_empty(m, r1));
            assert(r1 < end);
        }
    } else if cnt == 0 {
        assert(!row_empty(m, (from + 1) as u32));
    } else {
        assert(row_empty(m, (from + 1) as u32));
        lemma_count_empty_fwd_run(m, (from + 1) as u32, end, (cnt - 1) as u32);
    }
}

/// The consecutive blank rows before `from`, down to row 1, number
/// exactly `cnt`.
pub proof fn lemma_count_empty_back_run(m: CellMap, from: u32, cnt: u32)
    requires
        cnt <= from,
        forall|r: u32| from - cnt <= r < from ==> #[trigger] row_empty(m, r) && r >= 1,
        from - cnt <= 1 || !row_empty(m, (from - cnt - 1) as u32),
    ensures
        count_empty_back(m, from) == cnt,
    decreases cnt,
{
    if from <= 1 {
        if cnt > 0 {
            let r1: u32 = (from - 1) as u32;
            assert(from - cnt <= r1 < from);
            assert(row_empty(m, r1) && r1 >= 1);
        }
    } else if cnt == 0 {
        assert(!row_empty(m, (from - 1) as u32));
    } else {
        assert(row_empty(m, (from - 1) as u32));
        lemma_count_empty_back_run(m, (from - 1) as u32, (cnt - 1) as u32);
    }
}

/// Some row's leading cell reads as the number `v`.
pub open spec fn has_begin_num(m: CellMap, v: u32) -> bool {
    exists|row: u32| begin_num(m, row) == Some(v)
}

/// A catalog index missing strictly between the least and greatest
/// leading numbers of the grid.
pub open spec fn is_gap(m: CellMap, v: u32) -> bool {
    &&& exists|w: u32| w < v && has_begin_num(m, w)
    &&& exists|w: u32| w > v && has_begin_num(m, w)
    &&& !has_begin_num(m, v)
}

/// `items` lists exactly the populated cells of `row`, each with its
/// text, ordered by ascending column.
pub open spec fn is_row_repr(m: CellMap, row: u32, items: Seq<(u32, String)>) -> bool {
    &&& forall|t: int|
        0 <= t < items.len() ==> grid_has(m, #[trigger] items[t].0, row) && items[t].1@
            == grid_val(m, items[t].0, row)
    &&& forall|t1: int, t2: int| 0 <= t1 < t2 < items.len() ==> items[t1].0 < items[t2].0
    &&& forall|c: u32|
        grid_has(m, c, row) ==> exists|t: int|
            #![trigger items[t]]
            0 <= t < items.len() && items[t].0 == c
}

/// `vals` is the text of the populated cells of `row`, by column order.
pub open spec fn is_row_strings(m: CellMap, row: u32, vals: Seq<String>) -> bool {
    exists|items: Seq<(u32, String)>|
        is_row_repr(m, row, items) && vals.len() == items.len() && (forall|t: int|
            0 <= t < vals.len() ==> vals[t]@ == #[trigger] items[t].1@)
}

pub open spec fn grid_nonempty(m: CellMap) -> bool {
    exists|r: u32| row_has_cell(m, r)
}

pub open spec fn is_min_row(m: CellMap, r: u32) -> bool {
    row_has_cell(m, r) && (forall|r2: u32| r2 < r ==> !row_has_cell(m, r2))
}

pub open spec fn is_max_row(m: CellMap, r: u32) -> bool {
    row_has_cell(m, r) && (forall|r2: u32| r2 > r ==> !row_has_cell(m, r2))
}

pub open spec fn min_row(m: CellMap) -> u32 {
    choose|r: u32| is_min_row(m, r)
}

pub open spec fn max_row(m: CellMap) -> u32 {
    choose|r: u32| is_max_row(m, r)
}

pub proof fn lemma_min_row_unique(m: CellMap, r1: u32, r2: u32)
    requires
        is_min_row(m, r1),
        is_min_row(m, r2),
    ensures
        r1 == r2,
{
    if r1 < r2 {
        assert(!row_has_cell(m, r1));
    }
    if r2 < r1 {
        assert(!row_has_cell(m, r2));
    }
}

pub proof fn lemma_max_row_unique(m: CellMap, r1: u32, r2: u32)
    requires
        is_max_row(m, r1),
        is_max_row(m, r2),
    ensures
        r1 == r2,
{
    if r1 < r2 {
        assert(!row_has_cell(m, r2));
    }
    if r2 < r1 {
        assert(!row_has_cell(m, r1));
    }
}

/// The grid after the texts `vals` are written into `row`, columns
/// 1 through `vals.len()`; other cells keep their place and text.
pub open spec fn with_row_written(m: CellMap, row: u32, vals: Seq<Seq<char>>) -> CellMap {
    Map::new(
        |k: (u32, u32)| m.dom().contains(k) || (k.1 == row && 1 <= k.0 && k.0 <= vals.len()),
        |k: (u32, u32)|
            if k.1 == row && 1 <= k.0 && k.0 <= vals.len() {
                vals[k.0 - 1]
            } else {
                m[k]
            },
    )
}

/// The grid after a blank row is inserted at `row`: every cell at or
/// below `row` moves down one row.
pub open spec fn with_blank_row_inserted(m: CellMap, row: u32) -> CellMap {
    Map::new(
        |k: (u32, u32)|
            if k.1 < row {
                m.dom().contains(k)
            } else if k.1 == row {
                false
            } else {
                m.dom().contains((k.0, (k.1 - 1) as u32))
            },
        |k: (u32, u32)|
            if k.1 < row {
                m[k]
            } else {
                m[(k.0, (k.1 - 1) as u32)]
            },
    )
}

pub open spec fn views_of(ss: Seq<String>) -> Seq<Seq<char>> {
    ss.map_values(|s: String| s@)
}

/// The cell texts of one record: the index rendered as decimal text,
/// then the field values.
pub open spec fn record_cells(index: u32, data: Seq<String>) -> Seq<Seq<char>> {
    seq![u32_digits(index as int)] + views_of(data)
}

/// Columns are 1-based: no cell sits in a zeroth column.
pub open spec fn one_based(m: CellMap) -> bool {
    forall|row: u32| !grid_has(m, 0, row)
}

/// Every populated row lies strictly below `bound`.
pub open spec fn rows_below(m: CellMap, bound: u32) -> bool {
    forall|c: u32, r: u32| grid_has(m, c, r) ==> r < bound
}

pub proof fn lemma_rows_below_written(m: CellMap, row: u32, vals: Seq<Seq<char>>, b: u32)
    requires
        rows_below(m, b),
        row < b,
    ensures
        rows_below(with_row_written(m, row, vals), b),
{
    let m2 = with_row_written(m, row, vals);
    assert forall|c: u32, r: u32| grid_has(m2, c, r) implies r < b by {
        if r != row {
            assert(grid_has(m, c, r));
        }
    }
}

pub proof fn lemma_rows_below_inserted(m: CellMap, row: u32, b: u32)
    requires
        rows_below(m, b),
        b < u32::MAX,
    ensures
        rows_below(with_blank_row_inserted(m, row), (b + 1) as u32),
{
    let m2 = with_blank_row_inserted(m, row);
    assert forall|c: u32, r: u32| grid_has(m2, c, r) implies r < b + 1 by {
        if r < row {
            assert(grid_has(m, c, r));
        } else if r > row {
            assert(grid_has(m, c, (r - 1) as u32));
        }
    }
}

/// Searching down from `index`, every value above `v` missing means the
/// anchor below `index` is the anchor below `v`.
pub proof fn lemma_anchor_skip(m: CellMap, index: u32, v: u32)
    requires
        1 <= v <= index,
        forall|w: u32| v < w <= index ==> !exists_index(m, w),
    ensures
        anchor_value(m, index) == anchor_value(m, v),
    decreases index - v,
{
    if v < index {
        assert(!exists_index(m, index));
        lemma_anchor_skip(m, (index - 1) as u32, v);
    }
}

/// The grid after `k` records are appended after line `line`, with
/// indices counting up from `idx`, all sharing the field values `data`.
pub open spec fn appended_records(m: CellMap, line: u32, idx: u32, k: nat, data: Seq<String>) -> CellMap
    decreases k,
{
    if k == 0 {
        m
    } else {
        appended_records(
            with_row_written(m, (line + 1) as u32, record_cells((idx + 1) as u32, data)),
            (line + 1) as u32,
            (idx + 1) as u32,
            (k - 1) as nat,
            data,
        )
    }
}

/// In a prepend step the cursor row's upper neighbour decides: at the
/// top, or below a populated row, a fresh row is inserted; otherwise the
/// blank row above is reused.
pub open spec fn prepend_step_insert(m: CellMap, cursor: u32) -> bool {
    cursor == 1 || !row_empty(m, (cursor - 1) as u32)
}

/// The grid after `k` records are placed before the cursor row, with
/// indices counting down from `idx`.
pub open spec fn prepended_records(m: CellMap, cursor: u32, idx: u32, k: nat, data: Seq<String>) -> CellMap
    decreases k,
{
    if k == 0 {
        m
    } else if prepend_step_insert(m, cursor) {
        prepended_records(
            with_row_written(with_blank_row_inserted(m, cursor), cursor, record_cells(idx, data)),
            cursor,
            (idx - 1) as u32,
            (k - 1) as nat,
            data,
        )
    } else {
        prepended_records(
            with_row_written(m, (cursor - 1) as u32, record_cells(idx, data)),
            (cursor - 1) as u32,
            (idx - 1) as u32,
            (k - 1) as nat,
            data,
        )
    }
}

/// The nearest existing catalog index at or below `v`.
pub open spec fn anchor_value(m: CellMap, v: u32) -> Option<u32>
    decreases v,
{
    if exists_index(m, v) {
        Some(v)
    } else if v <= 1 {
        None
    } else {
        anchor_value(m, (v - 1) as u32)
    }
}

/// The grid after one record with catalog index `index` is placed by the
/// gap-aware rule: overwrite an exact match in place; otherwise step away
/// from the anchor through reusable blank rows, clamped to their number,
/// and insert a fresh row only when no blank row is available.
pub open spec fn placed_at_index(m: CellMap, index: u32, data: Seq<String>) -> CellMap {
    let cells = record_cells(index, data);
    match anchor_value(m, index) {
        Some(v) => {
            let arow = row_of(m, v);
            if index == v {
                with_row_written(m, arow, cells)
            } else {
                let cap = count_empty_fwd(m, arow, end_line(m));
                if cap == 0 {
                    with_row_written(
                        with_blank_row_inserted(m, (arow + 1) as u32),
                        (arow + 1) as u32,
                        cells,
                    )
                } else {
                    let step = if index - v <= cap { (index - v) as nat } else { cap };
                    with_row_written(m, (arow + step) as u32, cells)
                }
            }
        },
        None => {
            let srow = start_line(m);
            let cap = count_empty_back(m, srow);
            if cap == 0 {
                with_row_written(with_blank_row_inserted(m, srow), srow, cells)
            } else {
                let step = if index - 1 <= cap { (index - 1) as nat } else { cap };
                with_row_written(m, (srow - step) as u32, cells)
            }
        },
    }
}

} // verus!
