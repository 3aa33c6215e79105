//! The gap-aware inserter: appending after the table's end, prepending
//! before its start, and placing a record at a chosen catalog index,
//! reusing reserved blank rows before resorting to physical insertion.

use vstd::prelude::*;
use crate::grid::Grid;
use crate::insert_methods::{InsertMethods, InsertMethodsData, StartEnd};
use crate::model::{
    CellMap, anchor_value, appended_records, end_index, end_line, exists_index, grid_has,
    is_row_of, lemma_anchor_skip, lemma_count_empty_back_bound, lemma_count_empty_fwd_bound,
    lemma_rows_below_inserted, lemma_rows_below_written, placed_at_index, prepend_step_insert,
    prepended_records, record_cells, row_of, rows_below, start_index, start_line, views_of,
    with_blank_row_inserted, with_row_written,
};
use crate::num::{u32_digits, u32_to_string};

verus! {

/// One record's row: the catalog index as decimal text, then the fields.
fn record_row(index: u32, data: &Vec<String>) -> (r: Vec<String>)
    ensures
        r@.len() == data@.len() + 1,
        views_of(r@) == record_cells(index, data@),
{
    let mut r: Vec<String> = Vec::new();
    r.push(u32_to_string(index));
    let n: usize = data.len();
    let mut t: usize = 0;
    while t < n
        invariant
            0 <= t <= n,
            n == data@.len(),
            r@.len() == t + 1,
            r@[0]@ == u32_digits(index as int),
            forall|u: int| 0 <= u < t ==> r@[u + 1]@ == #[trigger] data@[u]@,
        decreases n - t,
    {
        r.push(data[t].clone());
        t = t + 1;
    }
    proof {
        assert(views_of(r@) =~= record_cells(index, data@));
    }
    r
}

/// Record creation over a table with abstract contents: appending at
/// the end, prepending at the start, and gap-aware placement by index.
pub trait CreateRecord {
    /// The table's abstract cell contents.
    spec fn contents(&self) -> CellMap;

    /// Appends `quantity` records after the end line, with catalog
    /// indices counting on from the end index; every appended record
    /// carries the same field values.
    fn create_end_record(&mut self, quantity: u32, data: Vec<String>)
        requires
            end_line(old(self).contents()) + quantity <= u32::MAX,
            end_index(old(self).contents()) + quantity <= u32::MAX,
            data@.len() + 1 <= u32::MAX,
        ensures
            final(self).contents() == appended_records(
                old(self).contents(),
                end_line(old(self).contents()),
                end_index(old(self).contents()),
                quantity as nat,
                data@,
            ),
    ;

    /// Prepends `quantity` records before the start line, with catalog
    /// indices counting down to just below the start index; blank rows
    /// already reserved above the first record are reused before any
    /// fresh row is inserted.
    fn create_start_record(&mut self, quantity: u32, data: Vec<String>)
        requires
            quantity < start_index(old(self).contents()),
            start_line(old(self).contents()) >= 1,
            rows_below(old(self).contents(), (u32::MAX - quantity) as u32),
            data@.len() + 1 <= u32::MAX,
        ensures
            final(self).contents() == prepended_records(
                old(self).contents(),
                start_line(old(self).contents()),
                (start_index(old(self).contents()) - 1) as u32,
                quantity as nat,
                data@,
            ),
    ;

    /// Places one record at catalog index `index`: an exact match is
    /// overwritten in place; otherwise the record lands as close to its
    /// proportional position as the blank rows around the anchor allow,
    /// and a fresh row is inserted only when none is available.
    fn create_record_from_index(&mut self, index: u32, data: Vec<String>)
        requires
            index >= 1,
            rows_below(old(self).contents(), (u32::MAX - 1) as u32),
            data@.len() + 1 <= u32::MAX,
        ensures
            final(self).contents() == placed_at_index(old(self).contents(), index, data@),
    ;
}

impl CreateRecord for Grid {
    open spec fn contents(&self) -> CellMap {
        self@
    }

    /// Appends `quantity` records after the end line, with catalog
    /// indices counting on from the end index; every appended record
    /// carries the same field values.
    fn create_end_record(&mut self, quantity: u32, data: Vec<String>) {
        let line0 = self.get_end_line_index();
        let idx0 = self.get_end_index();
        let mut k: u32 = 0;
        while k < quantity
            invariant
                0 <= k <= quantity,
                line0 + quantity <= u32::MAX,
                idx0 + quantity <= u32::MAX,
                data@.len() + 1 <= u32::MAX,
                appended_records(old(self)@, line0, idx0, quantity as nat, data@)
                    == appended_records(
                    self@,
                    (line0 + k) as u32,
                    (idx0 + k) as u32,
                    (quantity - k) as nat,
                    data@,
                ),
            decreases quantity - k,
        {
            let new_data = record_row(idx0 + k + 1, &data);
            let ghost prev = self@;
            self.set_row(line0 + k + 1, new_data);
            proof {
                assert(self@ == with_row_written(
                    prev,
                    (line0 + k + 1) as u32,
                    record_cells((idx0 + k + 1) as u32, data@),
                ));
            }
            k = k + 1;
        }
    }

    /// Prepends `quantity` records before the start line, with catalog
    /// indices counting down to just below the start index; blank rows
    /// already reserved above the first record are reused before any
    /// fresh row is inserted.
    fn create_start_record(&mut self, quantity: u32, data: Vec<String>) {
        let idx0 = self.get_start_index();
        let mut line_index = self.get_start_line_index();
        proof {
            if !grid_has(self@, 1, start_line(self@)) {
                crate::num::lemma_parse_index_empty();
                assert(start_index(self@) == 0);
            }
            assert(grid_has(self@, 1, start_line(self@)));
        }
        let mut k: u32 = 0;
        while k < quantity
            invariant
                0 <= k <= quantity,
                quantity < idx0,
                line_index >= 1,
                line_index < (u32::MAX - quantity) + k,
                data@.len() + 1 <= u32::MAX,
                rows_below(self@, (u32::MAX - quantity + k) as u32),
                prepended_records(
                    old(self)@,
                    start_line(old(self)@),
                    (idx0 - 1) as u32,
                    quantity as nat,
                    data@,
                ) == prepended_records(
                    self@,
                    line_index,
                    (idx0 - 1 - k) as u32,
                    (quantity - k) as nat,
                    data@,
                ),
            decreases quantity - k,
        {
            let index = idx0 - 1 - k;
            let insert = line_index == 1 || !self.row_is_empty(line_index - 1);
            let new_data = record_row(index, &data);
            let ghost prev = self@;
            proof {
                assert(insert == prepend_step_insert(prev, line_index));
            }
            if insert {
                self.insert_row(line_index, new_data);
                proof {
                    lemma_rows_below_inserted(prev, line_index, (u32::MAX - quantity + k) as u32);
                    lemma_rows_below_written(
                        with_blank_row_inserted(prev, line_index),
                        line_index,
                        record_cells(index, data@),
                        (u32::MAX - quantity + k + 1) as u32,
                    );
                }
            } else {
                line_index = line_index - 1;
                self.set_row(line_index, new_data);
                proof {
                    lemma_rows_below_written(
                        prev,
                        line_index,
                        record_cells(index, data@),
                        (u32::MAX - quantity + k) as u32,
                    );
                    assert(rows_below(self@, (u32::MAX - quantity + k + 1) as u32));
                }
            }
            k = k + 1;
        }
    }

    /// Places one record at catalog index `index`: an exact match is
    /// overwritten in place; otherwise the record lands as close to its
    /// proportional position as the blank rows around the anchor allow,
    /// and a fresh row is inserted only when none is available.
    fn create_record_from_index(&mut self, index: u32, data: Vec<String>) {
        let new_data = record_row(index, &data);
        let mut v: u32 = index;
        let mut anchor: Option<u32> = self.get_row_index_from_index(v);
        while anchor.is_none() && v > 1
            invariant
                1 <= v <= index,
                self@ == old(self)@,
                rows_below(self@, (u32::MAX - 1) as u32),
                forall|w: u32| v < w <= index ==> !exists_index(self@, w),
                match anchor {
                    Option::None => !exists_index(self@, v),
                    Option::Some(row) => exists_index(self@, v) && is_row_of(self@, v, row) && row
                        == row_of(self@, v),
                },
            decreases v,
        {
            v = v - 1;
            anchor = self.get_row_index_from_index(v);
        }
        proof {
            lemma_anchor_skip(self@, index, v);
        }
        match anchor {
            Option::Some(anchor_row) => {
                proof {
                    assert(anchor_value(self@, index) == Some(v));
                }
                if index == v {
                    self.set_row(anchor_row, new_data);
                } else {
                    let cap = self.get_count_empty_rows(anchor_row, true);
                    proof {
                        lemma_count_empty_fwd_bound(self@, anchor_row, end_line(self@));
                        assert(grid_has(self@, 1, anchor_row));
                    }
                    if cap == 0 {
                        self.insert_row(anchor_row + 1, new_data);
                    } else {
                        let off = index - v;
                        let step = if off <= cap {
                            off
                        } else {
                            cap
                        };
                        self.set_row(anchor_row + step, new_data);
                    }
                }
            },
            Option::None => {
                proof {
                    assert(anchor_value(self@, index) is None);
                }
                let srow = self.get_start_line_index();
                let cap = self.get_count_empty_rows(srow, false);
                proof {
                    lemma_count_empty_back_bound(self@, srow);
                }
                if cap == 0 {
                    self.insert_row(srow, new_data);
                } else {
                    let off = index - 1;
                    let step = if off <= cap {
                        off
                    } else {
                        cap
                    };
                    self.set_row(srow - step, new_data);
                }
            },
        }
    }
}

/// The store's input boundary: applies the chosen placement policy to
/// the grid. Appending and prepending take `quantity`; placing by index
/// takes the typed-in or auto-suggested catalog index from the policy
/// data.
pub fn apply_insert(g: &mut Grid, m: &InsertMethodsData, quantity: u32, data: Vec<String>)
    requires
        data@.len() + 1 <= u32::MAX,
        match m.insert_methods {
            InsertMethods::StartEnd => match m.start_end {
                StartEnd::Start => quantity < start_index(old(g)@) && start_line(old(g)@) >= 1
                    && rows_below(old(g)@, (u32::MAX - quantity) as u32),
                StartEnd::End => end_line(old(g)@) + quantity <= u32::MAX && end_index(old(g)@)
                    + quantity <= u32::MAX,
            },
            InsertMethods::Input => m.input >= 1 && rows_below(old(g)@, (u32::MAX - 1) as u32),
            InsertMethods::AutoInsert => m.auto_insert >= 1 && rows_below(
                old(g)@,
                (u32::MAX - 1) as u32,
            ),
        },
    ensures
        match m.insert_methods {
            InsertMethods::StartEnd => match m.start_end {
                StartEnd::Start => final(g)@ == prepended_records(
                    old(g)@,
                    start_line(old(g)@),
                    (start_index(old(g)@) - 1) as u32,
                    quantity as nat,
                    data@,
                ),
                StartEnd::End => final(g)@ == appended_records(
                    old(g)@,
                    end_line(old(g)@),
                    end_index(old(g)@),
                    quantity as nat,
                    data@,
                ),
            },
            InsertMethods::Input => final(g)@ == placed_at_index(old(g)@, m.input, data@),
            InsertMethods::AutoInsert => final(g)@ == placed_at_index(
                old(g)@,
                m.auto_insert,
                data@,
            ),
        },
{
    match m.insert_methods {
        InsertMethods::StartEnd => match m.start_end {
            StartEnd::Start => g.create_start_record(quantity, data),
            StartEnd::End => g.create_end_record(quantity, data),
        },
        InsertMethods::Input => g.create_record_from_index(m.input, data),
        InsertMethods::AutoInsert => g.create_record_from_index(m.auto_insert, data),
    }
}

} // verus!
