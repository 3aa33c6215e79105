use archaeological_assistant::create_record::{apply_insert, CreateRecord};
use archaeological_assistant::grid::Grid;
use archaeological_assistant::insert_methods::{InsertMethods, InsertMethodsData};

fn build_grid(matrix: Vec<Vec<&str>>) -> Grid {
    let mut g = Grid::new();
    let mut y: u32 = 1;
    for row in matrix {
        let mut x: u32 = 1;
        for value in row {
            g.set_cell(x, y, value.to_string());
            x += 1;
        }
        y += 1;
    }
    g
}

fn strings(items: Vec<&str>) -> Vec<String> {
    items.into_iter().map(|s| s.to_string()).collect()
}

#[test]
fn test_create_end_record() {
    {
        let mut test_sheet = build_grid(vec![]);
        test_sheet.create_end_record(3, strings(vec!["test", "test2"]));
        assert_eq!(
            vec![
                vec!["1", "test", "test2"],
                vec!["2", "test", "test2"],
                vec!["3", "test", "test2"],
            ],
            test_sheet.get_string_matrix()
        );
    }
    {
        let mut test_sheet = build_grid(vec![
            vec!["1", "b", "c"],
            vec!["3", "b", "c"],
            vec!["5", "b", "c"],
        ]);
        test_sheet.create_end_record(2, strings(vec!["test", "test2"]));
        assert_eq!(
            vec![
                vec!["1", "b", "c"],
                vec!["3", "b", "c"],
                vec!["5", "b", "c"],
                vec!["6", "test", "test2"],
                vec!["7", "test", "test2"],
            ],
            test_sheet.get_string_matrix()
        );
    }
    {
        let mut test_sheet = build_grid(vec![
            vec!["", "", ""],
            vec!["1", "b", "c"],
            vec!["3", "b", "c"],
            vec!["", "", ""],
        ]);
        test_sheet.create_end_record(5, strings(vec!["test", "test2"]));
        assert_eq!(
            vec![
                vec!["", "", ""],
                vec!["1", "b", "c"],
                vec!["3", "b", "c"],
                vec!["4", "test", "test2"],
                vec!["5", "test", "test2"],
                vec!["6", "test", "test2"],
                vec!["7", "test", "test2"],
                vec!["8", "test", "test2"],
            ],
            test_sheet.get_string_matrix()
        );
    }
}

#[test]
fn test_create_start_record() {
    {
        let mut test_sheet = build_grid(vec![
            vec!["3", "b", "c"],
            vec!["4", "b", "c"],
            vec!["5", "b", "c"],
        ]);
        test_sheet.create_start_record(2, strings(vec!["test", "test2"]));
        assert_eq!(
            vec![
                vec!["1", "test", "test2"],
                vec!["2", "test", "test2"],
                vec!["3", "b", "c"],
                vec!["4", "b", "c"],
                vec!["5", "b", "c"],
            ],
            test_sheet.get_string_matrix()
        );
    }
    {
        let mut test_sheet = build_grid(vec![
            vec!["index", "name", "info"],
            vec!["", "", ""],
            vec!["4", "b", "c"],
            vec!["5", "b", "c"],
        ]);
        test_sheet.create_start_record(2, strings(vec!["test", "test2"]));
        assert_eq!(
            vec![
                vec!["index", "name", "info"],
                vec!["2", "test", "test2"],
                vec!["3", "test", "test2"],
                vec!["4", "b", "c"],
                vec!["5", "b", "c"],
            ],
            test_sheet.get_string_matrix()
        );
    }
}

#[test]
fn create_record_from_index() {
    {
        let mut test_sheet = build_grid(vec![]);
        test_sheet.create_record_from_index(4, strings(vec!["test", "test2"]));
        assert_eq!(vec![vec!["4", "test", "test2"]], test_sheet.get_string_matrix());
    }
    {
        let mut test_sheet = build_grid(vec![
            vec!["3", "b", "c"],
            vec!["4", "b", "c"],
            vec!["5", "b", "c"],
        ]);
        test_sheet.create_record_from_index(4, strings(vec!["test", "test2"]));
        assert_eq!(
            vec![
                vec!["3", "b", "c"],
                vec!["4", "test", "test2"],
                vec!["5", "b", "c"],
            ],
            test_sheet.get_string_matrix()
        );
    }
    {
        let mut test_sheet = build_grid(vec![
            vec!["2", "b", "c"],
            vec!["4", "b", "c"],
            vec!["5", "b", "c"],
        ]);
        test_sheet.create_record_from_index(3, strings(vec!["test", "test2"]));
        assert_eq!(
            vec![
                vec!["2", "b", "c"],
                vec!["3", "test", "test2"],
                vec!["4", "b", "c"],
                vec!["5", "b", "c"],
            ],
            test_sheet.get_string_matrix()
        );
    }
    {
        let mut test_sheet = build_grid(vec![
            vec!["2", "b", "c"],
            vec!["", "", ""],
            vec!["4", "b", "c"],
            vec!["5", "b", "c"],
        ]);
        test_sheet.create_record_from_index(3, strings(vec!["test", "test2"]));
        assert_eq!(
            vec![
                vec!["2", "b", "c"],
                vec!["3", "test", "test2"],
                vec!["4", "b", "c"],
                vec!["5", "b", "c"],
            ],
            test_sheet.get_string_matrix()
        );
    }
    {
        let mut test_sheet = build_grid(vec![
            vec!["2", "b", "c"],
            vec!["", "", ""],
            vec!["", "", ""],
            vec!["", "", ""],
            vec!["", "", ""],
            vec!["5", "b", "c"],
            vec!["6", "b", "c"],
        ]);
        test_sheet.create_record_from_index(4, strings(vec!["test", "test2"]));
        assert_eq!(
            vec![
                vec!["2", "b", "c"],
                vec!["", "", ""],
                vec!["4", "test", "test2"],
                vec!["", "", ""],
                vec!["", "", ""],
                vec!["5", "b", "c"],
                vec!["6", "b", "c"],
            ],
            test_sheet.get_string_matrix()
        );
    }
    {
        let mut test_sheet = build_grid(vec![
            vec!["2", "b", "c"],
            vec!["", "", ""],
            vec!["", "", ""],
            vec!["", "", ""],
            vec!["", "", ""],
            vec!["11", "b", "c"],
            vec!["12", "b", "c"],
        ]);
        test_sheet.create_record_from_index(10, strings(vec!["test", "test2"]));
        assert_eq!(
            vec![
                vec!["2", "b", "c"],
                vec!["", "", ""],
                vec!["", "", ""],
                vec!["", "", ""],
                vec!["10", "test", "test2"],
                vec!["11", "b", "c"],
                vec!["12", "b", "c"],
            ],
            test_sheet.get_string_matrix()
        );
    }
    {
        let mut test_sheet = build_grid(vec![vec!["2", "b", "c"]]);
        test_sheet.create_record_from_index(4, strings(vec!["test", "test2"]));
        assert_eq!(
            vec![vec!["2", "b", "c"], vec!["4", "test", "test2"]],
            test_sheet.get_string_matrix()
        );
    }
    {
        let mut test_sheet = build_grid(vec![vec!["2", "b", "c"]]);
        test_sheet.create_record_from_index(1, strings(vec!["test", "test2"]));
        assert_eq!(
            vec![vec!["1", "test", "test2"], vec!["2", "b", "c"]],
            test_sheet.get_string_matrix()
        );
    }
    {
        let mut test_sheet = build_grid(vec![
            vec!["", "", ""],
            vec!["", "", ""],
            vec!["", "", ""],
            vec!["5", "b", "c"],
        ]);
        test_sheet.create_record_from_index(3, strings(vec!["test", "test2"]));
        assert_eq!(
            vec![
                vec!["", "", ""],
                vec!["3", "test", "test2"],
                vec!["", "", ""],
                vec!["5", "b", "c"],
            ],
            test_sheet.get_string_matrix()
        );
    }
    {
        let mut test_sheet = build_grid(vec![
            vec!["", "", ""],
            vec!["", "", ""],
            vec!["", "", ""],
            vec!["10", "b", "c"],
        ]);
        test_sheet.create_record_from_index(4, strings(vec!["test", "test2"]));
        assert_eq!(
            vec![
                vec!["4", "test", "test2"],
                vec!["", "", ""],
                vec!["", "", ""],
                vec!["10", "b", "c"],
            ],
            test_sheet.get_string_matrix()
        );
    }
}

#[test]
fn apply_insert_follows_the_policy() {
    // The default policy appends at the end.
    let mut policy = InsertMethodsData::default();
    let mut sheet = build_grid(vec![vec!["1", "a"]]);
    apply_insert(&mut sheet, &policy, 2, strings(vec!["f"]));
    assert_eq!(
        vec![vec!["1", "a"], vec!["2", "f"], vec!["3", "f"]],
        sheet.get_string_matrix()
    );

    // A typed-in index places by the gap-aware rule.
    policy.insert_methods = InsertMethods::Input;
    policy.input = 5;
    apply_insert(&mut sheet, &policy, 1, strings(vec!["g"]));
    assert_eq!(
        vec![
            vec!["1", "a"],
            vec!["2", "f"],
            vec!["3", "f"],
            vec!["5", "g"],
        ],
        sheet.get_string_matrix()
    );
}

#[test]
fn prepend_reuses_reserved_blank_rows() {
    // Two blank rows reserved above the first record are claimed, newest
    // index nearest the record, without any physical insertion.
    let mut sheet = build_grid(vec![vec!["", ""], vec!["", ""], vec!["5", "b"]]);
    sheet.create_start_record(2, strings(vec!["test"]));
    assert_eq!(
        vec![vec!["3", "test"], vec!["4", "test"], vec!["5", "b"]],
        sheet.get_string_matrix()
    );
}

#[test]
fn append_three_after_five() {
    // Appending three records to a table ending at index 5 in row 2
    // materialises records 6, 7 and 8 in rows 3, 4 and 5, each with the
    // supplied fields.
    let mut sheet = build_grid(vec![vec!["1", "a"], vec!["5", "b"]]);
    sheet.create_end_record(3, strings(vec!["f1", "f2"]));
    assert_eq!(
        vec![
            vec!["1", "a"],
            vec!["5", "b"],
            vec!["6", "f1", "f2"],
            vec!["7", "f1", "f2"],
            vec!["8", "f1", "f2"],
        ],
        sheet.get_string_matrix()
    );
}

#[test]
fn place_at_existing_index_overwrites_in_place() {
    // An exact index match is replaced where it stands; the row count
    // does not change.
    let mut sheet = build_grid(vec![
        vec!["1", "a", "x"],
        vec!["3", "b", "y"],
        vec!["5", "c", "z"],
    ]);
    let rows_before = sheet.get_string_matrix().len();
    sheet.create_record_from_index(3, strings(vec!["new", "fields"]));
    let matrix = sheet.get_string_matrix();
    assert_eq!(rows_before, matrix.len());
    assert_eq!(
        vec![
            vec!["1", "a", "x"],
            vec!["3", "new", "fields"],
            vec!["5", "c", "z"],
        ],
        matrix
    );
}

#[test]
fn place_into_gap_with_capacity_keeps_row_count() {
    // A blank row between the anchor and the next record is consumed;
    // no physical insertion happens.
    let mut sheet = build_grid(vec![
        vec!["1", "a"],
        vec!["3", "b"],
        vec!["", ""],
        vec!["5", "c"],
    ]);
    let rows_before = sheet.get_string_matrix().len();
    sheet.create_record_from_index(4, strings(vec!["x"]));
    let matrix = sheet.get_string_matrix();
    assert_eq!(rows_before, matrix.len());
    assert_eq!(
        vec![
            vec!["1", "a"],
            vec!["3", "b"],
            vec!["4", "x"],
            vec!["5", "c"],
        ],
        matrix
    );
}

#[test]
fn place_into_gap_without_capacity_adds_one_row() {
    // With no blank row to reuse, exactly one fresh row is inserted.
    let mut sheet = build_grid(vec![vec!["1", "a"], vec!["3", "b"], vec!["5", "c"]]);
    let rows_before = sheet.get_string_matrix().len();
    sheet.create_record_from_index(4, strings(vec!["x"]));
    let matrix = sheet.get_string_matrix();
    assert_eq!(rows_before + 1, matrix.len());
    assert_eq!(
        vec![
            vec!["1", "a"],
            vec!["3", "b"],
            vec!["4", "x"],
            vec!["5", "c"],
        ],
        matrix
    );
}

#[test]
fn place_into_empty_grid_creates_single_row() {
    // With no anchor found all the way down to 1, one row is inserted
    // at the degenerate start position.
    let mut sheet = build_grid(vec![]);
    sheet.create_record_from_index(4, strings(vec!["test", "test2"]));
    assert_eq!(vec![vec!["4", "test", "test2"]], sheet.get_string_matrix());
}
