use archaeological_assistant::grid::Grid;

fn make_grid(matrix: Vec<Vec<&str>>) -> Grid {
    let mut g = Grid::new();
    let mut y: u32 = 1;
    for row in matrix {
        let mut x: u32 = 1;
        for value in row {
            g.set_cell(x, y, value.to_string());
            x += 1;
        }
        y += 1;
    }
    g
}

fn row_values(row: Vec<(u32, String)>) -> Vec<String> {
    row.into_iter().map(|(_, v)| v).collect()
}

#[test]
fn get_string_matrix() {
    assert_eq!(
        vec![
            vec!["", "", ""],
            vec![],
            vec!["", "", ""],
            vec!["2", "b", "c"],
            vec!["", "b", "c"],
            vec!["", "b", "c"],
        ],
        make_grid(vec![
            vec!["", "", ""],
            vec![],
            vec!["", "", ""],
            vec!["2", "b", "c"],
            vec!["", "b", "c"],
            vec!["", "b", "c"],
        ])
        .get_string_matrix()
    );
}

#[test]
fn get_end_line_index() {
    assert_eq!(
        2,
        make_grid(vec![
            vec!["1", "b", "c"],
            vec!["2", "b", "c"],
            vec!["", "b", "c"],
            vec!["", "b", "c"],
        ])
        .get_end_line_index()
    );
    assert_eq!(
        4,
        make_grid(vec![
            vec!["", "b", "c"],
            vec!["", "b", "c"],
            vec!["1", "b", "c"],
            vec!["2", "b", "c"],
        ])
        .get_end_line_index()
    );
    assert_eq!(
        3,
        make_grid(vec![
            vec!["", "b", "c"],
            vec!["2", "b", "c"],
            vec!["1", "b", "c"],
            vec!["", "", ""],
        ])
        .get_end_line_index()
    );
    assert_eq!(
        2,
        make_grid(vec![
            vec!["", "", ""],
            vec!["index", "name", "info"],
            vec!["", "", ""],
            vec!["", "", ""],
        ])
        .get_end_line_index()
    );
}

#[test]
fn get_row() {
    let sheet = make_grid(vec![
        vec!["1", "b", "c"],
        vec!["2", "b", "c"],
        vec!["", "b", "c"],
        vec!["", "b", "c"],
    ]);

    assert_eq!(vec!["", "b", "c"], row_values(sheet.get_row(3)));
    assert_eq!(vec!["1", "b", "c"], row_values(sheet.get_row(1)));
    assert_eq!(Vec::<String>::new(), row_values(sheet.get_row(0)));
}

#[test]
fn skips() {
    assert_eq!(
        vec![2, 4],
        make_grid(vec![vec!["1", "b", "c"], vec!["3", "b", "c"], vec!["5", "b", "c"]]).skips()
    );
    assert_eq!(
        vec![2, 4],
        make_grid(vec![
            vec!["1", "b", "c"],
            vec!["", "b", "c"],
            vec!["3", "b", "c"],
            vec!["5", "b", "c"],
        ])
        .skips()
    );
    assert_eq!(
        vec![2, 4],
        make_grid(vec![
            vec!["", "b", "c"],
            vec!["1", "b", "c"],
            vec!["", "b", "c"],
            vec!["5", "b", "c"],
            vec!["3", "b", "c"],
            vec!["", "b", "c"],
        ])
        .skips()
    );
}

#[test]
fn get_start_line_index() {
    assert_eq!(
        1,
        make_grid(vec![vec!["1.", "b", "c"], vec!["3.", "b", "c"], vec!["5.", "b", "c"]])
            .get_start_line_index()
    );
    assert_eq!(
        2,
        make_grid(vec![vec!["", "", ""], vec!["3", "b", "c"], vec!["5", "b", "c"]])
            .get_start_line_index()
    );
    assert_eq!(
        3,
        make_grid(vec![
            vec!["", "", ""],
            vec!["index", "name", "info"],
            vec!["1", "b", "c"],
            vec!["2", "b", "c"],
        ])
        .get_start_line_index()
    );
}

#[test]
fn row_is_empty() {
    let sheet = make_grid(vec![
        vec!["", "", ""],
        vec!["", "name", "info"],
        vec!["1", "b", "c"],
        vec!["2", "b", "c"],
    ]);
    assert!(sheet.row_is_empty(0));
    assert!(sheet.row_is_empty(1));
    assert!(sheet.row_is_empty(2));
    assert!(!sheet.row_is_empty(3));
}

#[test]
fn get_count_empty_rows() {
    assert_eq!(
        2,
        make_grid(vec![
            vec!["1", "b", "c"],
            vec!["", "", ""],
            vec!["", "", ""],
            vec!["2", "b", "c"],
        ])
        .get_count_empty_rows(1, true)
    );
    assert_eq!(
        0,
        make_grid(vec![
            vec!["1", "b", "c"],
            vec!["", "", ""],
            vec!["", "", ""],
            vec!["2", "b", "c"],
        ])
        .get_count_empty_rows(1, false)
    );
    assert_eq!(
        0,
        make_grid(vec![
            vec!["1", "b", "c"],
            vec!["", "", ""],
            vec!["", "", ""],
            vec!["2", "b", "c"],
        ])
        .get_count_empty_rows(4, true)
    );
    assert_eq!(
        2,
        make_grid(vec![
            vec!["1", "b", "c"],
            vec!["", "", ""],
            vec!["", "", ""],
            vec!["2", "b", "c"],
        ])
        .get_count_empty_rows(4, false)
    );
}

#[test]
fn row_index_of_catalog_index() {
    let sheet = make_grid(vec![
        vec!["", "", ""],
        vec!["2", "b", "c"],
        vec!["", "", ""],
        vec!["5", "b", "c"],
    ]);
    assert_eq!(Some(2), sheet.get_row_index_from_index(2));
    assert_eq!(Some(4), sheet.get_row_index_from_index(5));
    assert_eq!(None, sheet.get_row_index_from_index(3));
}

#[test]
fn start_and_end_index() {
    let sheet = make_grid(vec![
        vec!["index", "name", "info"],
        vec!["3", "b", "c"],
        vec!["7", "b", "c"],
    ]);
    assert_eq!(3, sheet.get_start_index());
    assert_eq!(7, sheet.get_end_index());
    // The first record's index never exceeds the last one's.
    assert!(sheet.get_start_index() <= sheet.get_end_index());
}

#[test]
fn begin_and_end_cells_in_row() {
    let mut g = Grid::new();
    g.set_cell(3, 1, "left".to_string());
    g.set_cell(7, 1, "right".to_string());
    assert_eq!(Some((3, "left".to_string())), g.get_begin_cell_in_row(1));
    assert_eq!(Some((7, "right".to_string())), g.get_end_cell_in_row(1));
    assert_eq!(None, g.get_begin_cell_in_row(2));
    assert_eq!(None, g.get_end_cell_in_row(2));
}

#[test]
fn skips_of_empty_grid() {
    assert_eq!(Vec::<u32>::new(), Grid::new().skips());
}

#[test]
fn skips_never_hold_existing_indices() {
    let gaps = make_grid(vec![
        vec!["2", "b", "c"],
        vec!["", "", ""],
        vec!["7", "b", "c"],
        vec!["4", "b", "c"],
    ])
    .skips();
    assert_eq!(vec![3, 5, 6], gaps);
    for v in &gaps {
        assert!(*v != 2 && *v != 4 && *v != 7);
    }
    for w in gaps.windows(2) {
        assert!(w[0] < w[1]);
    }
}

#[test]
fn string_matrix_of_empty_grid() {
    assert_eq!(Vec::<Vec<String>>::new(), Grid::new().get_string_matrix());
}

#[test]
fn skips_of_single_record() {
    assert_eq!(Vec::<u32>::new(), make_grid(vec![vec!["3", "b"]]).skips());
}

#[test]
fn to_cells_lists_every_cell_in_order() {
    let mut g = Grid::new();
    g.set_cell(2, 3, "b".to_string());
    g.set_cell(1, 3, "a".to_string());
    g.set_cell(1, 1, "top".to_string());
    assert_eq!(
        vec![
            (1, 1, "top".to_string()),
            (1, 3, "a".to_string()),
            (2, 3, "b".to_string()),
        ],
        g.to_cells()
    );
}

#[test]
fn end_line_getters() {
    let sheet = make_grid(vec![vec!["1", "a"], vec!["2", "b"]]);
    assert_eq!(
        vec!["2", "b"],
        row_values(sheet.get_end_line())
    );
    assert_eq!(
        vec!["1", "a"],
        row_values(sheet.get_start_line())
    );
}
