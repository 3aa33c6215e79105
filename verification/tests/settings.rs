use archaeological_assistant::insert_methods::{
    InsertMethods, InsertMethodsData, InsertMethodsMessage, StartEnd,
};
use archaeological_assistant::num::{parse_index_str, parse_plain_u32, u32_to_string};
use archaeological_assistant::settings::{
    Axis, MessageSettings, SelectTarget, Settings,
};
use archaeological_assistant::sort_cells::sort_cells;
use archaeological_assistant::grid::Grid;
use archaeological_assistant::theme::Theme;

#[test]
fn parse_index_reads_catalog_numbers() {
    assert_eq!(Some(12), parse_index_str("12"));
    assert_eq!(Some(1), parse_index_str("1."));
    assert_eq!(Some(3), parse_index_str("3.7"));
    assert_eq!(Some(4294967295), parse_index_str("4294967295"));
    assert_eq!(None, parse_index_str("4294967296"));
    assert_eq!(None, parse_index_str(""));
    assert_eq!(None, parse_index_str("abc"));
    assert_eq!(None, parse_index_str(".5"));
    assert_eq!(None, parse_index_str("1.2.3"));
}

#[test]
fn parse_plain_reads_digit_fields() {
    assert_eq!(Some(15), parse_plain_u32("15"));
    assert_eq!(Some(7), parse_plain_u32("+7"));
    assert_eq!(None, parse_plain_u32("1."));
    assert_eq!(None, parse_plain_u32(""));
    assert_eq!(None, parse_plain_u32("+"));
    assert_eq!(None, parse_plain_u32("++7"));
    assert_eq!(None, parse_plain_u32("-7"));
    assert_eq!(None, parse_plain_u32("12a"));
    assert_eq!(None, parse_plain_u32("99999999999"));
}

#[test]
fn number_rendering_round_trips() {
    for n in [0u32, 1, 9, 10, 205, 4294967295] {
        let text = u32_to_string(n);
        assert_eq!(n.to_string(), text);
        assert_eq!(Some(n), parse_index_str(&text));
    }
}

#[test]
fn sort_cells_densifies_a_sparse_row() {
    let cells = vec![
        (5usize, "five".to_string()),
        (2usize, "two".to_string()),
        (9usize, "ignored".to_string()),
    ];
    let dense = sort_cells(cells, 4, 2);
    assert_eq!(
        vec!["two".to_string(), "".to_string(), "".to_string(), "five".to_string()],
        dense
    );
}

#[test]
fn sort_cells_is_pure() {
    let cells = vec![(1usize, "a".to_string()), (3usize, "b".to_string())];
    let first = sort_cells(cells.clone(), 3, 1);
    let second = sort_cells(cells, 3, 1);
    assert_eq!(first, second);
}

#[test]
fn sort_cells_last_entry_wins() {
    let cells = vec![(1usize, "old".to_string()), (1usize, "new".to_string())];
    assert_eq!(vec!["new".to_string()], sort_cells(cells, 1, 1));
}

#[test]
fn insert_methods_update_sets_policy() {
    let mut data = InsertMethodsData::default();
    assert_eq!(InsertMethods::StartEnd, data.insert_methods);
    assert_eq!(StartEnd::End, data.start_end);

    data.update(InsertMethodsMessage::StartEnd(StartEnd::Start));
    assert_eq!(StartEnd::Start, data.start_end);

    data.update(InsertMethodsMessage::Input("7".to_string()));
    assert_eq!(7, data.input);
    assert_eq!("7", data.input_number_for_insert_methods_data.input);

    data.update(InsertMethodsMessage::Input("x7".to_string()));
    assert_eq!(7, data.input);
    assert_eq!("7", data.input_number_for_insert_methods_data.input);

    data.update(InsertMethodsMessage::Input("+9".to_string()));
    assert_eq!(9, data.input);
    assert_eq!("+9", data.input_number_for_insert_methods_data.input);

    data.update(InsertMethodsMessage::Input("".to_string()));
    assert_eq!(1, data.input);
    assert_eq!("", data.input_number_for_insert_methods_data.input);

    data.update(InsertMethodsMessage::AutoInsert(12));
    assert_eq!(12, data.auto_insert);
}

#[test]
fn settings_update_changes_one_slot() {
    let mut settings = Settings::default();
    assert_eq!("ru", settings.current_language);
    assert_eq!(4, settings.fields.len());
    assert_eq!(Theme::Dark, settings.theme);
    assert_eq!((40, 58), settings.print_settings.size);

    assert!(settings.update(MessageSettings::SetSize("41".to_string(), Axis::X)).is_none());
    assert_eq!((41, 58), settings.print_settings.size);
    assert_eq!("41", settings.print_settings.input_number.size.0);

    assert!(settings.update(MessageSettings::SetSize("".to_string(), Axis::Y)).is_none());
    assert_eq!((41, 0), settings.print_settings.size);
    assert_eq!("", settings.print_settings.input_number.size.1);

    assert!(settings.update(MessageSettings::SetHeightText("bad".to_string())).is_none());
    assert_eq!(1, settings.print_settings.height_text);

    assert!(settings.update(MessageSettings::SetTextSize("17".to_string())).is_none());
    assert_eq!(17, settings.print_settings.text_size);

    assert!(settings.update(MessageSettings::SetTheme(Theme::Nord)).is_none());
    assert_eq!(Theme::Nord, settings.theme);

    assert!(settings.update(MessageSettings::SetPathToDb("db.xlsx".to_string())).is_none());
    assert_eq!("db.xlsx", settings.path_to_db);

    assert!(settings.update(MessageSettings::SetPathToFont("f.ttf".to_string())).is_none());
    assert_eq!("f.ttf", settings.print_settings.font);

    let request = settings.update(MessageSettings::SelectDb(vec![(
        "table".to_string(),
        vec!["xlsx".to_string()],
    )]));
    match request {
        Some((target, filters)) => {
            assert_eq!(SelectTarget::Db, target);
            assert_eq!(1, filters.len());
        }
        None => panic!("a database pick was requested"),
    }
}

#[test]
fn theme_numbering_and_names() {
    let all = Theme::all();
    assert_eq!(22, all.len());
    for (i, theme) in all.iter().enumerate() {
        assert_eq!(*theme, Theme::from_id(i));
    }
    assert_eq!("Dark", Theme::Dark.name());
    assert_eq!("CatppuccinMocha", Theme::CatppuccinMocha.name());
}

#[test]
fn get_end_data_projects_the_last_record() {
    let mut g = Grid::new();
    g.set_cell(1, 1, "1".to_string());
    g.set_cell(2, 1, "a".to_string());
    g.set_cell(1, 2, "2".to_string());
    g.set_cell(2, 2, "b".to_string());
    g.set_cell(4, 2, "d".to_string());
    // Project the end line into three slots starting at column 2.
    assert_eq!(
        vec!["b".to_string(), "".to_string(), "d".to_string()],
        g.get_end_data(3, 2)
    );
}
