//! The session's configuration: the catalog's field layout, where the
//! grid document lives, the print layout, the theme, and the placement
//! policy. File dialogs and persistence belong to the surrounding
//! application; this module owns the state and how messages change it.

use vstd::prelude::*;
use crate::insert_methods::InsertMethodsData;
use crate::num::{parse_plain, parse_plain_u32};
use crate::print_settings::PrintSettings;
use crate::theme::Theme;

verus! {

#[derive(Clone, Copy, Debug, Eq, PartialEq, Structural)]
pub enum Axis {
    X,
    Y,
}

pub enum FieldType {
    Text,
}

/// One free-text field of the catalog, by name.
pub struct Field {
    pub field_type: FieldType,
    pub name: String,
}

/// Which file the surrounding application should ask the user for.
#[derive(Clone, Copy, Debug, Eq, PartialEq, Structural)]
pub enum SelectTarget {
    Db,
    Font,
}

/// A configuration change. The two `Select` messages carry the dialog
/// filters as (type name, extensions) pairs; answering them is the
/// surrounding application's job.
pub enum MessageSettings {
    SelectDb(Vec<(String, Vec<String>)>),
    SelectFont(Vec<(String, Vec<String>)>),
    SetPathToDb(String),
    SetPathToFont(String),
    SetSize(String, Axis),
    SetSizeImage(String, Axis),
    SetPositionImage(String, Axis),
    SetHeightText(String),
    SetTextSize(String),
    SetTheme(Theme),
}

pub struct Settings {
    pub current_language: String,
    pub fields: Vec<Field>,
    pub path_to_db: String,
    pub print_settings: PrintSettings,
    pub theme: Theme,
    pub insert_methods_data: InsertMethodsData,
}

impl Field {
    pub fn new(field_type: FieldType, name: String) -> (r: Self)
        ensures
            r.field_type == field_type,
            r.name == name,
    {
        Field { field_type, name }
    }
}

/// How a numeric settings field takes new text: cleared text resets the
/// number to 0, numeric text (an optional plus sign, then digits) is
/// adopted, anything else changes nothing.
pub open spec fn number_setting_updated(
    s: Seq<char>,
    input0: Seq<char>,
    num0: u32,
    input1: Seq<char>,
    num1: u32,
) -> bool {
    if s.len() == 0 {
        input1 == Seq::<char>::empty() && num1 == 0
    } else {
        match parse_plain(s) {
            Some(n) => input1 == s && num1 == n,
            None => input1 == input0 && num1 == num0,
        }
    }
}

/// The same, applied to one axis of an (x, y) pair; the other axis is
/// untouched.
pub open spec fn coord_setting_updated(
    s: Seq<char>,
    axis: Axis,
    input0: (String, String),
    num0: (u32, u32),
    input1: (String, String),
    num1: (u32, u32),
) -> bool {
    match axis {
        Axis::X => number_setting_updated(s, input0.0@, num0.0, input1.0@, num1.0) && input1.1@
            == input0.1@ && num1.1 == num0.1,
        Axis::Y => number_setting_updated(s, input0.1@, num0.1, input1.1@, num1.1) && input1.0@
            == input0.0@ && num1.0 == num0.0,
    }
}

/// The parts of the settings left alone by print-layout messages.
pub open spec fn same_but_print(a: Settings, b: Settings) -> bool {
    &&& b.current_language == a.current_language
    &&& b.fields == a.fields
    &&& b.path_to_db == a.path_to_db
    &&& b.theme == a.theme
    &&& b.insert_methods_data == a.insert_methods_data
}

/// The parts of the print layout left alone by a message that touches
/// only the named slot.
pub open spec fn print_frame(
    a: PrintSettings,
    b: PrintSettings,
    font: bool,
    size: bool,
    size_image: bool,
    pos_image: bool,
    height_text: bool,
    text_size: bool,
) -> bool {
    &&& (font || b.font == a.font)
    &&& (size || (b.size == a.size && b.input_number.size == a.input_number.size))
    &&& (size_image || (b.size_image == a.size_image && b.input_number.size_image
        == a.input_number.size_image))
    &&& (pos_image || (b.pos_image == a.pos_image && b.input_number.pos_image
        == a.input_number.pos_image))
    &&& (height_text || (b.height_text == a.height_text && b.input_number.height_text
        == a.input_number.height_text))
    &&& (text_size || (b.text_size == a.text_size && b.input_number.text_size
        == a.input_number.text_size))
}

impl Settings {
    /// Takes new text for a numeric field whose cleared default is 0.
    pub fn set_number_settings(s: &String, input: &mut String, num: &mut u32)
        ensures
            number_setting_updated(s@, old(input)@, *old(num), final(input)@, *final(num)),
    {
        if s.as_str().is_empty() {
            *input = String::new();
            *num = 0;
        } else {
            match parse_plain_u32(s.as_str()) {
                Option::Some(new_num) => {
                    *input = s.clone();
                    *num = new_num;
                },
                Option::None => {},
            }
        }
    }

    /// Takes new text for one axis of an (x, y) numeric pair.
    pub fn set_number_with_coordinate_settings(
        s: &String,
        input: &mut (String, String),
        num: &mut (u32, u32),
        axis: Axis,
    )
        ensures
            coord_setting_updated(s@, axis, *old(input), *old(num), *final(input), *final(num)),
    {
        match axis {
            Axis::X => Self::set_number_settings(s, &mut input.0, &mut num.0),
            Axis::Y => Self::set_number_settings(s, &mut input.1, &mut num.1),
        }
    }

    /// Applies one configuration message. A `Select` message changes
    /// nothing here: it returns which file dialog the caller must show,
    /// with its filters; the caller answers with a `SetPathTo` message.
    pub fn update(&mut self, message: MessageSettings) -> (r: Option<
        (SelectTarget, Vec<(String, Vec<String>)>),
    >)
        ensures
            match message {
                MessageSettings::SelectDb(f) => *final(self) == *old(self) && r == Some(
                    (SelectTarget::Db, f),
                ),
                MessageSettings::SelectFont(f) => *final(self) == *old(self) && r == Some(
                    (SelectTarget::Font, f),
                ),
                MessageSettings::SetPathToDb(p) => r is None && final(self).path_to_db == p
                    && final(self).current_language == old(self).current_language && final(self).fields == old(self).fields && final(self).print_settings
                    == old(self).print_settings && final(self).theme == old(self).theme && final(self).insert_methods_data == old(self).insert_methods_data,
                MessageSettings::SetPathToFont(p) => r is None && final(self).print_settings.font
                    == p && same_but_print(*old(self), *final(self)) && print_frame(
                    old(self).print_settings,
                    final(self).print_settings,
                    true,
                    false,
                    false,
                    false,
                    false,
                    false,
                ),
                MessageSettings::SetSize(s, axis) => r is None && same_but_print(
                    *old(self),
                    *final(self),
                ) && print_frame(
                    old(self).print_settings,
                    final(self).print_settings,
                    false,
                    true,
                    false,
                    false,
                    false,
                    false,
                ) && coord_setting_updated(
                    s@,
                    axis,
                    old(self).print_settings.input_number.size,
                    old(self).print_settings.size,
                    final(self).print_settings.input_number.size,
                    final(self).print_settings.size,
                ),
                MessageSettings::SetSizeImage(s, axis) => r is None && same_but_print(
                    *old(self),
                    *final(self),
                ) && print_frame(
                    old(self).print_settings,
                    final(self).print_settings,
                    false,
                    false,
                    true,
                    false,
                    false,
                    false,
                ) && coord_setting_updated(
                    s@,
                    axis,
                    old(self).print_settings.input_number.size_image,
                    old(self).print_settings.size_image,
                    final(self).print_settings.input_number.size_image,
                    final(self).print_settings.size_image,
                ),
                MessageSettings::SetPositionImage(s, axis) => r is None && same_but_print(
                    *old(self),
                    *final(self),
                ) && print_frame(
                    old(self).print_settings,
                    final(self).print_settings,
                    false,
                    false,
                    false,
                    true,
                    false,
                    false,
                ) && coord_setting_updated(
                    s@,
                    axis,
                    old(self).print_settings.input_number.pos_image,
                    old(self).print_settings.pos_image,
                    final(self).print_settings.input_number.pos_image,
                    final(self).print_settings.pos_image,
                ),
                MessageSettings::SetHeightText(s) => r is None && same_but_print(
                    *old(self),
                    *final(self),
                ) && print_frame(
                    old(self).print_settings,
                    final(self).print_settings,
                    false,
                    false,
                    false,
                    false,
                    true,
                    false,
                ) && number_setting_updated(
                    s@,
                    old(self).print_settings.input_number.height_text@,
                    old(self).print_settings.height_text,
                    final(self).print_settings.input_number.height_text@,
                    final(self).print_settings.height_text,
                ),
                MessageSettings::SetTextSize(s) => r is None && same_but_print(
                    *old(self),
                    *final(self),
                ) && print_frame(
                    old(self).print_settings,
                    final(self).print_settings,
                    false,
                    false,
                    false,
                    false,
                    false,
                    true,
                ) && number_setting_updated(
                    s@,
                    old(self).print_settings.input_number.text_size@,
                    old(self).print_settings.text_size,
                    final(self).print_settings.input_number.text_size@,
                    final(self).print_settings.text_size,
                ),
                MessageSettings::SetTheme(t) => r is None && final(self).theme == t && final(self).current_language == old(self).current_language && final(self).fields == old(self).fields && final(self).path_to_db == old(self).path_to_db && final(self).print_settings == old(self).print_settings && final(self).insert_methods_data
                    == old(self).insert_methods_data,
            },
    {
        match message {
            MessageSettings::SelectDb(file_types) => Some((SelectTarget::Db, file_types)),
            MessageSettings::SelectFont(file_types) => Some((SelectTarget::Font, file_types)),
            MessageSettings::SetPathToDb(path_str) => {
                self.path_to_db = path_str;
                None
            },
            MessageSettings::SetPathToFont(path_str) => {
                self.print_settings.font = path_str;
                None
            },
            MessageSettings::SetSize(size, axis) => {
                Self::set_number_with_coordinate_settings(
                    &size,
                    &mut self.print_settings.input_number.size,
                    &mut self.print_settings.size,
                    axis,
                );
                None
            },
            MessageSettings::SetSizeImage(size_image, axis) => {
                Self::set_number_with_coordinate_settings(
                    &size_image,
                    &mut self.print_settings.input_number.size_image,
                    &mut self.print_settings.size_image,
                    axis,
                );
                None
            },
            MessageSettings::SetPositionImage(pos_image, axis) => {
                Self::set_number_with_coordinate_settings(
                    &pos_image,
                    &mut self.print_settings.input_number.pos_image,
                    &mut self.print_settings.pos_image,
                    axis,
                );
                None
            },
            MessageSettings::SetHeightText(height_text) => {
                Self::set_number_settings(
                    &height_text,
                    &mut self.print_settings.input_number.height_text,
                    &mut self.print_settings.height_text,
                );
                None
            },
            MessageSettings::SetTextSize(text_size) => {
                Self::set_number_settings(
                    &text_size,
                    &mut self.print_settings.input_number.text_size,
                    &mut self.print_settings.text_size,
                );
                None
            },
            MessageSettings::SetTheme(theme) => {
                self.theme = theme;
                None
            },
        }
    }
}

impl Default for Settings {
    /// A fresh configuration: four text fields, the default print
    /// layout, the dark theme, append-at-end insertion, and a
    /// conventional grid-document path for the application to resolve
    /// against the user's home directory.
    fn default() -> (r: Self)
        ensures
            r.current_language@ == "ru"@,
            r.fields@.len() == 4,
            r.fields@[0].name@ == "Name"@,
            r.fields@[1].name@ == "Square"@,
            r.fields@[2].name@ == "Tomb"@,
            r.fields@[3].name@ == "info"@,
            r.path_to_db@ == "Archaeological_assistant/Archaeological_assistant_db.xlsx"@,
            r.theme == Theme::Dark,
            r.print_settings.font@ == "18685.ttf"@,
            r.print_settings.height_text == 1,
            r.print_settings.pos_image == (10u32, 33u32),
            r.print_settings.size == (40u32, 58u32),
            r.print_settings.size_image == (20u32, 20u32),
            r.print_settings.text_size == 15,
            r.insert_methods_data.insert_methods
                == crate::insert_methods::InsertMethods::StartEnd,
            r.insert_methods_data.start_end == crate::insert_methods::StartEnd::End,
            r.insert_methods_data.input == 1,
            r.insert_methods_data.auto_insert == 0,
    {
        Settings {
            current_language: String::from_str("ru"),
            fields: vec![
                Field::new(FieldType::Text, String::from_str("Name")),
                Field::new(FieldType::Text, String::from_str("Square")),
                Field::new(FieldType::Text, String::from_str("Tomb")),
                Field::new(FieldType::Text, String::from_str("info")),
            ],
            path_to_db: String::from_str(
                "Archaeological_assistant/Archaeological_assistant_db.xlsx",
            ),
            print_settings: PrintSettings::default(),
            theme: Theme::Dark,
            insert_methods_data: InsertMethodsData::default(),
        }
    }
}

} // verus!
