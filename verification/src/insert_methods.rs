//! The placement policy a record entry uses: append or prepend at the
//! table's ends, place at a typed-in catalog index, or place at an
//! auto-suggested gap index.

use vstd::prelude::*;
use crate::num::{parse_plain, parse_plain_u32};

verus! {

#[derive(Copy, Clone, Debug, Eq, PartialEq, Structural)]
pub enum InsertMethods {
    StartEnd,
    Input,
    AutoInsert,
}

#[derive(Copy, Clone, Debug, Eq, PartialEq, Structural)]
pub enum StartEnd {
    Start,
    End,
}

#[derive(Clone, Debug, Eq, PartialEq)]
pub enum InsertMethodsMessage {
    StartEnd(StartEnd),
    Input(String),
    AutoInsert(u32),
}

/// The raw text of the placement input fields.
pub struct InputNumberForInsertMethodsData {
    pub input: String,
    pub auto_insert: String,
}

/// The chosen placement policy with its parameters.
pub struct InsertMethodsData {
    pub input_number_for_insert_methods_data: InputNumberForInsertMethodsData,
    pub insert_methods: InsertMethods,
    pub start_end: StartEnd,
    pub input: u32,
    pub auto_insert: u32,
}

/// How a numeric input field takes one keystroke's worth of new text:
/// cleared text resets to the default number, numeric text (an optional
/// plus sign, then digits) is adopted, anything else leaves field and
/// number unchanged.
pub open spec fn option_number_updated(
    s: Seq<char>,
    input0: Seq<char>,
    num0: u32,
    dflt: u32,
    input1: Seq<char>,
    num1: u32,
) -> bool {
    if s.len() == 0 {
        input1 == Seq::<char>::empty() && num1 == dflt
    } else {
        match parse_plain(s) {
            Some(n) => input1 == s && num1 == n,
            None => input1 == input0 && num1 == num0,
        }
    }
}

impl InsertMethodsData {
    /// Takes new text for a numeric field whose cleared default is 1.
    pub fn set_option_number_settings(s: &String, input: &mut String, num: &mut u32)
        ensures
            option_number_updated(s@, old(input)@, *old(num), 1, final(input)@, *final(num)),
    {
        if s.as_str().is_empty() {
            *input = String::new();
            *num = 1;
        } else {
            match parse_plain_u32(s.as_str()) {
                Option::Some(new_num) => {
                    *input = s.clone();
                    *num = new_num;
                },
                Option::None => {},
            }
        }
    }

    /// Applies one policy message: choosing the end to extend, typing a
    /// target index, or picking an auto-suggested index.
    pub fn update(&mut self, message: InsertMethodsMessage)
        ensures
            final(self).insert_methods == old(self).insert_methods,
            match message {
                InsertMethodsMessage::StartEnd(se) => final(self).start_end == se && final(self).input == old(self).input && final(self).auto_insert == old(self).auto_insert
                    && final(self).input_number_for_insert_methods_data
                    == old(self).input_number_for_insert_methods_data,
                InsertMethodsMessage::Input(text) => final(self).start_end == old(self).start_end
                    && final(self).auto_insert == old(self).auto_insert && final(self).input_number_for_insert_methods_data.auto_insert
                    == old(self).input_number_for_insert_methods_data.auto_insert
                    && option_number_updated(
                    text@,
                    old(self).input_number_for_insert_methods_data.input@,
                    old(self).input,
                    1,
                    final(self).input_number_for_insert_methods_data.input@,
                    final(self).input,
                ),
                InsertMethodsMessage::AutoInsert(v) => final(self).auto_insert == v && final(self).start_end == old(self).start_end && final(self).input == old(self).input && final(self).input_number_for_insert_methods_data
                    == old(self).input_number_for_insert_methods_data,
            },
    {
        match message {
            InsertMethodsMessage::StartEnd(start_end) => {
                self.start_end = start_end;
            },
            InsertMethodsMessage::Input(input) => Self::set_option_number_settings(
                &input,
                &mut self.input_number_for_insert_methods_data.input,
                &mut self.input,
            ),
            InsertMethodsMessage::AutoInsert(auto_insert) => {
                self.auto_insert = auto_insert;
            },
        }
    }
}

impl Default for InputNumberForInsertMethodsData {
    /// The index field starts out showing 1; the suggestion field empty.
    fn default() -> (r: Self)
        ensures
            r.input@ == "1"@,
            r.auto_insert@.len() == 0,
    {
        InputNumberForInsertMethodsData { input: String::from_str("1"), auto_insert: String::new() }
    }
}

impl Default for InsertMethodsData {
    /// Records append at the end until told otherwise.
    fn default() -> (r: Self)
        ensures
            r.insert_methods == InsertMethods::StartEnd,
            r.start_end == StartEnd::End,
            r.input == 1,
            r.auto_insert == 0,
            r.input_number_for_insert_methods_data.input@ == "1"@,
            r.input_number_for_insert_methods_data.auto_insert@.len() == 0,
    {
        InsertMethodsData {
            input_number_for_insert_methods_data: InputNumberForInsertMethodsData::default(),
            insert_methods: InsertMethods::StartEnd,
            start_end: StartEnd::End,
            input: 1,
            auto_insert: 0,
        }
    }
}

} // verus!
