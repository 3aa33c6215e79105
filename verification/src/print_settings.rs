//! Print-layout configuration carried by the settings: sizes and
//! positions as numbers, together with the raw text of the input fields
//! they were typed into.

use vstd::prelude::*;

verus! {

/// The raw text of the print-settings input fields.
pub struct InputNumberForPrintSettings {
    pub height_text: String,
    pub pos_image: (String, String),
    pub size: (String, String),
    pub size_image: (String, String),
    pub text_size: String,
}

/// Print-layout numbers, with the input text they came from. The font
/// is kept as a path string; the surrounding application resolves it.
pub struct PrintSettings {
    pub font: String,
    pub input_number: InputNumberForPrintSettings,
    pub height_text: u32,
    pub pos_image: (u32, u32),
    pub size: (u32, u32),
    pub size_image: (u32, u32),
    pub text_size: u32,
}

impl Default for InputNumberForPrintSettings {
    /// The input fields start out showing the default numbers.
    fn default() -> (r: Self)
        ensures
            r.height_text@ == "1"@,
            r.pos_image.0@ == "10"@ && r.pos_image.1@ == "33"@,
            r.size.0@ == "40"@ && r.size.1@ == "58"@,
            r.size_image.0@ == "20"@ && r.size_image.1@ == "20"@,
            r.text_size@ == "15"@,
    {
        InputNumberForPrintSettings {
            height_text: String::from_str("1"),
            pos_image: (String::from_str("10"), String::from_str("33")),
            size: (String::from_str("40"), String::from_str("58")),
            size_image: (String::from_str("20"), String::from_str("20")),
            text_size: String::from_str("15"),
        }
    }
}

impl Default for PrintSettings {
    /// The default print layout; the font path is left for the
    /// surrounding application to fill in.
    fn default() -> (r: Self)
        ensures
            r.font@ == "18685.ttf"@,
            r.height_text == 1,
            r.pos_image == (10u32, 33u32),
            r.size == (40u32, 58u32),
            r.size_image == (20u32, 20u32),
            r.text_size == 15,
            r.input_number.height_text@ == "1"@,
            r.input_number.pos_image.0@ == "10"@ && r.input_number.pos_image.1@ == "33"@,
            r.input_number.size.0@ == "40"@ && r.input_number.size.1@ == "58"@,
            r.input_number.size_image.0@ == "20"@ && r.input_number.size_image.1@ == "20"@,
            r.input_number.text_size@ == "15"@,
    {
        PrintSettings {
            font: String::from_str("18685.ttf"),
            input_number: InputNumberForPrintSettings::default(),
            height_text: 1,
            pos_image: (10, 33),
            size: (40, 58),
            size_image: (20, 20),
            text_size: 15,
        }
    }
}

} // verus!
