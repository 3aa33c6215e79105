//! The colour theme a session is configured with. Mapping a variant to
//! the GUI toolkit's own theme type is the surrounding application's
//! job; here a theme is plain data with a stable name and numbering.

use vstd::prelude::*;

verus! {

#[derive(Clone, Copy, Debug, Eq, PartialEq, Structural)]
pub enum Theme {
    Light,
    Dark,
    Dracula,
    Nord,
    SolarizedLight,
    SolarizedDark,
    GruvboxLight,
    GruvboxDark,
    CatppuccinLatte,
    CatppuccinFrappe,
    CatppuccinMacchiato,
    CatppuccinMocha,
    TokyoNight,
    TokyoNightStorm,
    TokyoNightLight,
    KanagawaWave,
    KanagawaDragon,
    KanagawaLotus,
    Moonfly,
    Nightfly,
    Oxocarbon,
    Ferra,
}

/// The variant a numbering slot stands for, in display order.
pub open spec fn theme_of_id(id: int) -> Theme {
    if id == 0 {
        Theme::Light
    } else if id == 1 {
        Theme::Dark
    } else if id == 2 {
        Theme::Dracula
    } else if id == 3 {
        Theme::Nord
    } else if id == 4 {
        Theme::SolarizedLight
    } else if id == 5 {
        Theme::SolarizedDark
    } else if id == 6 {
        Theme::GruvboxLight
    } else if id == 7 {
        Theme::GruvboxDark
    } else if id == 8 {
        Theme::CatppuccinLatte
    } else if id == 9 {
        Theme::CatppuccinFrappe
    } else if id == 10 {
        Theme::CatppuccinMacchiato
    } else if id == 11 {
        Theme::CatppuccinMocha
    } else if id == 12 {
        Theme::TokyoNight
    } else if id == 13 {
        Theme::TokyoNightStorm
    } else if id == 14 {
        Theme::TokyoNightLight
    } else if id == 15 {
        Theme::KanagawaWave
    } else if id == 16 {
        Theme::KanagawaDragon
    } else if id == 17 {
        Theme::KanagawaLotus
    } else if id == 18 {
        Theme::Moonfly
    } else if id == 19 {
        Theme::Nightfly
    } else if id == 20 {
        Theme::Oxocarbon
    } else {
        Theme::Ferra
    }
}

impl Theme {
    /// Every theme, in display order.
    pub fn all() -> (r: Vec<Theme>)
        ensures
            r@.len() == 22,
            forall|i: int| 0 <= i < 22 ==> r@[i] == theme_of_id(i),
    {
        let mut r: Vec<Theme> = Vec::new();
        r.push(Theme::Light);
        r.push(Theme::Dark);
        r.push(Theme::Dracula);
        r.push(Theme::Nord);
        r.push(Theme::SolarizedLight);
        r.push(Theme::SolarizedDark);
        r.push(Theme::GruvboxLight);
        r.push(Theme::GruvboxDark);
        r.push(Theme::CatppuccinLatte);
        r.push(Theme::CatppuccinFrappe);
        r.push(Theme::CatppuccinMacchiato);
        r.push(Theme::CatppuccinMocha);
        r.push(Theme::TokyoNight);
        r.push(Theme::TokyoNightStorm);
        r.push(Theme::TokyoNightLight);
        r.push(Theme::KanagawaWave);
        r.push(Theme::KanagawaDragon);
        r.push(Theme::KanagawaLotus);
        r.push(Theme::Moonfly);
        r.push(Theme::Nightfly);
        r.push(Theme::Oxocarbon);
        r.push(Theme::Ferra);
        r
    }

    /// The theme a display-order slot holds.
    pub fn from_id(id: usize) -> (r: Theme)
        requires
            id < 22,
        ensures
            r == theme_of_id(id as int),
    {
        match id {
            0 => Theme::Light,
            1 => Theme::Dark,
            2 => Theme::Dracula,
            3 => Theme::Nord,
            4 => Theme::SolarizedLight,
            5 => Theme::SolarizedDark,
            6 => Theme::GruvboxLight,
            7 => Theme::GruvboxDark,
            8 => Theme::CatppuccinLatte,
            9 => Theme::CatppuccinFrappe,
            10 => Theme::CatppuccinMacchiato,
            11 => Theme::CatppuccinMocha,
            12 => Theme::TokyoNight,
            13 => Theme::TokyoNightStorm,
            14 => Theme::TokyoNightLight,
            15 => Theme::KanagawaWave,
            16 => Theme::KanagawaDragon,
            17 => Theme::KanagawaLotus,
            18 => Theme::Moonfly,
            19 => Theme::Nightfly,
            20 => Theme::Oxocarbon,
            _ => Theme::Ferra,
        }
    }

    /// The theme's display name.
    pub fn name(&self) -> (r: String)
        ensures
            match *self {
                Theme::Light => r@ == "Light"@,
                Theme::Dark => r@ == "Dark"@,
                Theme::Dracula => r@ == "Dracula"@,
                Theme::Nord => r@ == "Nord"@,
                Theme::SolarizedLight => r@ == "SolarizedLight"@,
                Theme::SolarizedDark => r@ == "SolarizedDark"@,
                Theme::GruvboxLight => r@ == "GruvboxLight"@,
                Theme::GruvboxDark => r@ == "GruvboxDark"@,
                Theme::CatppuccinLatte => r@ == "CatppuccinLatte"@,
                Theme::CatppuccinFrappe => r@ == "CatppuccinFrappe"@,
                Theme::CatppuccinMacchiato => r@ == "CatppuccinMacchiato"@,
                Theme::CatppuccinMocha => r@ == "CatppuccinMocha"@,
                Theme::TokyoNight => r@ == "TokyoNight"@,
                Theme::TokyoNightStorm => r@ == "TokyoNightStorm"@,
                Theme::TokyoNightLight => r@ == "TokyoNightLight"@,
                Theme::KanagawaWave => r@ == "KanagawaWave"@,
                Theme::KanagawaDragon => r@ == "KanagawaDragon"@,
                Theme::KanagawaLotus => r@ == "KanagawaLotus"@,
                Theme::Moonfly => r@ == "Moonfly"@,
                Theme::Nightfly => r@ == "Nightfly"@,
                Theme::Oxocarbon => r@ == "Oxocarbon"@,
                Theme::Ferra => r@ == "Ferra"@,
            },
    {
        match *self {
            Theme::Light => String::from_str("Light"),
            Theme::Dark => String::from_str("Dark"),
            Theme::Dracula => String::from_str("Dracula"),
            Theme::Nord => String::from_str("Nord"),
            Theme::SolarizedLight => String::from_str("SolarizedLight"),
            Theme::SolarizedDark => String::from_str("SolarizedDark"),
            Theme::GruvboxLight => String::from_str("GruvboxLight"),
            Theme::GruvboxDark => String::from_str("GruvboxDark"),
            Theme::CatppuccinLatte => String::from_str("CatppuccinLatte"),
            Theme::CatppuccinFrappe => String::from_str("CatppuccinFrappe"),
            Theme::CatppuccinMacchiato => String::from_str("CatppuccinMacchiato"),
            Theme::CatppuccinMocha => String::from_str("CatppuccinMocha"),
            Theme::TokyoNight => String::from_str("TokyoNight"),
            Theme::TokyoNightStorm => String::from_str("TokyoNightStorm"),
            Theme::TokyoNightLight => String::from_str("TokyoNightLight"),
            Theme::KanagawaWave => String::from_str("KanagawaWave"),
            Theme::KanagawaDragon => String::from_str("KanagawaDragon"),
            Theme::KanagawaLotus => String::from_str("KanagawaLotus"),
            Theme::Moonfly => String::from_str("Moonfly"),
            Theme::Nightfly => String::from_str("Nightfly"),
            Theme::Oxocarbon => String::from_str("Oxocarbon"),
            Theme::Ferra => String::from_str("Ferra"),
        }
    }
}

} // verus!
