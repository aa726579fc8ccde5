//! Colour themes.

use vstd::prelude::*;

use crate::text::chars_of;

verus! {

/// The themes the command line can name.
#[derive(Debug, Clone, Copy, PartialEq, Eq, Structural)]
pub enum ThemeName {
    Auto,
    Light,
    Dark,
    Minimal,
}

/// The sixteen standard terminal colours, in their ANSI order.
#[derive(Debug, Clone, Copy, PartialEq, Eq, Structural)]
pub enum AnsiColor {
    Black,
    Red,
    Green,
    Yellow,
    Blue,
    Magenta,
    Cyan,
    White,
    BrightBlack,
    BrightRed,
    BrightGreen,
    BrightYellow,
    BrightBlue,
    BrightMagenta,
    BrightCyan,
    BrightWhite,
}

/// Whether a string slice spells exactly the given characters.
pub fn str_is(s: &str, word: &str) -> (r: bool)
    ensures
        r == (s@ == word@),
{
    let a = chars_of(s);
    let b = chars_of(word);
    if a.len() != b.len() {
        return false;
    }
    let mut i: usize = 0;
    while i < a.len()
        invariant
            a@ == s@,
            b@ == word@,
            a.len() == b.len(),
            i <= a.len(),
            forall|j: int| 0 <= j < i ==> a@[j] == b@[j],
        decreases a.len() - i,
    {
        if a[i] != b[i] {
            return false;
        }
        i += 1;
    }
    assert(a@ =~= b@);
    true
}

/// The theme a name on the command line selects: `auto`, `light`, `dark`,
/// and `minimal` or its alias `ansi`.
pub open spec fn theme_name_of(value: Seq<char>) -> Option<ThemeName> {
    if value == "auto"@ {
        Some(ThemeName::Auto)
    } else if value == "light"@ {
        Some(ThemeName::Light)
    } else if value == "dark"@ {
        Some(ThemeName::Dark)
    } else if value == "minimal"@ || value == "ansi"@ {
        Some(ThemeName::Minimal)
    } else {
        None
    }
}

impl ThemeName {
    /// The theme a name selects (see `theme_name_of`).
    pub fn parse(value: &str) -> (r: Option<Self>)
        ensures
            r == theme_name_of(value@),
    {
        if str_is(value, "auto") {
            Some(Self::Auto)
        } else if str_is(value, "light") {
            Some(Self::Light)
        } else if str_is(value, "dark") {
            Some(Self::Dark)
        } else if str_is(value, "minimal") || str_is(value, "ansi") {
            Some(Self::Minimal)
        } else {
            None
        }
    }
}

#[derive(Debug, Clone, Copy, PartialEq, Eq, Structural)]
/// The colours a theme gives each kind of text.
pub struct Theme {
    pub monochrome: bool,
    pub heading: AnsiColor,
    pub link: AnsiColor,
    pub code: AnsiColor,
    pub quote: AnsiColor,
    pub rule: AnsiColor,
    pub muted: AnsiColor,
    pub accent: AnsiColor,
}

/// The colours of each theme: every theme draws links, code, quotes, rules
/// and muted text in bright black; headings are white except in the light
/// theme (black); the accent is cyan in the dark theme, blue in the light one
/// and bright black otherwise; the auto and minimal themes are monochrome.
pub open spec fn theme_of(name: ThemeName) -> Theme {
    let grey = AnsiColor::BrightBlack;
    match name {
        ThemeName::Auto => Theme {
            monochrome: true,
            heading: AnsiColor::White,
            link: grey,
            code: grey,
            quote: grey,
            rule: grey,
            muted: grey,
            accent: grey,
        },
        ThemeName::Dark => Theme {
            monochrome: false,
            heading: AnsiColor::White,
            link: grey,
            code: grey,
            quote: grey,
            rule: grey,
            muted: grey,
            accent: AnsiColor::Cyan,
        },
        ThemeName::Light => Theme {
            monochrome: false,
            heading: AnsiColor::Black,
            link: grey,
            code: grey,
            quote: grey,
            rule: grey,
            muted: grey,
            accent: AnsiColor::Blue,
        },
        ThemeName::Minimal => Theme {
            monochrome: true,
            heading: AnsiColor::White,
            link: grey,
            code: grey,
            quote: grey,
            rule: grey,
            muted: grey,
            accent: grey,
        },
    }
}

impl Theme {
    /// The colours of a theme (see `theme_of`).
    pub fn resolve(name: ThemeName) -> (t: Self)
        ensures
            t == theme_of(name),
    {
        match name {
            ThemeName::Auto => Self {
                monochrome: true,
                heading: AnsiColor::White,
                link: AnsiColor::BrightBlack,
                code: AnsiColor::BrightBlack,
                quote: AnsiColor::BrightBlack,
                rule: AnsiColor::BrightBlack,
                muted: AnsiColor::BrightBlack,
                accent: AnsiColor::BrightBlack,
            },
            ThemeName::Dark => Self {
                monochrome: false,
                heading: AnsiColor::White,
                link: AnsiColor::BrightBlack,
                code: AnsiColor::BrightBlack,
                quote: AnsiColor::BrightBlack,
                rule: AnsiColor::BrightBlack,
                muted: AnsiColor::BrightBlack,
                accent: AnsiColor::Cyan,
            },
            ThemeName::Light => Self {
                monochrome: false,
                heading: AnsiColor::Black,
                link: AnsiColor::BrightBlack,
                code: AnsiColor::BrightBlack,
                quote: AnsiColor::BrightBlack,
                rule: AnsiColor::BrightBlack,
                muted: AnsiColor::BrightBlack,
                accent: AnsiColor::Blue,
            },
            ThemeName::Minimal => Self {
                monochrome: true,
                heading: AnsiColor::White,
                link: AnsiColor::BrightBlack,
                code: AnsiColor::BrightBlack,
                quote: AnsiColor::BrightBlack,
                rule: AnsiColor::BrightBlack,
                muted: AnsiColor::BrightBlack,
                accent: AnsiColor::BrightBlack,
            },
        }
    }
}

} // verus!
