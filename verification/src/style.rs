//! Text styles of the rendered spans, and their ANSI escape codes.

use vstd::prelude::*;
use anstyle::{Ansi256Color, Effects, RgbColor, Style};

use crate::text::{decimal, digit_char};
use crate::theme::AnsiColor;

verus! {

/// A foreground colour.
#[derive(Debug, Clone, Copy, PartialEq, Eq, Structural)]
pub enum Color {
    Ansi(AnsiColor),
    Rgb(u8, u8, u8),
}

/// The one text effect a style carries (setting an effect replaces the
/// previous one).
#[derive(Debug, Clone, Copy, PartialEq, Eq, Structural)]
pub enum Effect {
    Plain,
    Bold,
    Italic,
    Underline,
    Strikethrough,
}

/// The style of a span of text: an optional foreground colour and an effect.
#[derive(Debug, Clone, Copy, PartialEq, Eq, Structural)]
pub struct SpanStyle {
    pub fg: Option<Color>,
    pub effect: Effect,
}

impl SpanStyle {
    pub open spec fn spec_plain() -> SpanStyle {
        SpanStyle { fg: None, effect: Effect::Plain }
    }

    /// The style without colour or effect.
    #[verifier::when_used_as_spec(spec_plain)]
    pub fn plain() -> (s: SpanStyle)
        ensures
            s == Self::spec_plain(),
    {
        SpanStyle { fg: None, effect: Effect::Plain }
    }

    /// The style with the given foreground colour and no effect.
    pub open spec fn spec_fg(c: AnsiColor) -> SpanStyle {
        SpanStyle { fg: Some(Color::Ansi(c)), effect: Effect::Plain }
    }

    #[verifier::when_used_as_spec(spec_fg)]
    /// The style with the given foreground colour and no effect.
    pub fn fg(c: AnsiColor) -> (s: SpanStyle)
        ensures
            s == Self::spec_fg(c),
    {
        SpanStyle { fg: Some(Color::Ansi(c)), effect: Effect::Plain }
    }

    /// The same colour with the effect replaced.
    pub open spec fn spec_with_effect(self, e: Effect) -> SpanStyle {
        SpanStyle { fg: self.fg, effect: e }
    }

    #[verifier::when_used_as_spec(spec_with_effect)]
    /// The same colour with the effect replaced.
    pub fn with_effect(self, e: Effect) -> (s: SpanStyle)
        ensures
            s == self.spec_with_effect(e),
    {
        SpanStyle { fg: self.fg, effect: e }
    }
}

/// The escape code that anstyle writes for an effect: none for plain text.
pub open spec fn effect_code(e: Effect) -> Seq<char> {
    match e {
        Effect::Plain => Seq::empty(),
        Effect::Bold => seq!['\u{1b}', '[', '1', 'm'],
        Effect::Italic => seq!['\u{1b}', '[', '3', 'm'],
        Effect::Underline => seq!['\u{1b}', '[', '4', 'm'],
        Effect::Strikethrough => seq!['\u{1b}', '[', '9', 'm'],
    }
}

/// The position of a colour among the sixteen standard ones, in ANSI order.
pub open spec fn ansi_number(c: AnsiColor) -> nat {
    match c {
        AnsiColor::Black => 0,
        AnsiColor::Red => 1,
        AnsiColor::Green => 2,
        AnsiColor::Yellow => 3,
        AnsiColor::Blue => 4,
        AnsiColor::Magenta => 5,
        AnsiColor::Cyan => 6,
        AnsiColor::White => 7,
        AnsiColor::BrightBlack => 8,
        AnsiColor::BrightRed => 9,
        AnsiColor::BrightGreen => 10,
        AnsiColor::BrightYellow => 11,
        AnsiColor::BrightBlue => 12,
        AnsiColor::BrightMagenta => 13,
        AnsiColor::BrightCyan => 14,
        AnsiColor::BrightWhite => 15,
    }
}

/// The escape code that anstyle writes for a foreground colour: `ESC [ 3n m`
/// for the eight standard colours, `ESC [ 9n m` for their bright forms, and
/// `ESC [ 38;2;r;g;b m` for a 24-bit colour, each number in decimal.
pub open spec fn fg_code(c: Color) -> Seq<char> {
    match c {
        Color::Ansi(a) => seq![
            '\u{1b}',
            '[',
            if ansi_number(a) < 8 { '3' } else { '9' },
            digit_char(ansi_number(a) % 8),
            'm',
        ],
        Color::Rgb(r, g, b) => seq!['\u{1b}', '[', '3', '8', ';', '2', ';'] + decimal(r as nat)
            + seq![';'] + decimal(g as nat) + seq![';'] + decimal(b as nat) + seq!['m'],
    }
}

/// The escape codes that anstyle renders for a style: the effect's code,
/// then the foreground colour's.
pub open spec fn style_codes(style: SpanStyle) -> Seq<char> {
    effect_code(style.effect) + match style.fg {
        Some(c) => fg_code(c),
        None => Seq::empty(),
    }
}

/// Renders the style with `anstyle::Style::render` (colour and effect mapped
/// onto anstyle's `Style`): the effect's escape code, then the foreground
/// colour's (see `style_codes`).
#[verifier::external_body]
pub(crate) fn render_style(style: SpanStyle) -> (r: String)
    ensures
        r@ == style_codes(style),
{
    let fg = match style.fg {
        Some(Color::Ansi(c)) => Ansi256Color(c as u8).into_ansi().map(anstyle::Color::Ansi),
        Some(Color::Rgb(r, g, b)) => Some(anstyle::Color::Rgb(RgbColor(r, g, b))),
        None => None,
    };
    let effects = match style.effect {
        Effect::Plain => Effects::new(),
        Effect::Bold => Effects::BOLD,
        Effect::Italic => Effects::ITALIC,
        Effect::Underline => Effects::UNDERLINE,
        Effect::Strikethrough => Effects::STRIKETHROUGH,
    };
    Style::new().fg_color(fg).effects(effects).render().to_string()
}

/// The reset code of a style, with `anstyle::Style::render_reset`: nothing for
/// the plain style, which has nothing to reset, and `ESC [ 0 m` for any other.
#[verifier::external_body]
pub(crate) fn render_reset(style: SpanStyle) -> (r: String)
    ensures
        style == SpanStyle::spec_plain() ==> r@ == Seq::<char>::empty(),
        style != SpanStyle::spec_plain() ==> r@ == seq!['\u{1b}', '[', '0', 'm'],
{
    let fg = match style.fg {
        Some(Color::Ansi(c)) => Ansi256Color(c as u8).into_ansi().map(anstyle::Color::Ansi),
        Some(Color::Rgb(r, g, b)) => Some(anstyle::Color::Rgb(RgbColor(r, g, b))),
        None => None,
    };
    let effects = match style.effect {
        Effect::Plain => Effects::new(),
        Effect::Bold => Effects::BOLD,
        Effect::Italic => Effects::ITALIC,
        Effect::Underline => Effects::UNDERLINE,
        Effect::Strikethrough => Effects::STRIKETHROUGH,
    };
    Style::new().fg_color(fg).effects(effects).render_reset().to_string()
}

} // verus!
