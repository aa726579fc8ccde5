//! Syntax highlighting of code blocks with syntect.

use vstd::prelude::*;

use syntect::easy::HighlightLines;
use syntect::highlighting::ThemeSet;
use syntect::parsing::SyntaxSet;

use crate::document::CodeFence;
use crate::layout::{text_lines, text_lines_of};
use crate::style::{Color, Effect, SpanStyle};
use crate::theme::{AnsiColor, Theme};
use crate::wrap::{lemma_spans_view_push, span, spans_view, styled, SpanV, StyledSpan};

verus! {

/// What syntect's highlighter makes of the lines of a code block, given the
/// block's language and a builtin theme's name: for each line, its ranges
/// (foreground red, green and blue, font style bits, text), or nothing where
/// highlighting the line failed.
pub uninterp spec fn syntect_ranges(
    language: Option<Seq<char>>,
    theme_name: Seq<char>,
    lines: Seq<Seq<char>>,
) -> Seq<Option<Seq<(u8, u8, u8, u8, Seq<char>)>>>;

/// An optional string slice as text.
pub open spec fn opt_str_view(o: Option<&str>) -> Option<Seq<char>> {
    match o {
        Some(s) => Some(s@),
        None => None,
    }
}

/// Highlighted ranges with their texts as character sequences.
pub open spec fn ranges_view(r: Seq<Option<Vec<(u8, u8, u8, u8, String)>>>) -> Seq<
    Option<Seq<(u8, u8, u8, u8, Seq<char>)>>,
> {
    r.map_values(
        |line: Option<Vec<(u8, u8, u8, u8, String)>>|
            match line {
                Some(v) => Some(
                    v@.map_values(
                        |x: (u8, u8, u8, u8, String)| (x.0, x.1, x.2, x.3, x.4@),
                    ),
                ),
                None => None,
            },
    )
}

/// Highlights code lines with syntect, as `HighlightLines` does line after
/// line: the syntax is the one whose token is the language (plain text when
/// there is none or none matches), the theme the builtin one of that name
/// (the first builtin one when none has it; syntect ships several, so one
/// is always found).  Each range comes with its foreground colour and its
/// `FontStyle` bits (bold 1, underline 2, italic 4).  The contract names the
/// result `syntect_ranges`, one entry per line.
#[verifier::external_body]
fn highlight_ranges(language: Option<&str>, theme_name: &str, lines: &Vec<String>) -> (r: Vec<
    Option<Vec<(u8, u8, u8, u8, String)>>,
>)
    ensures
        r@.len() == lines@.len(),
        ranges_view(r@) == syntect_ranges(
            opt_str_view(language),
            theme_name@,
            lines@.map_values(|l: String| l@),
        ),
{
    let set = SyntaxSet::load_defaults_newlines();
    let themes = ThemeSet::load_defaults();
    let syntax = language.and_then(|l| set.find_syntax_by_token(l)).unwrap_or_else(|| set.find_syntax_plain_text());
    let theme = themes.themes.get(theme_name).or_else(|| themes.themes.values().next()).expect("builtin themes");
    let mut h = HighlightLines::new(syntax, theme);
    lines.iter().map(|line| {
        let ranges = h.highlight_line(line, &set).ok()?;
        Some(ranges.into_iter().map(|(s, t)| (s.foreground.r, s.foreground.g, s.foreground.b, s.font_style.bits(), t.to_string())).collect())
    }).collect()
}

/// The builtin syntect theme for a terminal theme: the light one where
/// headings are blue, else the dark one.
pub open spec fn syntect_theme_name(theme: Theme) -> Seq<char> {
    if theme.heading == AnsiColor::Blue || theme.heading == AnsiColor::BrightBlue {
        "InspiredGitHub"@
    } else {
        "base16-ocean.dark"@
    }
}

/// The span style of a highlighted range: its colour, and italic where the
/// font is italic, else bold where it is bold.
pub open spec fn range_style(r: u8, g: u8, b: u8, font: u8) -> SpanStyle {
    SpanStyle {
        fg: Some(Color::Rgb(r, g, b)),
        effect: if font & 4u8 != 0u8 {
            Effect::Italic
        } else if font & 1u8 != 0u8 {
            Effect::Bold
        } else {
            Effect::Plain
        },
    }
}

/// The spans of one highlighted line: one per range, or the whole line
/// unstyled where highlighting failed.
pub open spec fn highlighted_line(line: Seq<char>, ranges: Option<Seq<(u8, u8, u8, u8, Seq<char>)>>) -> Seq<
    SpanV,
> {
    match ranges {
        None => seq![span(line, SpanStyle::spec_plain(), None)],
        Some(rs) => rs.map_values(
            |x: (u8, u8, u8, u8, Seq<char>)| span(x.4, range_style(x.0, x.1, x.2, x.3), None),
        ),
    }
}

/// The highlighted lines of a code block.
pub open spec fn highlighted(language: Option<Seq<char>>, code: Seq<char>, theme: Theme) -> Seq<
    Seq<SpanV>,
> {
    let lines = text_lines(code);
    let ranges = syntect_ranges(language, syntect_theme_name(theme), lines);
    Seq::new(lines.len(), |i: int| highlighted_line(lines[i], ranges[i]))
}

/// Lines of spans as sequences of span views.
pub open spec fn lines_spans_view(s: Seq<Vec<StyledSpan>>) -> Seq<Seq<SpanV>> {
    s.map_values(|l: Vec<StyledSpan>| spans_view(l@))
}

fn range_style_of(r: u8, g: u8, b: u8, font: u8) -> (s: SpanStyle)
    ensures
        s == range_style(r, g, b, font),
{
    let effect = if font & 4u8 != 0u8 {
        Effect::Italic
    } else if font & 1u8 != 0u8 {
        Effect::Bold
    } else {
        Effect::Plain
    };
    SpanStyle { fg: Some(Color::Rgb(r, g, b)), effect }
}

fn highlight_line(line: &String, ranges: &Option<Vec<(u8, u8, u8, u8, String)>>) -> (r: Vec<
    StyledSpan,
>)
    ensures
        spans_view(r@) == highlighted_line(
            line@,
            match ranges {
                Some(v) => Some(
                    v@.map_values(
                        |x: (u8, u8, u8, u8, String)| (x.0, x.1, x.2, x.3, x.4@),
                    ),
                ),
                None => None,
            },
        ),
{
    match ranges {
        None => {
            let r = vec![styled(line.clone(), SpanStyle::plain(), None)];
            assert(spans_view(r@) =~= highlighted_line(line@, None));
            r
        },
        Some(rs) => {
            let ghost rv = rs@.map_values(
                |x: (u8, u8, u8, u8, String)| (x.0, x.1, x.2, x.3, x.4@),
            );
            let mut out: Vec<StyledSpan> = Vec::new();
            let mut j: usize = 0;
            while j < rs.len()
                invariant
                    j <= rs.len(),
                    rv == rs@.map_values(
                        |x: (u8, u8, u8, u8, String)| (x.0, x.1, x.2, x.3, x.4@),
                    ),
                    spans_view(out@) =~= highlighted_line(line@, Some(rv)).take(j as int),
                decreases rs.len() - j,
            {
                let x = &rs[j];
                let s = styled(x.4.clone(), range_style_of(x.0, x.1, x.2, x.3), None);
                let ghost before = out@;
                out.push(s);
                proof {
                    lemma_spans_view_push(before, s);
                    let want = highlighted_line(line@, Some(rv));
                    assert(rv[j as int] == (x.0, x.1, x.2, x.3, x.4@));
                    assert(want[j as int] == s@);
                    assert(want.take(j + 1) =~= want.take(j as int).push(want[j as int]));
                }
                j += 1;
            }
            assert(highlighted_line(line@, Some(rv)).take(rs.len() as int) =~= highlighted_line(
                line@,
                Some(rv),
            ));
            out
        },
    }
}

/// Highlights a code block with syntect: each line of the code (as
/// `str::lines` splits it) becomes the spans of its highlighted ranges, in
/// the colours of the builtin theme that suits `theme` (see
/// `syntect_theme_name`).
pub fn highlight_code(fence: &CodeFence, theme: Theme) -> (r: Vec<Vec<StyledSpan>>)
    ensures
        lines_spans_view(r@) == highlighted(
            match fence.language {
                Some(l) => Some(l@),
                None => None,
            },
            fence.code@,
            theme,
        ),
{
    let lines = text_lines_of(&fence.code);
    let name = match theme.heading {
        AnsiColor::Blue | AnsiColor::BrightBlue => "InspiredGitHub",
        _ => "base16-ocean.dark",
    };
    let language = match &fence.language {
        Some(l) => Some(l.as_str()),
        None => None,
    };
    proof {
        reveal_strlit("InspiredGitHub");
        reveal_strlit("base16-ocean.dark");
    }
    assert(name@ == syntect_theme_name(theme));
    assert(opt_str_view(language) == match fence.language {
        Some(l) => Some(l@),
        None => None,
    });
    let ranges = highlight_ranges(language, name, &lines);
    let ghost lv = lines@.map_values(|l: String| l@);
    let ghost want = highlighted(opt_str_view(language), fence.code@, theme);
    assert(lv == text_lines(fence.code@));
    let mut out: Vec<Vec<StyledSpan>> = Vec::new();
    let mut i: usize = 0;
    while i < lines.len()
        invariant
            i <= lines.len(),
            ranges@.len() == lines@.len(),
            lv == lines@.map_values(|l: String| l@),
            lv == text_lines(fence.code@),
            ranges_view(ranges@) == syntect_ranges(opt_str_view(language), name@, lv),
            name@ == syntect_theme_name(theme),
            want == highlighted(opt_str_view(language), fence.code@, theme),
            lines_spans_view(out@) =~= want.take(i as int),
        decreases lines.len() - i,
    {
        let l = highlight_line(&lines[i], &ranges[i]);
        proof {
            assert(ranges_view(ranges@)[i as int] == match ranges@[i as int] {
                Some(v) => Some(
                    v@.map_values(|x: (u8, u8, u8, u8, String)| (x.0, x.1, x.2, x.3, x.4@)),
                ),
                None => None,
            });
            assert(lv[i as int] == lines@[i as int]@);
        }
        let ghost before = out@;
        out.push(l);
        proof {
            assert(lines_spans_view(out@) =~= lines_spans_view(before).push(spans_view(l@)));
            assert(want[i as int] == highlighted_line(lv[i as int], syntect_ranges(
                opt_str_view(language),
                syntect_theme_name(theme),
                lv,
            )[i as int]));
            assert(want.take(i + 1) =~= want.take(i as int).push(want[i as int]));
        }
        i += 1;
    }
    assert(want.take(lines.len() as int) =~= want);
    out
}

} // verus!
