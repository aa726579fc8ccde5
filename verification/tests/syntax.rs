use kaku::document::CodeFence;
use kaku::style::Color;
use kaku::syntax::highlight_code;
use kaku::theme::{AnsiColor, Theme, ThemeName};

fn fence(language: Option<&str>, code: &str) -> CodeFence {
    CodeFence { language: language.map(|l| l.to_string()), code: code.to_string() }
}

#[test]
fn highlighted_lines_keep_their_text() {
    let code = "fn main() {\n    let x = 1;\n}\n";
    let lines = highlight_code(&fence(Some("rust"), code), Theme::resolve(ThemeName::Dark));
    assert_eq!(lines.len(), 3);
    for (spans, line) in lines.iter().zip(code.lines()) {
        let text: String = spans.iter().map(|s| s.text.as_str()).collect();
        assert_eq!(text, line);
        assert!(spans.iter().all(|s| matches!(s.style.fg, Some(Color::Rgb(_, _, _)))));
    }
    assert!(lines[0].len() > 1, "a keyword gets a range of its own");
}

#[test]
fn blue_headings_pick_the_light_colours() {
    let code = "let x = 1;";
    let dark = highlight_code(&fence(Some("rust"), code), Theme::resolve(ThemeName::Dark));
    let blue = Theme { heading: AnsiColor::Blue, ..Theme::resolve(ThemeName::Dark) };
    let light = highlight_code(&fence(Some("rust"), code), blue);
    let colours = |lines: &Vec<Vec<kaku::wrap::StyledSpan>>| -> Vec<Option<Color>> {
        lines[0].iter().map(|s| s.style.fg).collect()
    };
    assert_ne!(colours(&dark), colours(&light));
}

#[test]
fn unknown_languages_and_empty_code() {
    let lines = highlight_code(&fence(Some("no-such-language"), "plain words"), Theme::resolve(ThemeName::Dark));
    assert_eq!(lines.len(), 1);
    let text: String = lines[0].iter().map(|s| s.text.as_str()).collect();
    assert_eq!(text, "plain words");
    assert!(highlight_code(&fence(None, ""), Theme::resolve(ThemeName::Dark)).is_empty());
}
