use kaku::layout::{compute_column_widths, layout_document, truncate_to_width, LayoutOptions};
use kaku::parse::parse_document;
use kaku::theme::{Theme, ThemeName};
use kaku::style::{Color, Effect, SpanStyle};
use kaku::theme::AnsiColor;
use kaku::wrap::LayoutLine;
use kaku::wrap::{dedup_indices, split_preserving_newlines, styled, wrap_spans};

fn options(width: usize) -> LayoutOptions {
    LayoutOptions { width, theme: ThemeName::Dark, syntax_highlighting: false }
}

#[test]
fn wraps_unicode_without_panicking() {
    let doc = parse_document("# 제목\n\n한글 emoji 😀 mixed text");
    let layout = layout_document(&doc, &options(12));

    assert!(layout.lines.iter().any(|line| line.plain_text.contains("제목")));
    assert!(layout.lines.len() > 2);
}

#[test]
fn builds_toc_entries() {
    let doc = parse_document("# A\n## B\n");
    let layout = layout_document(&doc, &options(80));

    assert_eq!(layout.toc.len(), 2);
    assert_eq!(layout.toc[1].title, "B");
}

#[test]
fn toc_entries_point_at_heading_lines() {
    let doc = parse_document("# A\n## B\n");
    let layout = layout_document(&doc, &options(80));
    assert_eq!(layout.lines[layout.toc[0].line_index].plain_text, "# A");
    assert_eq!(layout.lines[layout.toc[1].line_index].plain_text, "## B");
    assert_eq!(layout.toc[1].level.as_usize(), 2);
}

#[test]
fn long_paragraph_wraps_to_width() {
    let doc = parse_document("aaaa bbbb cccc dddd eeee ffff");
    let layout = layout_document(&doc, &options(10));
    let text_lines: Vec<&str> = layout
        .lines
        .iter()
        .map(|line| line.plain_text.as_str())
        .filter(|text| !text.trim().is_empty())
        .collect();
    assert!(text_lines.len() > 1);
    for text in &text_lines {
        assert!(text.chars().count() <= 10, "{text:?} is wider than 10");
    }
    let joined: String = text_lines.concat();
    assert_eq!(joined.replace(' ', ""), "aaaabbbbccccddddeeeeffff");
}

#[test]
fn wrapped_lines_render_with_styles() {
    let doc = parse_document("plain **bold**");
    let layout = layout_document(&doc, &options(80));
    let rendered = layout.lines[0].to_ansi_string();
    assert!(rendered.contains("plain "));
    assert!(rendered.contains("bold"));
    assert_ne!(rendered, layout.lines[0].plain_text);
}

#[test]
fn column_widths_fit_or_are_capped() {
    let rows = vec![
        vec!["a".to_string(), "bb".to_string()],
        vec!["ccc".to_string(), "d".to_string()],
    ];
    assert_eq!(compute_column_widths(&rows, 80), vec![3, 3]);

    let wide = vec![vec!["abcdef".to_string(), "x".to_string()]];
    assert_eq!(compute_column_widths(&wide, 10), vec![1, 1]);
    assert_eq!(compute_column_widths(&wide, 40), vec![6, 3]);
    assert!(compute_column_widths(&Vec::new(), 40).is_empty());
}

#[test]
fn truncation_keeps_whole_graphemes() {
    assert_eq!(truncate_to_width(&"한글abc".to_string(), 3), "한");
    assert_eq!(truncate_to_width(&"abc".to_string(), 5), "abc");
    assert_eq!(truncate_to_width(&"abc".to_string(), 0), "");
}

#[test]
fn dedup_sorts_and_removes_repeats() {
    assert_eq!(dedup_indices(vec![3, 1, 3, 2, 1]), vec![1, 2, 3]);
    assert!(dedup_indices(Vec::new()).is_empty());
}

#[test]
fn newlines_are_kept_as_their_own_parts() {
    assert_eq!(split_preserving_newlines("a\n\nb"), vec!["a", "\n", "\n", "b"]);
    assert_eq!(split_preserving_newlines(""), vec![""]);
    assert_eq!(split_preserving_newlines("x\n"), vec!["x", "\n"]);
}

#[test]
fn theme_names_parse() {
    assert_eq!(ThemeName::parse("ansi"), Some(ThemeName::Minimal));
    assert_eq!(ThemeName::parse("minimal"), Some(ThemeName::Minimal));
    assert_eq!(ThemeName::parse("light"), Some(ThemeName::Light));
    assert_eq!(ThemeName::parse("Dark"), None);
    let auto = Theme::resolve(ThemeName::Auto);
    assert!(auto.monochrome);
    assert!(!Theme::resolve(ThemeName::Dark).monochrome);
}

#[test]
fn wrapping_nothing_still_gives_a_line() {
    let lines = wrap_spans(Vec::new(), 2, "- ", "  ", 10);
    assert_eq!(lines.len(), 1);
    assert_eq!(lines[0].plain_text, "  - ");
}

#[test]
fn wrapping_breaks_at_the_width_and_keeps_links() {
    let spans = vec![styled("abcdefghij".to_string(), SpanStyle::plain(), Some(4))];
    let lines = wrap_spans(spans, 0, "", "", 4);
    let texts: Vec<&str> = lines.iter().map(|line| line.plain_text.as_str()).collect();
    assert_eq!(texts, vec!["abcd", "efgh", "ij"]);
    assert!(lines.iter().all(|line| line.link_indices == vec![4]));
}

#[test]
fn wrapping_keeps_text_but_trailing_blank_space() {
    let spans = vec![styled("ab\ncd".to_string(), SpanStyle::plain(), None)];
    let lines = wrap_spans(spans, 0, "> ", "  ", 20);
    let texts: Vec<&str> = lines.iter().map(|line| line.plain_text.as_str()).collect();
    assert_eq!(texts, vec!["> ab", "  cd"]);

    let spans = vec![styled("ab\n   ".to_string(), SpanStyle::plain(), None)];
    let lines = wrap_spans(spans, 0, "", "", 20);
    let texts: Vec<&str> = lines.iter().map(|line| line.plain_text.as_str()).collect();
    assert_eq!(texts, vec!["ab"]);
}

#[test]
fn layout_lines_agree_with_their_spans() {
    let doc = parse_document(
        "# T\n\n> quoted [a](x) and [b](y) and [a again](x)\n\n- [c](z) item\n\n```\ncode\n```\n",
    );
    let layout = layout_document(&doc, &options(30));
    for line in &layout.lines {
        let joined: String = line.spans.iter().map(|span| span.text.as_str()).collect();
        assert_eq!(joined, line.plain_text);
        assert!(line.link_indices.windows(2).all(|pair| pair[0] < pair[1]));
        for span in &line.spans {
            if let Some(index) = span.link_index {
                assert!(line.link_indices.contains(&index));
            }
        }
    }
    assert!(layout.lines.iter().any(|line| !line.link_indices.is_empty()));
}

#[test]
fn toc_follows_headings_in_reading_order() {
    let source = "# One\n\n> ## Two\n\n- ### Three\n\n[^n]: #### Four\n\n## Five\n";
    let doc = parse_document(source);
    let layout = layout_document(&doc, &options(30));
    let titles: Vec<&str> = doc.headings.iter().map(|h| h.title.as_str()).collect();
    assert_eq!(titles, vec!["One", "Two", "Three", "Four", "Five"]);
    assert_eq!(layout.toc.len(), doc.headings.len());
    for (entry, heading) in layout.toc.iter().zip(doc.headings.iter()) {
        assert_eq!(entry.title, heading.title);
        assert_eq!(entry.level, heading.level);
    }
    for pair in layout.toc.windows(2) {
        assert!(pair[0].line_index < pair[1].line_index);
    }
}

#[test]
fn ansi_codes_are_exact() {
    let bold_blue = SpanStyle { fg: Some(Color::Ansi(AnsiColor::BrightBlue)), effect: Effect::Bold };
    let rgb = SpanStyle { fg: Some(Color::Rgb(0, 10, 255)), effect: Effect::Plain };
    let line = LayoutLine {
        spans: vec![
            styled("a".to_string(), bold_blue, None),
            styled("b".to_string(), rgb, None),
            styled("c".to_string(), SpanStyle { fg: Some(Color::Ansi(AnsiColor::Red)), effect: Effect::Italic }, None),
        ],
        plain_text: "abc".to_string(),
        link_indices: vec![],
    };
    assert_eq!(
        line.to_ansi_string(),
        "\x1b[1m\x1b[94ma\x1b[38;2;0;10;255mb\x1b[3m\x1b[31mc"
    );
}
