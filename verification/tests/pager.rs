use kaku::app::AppState;
use kaku::input::{KeyCode, KeyPress, PromptAction, PromptState};
use kaku::layout::{layout_document, LayoutOptions};
use kaku::pager::{
    body_rows, command_for_key, handle_key, note_link_opened, panel_widths, printed_lines, status_line,
    toc_panel_rows, truncate, truncate_ansi, Command, PagerRequest,
};
use kaku::parse::parse_document;
use kaku::theme::ThemeName;

fn key(code: KeyCode) -> KeyPress {
    KeyPress { code, control: false, alt: false, other_modifiers: false }
}

fn ch(c: char) -> KeyPress {
    key(KeyCode::Char(c))
}

#[test]
fn print_mode_layout_builds() {
    let doc = parse_document("# Title\n\nhello");
    let layout = layout_document(
        &doc,
        &LayoutOptions { width: 80, theme: ThemeName::Dark, syntax_highlighting: false },
    );
    let lines = printed_lines(&layout, false);
    assert_eq!(lines.len(), layout.lines.len());
    assert!(lines.iter().any(|line| line.contains("hello")));
    assert_eq!(printed_lines(&layout, true), vec!["Title".to_string()]);
}

#[test]
fn ansi_truncation_keeps_reset() {
    let text = "\u{1b}[31mhello\u{1b}[0m";
    assert!(truncate_ansi(text, 3).ends_with("\u{1b}[0m"));
}

#[test]
fn ansi_truncation_counts_only_visible_characters() {
    let text = "\u{1b}[31mhello\u{1b}[0m";
    assert_eq!(truncate_ansi(text, 3), "\u{1b}[31mhel\u{1b}[0m");
    assert_eq!(truncate_ansi(text, 10), "\u{1b}[31mhello\u{1b}[0m\u{1b}[0m");
    assert_eq!(truncate_ansi("abc", 0), "\u{1b}[0m");
    assert_eq!(truncate_ansi("ab\u{1b}[1mcd", 2), "ab\u{1b}[1m\u{1b}[0m");
    assert_eq!(truncate_ansi("", 5), "\u{1b}[0m");
}

#[test]
fn truncation_counts_characters() {
    assert_eq!(truncate("héllo", 2), "hé");
    assert_eq!(truncate("hi", 5), "hi");
    assert_eq!(truncate("hi", 0), "");
}

#[test]
fn keys_map_to_commands() {
    assert_eq!(command_for_key(ch('q'), false), Command::Quit);
    assert_eq!(command_for_key(ch('j'), false), Command::ScrollDown);
    assert_eq!(command_for_key(ch('j'), true), Command::NextEntry);
    assert_eq!(command_for_key(key(KeyCode::Up), true), Command::PreviousEntry);
    assert_eq!(command_for_key(ch(' '), false), Command::PageDown);
    assert_eq!(command_for_key(ch('g'), false), Command::Top);
    let ctrl_g = KeyPress { code: KeyCode::Char('g'), control: true, alt: false, other_modifiers: false };
    assert_eq!(command_for_key(ctrl_g, false), Command::Nothing);
    assert_eq!(command_for_key(key(KeyCode::End), false), Command::Bottom);
    assert_eq!(command_for_key(key(KeyCode::Enter), false), Command::Nothing);
    assert_eq!(command_for_key(key(KeyCode::Enter), true), Command::JumpToEntry);
    assert_eq!(command_for_key(key(KeyCode::Esc), true), Command::ToggleToc);
    assert_eq!(command_for_key(ch('/'), false), Command::Search);
    assert_eq!(command_for_key(ch('x'), false), Command::Nothing);
}

#[test]
fn prompt_edits_and_submits() {
    let mut prompt = PromptState::new();
    assert!(matches!(prompt.handle_key(ch('a')), PromptAction::Continue));
    assert!(matches!(prompt.handle_key(ch('b')), PromptAction::Continue));
    assert_eq!(prompt.value(), "ab");
    prompt.handle_key(key(KeyCode::Backspace));
    assert_eq!(prompt.value(), "a");
    let alt_x = KeyPress { code: KeyCode::Char('x'), control: false, alt: true, other_modifiers: false };
    prompt.handle_key(alt_x);
    assert_eq!(prompt.value(), "a");
    match prompt.handle_key(key(KeyCode::Enter)) {
        PromptAction::Submit(query) => assert_eq!(query, "a"),
        other => panic!("expected submit, got {other:?}"),
    }
    let ctrl_u = KeyPress { code: KeyCode::Char('u'), control: true, alt: false, other_modifiers: false };
    prompt.handle_key(ctrl_u);
    assert_eq!(prompt.value(), "");
    assert!(matches!(prompt.handle_key(key(KeyCode::Esc)), PromptAction::Cancel));
}

#[test]
fn search_prompt_runs_the_query() {
    let doc = parse_document("# One\n\nHello\n\n# Two\n\nWorld\n");
    let mut app = AppState::new(doc, 80, 3, ThemeName::Dark, false, false);
    let mut prompt = None;
    assert!(matches!(handle_key(ch('/'), &mut app, &mut prompt, true), PagerRequest::Continue));
    assert!(prompt.is_some());
    for c in "world".chars() {
        handle_key(ch(c), &mut app, &mut prompt, true);
    }
    assert_eq!(prompt.as_ref().unwrap().value(), "world");
    handle_key(key(KeyCode::Enter), &mut app, &mut prompt, true);
    assert!(prompt.is_none());
    assert_eq!(app.search.matches.len(), 1);
    assert!(app.scroll > 0);

    handle_key(ch('/'), &mut app, &mut prompt, true);
    handle_key(key(KeyCode::Esc), &mut app, &mut prompt, true);
    assert!(prompt.is_none());
    assert_eq!(app.status, "search cancelled");
}

#[test]
fn pager_keys_request_quit_open_and_reload() {
    let doc = parse_document("[site](https://example.com)\n");
    let mut app = AppState::new(doc, 80, 10, ThemeName::Dark, false, false);
    let mut prompt = None;
    let before = app.status.clone();
    match handle_key(ch('o'), &mut app, &mut prompt, true) {
        PagerRequest::OpenLink(dest) => {
            assert_eq!(app.status, before);
            assert_eq!(dest, "https://example.com");
            note_link_opened(&mut app, &dest);
        }
        other => panic!("expected a link, got {other:?}"),
    }
    assert_eq!(app.status, "opened https://example.com");
    assert!(matches!(handle_key(ch('r'), &mut app, &mut prompt, true), PagerRequest::Reload));
    assert!(matches!(handle_key(ch('r'), &mut app, &mut prompt, false), PagerRequest::Continue));
    assert_eq!(app.status, "reload is only available for files");
    assert!(matches!(handle_key(ch('q'), &mut app, &mut prompt, true), PagerRequest::Quit));

    let mut plain = AppState::new(parse_document("text"), 80, 10, ThemeName::Dark, false, false);
    handle_key(ch('o'), &mut plain, &mut prompt, true);
    assert_eq!(plain.status, "no visible link");
}

#[test]
fn status_line_is_fitted_to_the_width() {
    let app = AppState::new(parse_document("# A\n"), 80, 10, ThemeName::Dark, false, false);
    let line = status_line(&app, &None, 60);
    assert_eq!(line.chars().count(), 60);
    assert!(line.starts_with("Press / to search, t for TOC, q to quit  [1 / 2]"));
    assert_eq!(status_line(&app, &None, 5), "Press");
    let mut prompt = PromptState::new();
    prompt.handle_key(ch('x'));
    assert_eq!(status_line(&app, &Some(prompt), 4), "/x  ");
}

#[test]
fn toc_panel_marks_the_selection() {
    let doc = parse_document("# A\n\n## B\n");
    let app = AppState::new(doc, 80, 10, ThemeName::Dark, false, true);
    let rows = toc_panel_rows(&app, 10, 5);
    assert_eq!(rows.len(), 2);
    assert!(rows[0].selected);
    assert_eq!(rows[0].text, "\u{203a} A     ");
    assert!(!rows[1].selected);
    assert_eq!(rows[1].text, "    B     ");
    assert_eq!(panel_widths(100, true), (30, 70));
    assert_eq!(panel_widths(20, true), (20, 0));
    assert_eq!(panel_widths(100, false), (0, 100));
}

#[test]
fn body_rows_follow_the_visible_lines() {
    let doc = parse_document("# Title\n\nhello");
    let app = AppState::new(doc, 80, 10, ThemeName::Dark, false, false);
    let rows = body_rows(&app, 3);
    assert_eq!(rows.len(), app.visible_lines().len());
    assert!(rows[0].ends_with("\u{1b}[0m"));
    assert_eq!(rows[1], "");
}
