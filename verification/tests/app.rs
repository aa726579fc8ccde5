use kaku::app::AppState;
use kaku::parse::parse_document;
use kaku::theme::ThemeName;

fn long_doc() -> String {
    let mut text = String::new();
    for i in 0..20 {
        text.push_str(&format!("# Part {i}\n\nline {i}\n\n"));
    }
    text
}

#[test]
fn search_moves_scroll() {
    let doc = parse_document("# One\n\nHello\n\n# Two\n\nWorld\n");
    let mut app = AppState::new(doc, 80, 3, ThemeName::Dark, false, false);
    app.apply_search_query("world".to_string());

    assert_eq!(app.search.matches.len(), 1);
    assert!(app.scroll > 0);
}

#[test]
fn toc_jump_uses_selected_entry() {
    let doc = parse_document("# One\n\n## Two\n");
    let mut app = AppState::new(doc, 80, 2, ThemeName::Dark, false, true);
    app.select_next_toc();
    app.jump_to_selected_toc();

    assert!(app.scroll > 0);
}

#[test]
fn new_state_starts_at_the_top() {
    let app = AppState::new(parse_document("# A\n"), 80, 10, ThemeName::Dark, false, false);
    assert_eq!(app.scroll, 0);
    assert_eq!(app.viewport_height, 9);
    assert_eq!(app.status, "Press / to search, t for TOC, q to quit");
    assert_eq!(app.toc_selected, 0);
    assert!(app.search.matches.is_empty());
}

#[test]
fn scrolling_stays_in_range() {
    let mut app = AppState::new(parse_document(&long_doc()), 80, 11, ThemeName::Dark, false, false);
    let lines = app.layout.lines.len();
    let max = lines - 10;
    app.scroll_down(3);
    assert_eq!(app.scroll, 3);
    app.scroll_up(5);
    assert_eq!(app.scroll, 0);
    app.scroll_down(usize::MAX / 2);
    assert_eq!(app.scroll, max);
    app.go_top();
    assert_eq!(app.scroll, 0);
    app.page_down();
    assert_eq!(app.scroll, 9);
    app.page_up();
    assert_eq!(app.scroll, 0);
    app.go_bottom();
    assert_eq!(app.scroll, max);
    assert_eq!(app.visible_lines().len(), 10);
}

#[test]
fn scrolling_selects_the_heading_above() {
    let mut app = AppState::new(parse_document(&long_doc()), 80, 11, ThemeName::Dark, false, true);
    let third = app.layout.toc[2].line_index;
    app.scroll_down(third);
    assert_eq!(app.toc_selected, 2);
    app.scroll_down(1);
    assert_eq!(app.toc_selected, 2);
    app.select_prev_toc();
    assert_eq!(app.toc_selected, 1);
    app.jump_to_selected_toc();
    assert_eq!(app.scroll, app.layout.toc[1].line_index);
    assert_eq!(app.status, "jumped to Part 1");
}

#[test]
fn search_results_cycle_both_ways() {
    let mut app = AppState::new(parse_document(&long_doc()), 80, 5, ThemeName::Dark, false, false);
    app.apply_search_query("LINE 1".to_string());
    let count = app.search.matches.len();
    assert_eq!(count, 11);
    assert!(app.search.matches.windows(2).all(|pair| pair[0] < pair[1]));
    assert_eq!(app.status, "11 matches");
    app.next_search_match();
    assert_eq!(app.search.current, 1);
    assert_eq!(app.status, "match 2 of 11");
    app.previous_search_match();
    assert_eq!(app.search.current, 0);
    app.previous_search_match();
    assert_eq!(app.search.current, count - 1);
    app.next_search_match();
    assert_eq!(app.search.current, 0);
    assert_eq!(app.status, "match 1 of 11");
}

#[test]
fn search_reports_empty_invalid_and_missing() {
    let mut app = AppState::new(parse_document(&long_doc()), 80, 5, ThemeName::Dark, false, false);
    app.apply_search_query("nothing here".to_string());
    assert_eq!(app.status, "no matches");
    app.next_search_match();
    assert_eq!(app.status, "no matches");
    app.apply_search_query("(".to_string());
    assert!(app.status.starts_with("invalid search: "));
    app.apply_search_query(String::new());
    assert_eq!(app.status, "search cleared");
    assert!(app.search.matches.is_empty());
}

#[test]
fn resize_keeps_scroll_in_range() {
    let mut app = AppState::new(parse_document(&long_doc()), 80, 5, ThemeName::Dark, false, false);
    app.go_bottom();
    app.resize(80, 200);
    assert_eq!(app.viewport_height, 199);
    assert_eq!(app.scroll, 0);
}

#[test]
fn replacing_the_document_reports_and_searches_again() {
    let mut app = AppState::new(parse_document("# A\n\nalpha\n"), 80, 5, ThemeName::Dark, false, false);
    app.apply_search_query("beta".to_string());
    assert_eq!(app.status, "no matches");
    app.replace_document(parse_document("# B\n\nbeta\n"), 80);
    assert_eq!(app.search.matches.len(), 1);
    assert_eq!(app.status, "1 matches");
    assert_eq!(app.document.headings[0].title, "B");
}

#[test]
fn first_visible_link_is_in_line_order() {
    let doc = parse_document("# T\n\n[one](https://one.example)\n\n[two](https://two.example)\n");
    let mut app = AppState::new(doc, 80, 20, ThemeName::Dark, false, false);
    assert_eq!(app.first_visible_link(), Some(0));
    let second = app
        .layout
        .lines
        .iter()
        .position(|line| line.link_indices == vec![1])
        .unwrap();
    app.scroll_down(second);
    if app.scroll == second {
        assert_eq!(app.first_visible_link(), Some(1));
    }
    let empty = AppState::new(parse_document("no links"), 80, 5, ThemeName::Dark, false, false);
    assert_eq!(empty.first_visible_link(), None);
}

#[test]
fn toggling_the_panel() {
    let mut app = AppState::new(parse_document("# A\n"), 80, 5, ThemeName::Dark, false, false);
    app.toggle_toc();
    assert!(app.toc_open);
    assert_eq!(app.toc_entries().len(), 1);
    app.toggle_toc();
    assert!(!app.toc_open);
}
