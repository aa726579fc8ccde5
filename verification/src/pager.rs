//! The full-screen pager's decisions: what a key does, and what each part of
//! the screen shows.  Drawing, polling the terminal and reading files are
//! left to the program that runs the pager.

use vstd::prelude::*;

use crate::app::{first_link, min_usize, page_step, realigned, AppState, ViewState};
use crate::app::{moved_to_match, next_match_index, previous_match_index, searched};
use crate::input::{edited, KeyCode, KeyPress, PromptAction, PromptState};
use crate::layout::{pad_right, toc_view, Layout, TocV};
use crate::text::{chars_of, decimal, push_decimal, repeat_char, repeat_string, string_from_range};
use crate::wrap::{ansi_text, has_visible, has_visible_text, lines_view};

verus! {

// ---------------------------------------------------------------------
// Cutting text to the screen's width
// ---------------------------------------------------------------------

/// The first `n` characters of a text (all of it when it is shorter).
pub open spec fn take_chars(s: Seq<char>, n: nat) -> Seq<char> {
    if n < s.len() {
        s.take(n as int)
    } else {
        s
    }
}

/// The first `width` characters of a text.
pub fn truncate(input: &str, width: usize) -> (r: String)
    ensures
        r@ == take_chars(input@, width as nat),
{
    let cs = chars_of(input);
    let end = if width < cs.len() {
        width
    } else {
        cs.len()
    };
    let r = string_from_range(&cs, 0, end);
    assert(cs@.subrange(0, end as int) =~= take_chars(input@, width as nat));
    r
}

/// The text from position `i` on, cut after `width - visible` more visible
/// characters: an escape character and everything up to and including the
/// next `m` pass through without counting, as does every character of an
/// escape sequence still open (`in_escape`).
pub open spec fn ansi_cut(s: Seq<char>, i: int, in_escape: bool, visible: nat, width: nat) -> Seq<
    char,
>
    decreases s.len() - i,
{
    if i < 0 || i >= s.len() {
        Seq::empty()
    } else if in_escape {
        seq![s[i]] + ansi_cut(s, i + 1, s[i] != 'm', visible, width)
    } else if s[i] == '\u{1b}' {
        seq![s[i]] + ansi_cut(s, i + 1, true, visible, width)
    } else if visible >= width {
        Seq::empty()
    } else {
        seq![s[i]] + ansi_cut(s, i + 1, false, visible + 1, width)
    }
}

/// The reset code.
pub open spec fn reset_code() -> Seq<char> {
    seq!['\u{1b}', '[', '0', 'm']
}

/// ANSI text cut to `width` visible characters, with a reset at the end.
pub open spec fn truncated_ansi(s: Seq<char>, width: nat) -> Seq<char> {
    ansi_cut(s, 0, false, 0, width) + reset_code()
}

/// The number of characters of ANSI text that show on screen: those outside
/// escape sequences, which run from an escape character to the next `m`.
pub open spec fn visible_count(s: Seq<char>, in_escape: bool) -> nat
    decreases s.len(),
{
    if s.len() == 0 {
        0
    } else if in_escape {
        visible_count(s.drop_first(), s[0] != 'm')
    } else if s[0] == '\u{1b}' {
        visible_count(s.drop_first(), true)
    } else {
        1 + visible_count(s.drop_first(), false)
    }
}

proof fn lemma_reset_invisible(in_escape: bool)
    ensures
        visible_count(reset_code(), in_escape) == 0,
{
    let r = reset_code();
    assert(r.drop_first() =~= seq!['[', '0', 'm']);
    assert(r.drop_first().drop_first() =~= seq!['0', 'm']);
    assert(r.drop_first().drop_first().drop_first() =~= seq!['m']);
    assert(r.drop_first().drop_first().drop_first().drop_first() =~= Seq::<char>::empty());
    reveal_with_fuel(visible_count, 5);
}

proof fn lemma_cut_visible(s: Seq<char>, i: int, in_escape: bool, visible: nat, width: nat)
    requires
        visible <= width,
    ensures
        visible_count(ansi_cut(s, i, in_escape, visible, width) + reset_code(), in_escape) <= width
            - visible,
    decreases s.len() - i,
{
    let cut = ansi_cut(s, i, in_escape, visible, width);
    if i < 0 || i >= s.len() {
        assert(cut + reset_code() =~= reset_code());
        lemma_reset_invisible(in_escape);
    } else if in_escape {
        let rest = ansi_cut(s, i + 1, s[i] != 'm', visible, width);
        lemma_cut_visible(s, i + 1, s[i] != 'm', visible, width);
        assert((cut + reset_code()).drop_first() =~= rest + reset_code());
    } else if s[i] == '\u{1b}' {
        let rest = ansi_cut(s, i + 1, true, visible, width);
        lemma_cut_visible(s, i + 1, true, visible, width);
        assert((cut + reset_code()).drop_first() =~= rest + reset_code());
    } else if visible >= width {
        assert(cut + reset_code() =~= reset_code());
        lemma_reset_invisible(in_escape);
    } else {
        let rest = ansi_cut(s, i + 1, false, visible + 1, width);
        lemma_cut_visible(s, i + 1, false, visible + 1, width);
        assert((cut + reset_code()).drop_first() =~= rest + reset_code());
    }
}

/// Cutting ANSI text to a width never shows more than that many characters.
pub proof fn lemma_truncated_ansi_fits(s: Seq<char>, width: nat)
    ensures
        visible_count(truncated_ansi(s, width), false) <= width,
{
    lemma_cut_visible(s, 0, false, 0, width);
}

/// Cuts ANSI text to `width` visible characters and ends it with a reset
/// (see `truncated_ansi`).
pub fn truncate_ansi(input: &str, width: usize) -> (r: String)
    ensures
        r@ == truncated_ansi(input@, width as nat),
        r@.len() >= 4 && r@.skip(r@.len() - 4) == reset_code(),
{
    let cs = chars_of(input);
    let ghost whole = ansi_cut(cs@, 0, false, 0, width as nat);
    let mut out = String::new();
    let mut i: usize = 0;
    let mut in_escape = false;
    let mut visible: usize = 0;
    while i < cs.len()
        invariant
            i <= cs.len(),
            cs@ == input@,
            visible <= width,
            whole == ansi_cut(cs@, 0, false, 0, width as nat),
            out@ + ansi_cut(cs@, i as int, in_escape, visible as nat, width as nat) == whole,
        ensures
            out@ == whole,
        decreases cs.len() - i,
    {
        let c = cs[i];
        let ghost before = out@;
        if in_escape {
            out.push(c);
            in_escape = c != 'm';
        } else if c == '\u{1b}' {
            out.push(c);
            in_escape = true;
        } else if visible >= width {
            assert(before =~= before + Seq::<char>::empty());
            break;
        } else {
            visible += 1;
            out.push(c);
        }
        assert(out@ =~= before + seq![c]);
        i += 1;
        proof {
            if i >= cs.len() {
                assert(out@ =~= out@ + Seq::<char>::empty());
            }
        }
    }
    out.push('\u{1b}');
    out.push('[');
    out.push('0');
    out.push('m');
    assert(out@ =~= whole + reset_code());
    assert(out@.skip(out@.len() - 4) =~= reset_code());
    out
}

// ---------------------------------------------------------------------
// Keys
// ---------------------------------------------------------------------

/// What a key asks the pager to do.
#[derive(Debug, Clone, Copy, PartialEq, Eq, Structural)]
pub enum Command {
    Quit,
    ScrollDown,
    ScrollUp,
    NextEntry,
    PreviousEntry,
    PageDown,
    PageUp,
    Top,
    Bottom,
    Search,
    NextMatch,
    PreviousMatch,
    ToggleToc,
    JumpToEntry,
    OpenLink,
    Reload,
    Nothing,
}

/// The command of a character key.  `j` and `k` move the selection in the
/// table of contents while it is open, and scroll otherwise; `g` needs no
/// modifier.
pub open spec fn char_command(c: char, plain: bool, toc_open: bool) -> Command {
    if c == 'q' {
        Command::Quit
    } else if c == 'j' {
        if toc_open {
            Command::NextEntry
        } else {
            Command::ScrollDown
        }
    } else if c == 'k' {
        if toc_open {
            Command::PreviousEntry
        } else {
            Command::ScrollUp
        }
    } else if c == ' ' {
        Command::PageDown
    } else if c == 'g' {
        if plain {
            Command::Top
        } else {
            Command::Nothing
        }
    } else if c == 'G' {
        Command::Bottom
    } else if c == '/' {
        Command::Search
    } else if c == 'n' {
        Command::NextMatch
    } else if c == 'N' {
        Command::PreviousMatch
    } else if c == 't' {
        Command::ToggleToc
    } else if c == 'o' {
        Command::OpenLink
    } else if c == 'r' {
        Command::Reload
    } else {
        Command::Nothing
    }
}

/// `G` and End go to the bottom of the document and a plain `g` to its top,
/// whether or not the table of contents is open: the command they run
/// leaves the pager scrolled to the last scroll offset, or to the first.
pub proof fn lemma_g_keys_go_to_ends(
    key: KeyPress,
    toc_open: bool,
    a: AppState,
    b: AppState,
    r: PagerRequest,
    reload_available: bool,
)
    requires
        command_done(key_command(key, toc_open), a, b, r, reload_available),
    ensures
        key.code == KeyCode::Char('G') || key.code == KeyCode::End ==> r is Continue && b.scroll
            == a.spec_max_scroll(),
        key.code == KeyCode::Char('g') && key.spec_plain() ==> r is Continue && b.scroll == 0,
{
}

/// The other pager keys do what the help lists, as seen in the scroll
/// position: with the table of contents closed `j` and Down scroll one line
/// down and `k` and Up one line up; space and Page Down move a page down and
/// Page Up a page up, never past either end; `t` opens or closes the table
/// of contents without scrolling; `q` quits and changes nothing.
pub proof fn lemma_pager_keys(
    key: KeyPress,
    toc_open: bool,
    a: AppState,
    b: AppState,
    r: PagerRequest,
    reload_available: bool,
)
    requires
        command_done(key_command(key, toc_open), a, b, r, reload_available),
    ensures
        (key.code == KeyCode::Char('j') || key.code == KeyCode::Down) && !toc_open ==> b.scroll
            == min_usize((a.scroll + 1) as usize, a.spec_max_scroll()),
        (key.code == KeyCode::Char('k') || key.code == KeyCode::Up) && !toc_open ==> b.scroll
            == a.scroll.saturating_sub(1),
        key.code == KeyCode::Char(' ') || key.code == KeyCode::PageDown ==> b.scroll == min_usize(
            (a.scroll + page_step(a.viewport_height)) as usize,
            a.spec_max_scroll(),
        ),
        key.code == KeyCode::PageUp ==> b.scroll == a.scroll.saturating_sub(
            page_step(a.viewport_height),
        ),
        key.code == KeyCode::Char('t') ==> b.toc_open == !a.toc_open && b.scroll == a.scroll,
        key.code == KeyCode::Char('q') ==> r is Quit && b == a,
        key.code == KeyCode::Char('r') && reload_available ==> r is Reload && b == a,
        key.code == KeyCode::Char('n') && 0 < a.search.matches@.len() <= usize::MAX ==> b.search.current == (
        a.search.current + 1) % (a.search.matches@.len() as int) && b.scroll == min_usize(
            a.search.matches@[b.search.current as int],
            a.spec_max_scroll(),
        ),
        key.code == KeyCode::Char('N') && 0 < a.search.matches@.len() <= usize::MAX ==> b.search.current == (
        if a.search.current == 0 {
            a.search.matches@.len() - 1
        } else {
            a.search.current - 1
        }) && b.scroll == min_usize(
            a.search.matches@[b.search.current as int],
            a.spec_max_scroll(),
        ),
        key.code == KeyCode::Enter && toc_open && a.toc_selected < a.layout.toc@.len()
            ==> b.scroll == min_usize(
            a.layout.toc@[a.toc_selected as int].line_index,
            a.spec_max_scroll(),
        ),
{
}

/// The pager's key map.  Enter jumps to the selected entry and escape closes
/// the table of contents, both only while it is open.
pub open spec fn key_command(key: KeyPress, toc_open: bool) -> Command {
    match key.code {
        KeyCode::Char(c) => char_command(c, key.spec_plain(), toc_open),
        KeyCode::Down => if toc_open {
            Command::NextEntry
        } else {
            Command::ScrollDown
        },
        KeyCode::Up => if toc_open {
            Command::PreviousEntry
        } else {
            Command::ScrollUp
        },
        KeyCode::PageDown => Command::PageDown,
        KeyCode::PageUp => Command::PageUp,
        KeyCode::End => Command::Bottom,
        KeyCode::Enter => if toc_open {
            Command::JumpToEntry
        } else {
            Command::Nothing
        },
        KeyCode::Esc => if toc_open {
            Command::ToggleToc
        } else {
            Command::Nothing
        },
        _ => Command::Nothing,
    }
}

/// The command of a key (see `key_command`).
pub fn command_for_key(key: KeyPress, toc_open: bool) -> (r: Command)
    ensures
        r == key_command(key, toc_open),
{
    match key.code {
        KeyCode::Char(c) => {
            let plain = !key.control && !key.alt && !key.other_modifiers;
            if c == 'q' {
                Command::Quit
            } else if c == 'j' {
                if toc_open {
                    Command::NextEntry
                } else {
                    Command::ScrollDown
                }
            } else if c == 'k' {
                if toc_open {
                    Command::PreviousEntry
                } else {
                    Command::ScrollUp
                }
            } else if c == ' ' {
                Command::PageDown
            } else if c == 'g' {
                if plain {
                    Command::Top
                } else {
                    Command::Nothing
                }
            } else if c == 'G' {
                Command::Bottom
            } else if c == '/' {
                Command::Search
            } else if c == 'n' {
                Command::NextMatch
            } else if c == 'N' {
                Command::PreviousMatch
            } else if c == 't' {
                Command::ToggleToc
            } else if c == 'o' {
                Command::OpenLink
            } else if c == 'r' {
                Command::Reload
            } else {
                Command::Nothing
            }
        },
        KeyCode::Down => if toc_open {
            Command::NextEntry
        } else {
            Command::ScrollDown
        },
        KeyCode::Up => if toc_open {
            Command::PreviousEntry
        } else {
            Command::ScrollUp
        },
        KeyCode::PageDown => Command::PageDown,
        KeyCode::PageUp => Command::PageUp,
        KeyCode::End => Command::Bottom,
        KeyCode::Enter => if toc_open {
            Command::JumpToEntry
        } else {
            Command::Nothing
        },
        KeyCode::Esc => if toc_open {
            Command::ToggleToc
        } else {
            Command::Nothing
        },
        _ => Command::Nothing,
    }
}

/// What the program running the pager must do after a key.
#[derive(Debug, Clone)]
pub enum PagerRequest {
    Continue,
    Quit,
    /// Open this link target with the system's opener, then report it with
    /// `note_link_opened`.
    OpenLink(String),
    /// Read the file again and show it with `replace_document`.
    Reload,
}

/// `b` is `a` scrolled to `scroll`, the table-of-contents selection
/// following it.
pub open spec fn moved(a: AppState, b: AppState, scroll: usize) -> bool {
    &&& b.scroll == scroll
    &&& b.toc_selected == realigned(toc_view(a.layout.toc@), scroll, a.toc_selected)
    &&& b.status@ == a.status@
    &&& b.unchanged_except_scroll_view(&a)
}

/// `b` is `a` with only the status line changed, to `status`.
pub open spec fn with_status(a: AppState, b: AppState, status: Seq<char>) -> bool {
    &&& b.status@ == status
    &&& b.scroll == a.scroll
    &&& b.toc_selected == a.toc_selected
    &&& b.unchanged_except_scroll_view(&a)
}

/// The first link on the screen.
pub open spec fn visible_link(a: AppState) -> Option<usize> {
    first_link(
        lines_view(a.layout.lines@).subrange(
            a.scroll as int,
            min_usize((a.scroll + a.viewport_height) as usize, a.layout.lines@.len() as usize)
                as int,
        ),
    )
}

/// What a command does to the pager state `a`, giving `b` and the request
/// `r`.
pub open spec fn command_done(
    cmd: Command,
    a: AppState,
    b: AppState,
    r: PagerRequest,
    reload_available: bool,
) -> bool {
    match cmd {
        Command::Quit => r is Quit && b == a,
        Command::ScrollDown => r is Continue && moved(
            a,
            b,
            min_usize((a.scroll + 1) as usize, a.spec_max_scroll()),
        ),
        Command::ScrollUp => r is Continue && moved(a, b, a.scroll.saturating_sub(1)),
        Command::NextEntry => {
            &&& r is Continue
            &&& b.toc_selected == (if a.layout.toc@.len() > 0 {
                min_usize((a.toc_selected + 1) as usize, (a.layout.toc@.len() - 1) as usize)
            } else {
                a.toc_selected
            })
            &&& b.scroll == a.scroll
            &&& b.status@ == a.status@
            &&& b.unchanged_except_scroll_view(&a)
        },
        Command::PreviousEntry => {
            &&& r is Continue
            &&& b.toc_selected == a.toc_selected.saturating_sub(1)
            &&& b.scroll == a.scroll
            &&& b.status@ == a.status@
            &&& b.unchanged_except_scroll_view(&a)
        },
        Command::PageDown => r is Continue && moved(
            a,
            b,
            min_usize((a.scroll + page_step(a.viewport_height)) as usize, a.spec_max_scroll()),
        ),
        Command::PageUp => r is Continue && moved(
            a,
            b,
            a.scroll.saturating_sub(page_step(a.viewport_height)),
        ),
        Command::Top => r is Continue && moved(a, b, 0),
        Command::Bottom => r is Continue && moved(a, b, a.spec_max_scroll()),
        Command::NextMatch => {
            &&& r is Continue
            &&& b.same_content(&a)
            &&& if a.search.matches@.len() == 0 {
                b.view_state() == (ViewState { status: "no matches"@, ..a.view_state() })
            } else {
                b.view_state() == moved_to_match(
                    a.view_state(),
                    next_match_index(a.search.current, a.search.matches@.len()),
                    toc_view(a.layout.toc@),
                    a.spec_max_scroll(),
                )
            }
        },
        Command::PreviousMatch => {
            &&& r is Continue
            &&& b.same_content(&a)
            &&& if a.search.matches@.len() == 0 {
                b.view_state() == (ViewState { status: "no matches"@, ..a.view_state() })
            } else {
                b.view_state() == moved_to_match(
                    a.view_state(),
                    previous_match_index(a.search.current, a.search.matches@.len()),
                    toc_view(a.layout.toc@),
                    a.spec_max_scroll(),
                )
            }
        },
        Command::ToggleToc => {
            &&& r is Continue
            &&& b.toc_open == !a.toc_open
            &&& b.scroll == a.scroll
            &&& b.toc_selected == realigned(toc_view(a.layout.toc@), a.scroll, a.toc_selected)
            &&& b.status@ == a.status@
            &&& b.document@ == a.document@
            &&& b.layout@ == a.layout@
            &&& b.viewport_height == a.viewport_height
            &&& b.search.query@ == a.search.query@
            &&& b.search.matches@ == a.search.matches@
            &&& b.search.current == a.search.current
            &&& b.theme == a.theme
            &&& b.syntax_highlighting == a.syntax_highlighting
        },
        Command::JumpToEntry => {
            &&& r is Continue
            &&& if a.toc_selected < a.layout.toc@.len() {
                let entry = toc_view(a.layout.toc@)[a.toc_selected as int];
                &&& b.scroll == min_usize(entry.line_index, a.spec_max_scroll())
                &&& b.status@ == "jumped to "@ + entry.title
            } else {
                b.scroll == a.scroll && b.status@ == a.status@
            }
            &&& b.toc_selected == a.toc_selected
            &&& b.unchanged_except_scroll_view(&a)
        },
        Command::OpenLink => match visible_link(a) {
            None => r is Continue && with_status(a, b, "no visible link"@),
            Some(i) => if i < a.document.links@.len() {
                let dest = a.document.links@[i as int].destination@;
                &&& r matches PagerRequest::OpenLink(d) && d@ == dest
                &&& b == a
            } else {
                r is Continue && b == a
            },
        },
        Command::Reload => if reload_available {
            r is Reload && b == a
        } else {
            r is Continue && with_status(a, b, "reload is only available for files"@)
        },
        Command::Search => r is Continue && b == a,
        Command::Nothing => r is Continue && b == a,
    }
}

/// Carries out a command on the pager state (see `command_done`).  Opening
/// the search prompt is left to `handle_key`.
pub fn run_command(app: &mut AppState, cmd: Command, reload_available: bool) -> (r: PagerRequest)
    requires
        old(app).wf(),
    ensures
        command_done(cmd, *old(app), *final(app), r, reload_available),
        final(app).wf(),
{
    match cmd {
        Command::Quit => PagerRequest::Quit,
        Command::ScrollDown => {
            app.scroll_down(1);
            PagerRequest::Continue
        },
        Command::ScrollUp => {
            app.scroll_up(1);
            PagerRequest::Continue
        },
        Command::NextEntry => {
            app.select_next_toc();
            PagerRequest::Continue
        },
        Command::PreviousEntry => {
            app.select_prev_toc();
            PagerRequest::Continue
        },
        Command::PageDown => {
            app.page_down();
            PagerRequest::Continue
        },
        Command::PageUp => {
            app.page_up();
            PagerRequest::Continue
        },
        Command::Top => {
            app.go_top();
            PagerRequest::Continue
        },
        Command::Bottom => {
            app.go_bottom();
            PagerRequest::Continue
        },
        Command::NextMatch => {
            assert(app.search.matches@.len() == app.search.matches.len());
            app.next_search_match();
            PagerRequest::Continue
        },
        Command::PreviousMatch => {
            app.previous_search_match();
            PagerRequest::Continue
        },
        Command::ToggleToc => {
            app.toggle_toc();
            PagerRequest::Continue
        },
        Command::JumpToEntry => {
            app.jump_to_selected_toc();
            PagerRequest::Continue
        },
        Command::OpenLink => match app.first_visible_link() {
            None => {
                app.status = "no visible link".to_string();
                PagerRequest::Continue
            },
            Some(i) => {
                if i < app.document.links.len() {
                    let dest = app.document.links[i].destination.clone();
                    PagerRequest::OpenLink(dest)
                } else {
                    PagerRequest::Continue
                }
            },
        },
        Command::Reload => {
            if reload_available {
                PagerRequest::Reload
            } else {
                app.status = "reload is only available for files".to_string();
                PagerRequest::Continue
            }
        },
        Command::Search => PagerRequest::Continue,
        Command::Nothing => PagerRequest::Continue,
    }
}

/// Records on the status line that a link target was opened; the program
/// calls it once the opener has succeeded.
pub fn note_link_opened(app: &mut AppState, destination: &str)
    requires
        old(app).wf(),
    ensures
        with_status(*old(app), *final(app), "opened "@ + destination@),
        final(app).wf(),
{
    let mut status = "opened ".to_string();
    status.append(destination);
    app.status = status;
}

/// Handles a key.  While the search prompt is open the key goes to it:
/// escape closes it and reports the cancel, enter closes it and runs the
/// search, any other key edits the query.  Otherwise `/` opens the prompt
/// and every other key runs its command (see `key_command` and
/// `command_done`).  `reload_available` tells whether the document came from
/// a file.
pub fn handle_key(
    key: KeyPress,
    app: &mut AppState,
    prompt: &mut Option<PromptState>,
    reload_available: bool,
) -> (r: PagerRequest)
    requires
        old(app).wf(),
    ensures
        final(app).wf(),
        match *old(prompt) {
            Some(p) => {
                &&& r is Continue
                &&& key.code == KeyCode::Esc ==> *final(prompt) is None && with_status(
                    *old(app),
                    *final(app),
                    "search cancelled"@,
                )
                &&& key.code == KeyCode::Enter ==> {
                    &&& *final(prompt) is None
                    &&& final(app).search.query@ == p@
                    &&& final(app).view_state() == searched(
                        old(app).view_state(),
                        p@,
                        lines_view(old(app).layout.lines@),
                        toc_view(old(app).layout.toc@),
                        old(app).spec_max_scroll(),
                    )
                    &&& final(app).document@ == old(app).document@
                    &&& final(app).layout@ == old(app).layout@
                    &&& final(app).viewport_height == old(app).viewport_height
                    &&& final(app).toc_open == old(app).toc_open
                    &&& final(app).theme == old(app).theme
                    &&& final(app).syntax_highlighting == old(app).syntax_highlighting
                }
                &&& key.code != KeyCode::Esc && key.code != KeyCode::Enter ==> {
                    &&& *final(prompt) matches Some(q) && q@ == edited(p@, key)
                    &&& *final(app) == *old(app)
                }
            },
            None => {
                let cmd = key_command(key, old(app).toc_open);
                if cmd == Command::Search {
                    &&& r is Continue
                    &&& *final(prompt) matches Some(q) && q@ == Seq::<char>::empty()
                    &&& *final(app) == *old(app)
                } else {
                    &&& *final(prompt) is None
                    &&& command_done(cmd, *old(app), *final(app), r, reload_available)
                }
            },
        },
{
    if prompt.is_some() {
        let mut state = prompt.take().unwrap();
        match state.handle_key(key) {
            PromptAction::Continue => {
                *prompt = Some(state);
            },
            PromptAction::Cancel => {
                app.status = "search cancelled".to_string();
            },
            PromptAction::Submit(query) => {
                app.apply_search_query(query);
            },
        }
        return PagerRequest::Continue;
    }
    let cmd = command_for_key(key, app.toc_open);
    if cmd == Command::Search {
        *prompt = Some(PromptState::new());
        return PagerRequest::Continue;
    }
    run_command(app, cmd, reload_available)
}

// ---------------------------------------------------------------------
// The screen
// ---------------------------------------------------------------------

/// The widths of the table-of-contents panel and of the body: the panel
/// takes up to 30 columns while it is open.
pub fn panel_widths(width: usize, toc_open: bool) -> (r: (usize, usize))
    ensures
        r.0 == (if toc_open {
            min_usize(width, 30)
        } else {
            0
        }),
        r.1 == width - r.0,
{
    let toc_width = if toc_open {
        if width <= 30 {
            width
        } else {
            30
        }
    } else {
        0
    };
    (toc_width, width - toc_width)
}

/// A row of the table-of-contents panel, and whether it shows the selected
/// entry.
#[derive(Debug, Clone)]
pub struct TocRow {
    pub text: String,
    pub selected: bool,
}

/// The first entry the panel shows: the selected entry is on its last row
/// when the panel cannot show everything above it.
pub open spec fn toc_window_start(selected: usize, height: usize) -> usize {
    selected.saturating_sub(height.saturating_sub(1))
}

/// The panel shows the selected entry, as high up as it can: its window
/// begins at or before the selection and reaches past it, it begins at the
/// first entry whenever the selection fits in the panel's height, and
/// otherwise the selection is on its last row.
pub proof fn lemma_toc_window_shows_selection(selected: usize, height: usize)
    requires
        height >= 1,
    ensures
        toc_window_start(selected, height) <= selected,
        selected < toc_window_start(selected, height) + height,
        selected < height ==> toc_window_start(selected, height) == 0,
        selected >= height ==> toc_window_start(selected, height) + height == selected + 1,
{
}

/// The indent of an entry: two spaces per level below the first.
pub open spec fn entry_indent(entry: TocV) -> Seq<char> {
    repeat_char(' ', ((entry.level.spec_number() - 1) * 2) as nat)
}

/// A panel row: a marker (`› ` on the selected entry), the indent, then the
/// title cut and padded to the room left, at least one column.  The room is
/// counted with the marker's length in UTF-8 bytes.
pub open spec fn toc_row_text(entry: TocV, selected: bool, width: usize) -> Seq<char> {
    let indent = entry_indent(entry);
    let marker = if selected {
        seq!['\u{203a}', ' ']
    } else {
        seq![' ', ' ']
    };
    let marker_bytes: int = if selected {
        4
    } else {
        2
    };
    let room = width - (marker_bytes + indent.len());
    let available: nat = if room >= 1 {
        room as nat
    } else {
        1
    };
    marker + indent + pad_right(take_chars(entry.title, available), available)
}

/// The rows of the table-of-contents panel, `height` rows at most, from
/// `toc_window_start` on.
pub fn toc_panel_rows(app: &AppState, width: usize, height: usize) -> (r: Vec<TocRow>)
    requires
        toc_window_start(app.toc_selected, height) + height <= usize::MAX,
        toc_window_start(app.toc_selected, height) <= app.layout.toc@.len(),
    ensures
        ({
            let start = toc_window_start(app.toc_selected, height);
            let end = min_usize((start + height) as usize, app.layout.toc@.len() as usize);
            &&& r@.len() == end - start
            &&& forall|k: int|
                0 <= k < r@.len() ==> {
                    let selected = start + k == app.toc_selected;
                    &&& (#[trigger] r@[k]).selected == selected
                    &&& r@[k].text@ == toc_row_text(
                        toc_view(app.layout.toc@)[start + k],
                        selected,
                        width,
                    )
                }
        }),
{
    let entries = app.toc_entries();
    let start = app.toc_selected.saturating_sub(height.saturating_sub(1));
    let end = if start + height <= entries.len() {
        start + height
    } else {
        entries.len()
    };
    let mut rows: Vec<TocRow> = Vec::new();
    let mut row = start;
    while row < end
        invariant
            start <= row <= end,
            end <= entries@.len(),
            entries@ == app.layout.toc@,
            start == toc_window_start(app.toc_selected, height),
            rows@.len() == row - start,
            forall|k: int|
                0 <= k < rows@.len() ==> {
                    let selected = start + k == app.toc_selected;
                    &&& (#[trigger] rows@[k]).selected == selected
                    &&& rows@[k].text@ == toc_row_text(
                        toc_view(app.layout.toc@)[start + k],
                        selected,
                        width,
                    )
                },
        decreases end - row,
    {
        let entry = &entries[row];
        let selected = row == app.toc_selected;
        let level = entry.level.as_usize();
        let indent = repeat_string(' ', (level - 1) * 2);
        let mut text = if selected {
            "\u{203a} ".to_string()
        } else {
            "  ".to_string()
        };
        let marker_bytes: usize = if selected {
            4
        } else {
            2
        };
        let room = width.saturating_sub(marker_bytes + (level - 1) * 2);
        let available = if room >= 1 {
            room
        } else {
            1
        };
        let title = truncate(entry.title.as_str(), available);
        let padded = crate::layout::pad_to(title, available);
        proof {
            reveal_strlit("\u{203a} ");
            reveal_strlit("  ");
        }
        text.append(indent.as_str());
        text.append(padded.as_str());
        let ghost tv = toc_view(app.layout.toc@)[row as int];
        assert(tv == entry@);
        assert(text@ =~= toc_row_text(tv, selected, width));
        rows.push(TocRow { text, selected });
        row += 1;
    }
    rows
}

/// The status line's text before it is fitted: the prompt with its `/`
/// while searching, else the status, the top line's number and the line
/// count (at least one).
pub open spec fn status_text(a: AppState, prompt: Option<Seq<char>>) -> Seq<char> {
    match prompt {
        Some(v) => seq!['/'] + v,
        None => {
            let count: nat = if a.layout.lines@.len() >= 1 {
                a.layout.lines@.len()
            } else {
                1
            };
            a.status@ + "  ["@ + decimal(a.scroll as nat + 1) + " / "@ + decimal(count) + "]"@
        },
    }
}

/// The status line, cut and padded to the screen's width.
pub fn status_line(app: &AppState, prompt: &Option<PromptState>, width: usize) -> (r: String)
    requires
        app.wf(),
    ensures
        r@ == pad_right(
            take_chars(
                status_text(
                    *app,
                    match *prompt {
                        Some(p) => Some(p@),
                        None => None,
                    },
                ),
                width as nat,
            ),
            width as nat,
        ),
{
    let text = match prompt {
        Some(p) => {
            let mut t = "/".to_string();
            proof {
                reveal_strlit("/");
            }
            t.append(p.value());
            assert(t@ =~= seq!['/'] + p@);
            t
        },
        None => {
            let mut t = app.status.clone();
            t.append("  [");
            push_decimal(&mut t, (app.scroll as u64) + 1);
            t.append(" / ");
            let count = if app.layout.lines.len() >= 1 {
                app.layout.lines.len()
            } else {
                1
            };
            push_decimal(&mut t, count as u64);
            t.append("]");
            t
        },
    };
    let cut = truncate(text.as_str(), width);
    crate::layout::pad_to(cut, width)
}

/// A body row: a line with visible text as ANSI text cut to the width, a
/// blank line as nothing.
pub open spec fn body_row(line: crate::wrap::LineV, width: usize) -> Seq<char> {
    if has_visible(line.plain) {
        truncated_ansi(ansi_text(line.spans), width as nat)
    } else {
        Seq::empty()
    }
}

/// The body rows: one for each line on screen.
pub fn body_rows(app: &AppState, width: usize) -> (r: Vec<String>)
    requires
        app.wf(),
    ensures
        ({
            let end = min_usize(
                (app.scroll + app.viewport_height) as usize,
                app.layout.lines@.len() as usize,
            );
            &&& r@.len() == end - app.scroll
            &&& forall|k: int|
                0 <= k < r@.len() ==> (#[trigger] r@[k])@ == body_row(
                    lines_view(app.layout.lines@)[app.scroll + k],
                    width,
                )
        }),
{
    let lines = app.visible_lines();
    assert(app.layout.lines@.len() == app.layout.lines.len());
    let mut rows: Vec<String> = Vec::new();
    let mut k: usize = 0;
    while k < lines.len()
        invariant
            k <= lines@.len(),
            lines@ == app.layout.lines@.subrange(
                app.scroll as int,
                min_usize(
                    (app.scroll + app.viewport_height) as usize,
                    app.layout.lines@.len() as usize,
                ) as int,
            ),
            rows@.len() == k,
            app.scroll <= app.layout.lines@.len() <= usize::MAX,
            app.scroll + app.viewport_height <= usize::MAX,
            forall|j: int|
                0 <= j < k ==> (#[trigger] rows@[j])@ == body_row(
                    lines_view(app.layout.lines@)[app.scroll + j],
                    width,
                ),
        decreases lines@.len() - k,
    {
        let line = &lines[k];
        let row = if has_visible_text(&line.plain_text) {
            truncate_ansi(line.to_ansi_string().as_str(), width)
        } else {
            String::new()
        };
        assert(lines@[k as int] == app.layout.lines@[app.scroll + k]);
        assert(lines_view(app.layout.lines@)[app.scroll + k] == line@);
        rows.push(row);
        k += 1;
    }
    rows
}

/// What print mode writes: the table of contents as indented titles, or
/// every line as ANSI text.
pub fn printed_lines(layout: &Layout, toc_only: bool) -> (r: Vec<String>)
    ensures
        toc_only ==> r@.len() == layout.toc@.len() && forall|k: int|
            0 <= k < r@.len() ==> (#[trigger] r@[k])@ == entry_indent(toc_view(layout.toc@)[k])
                + toc_view(layout.toc@)[k].title,
        !toc_only ==> r@.len() == layout.lines@.len() && forall|k: int|
            0 <= k < r@.len() ==> (#[trigger] r@[k])@ == ansi_text(
                lines_view(layout.lines@)[k].spans,
            ),
{
    let mut out: Vec<String> = Vec::new();
    if toc_only {
        let mut k: usize = 0;
        while k < layout.toc.len()
            invariant
                k <= layout.toc@.len(),
                out@.len() == k,
                forall|j: int|
                    0 <= j < k ==> (#[trigger] out@[j])@ == entry_indent(toc_view(layout.toc@)[j])
                        + toc_view(layout.toc@)[j].title,
            decreases layout.toc@.len() - k,
        {
            let entry = &layout.toc[k];
            let mut text = repeat_string(' ', (entry.level.as_usize() - 1) * 2);
            text.append(entry.title.as_str());
            assert(toc_view(layout.toc@)[k as int] == entry@);
            out.push(text);
            k += 1;
        }
    } else {
        let mut k: usize = 0;
        while k < layout.lines.len()
            invariant
                k <= layout.lines@.len(),
                out@.len() == k,
                forall|j: int|
                    0 <= j < k ==> (#[trigger] out@[j])@ == ansi_text(
                        lines_view(layout.lines@)[j].spans,
                    ),
            decreases layout.lines@.len() - k,
        {
            let line = &layout.lines[k];
            assert(lines_view(layout.lines@)[k as int] == line@);
            out.push(line.to_ansi_string());
            k += 1;
        }
    }
    out
}

} // verus!
