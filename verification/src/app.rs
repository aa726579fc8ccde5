//! The pager's state: scrolling, the table of contents panel, and search.

use vstd::prelude::*;
use regex_automata::meta::Regex;

use crate::document::{blocks_view, Document};
use crate::layout::{layout_document, layout_of, toc_view, Layout, LayoutOptions, TocEntry, TocV};
use crate::text::{decimal, push_decimal};
use crate::theme::ThemeName;
use crate::wrap::{lines_view, LayoutLine, LineV};

verus! {

/// regex-automata's compiled regular expression, carried opaquely.
#[verifier::external_type_specification]
#[verifier::external_body]
pub struct ExRegex(Regex);

/// Whether compiling a pattern fails, and with which message: `None` when
/// regex-automata's `meta::Regex::new` accepts it.
pub uninterp spec fn regex_build_error(pattern: Seq<char>) -> Option<Seq<char>>;

/// Whether the compiled pattern matches somewhere in the text.
pub uninterp spec fn regex_is_match(pattern: Seq<char>, haystack: Seq<char>) -> bool;

/// A compiled search pattern together with its source.  Only `compile_search`
/// builds one.
pub struct SearchRegex {
    pattern: String,
    regex: Regex,
}

impl SearchRegex {
    /// The pattern the regex was compiled from.
    pub closed spec fn pattern(&self) -> Seq<char> {
        self.pattern@
    }
}

/// Compiles a pattern with `regex_automata::meta::Regex::new`.  The contract
/// names the outcome `regex_build_error(pattern)`: `Ok` when that is `None`,
/// else `Err` with the error's display text.
#[verifier::external_body]
fn compile_search(pattern: &str) -> (r: Result<SearchRegex, String>)
    ensures
        match r {
            Ok(re) => re.pattern() == pattern@ && regex_build_error(pattern@) is None,
            Err(m) => regex_build_error(pattern@) == Some(m@),
        },
{
    match Regex::new(pattern) {
        Ok(regex) => Ok(SearchRegex { pattern: pattern.to_string(), regex }),
        Err(error) => Err(error.to_string()),
    }
}

/// Runs `meta::Regex::is_match` on the text.  The contract names the result
/// `regex_is_match(pattern, text)` for the pattern the regex was built from.
#[verifier::external_body]
fn search_is_match(re: &SearchRegex, text: &str) -> (r: bool)
    ensures
        r == regex_is_match(re.pattern(), text@),
{
    re.regex.is_match(text.as_bytes())
}

/// The last search query, the lines it matched and which of them is shown.
#[derive(Debug, Clone, Default)]
pub struct SearchState {
    pub query: String,
    pub matches: Vec<usize>,
    pub current: usize,
}

/// The pager: the document, its layout for the current width, the scroll
/// position, the status line, the table-of-contents panel and the search.
#[derive(Debug)]
pub struct AppState {
    pub document: Document,
    pub layout: Layout,
    pub scroll: usize,
    pub viewport_height: usize,
    pub status: String,
    pub toc_open: bool,
    pub toc_selected: usize,
    pub theme: ThemeName,
    pub syntax_highlighting: bool,
    pub search: SearchState,
}

/// The largest scroll offset: the last screenful starts there.
pub open spec fn max_scroll_of(line_count: nat, viewport_height: usize) -> usize {
    let h = if viewport_height >= 1 { viewport_height } else { 1usize };
    (line_count as usize).saturating_sub(h)
}

/// The index of the last table-of-contents entry at or above a line.
pub open spec fn last_entry_at_or_before(toc: Seq<TocV>, line: usize) -> Option<int>
    decreases toc.len(),
{
    if toc.len() == 0 {
        None
    } else if toc.last().line_index <= line {
        Some(toc.len() - 1)
    } else {
        last_entry_at_or_before(toc.drop_last(), line)
    }
}

/// The entry found for a line is at or above it, and every later entry is
/// below it; when none is found, every entry is below the line.
pub proof fn lemma_last_entry_at_or_before(toc: Seq<TocV>, line: usize)
    ensures
        match last_entry_at_or_before(toc, line) {
            Some(i) => {
                &&& 0 <= i < toc.len()
                &&& toc[i].line_index <= line
                &&& forall|j: int| i < j < toc.len() ==> (#[trigger] toc[j]).line_index > line
            },
            None => forall|j: int| 0 <= j < toc.len() ==> (#[trigger] toc[j]).line_index > line,
        },
    decreases toc.len(),
{
    if toc.len() > 0 && toc.last().line_index > line {
        lemma_last_entry_at_or_before(toc.drop_last(), line);
        assert forall|j: int| 0 <= j < toc.len() - 1 implies #[trigger] toc[j] == toc.drop_last()[j] by {}
    }
}

/// The selected table-of-contents entry after scrolling: the last heading at
/// or above the top line, or the previous selection when there is none, or 0
/// when there is no entry.
pub open spec fn realigned(toc: Seq<TocV>, scroll: usize, selected: usize) -> usize {
    if toc.len() == 0 {
        0
    } else {
        match last_entry_at_or_before(toc, scroll) {
            Some(i) => i as usize,
            None => selected,
        }
    }
}

/// The indices of the lines whose plain text the pattern matches, in order.
pub open spec fn matching_lines(pattern: Seq<char>, lines: Seq<LineV>) -> Seq<usize>
    decreases lines.len(),
{
    if lines.len() == 0 {
        Seq::empty()
    } else {
        let prev = matching_lines(pattern, lines.drop_last());
        if regex_is_match(pattern, lines.last().plain) {
            prev.push((lines.len() - 1) as usize)
        } else {
            prev
        }
    }
}

/// Search results are line numbers of the searched lines, in increasing
/// order, so stepping through them walks down the document.
pub proof fn lemma_matching_lines_ordered(pattern: Seq<char>, lines: Seq<LineV>)
    requires
        lines.len() <= usize::MAX,
    ensures
        forall|i: int|
            0 <= i < matching_lines(pattern, lines).len() ==> #[trigger] matching_lines(
                pattern,
                lines,
            )[i] < lines.len(),
        forall|i: int, j: int|
            0 <= i < j < matching_lines(pattern, lines).len() ==> #[trigger] matching_lines(
                pattern,
                lines,
            )[i] < #[trigger] matching_lines(pattern, lines)[j],
    decreases lines.len(),
{
    if lines.len() > 0 {
        lemma_matching_lines_ordered(pattern, lines.drop_last());
        let prev = matching_lines(pattern, lines.drop_last());
        let ms = matching_lines(pattern, lines);
        if regex_is_match(pattern, lines.last().plain) {
            assert forall|i: int| 0 <= i < ms.len() implies #[trigger] ms[i] < lines.len() by {
                if i < prev.len() {
                    assert(ms[i] == prev[i]);
                }
            }
            assert forall|i: int, j: int| 0 <= i < j < ms.len() implies #[trigger] ms[i]
                < #[trigger] ms[j] by {
                assert(ms[i] == prev[i]);
                if j < prev.len() {
                    assert(ms[j] == prev[j]);
                }
            }
        }
    }
}

/// A line is among the search results exactly when the pattern matches its
/// plain text: every line is searched, the first one included.
pub proof fn lemma_matching_lines_exact(pattern: Seq<char>, lines: Seq<LineV>)
    requires
        lines.len() <= usize::MAX,
    ensures
        forall|i: usize|
            #[trigger] matching_lines(pattern, lines).contains(i) <==> (i < lines.len()
                && regex_is_match(pattern, lines[i as int].plain)),
    decreases lines.len(),
{
    if lines.len() > 0 {
        lemma_matching_lines_exact(pattern, lines.drop_last());
        lemma_matching_lines_ordered(pattern, lines.drop_last());
        let prev = matching_lines(pattern, lines.drop_last());
        let ms = matching_lines(pattern, lines);
        assert forall|i: usize| #[trigger] ms.contains(i) <==> (i < lines.len() && regex_is_match(
            pattern,
            lines[i as int].plain,
        )) by {
            if i < lines.len() - 1 {
                assert(lines.drop_last()[i as int] == lines[i as int]);
            }
            if regex_is_match(pattern, lines.last().plain) {
                if ms.contains(i) {
                    let j = choose|j: int| 0 <= j < ms.len() && ms[j] == i;
                    if j < prev.len() {
                        assert(prev.contains(i));
                    }
                }
                if prev.contains(i) {
                    let j = choose|j: int| 0 <= j < prev.len() && prev[j] == i;
                    assert(ms[j] == i);
                }
                if i == lines.len() - 1 {
                    assert(ms[prev.len() as int] == i);
                }
            } else {
                if i == lines.len() - 1 && prev.contains(i) {
                    let j = choose|j: int| 0 <= j < prev.len() && prev[j] == i;
                    assert(prev[j] < lines.drop_last().len());
                }
            }
        }
    }
}

/// The pattern a search query compiles to: case-insensitive.
pub open spec fn search_pattern(query: Seq<char>) -> Seq<char> {
    "(?i)"@ + query
}

/// The result after `current`, wrapping to the first.
pub open spec fn next_match_index(current: usize, count: nat) -> usize {
    ((current + 1) % (count as int)) as usize
}

/// The result before `current`, wrapping to the last.
pub open spec fn previous_match_index(current: usize, count: nat) -> usize {
    if current == 0 {
        (count - 1) as usize
    } else {
        (current - 1) as usize
    }
}

/// Moving to the next search result and back to the previous one returns to
/// where it started, and so does the reverse; both stay among the results.
pub proof fn lemma_match_steps_undo(current: usize, count: nat)
    requires
        current < count,
        count <= usize::MAX,
    ensures
        next_match_index(current, count) < count,
        previous_match_index(current, count) < count,
        previous_match_index(next_match_index(current, count), count) == current,
        next_match_index(previous_match_index(current, count), count) == current,
{
    let c = count as int;
    if current + 1 < c {
        assert((current + 1) % c == current + 1) by (nonlinear_arith)
            requires
                0 <= current + 1 < c,
        ;
    } else {
        assert((current + 1) % c == 0) by (nonlinear_arith)
            requires
                current + 1 == c,
                c > 0,
        ;
    }
    if current == 0 {
        assert((c - 1 + 1) % c == 0) by (nonlinear_arith)
            requires
                c > 0,
        ;
    } else {
        assert((current - 1 + 1) % c == current) by (nonlinear_arith)
            requires
                0 < current < c,
        ;
    }
}

/// The status line while stepping through results.
pub open spec fn match_status(current: usize, count: nat) -> Seq<char> {
    "match "@ + decimal(current as nat + 1) + " of "@ + decimal(count)
}

/// The part of the pager state that scrolling and searching change.
#[verifier::ext_equal]
pub struct ViewState {
    pub scroll: usize,
    pub toc_selected: usize,
    pub status: Seq<char>,
    pub matches: Seq<usize>,
    pub current: usize,
}

/// The smaller of two numbers.
pub open spec fn min_usize(a: usize, b: usize) -> usize {
    if a <= b { a } else { b }
}

/// What running the search query does: an empty query clears the results; a
/// query that does not compile only reports the error; otherwise the results
/// become the matching lines, and the view moves to the first of them.
pub open spec fn searched(
    s: ViewState,
    query: Seq<char>,
    lines: Seq<LineV>,
    toc: Seq<TocV>,
    max_scroll: usize,
) -> ViewState {
    if query.len() == 0 {
        ViewState { matches: seq![], current: 0, status: "search cleared"@, ..s }
    } else {
        match regex_build_error(search_pattern(query)) {
            Some(message) => ViewState { status: "invalid search: "@ + message, ..s },
            None => {
                let ms = matching_lines(search_pattern(query), lines);
                if ms.len() > 0 {
                    let scroll = min_usize(ms[0], max_scroll);
                    ViewState {
                        scroll,
                        toc_selected: realigned(toc, scroll, s.toc_selected),
                        status: decimal(ms.len()) + " matches"@,
                        matches: ms,
                        current: 0,
                    }
                } else {
                    ViewState { matches: ms, current: 0, status: "no matches"@, ..s }
                }
            },
        }
    }
}

/// Moves to another search result: the status counts it, the view shows it.
pub open spec fn moved_to_match(
    s: ViewState,
    current: usize,
    toc: Seq<TocV>,
    max_scroll: usize,
) -> ViewState {
    let scroll = min_usize(s.matches[current as int], max_scroll);
    ViewState {
        scroll,
        toc_selected: realigned(toc, scroll, s.toc_selected),
        status: match_status(current, s.matches.len()),
        matches: s.matches,
        current,
    }
}

/// The layout options of a width, theme and highlighting choice.
pub open spec fn options_of(width: usize, theme: ThemeName, syntax: bool) -> LayoutOptions {
    LayoutOptions { width, theme, syntax_highlighting: syntax }
}

impl AppState {
    /// The largest scroll offset for the current layout and viewport.
    pub open spec fn spec_max_scroll(&self) -> usize {
        max_scroll_of(self.layout@.lines.len(), self.viewport_height)
    }

    /// The pager's state invariant: the top line is at most the largest
    /// scroll offset.
    pub open spec fn scroll_ok(&self) -> bool {
        self.scroll <= self.spec_max_scroll()
    }

    /// The whole state invariant, which every operation keeps: the scroll
    /// offset is in range, the current search result is one of the results,
    /// and the selection can still move down.
    pub open spec fn wf(&self) -> bool {
        &&& self.scroll_ok()
        &&& (self.search.matches@.len() > 0 ==> self.search.current < self.search.matches@.len())
        &&& self.toc_selected < usize::MAX
    }

    /// Everything but the scroll position, the selection, the status line and
    /// the search results.
    pub open spec fn same_content(&self, other: &AppState) -> bool {
        &&& self.document@ == other.document@
        &&& self.layout@ == other.layout@
        &&& self.viewport_height == other.viewport_height
        &&& self.toc_open == other.toc_open
        &&& self.theme == other.theme
        &&& self.syntax_highlighting == other.syntax_highlighting
        &&& self.search.query@ == other.search.query@
    }

    /// Only the scroll position, the selection and the status line differ.
    pub open spec fn unchanged_except_scroll_view(&self, other: &AppState) -> bool {
        &&& self.same_content(other)
        &&& self.search.matches@ == other.search.matches@
        &&& self.search.current == other.search.current
    }

    /// The part of the state that scrolling and searching change.
    pub open spec fn view_state(&self) -> ViewState {
        ViewState {
            scroll: self.scroll,
            toc_selected: self.toc_selected,
            status: self.status@,
            matches: self.search.matches@,
            current: self.search.current,
        }
    }

    /// A pager at the top of the document laid out for `width`; the
    /// viewport is one line shorter than `height`, for the status line.
    pub fn new(
        document: Document,
        width: usize,
        height: usize,
        theme: ThemeName,
        syntax_highlighting: bool,
        toc_open: bool,
    ) -> (r: Self)
        ensures
            r.document@ == document@,
            r.layout@ == layout_of(
                blocks_view(document.blocks@),
                options_of(width, theme, syntax_highlighting),
            ),
            r.scroll == 0,
            r.viewport_height == height.saturating_sub(1),
            r.status@ == "Press / to search, t for TOC, q to quit"@,
            r.toc_open == toc_open,
            r.toc_selected == 0,
            r.theme == theme,
            r.syntax_highlighting == syntax_highlighting,
            r.search.query@.len() == 0,
            r.search.matches@.len() == 0,
            r.search.current == 0,
            r.wf(),
    {
        let layout = layout_document(
            &document,
            &LayoutOptions { width, theme, syntax_highlighting },
        );
        Self {
            document,
            layout,
            scroll: 0,
            viewport_height: height.saturating_sub(1),
            status: "Press / to search, t for TOC, q to quit".to_string(),
            toc_open,
            toc_selected: 0,
            theme,
            syntax_highlighting,
            search: SearchState { query: String::new(), matches: Vec::new(), current: 0 },
        }
    }

    fn max_scroll(&self) -> (r: usize)
        ensures
            r == self.spec_max_scroll(),
    {
        assert(self.layout@.lines.len() == self.layout.lines@.len());
        let h = if self.viewport_height >= 1 {
            self.viewport_height
        } else {
            1
        };
        self.layout.lines.len().saturating_sub(h)
    }


    fn scroll_to(&mut self, line: usize)
        ensures
            final(self).scroll == min_usize(line, old(self).spec_max_scroll()),
            final(self).toc_selected == realigned(
                toc_view(old(self).layout.toc@),
                final(self).scroll,
                old(self).toc_selected,
            ),
            final(self).status@ == old(self).status@,
            final(self).unchanged_except_scroll_view(old(self)),
            final(self).scroll_ok(),
            old(self).toc_selected < usize::MAX ==> final(self).toc_selected < usize::MAX,
    {
        let m = self.max_scroll();
        self.scroll = if line <= m {
            line
        } else {
            m
        };
        self.realign_toc_selection();
    }

    /// The lines on screen: from the top line, as many as the viewport holds.
    pub fn visible_lines(&self) -> (r: &[LayoutLine])
        requires
            self.scroll <= self.layout.lines@.len(),
            self.scroll + self.viewport_height <= usize::MAX,
        ensures
            r@ == self.layout.lines@.subrange(
                self.scroll as int,
                min_usize((self.scroll + self.viewport_height) as usize, self.layout.lines@.len() as usize) as int,
            ),
    {
        let sum = self.scroll + self.viewport_height;
        let end = if sum <= self.layout.lines.len() {
            sum
        } else {
            self.layout.lines.len()
        };
        let all = self.layout.lines.as_slice();
        &all[self.scroll..end]
    }

    /// Scrolls down by `amount` lines, stopping at the last screenful.
    pub fn scroll_down(&mut self, amount: usize)
        requires
            old(self).scroll + amount <= usize::MAX,
        ensures
            final(self).scroll == min_usize(
                (old(self).scroll + amount) as usize,
                old(self).spec_max_scroll(),
            ),
            final(self).toc_selected == realigned(
                toc_view(old(self).layout.toc@),
                final(self).scroll,
                old(self).toc_selected,
            ),
            final(self).status@ == old(self).status@,
            final(self).unchanged_except_scroll_view(old(self)),
            final(self).scroll_ok(),
            old(self).wf() ==> final(self).wf(),
    {
        self.scroll_to(self.scroll + amount);
    }

    /// Scrolls up by `amount` lines, stopping at the top.
    pub fn scroll_up(&mut self, amount: usize)
        ensures
            final(self).scroll == old(self).scroll.saturating_sub(amount),
            final(self).toc_selected == realigned(
                toc_view(old(self).layout.toc@),
                final(self).scroll,
                old(self).toc_selected,
            ),
            final(self).status@ == old(self).status@,
            final(self).unchanged_except_scroll_view(old(self)),
            old(self).scroll_ok() ==> final(self).scroll_ok(),
            old(self).wf() ==> final(self).wf(),
    {
        self.scroll = self.scroll.saturating_sub(amount);
        self.realign_toc_selection();
    }

    /// One screen down (one line fewer than the viewport, at least one line).
    pub fn page_down(&mut self)
        requires
            old(self).scroll + page_step(old(self).viewport_height) <= usize::MAX,
        ensures
            final(self).scroll == min_usize(
                (old(self).scroll + page_step(old(self).viewport_height)) as usize,
                old(self).spec_max_scroll(),
            ),
            final(self).toc_selected == realigned(
                toc_view(old(self).layout.toc@),
                final(self).scroll,
                old(self).toc_selected,
            ),
            final(self).status@ == old(self).status@,
            final(self).unchanged_except_scroll_view(old(self)),
            final(self).scroll_ok(),
            old(self).wf() ==> final(self).wf(),
    {
        let step = self.viewport_height.saturating_sub(1);
        let step = if step >= 1 {
            step
        } else {
            1
        };
        self.scroll_down(step);
    }

    /// One screen up (one line fewer than the viewport, at least one line).
    pub fn page_up(&mut self)
        ensures
            final(self).scroll == old(self).scroll.saturating_sub(
                page_step(old(self).viewport_height),
            ),
            final(self).toc_selected == realigned(
                toc_view(old(self).layout.toc@),
                final(self).scroll,
                old(self).toc_selected,
            ),
            final(self).status@ == old(self).status@,
            final(self).unchanged_except_scroll_view(old(self)),
            old(self).scroll_ok() ==> final(self).scroll_ok(),
            old(self).wf() ==> final(self).wf(),
    {
        let step = self.viewport_height.saturating_sub(1);
        let step = if step >= 1 {
            step
        } else {
            1
        };
        self.scroll_up(step);
    }

    /// Scrolls to the top.
    pub fn go_top(&mut self)
        ensures
            final(self).scroll == 0,
            final(self).toc_selected == realigned(
                toc_view(old(self).layout.toc@),
                0,
                old(self).toc_selected,
            ),
            final(self).status@ == old(self).status@,
            final(self).unchanged_except_scroll_view(old(self)),
            final(self).scroll_ok(),
            old(self).wf() ==> final(self).wf(),
    {
        self.scroll = 0;
        self.realign_toc_selection();
    }

    /// Scrolls to the last screenful.
    pub fn go_bottom(&mut self)
        ensures
            final(self).scroll == old(self).spec_max_scroll(),
            final(self).toc_selected == realigned(
                toc_view(old(self).layout.toc@),
                final(self).scroll,
                old(self).toc_selected,
            ),
            final(self).status@ == old(self).status@,
            final(self).unchanged_except_scroll_view(old(self)),
            final(self).scroll_ok(),
            old(self).wf() ==> final(self).wf(),
    {
        self.scroll = self.max_scroll();
        self.realign_toc_selection();
    }

    /// Opens or closes the table-of-contents panel.
    pub fn toggle_toc(&mut self)
        ensures
            final(self).toc_open == !old(self).toc_open,
            final(self).scroll == old(self).scroll,
            final(self).toc_selected == realigned(
                toc_view(old(self).layout.toc@),
                old(self).scroll,
                old(self).toc_selected,
            ),
            final(self).status@ == old(self).status@,
            final(self).document@ == old(self).document@,
            final(self).layout@ == old(self).layout@,
            final(self).viewport_height == old(self).viewport_height,
            final(self).search.query@ == old(self).search.query@,
            final(self).search.matches@ == old(self).search.matches@,
            final(self).search.current == old(self).search.current,
            final(self).theme == old(self).theme,
            final(self).syntax_highlighting == old(self).syntax_highlighting,
            old(self).wf() ==> final(self).wf(),
    {
        self.toc_open = !self.toc_open;
        self.realign_toc_selection();
    }

    /// Selects the next table-of-contents entry, stopping at the last.
    pub fn select_next_toc(&mut self)
        requires
            old(self).layout.toc@.len() > 0 ==> old(self).toc_selected < usize::MAX,
        ensures
            old(self).layout.toc@.len() > 0 ==> final(self).toc_selected == min_usize(
                (old(self).toc_selected + 1) as usize,
                (old(self).layout.toc@.len() - 1) as usize,
            ),
            old(self).layout.toc@.len() == 0 ==> final(self).toc_selected
                == old(self).toc_selected,
            final(self).scroll == old(self).scroll,
            final(self).status@ == old(self).status@,
            final(self).unchanged_except_scroll_view(old(self)),
            old(self).wf() ==> final(self).wf(),
    {
        if self.layout.toc.len() > 0 {
            let next = self.toc_selected + 1;
            let last = self.layout.toc.len() - 1;
            self.toc_selected = if next <= last {
                next
            } else {
                last
            };
        }
    }

    /// Selects the previous table-of-contents entry, stopping at the first.
    pub fn select_prev_toc(&mut self)
        ensures
            final(self).toc_selected == old(self).toc_selected.saturating_sub(1),
            final(self).scroll == old(self).scroll,
            final(self).status@ == old(self).status@,
            final(self).unchanged_except_scroll_view(old(self)),
            old(self).wf() ==> final(self).wf(),
    {
        self.toc_selected = self.toc_selected.saturating_sub(1);
    }

    /// Scrolls to the selected table-of-contents entry, if there is one.
    pub fn jump_to_selected_toc(&mut self)
        ensures
            old(self).toc_selected < old(self).layout.toc@.len() ==> {
                let entry = toc_view(old(self).layout.toc@)[old(self).toc_selected as int];
                &&& final(self).scroll == min_usize(entry.line_index, old(self).spec_max_scroll())
                &&& final(self).status@ == "jumped to "@ + entry.title
            },
            old(self).toc_selected >= old(self).layout.toc@.len() ==> final(self).scroll == old(
                self,
            ).scroll && final(self).status@ == old(self).status@,
            final(self).toc_selected == old(self).toc_selected,
            final(self).unchanged_except_scroll_view(old(self)),
            old(self).scroll_ok() ==> final(self).scroll_ok(),
            old(self).wf() ==> final(self).wf(),
    {
        if self.toc_selected < self.layout.toc.len() {
            let line = self.layout.toc[self.toc_selected].line_index;
            let m = self.max_scroll();
            self.scroll = if line <= m {
                line
            } else {
                m
            };
            let mut status = "jumped to ".to_string();
            status.append(self.layout.toc[self.toc_selected].title.as_str());
            self.status = status;
        }
    }

    /// The table of contents.
    pub fn toc_entries(&self) -> (r: &[TocEntry])
        ensures
            r@ == self.layout.toc@,
    {
        self.layout.toc.as_slice()
    }

    /// Runs a search query (see `searched`).
    pub fn apply_search_query(&mut self, query: String)
        ensures
            final(self).view_state() == searched(
                old(self).view_state(),
                query@,
                lines_view(old(self).layout.lines@),
                toc_view(old(self).layout.toc@),
                old(self).spec_max_scroll(),
            ),
            final(self).search.query@ == query@,
            final(self).document@ == old(self).document@,
            final(self).layout@ == old(self).layout@,
            final(self).viewport_height == old(self).viewport_height,
            final(self).toc_open == old(self).toc_open,
            final(self).theme == old(self).theme,
            final(self).syntax_highlighting == old(self).syntax_highlighting,
            old(self).scroll_ok() ==> final(self).scroll_ok(),
            old(self).wf() ==> final(self).wf(),
    {
        self.search.query = query;
        self.apply_search();
    }

    fn apply_search(&mut self)
        ensures
            final(self).view_state() == searched(
                old(self).view_state(),
                old(self).search.query@,
                lines_view(old(self).layout.lines@),
                toc_view(old(self).layout.toc@),
                old(self).spec_max_scroll(),
            ),
            final(self).same_content(old(self)),
            old(self).scroll_ok() ==> final(self).scroll_ok(),
            old(self).wf() ==> final(self).wf(),
    {
        if self.search.query.as_str().is_empty() {
            self.search.matches = Vec::new();
            self.search.current = 0;
            self.status = "search cleared".to_string();
            return;
        }
        let mut pattern = "(?i)".to_string();
        pattern.append(self.search.query.as_str());
        let regex = match compile_search(pattern.as_str()) {
            Ok(regex) => regex,
            Err(error) => {
                let mut status = "invalid search: ".to_string();
                status.append(error.as_str());
                self.status = status;
                return;
            },
        };
        let matches = matching_line_indices(&regex, &self.layout.lines);
        self.search.matches = matches;
        self.search.current = 0;
        if self.search.matches.len() > 0 {
            let first = self.search.matches[0];
            let count = self.search.matches.len();
            self.scroll_to(first);
            let mut status = String::new();
            push_decimal(&mut status, count as u64);
            status.append(" matches");
            self.status = status;
        } else {
            self.status = "no matches".to_string();
        }
    }

    /// Moves to the next search result, wrapping around.
    pub fn next_search_match(&mut self)
        requires
            old(self).search.matches@.len() > 0 ==> old(self).search.current < usize::MAX,
        ensures
            old(self).search.matches@.len() == 0 ==> final(self).view_state() == (ViewState {
                status: "no matches"@,
                ..old(self).view_state()
            }),
            old(self).search.matches@.len() > 0 ==> final(self).view_state() == moved_to_match(
                old(self).view_state(),
                next_match_index(old(self).search.current, old(self).search.matches@.len()),
                toc_view(old(self).layout.toc@),
                old(self).spec_max_scroll(),
            ),
            final(self).same_content(old(self)),
            final(self).scroll_ok() || final(self).scroll == old(self).scroll,
            old(self).wf() ==> final(self).wf(),
    {
        if self.search.matches.len() == 0 {
            self.status = "no matches".to_string();
            return;
        }
        let count = self.search.matches.len();
        self.search.current = (self.search.current + 1) % count;
        self.show_current_match();
    }

    /// Moves to the previous search result, wrapping around.
    pub fn previous_search_match(&mut self)
        requires
            old(self).search.matches@.len() > 0 ==> old(self).search.current
                <= old(self).search.matches@.len(),
        ensures
            old(self).search.matches@.len() == 0 ==> final(self).view_state() == (ViewState {
                status: "no matches"@,
                ..old(self).view_state()
            }),
            old(self).search.matches@.len() > 0 ==> final(self).view_state() == moved_to_match(
                old(self).view_state(),
                previous_match_index(old(self).search.current, old(self).search.matches@.len()),
                toc_view(old(self).layout.toc@),
                old(self).spec_max_scroll(),
            ),
            final(self).same_content(old(self)),
            final(self).scroll_ok() || final(self).scroll == old(self).scroll,
            old(self).wf() ==> final(self).wf(),
    {
        if self.search.matches.len() == 0 {
            self.status = "no matches".to_string();
            return;
        }
        let count = self.search.matches.len();
        self.search.current = if self.search.current == 0 {
            count - 1
        } else {
            self.search.current - 1
        };
        self.show_current_match();
    }

    fn show_current_match(&mut self)
        requires
            old(self).search.current < old(self).search.matches@.len(),
        ensures
            final(self).view_state() == moved_to_match(
                old(self).view_state(),
                old(self).search.current,
                toc_view(old(self).layout.toc@),
                old(self).spec_max_scroll(),
            ),
            final(self).same_content(old(self)),
            final(self).scroll_ok(),
            old(self).toc_selected < usize::MAX ==> final(self).toc_selected < usize::MAX,
    {
        let line = self.search.matches[self.search.current];
        let current = self.search.current;
        let count = self.search.matches.len();
        self.scroll_to(line);
        let mut status = "match ".to_string();
        push_decimal(&mut status, (current as u64) + 1);
        status.append(" of ");
        push_decimal(&mut status, count as u64);
        self.status = status;
    }

    /// The first link on screen, in line order.
    pub fn first_visible_link(&self) -> (r: Option<usize>)
        requires
            self.scroll <= self.layout.lines@.len(),
            self.scroll + self.viewport_height <= usize::MAX,
        ensures
            r == first_link(
                lines_view(self.layout.lines@).subrange(
                    self.scroll as int,
                    min_usize(
                        (self.scroll + self.viewport_height) as usize,
                        self.layout.lines@.len() as usize,
                    ) as int,
                ),
            ),
    {
        let sum = self.scroll + self.viewport_height;
        let end = if sum <= self.layout.lines.len() {
            sum
        } else {
            self.layout.lines.len()
        };
        let ghost lv = lines_view(self.layout.lines@);
        let ghost vv = lv.subrange(self.scroll as int, end as int);
        assert(end == min_usize(
            (self.scroll + self.viewport_height) as usize,
            self.layout.lines@.len() as usize,
        ));
        let mut i: usize = self.scroll;
        assert(vv =~= lv.subrange(i as int, end as int));
        while i < end
            invariant
                self.scroll <= i <= end <= self.layout.lines@.len(),
                lv == lines_view(self.layout.lines@),
                vv == lv.subrange(self.scroll as int, end as int),
                end == min_usize(
                    (self.scroll + self.viewport_height) as usize,
                    self.layout.lines@.len() as usize,
                ),
                first_link(vv) == first_link(lv.subrange(i as int, end as int)),
            decreases end - i,
        {
            assert(lv.subrange(i as int, end as int).drop_first() =~= lv.subrange(
                i + 1,
                end as int,
            ));
            assert(lv.subrange(i as int, end as int)[0] == self.layout.lines@[i as int]@);
            if self.layout.lines[i].link_indices.len() > 0 {
                assert(lv.subrange(i as int, end as int)[0].links
                    == self.layout.lines@[i as int].link_indices@);
                assert(first_link(lv.subrange(i as int, end as int)) == Some(
                    self.layout.lines@[i as int].link_indices@[0],
                ));
                return Some(self.layout.lines[i].link_indices[0]);
            }
            i += 1;
        }
        None
    }

    /// Lays the document out again for a new terminal size.
    pub fn resize(&mut self, width: usize, height: usize)
        ensures
            final(self).viewport_height == height.saturating_sub(1),
            final(self).layout@ == layout_of(
                blocks_view(old(self).document.blocks@),
                options_of(width, old(self).theme, old(self).syntax_highlighting),
            ),
            final(self).scroll == min_usize(old(self).scroll, final(self).spec_max_scroll()),
            final(self).toc_selected == realigned(
                toc_view(final(self).layout.toc@),
                final(self).scroll,
                old(self).toc_selected,
            ),
            final(self).status@ == old(self).status@,
            final(self).document@ == old(self).document@,
            final(self).search.query@ == old(self).search.query@,
            final(self).search.matches@ == old(self).search.matches@,
            final(self).search.current == old(self).search.current,
            final(self).toc_open == old(self).toc_open,
            final(self).theme == old(self).theme,
            final(self).syntax_highlighting == old(self).syntax_highlighting,
            final(self).scroll_ok(),
            old(self).wf() ==> final(self).wf(),
    {
        self.viewport_height = height.saturating_sub(1);
        self.layout = layout_document(
            &self.document,
            &LayoutOptions {
                width,
                theme: self.theme,
                syntax_highlighting: self.syntax_highlighting,
            },
        );
        let s = self.scroll;
        self.scroll_to(s);
    }

    /// Shows a new version of the document: lays it out, keeps the scroll
    /// position where it can, reports the reload and runs the search again.
    pub fn replace_document(&mut self, document: Document, width: usize)
        ensures
            final(self).document@ == document@,
            final(self).layout@ == layout_of(
                blocks_view(document.blocks@),
                options_of(width, old(self).theme, old(self).syntax_highlighting),
            ),
            ({
                let lines = lines_view(final(self).layout.lines@);
                let toc = toc_view(final(self).layout.toc@);
                let m = final(self).spec_max_scroll();
                let scroll = min_usize(old(self).scroll, m);
                let reloaded = ViewState {
                    scroll,
                    toc_selected: old(self).toc_selected,
                    status: "reloaded"@,
                    matches: old(self).search.matches@,
                    current: old(self).search.current,
                };
                let searched_state = searched(reloaded, old(self).search.query@, lines, toc, m);
                final(self).view_state() == ViewState {
                    toc_selected: realigned(
                        toc,
                        searched_state.scroll,
                        searched_state.toc_selected,
                    ),
                    ..searched_state
                }
            }),
            final(self).viewport_height == old(self).viewport_height,
            final(self).search.query@ == old(self).search.query@,
            final(self).toc_open == old(self).toc_open,
            final(self).theme == old(self).theme,
            final(self).syntax_highlighting == old(self).syntax_highlighting,
            final(self).scroll_ok(),
            old(self).wf() ==> final(self).wf(),
    {
        self.document = document;
        self.layout = layout_document(
            &self.document,
            &LayoutOptions {
                width,
                theme: self.theme,
                syntax_highlighting: self.syntax_highlighting,
            },
        );
        let m = self.max_scroll();
        if self.scroll > m {
            self.scroll = m;
        }
        self.status = "reloaded".to_string();
        self.apply_search();
        self.realign_toc_selection();
    }

    fn realign_toc_selection(&mut self)
        ensures
            final(self).toc_selected == realigned(
                toc_view(old(self).layout.toc@),
                old(self).scroll,
                old(self).toc_selected,
            ),
            final(self).scroll == old(self).scroll,
            final(self).status@ == old(self).status@,
            final(self).unchanged_except_scroll_view(old(self)),
            old(self).toc_selected < usize::MAX ==> final(self).toc_selected < usize::MAX,
    {
        self.toc_selected = realigned_index(&self.layout.toc, self.scroll, self.toc_selected);
    }
}

/// One screen's step: one line fewer than the viewport, at least one line.
pub open spec fn page_step(viewport_height: usize) -> usize {
    let s = viewport_height.saturating_sub(1);
    if s >= 1 { s } else { 1usize }
}

/// The first link index of the first line that holds one.
pub open spec fn first_link(lines: Seq<LineV>) -> Option<usize>
    decreases lines.len(),
{
    if lines.len() == 0 {
        None
    } else if lines[0].links.len() > 0 {
        Some(lines[0].links[0])
    } else {
        first_link(lines.drop_first())
    }
}

fn matching_line_indices(regex: &SearchRegex, lines: &Vec<LayoutLine>) -> (r: Vec<usize>)
    ensures
        r@ == matching_lines(regex.pattern(), lines_view(lines@)),
{
    let ghost lv = lines_view(lines@);
    let mut out: Vec<usize> = Vec::new();
    let mut i: usize = 0;
    while i < lines.len()
        invariant
            i <= lines.len(),
            lv == lines_view(lines@),
            out@ == matching_lines(regex.pattern(), lv.take(i as int)),
        decreases lines.len() - i,
    {
        assert(lv.take(i + 1).drop_last() =~= lv.take(i as int));
        assert(lv.take(i + 1).last() == lines@[i as int]@);
        if search_is_match(regex, lines[i].plain_text.as_str()) {
            out.push(i);
        }
        i += 1;
    }
    assert(lv.take(lines.len() as int) =~= lv);
    out
}

fn realigned_index(toc: &Vec<TocEntry>, scroll: usize, selected: usize) -> (r: usize)
    ensures
        r == realigned(toc_view(toc@), scroll, selected),
        selected < usize::MAX ==> r < usize::MAX,
{
    let ghost tv = toc_view(toc@);
    if toc.len() == 0 {
        return 0;
    }
    let mut i = toc.len();
    assert(tv.take(i as int) =~= tv);
    while i > 0
        invariant
            i <= toc.len(),
            toc.len() > 0,
            tv == toc_view(toc@),
            last_entry_at_or_before(tv, scroll) == last_entry_at_or_before(tv.take(i as int), scroll),
        decreases i,
    {
        assert(tv.take(i as int).last() == tv[i - 1]);
        if toc[i - 1].line_index <= scroll {
            return i - 1;
        }
        assert(tv.take(i as int).drop_last() =~= tv.take(i - 1));
        i -= 1;
    }
    assert(tv.take(0) =~= Seq::<TocV>::empty());
    selected
}

} // verus!
