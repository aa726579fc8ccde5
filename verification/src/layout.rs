//! Layout of a document into styled terminal lines, with a table of contents.

use vstd::prelude::*;

use crate::document::{
    lemma_blocks_view_index, lemma_cells_view_index, lemma_items_view_index,
    lemma_rows_view_index, block_view, blocks_view, cells_view, inline_view, inlines_view, items_view, rows_view,
    Block, BlockV, CodeFence, Document, HeadingLevel, HeadingV, Inline, InlineV, ListItem, ListItemV, Table,
};
use crate::parse::{block_headings, blocks_headings, items_headings, plain_of, plain_text};
use crate::style::{Effect, SpanStyle};
use crate::text::{chars_of, decimal, push_decimal, repeat_char, repeat_string};
use crate::theme::{theme_of, AnsiColor, Theme, ThemeName};
use crate::unicode::{display_width, graphemes, grapheme_clusters, text_width};
use crate::wrap::{
    blank_line, empty_line, lemma_lines_view_add, lemma_lines_view_push, lemma_wrap_nonempty, lemma_spans_view_push,
    lemma_single_span, lemma_wrap_consistent, line_consistent, lines_consistent, lines_view, span, span_links,
    span_texts, spans_view, styled, wrap, wrap_spans, LayoutLine, LineV, SpanV,
    StyledSpan,
};

verus! {

/// How to lay a document out: the width in columns, the theme, and whether
/// code blocks are to be highlighted (they are laid out in the theme's code
/// colour either way).
#[derive(Debug, Clone, Copy)]
pub struct LayoutOptions {
    pub width: usize,
    pub theme: ThemeName,
    pub syntax_highlighting: bool,
}

/// A table-of-contents entry: a heading's title and level, and the line
/// where it starts.
#[derive(Debug, Clone)]
pub struct TocEntry {
    pub title: String,
    pub level: HeadingLevel,
    pub line_index: usize,
}

/// A laid-out document: its lines and its table of contents.
#[derive(Debug, Clone)]
pub struct Layout {
    pub lines: Vec<LayoutLine>,
    pub toc: Vec<TocEntry>,
}

pub struct TocV {
    pub title: Seq<char>,
    pub level: HeadingLevel,
    pub line_index: usize,
}

impl View for TocEntry {
    type V = TocV;

    open spec fn view(&self) -> TocV {
        TocV { title: self.title@, level: self.level, line_index: self.line_index }
    }
}

pub open spec fn toc_view(s: Seq<TocEntry>) -> Seq<TocV> {
    s.map_values(|t: TocEntry| t@)
}

#[verifier::ext_equal]
pub struct LayoutV {
    pub lines: Seq<LineV>,
    pub toc: Seq<TocV>,
}

impl View for Layout {
    type V = LayoutV;

    open spec fn view(&self) -> LayoutV {
        LayoutV { lines: lines_view(self.lines@), toc: toc_view(self.toc@) }
    }
}

// =====================================================================
// Styles
// =====================================================================

pub open spec fn heading_color(theme: Theme, level: HeadingLevel) -> AnsiColor {
    match level {
        HeadingLevel::H1 | HeadingLevel::H2 => theme.heading,
        HeadingLevel::H3 | HeadingLevel::H4 => theme.accent,
        HeadingLevel::H5 | HeadingLevel::H6 => theme.link,
    }
}

pub open spec fn heading_style(theme: Theme, level: HeadingLevel) -> SpanStyle {
    SpanStyle::spec_fg(heading_color(theme, level))
}

pub open spec fn emphasis_style(theme: Theme) -> SpanStyle {
    SpanStyle::spec_fg(theme.accent).spec_with_effect(Effect::Bold)
}

pub open spec fn link_style(theme: Theme) -> SpanStyle {
    SpanStyle::spec_fg(theme.link).spec_with_effect(Effect::Underline)
}

// =====================================================================
// Inline content as spans
// =====================================================================

/// The spans of inline content under a base style: emphasis, strong and
/// strikethrough replace the effect of the base style, code takes the code
/// colour, links take the link style and carry their index, soft breaks
/// become spaces and hard breaks newlines.
pub open spec fn inline_spans(s: Seq<InlineV>, base: SpanStyle, theme: Theme) -> Seq<SpanV>
    decreases s,
{
    if s.len() == 0 {
        Seq::empty()
    } else {
        inline_spans(s.drop_last(), base, theme) + inline_spans_one(s.last(), base, theme)
    }
}

pub open spec fn inline_spans_one(x: InlineV, base: SpanStyle, theme: Theme) -> Seq<SpanV>
    decreases x,
{
    match x {
        InlineV::Text(t) => seq![span(t, base, None)],
        InlineV::Code(t) => seq![span(t, SpanStyle::spec_fg(theme.code), None)],
        InlineV::SoftBreak => seq![span(seq![' '], base, None)],
        InlineV::HardBreak => seq![span(seq!['\n'], base, None)],
        InlineV::Emphasis(c) => inline_spans(c, base.spec_with_effect(Effect::Italic), theme),
        InlineV::Strong(c) => inline_spans(c, base.spec_with_effect(Effect::Bold), theme),
        InlineV::Strikethrough(c) => inline_spans(
            c,
            base.spec_with_effect(Effect::Strikethrough),
            theme,
        ),
        InlineV::Link { text, index, .. } => link_spans(text, link_style(theme), index),
    }
}

/// The spans of a link's text: all in the link style and carrying its index.
pub open spec fn link_spans(s: Seq<InlineV>, style: SpanStyle, index: usize) -> Seq<SpanV>
    decreases s,
{
    if s.len() == 0 {
        Seq::empty()
    } else {
        link_spans(s.drop_last(), style, index) + link_spans_one(s.last(), style, index)
    }
}

pub open spec fn link_spans_one(x: InlineV, style: SpanStyle, index: usize) -> Seq<SpanV>
    decreases x,
{
    match x {
        InlineV::Text(t) => seq![span(t, style, Some(index))],
        InlineV::Code(t) => seq![span(t, style, Some(index))],
        InlineV::SoftBreak => seq![span(seq![' '], style, Some(index))],
        InlineV::HardBreak => seq![span(seq!['\n'], style, Some(index))],
        InlineV::Emphasis(c) => link_spans(c, style, index),
        InlineV::Strong(c) => link_spans(c, style, index),
        InlineV::Strikethrough(c) => link_spans(c, style, index),
        InlineV::Link { text, .. } => link_spans(text, style, index),
    }
}

/// The same spans in one style.
pub open spec fn restyle(s: Seq<SpanV>, style: SpanStyle) -> Seq<SpanV> {
    s.map_values(|x: SpanV| span(x.text, style, x.link))
}

// =====================================================================
// Text helpers
// =====================================================================

/// The lines of a text as `str::lines` yields them: split after each
/// newline, without the newline and a carriage return just before it; a
/// final line without newline counts when it is not empty.
pub open spec fn lines_fold(s: Seq<char>) -> (Seq<Seq<char>>, Seq<char>)
    decreases s.len(),
{
    if s.len() == 0 {
        (Seq::empty(), Seq::empty())
    } else {
        let (done, cur) = lines_fold(s.drop_last());
        if s.last() == '\n' {
            (done.push(strip_cr(cur)), Seq::empty())
        } else {
            (done, cur.push(s.last()))
        }
    }
}

pub open spec fn strip_cr(s: Seq<char>) -> Seq<char> {
    if s.len() > 0 && s.last() == '\r' {
        s.drop_last()
    } else {
        s
    }
}

pub open spec fn text_lines(s: Seq<char>) -> Seq<Seq<char>> {
    let (done, cur) = lines_fold(s);
    if cur.len() > 0 {
        done.push(cur)
    } else {
        done
    }
}

/// The longest prefix of whole graphemes of a text whose widths add up to at
/// most `width`: (text, width used, whether a grapheme was left out).
pub open spec fn truncate_fold(gs: Seq<Seq<char>>, width: nat) -> (Seq<char>, nat, bool)
    decreases gs.len(),
{
    if gs.len() == 0 {
        (Seq::empty(), 0, false)
    } else {
        let (out, used, stopped) = truncate_fold(gs.drop_last(), width);
        if stopped {
            (out, used, true)
        } else if used + display_width(gs.last()) > width {
            (out, used, true)
        } else {
            (out + gs.last(), used + display_width(gs.last()), false)
        }
    }
}

pub open spec fn truncated(s: Seq<char>, width: nat) -> Seq<char> {
    truncate_fold(grapheme_clusters(s), width).0
}

/// A text padded with spaces to `width` characters, as `{:<width$}` formats.
pub open spec fn pad_right(s: Seq<char>, width: nat) -> Seq<char> {
    if s.len() < width {
        s + repeat_char(' ', (width - s.len()) as nat)
    } else {
        s
    }
}

// =====================================================================
// Tables
// =====================================================================

pub open spec fn max_row_len(rows: Seq<Seq<Seq<char>>>) -> nat
    decreases rows.len(),
{
    if rows.len() == 0 {
        0
    } else {
        let m = max_row_len(rows.drop_last());
        if rows.last().len() > m {
            rows.last().len()
        } else {
            m
        }
    }
}

pub open spec fn widen_row(w: Seq<usize>, row: Seq<Seq<char>>) -> Seq<usize>
    decreases row.len(),
{
    if row.len() == 0 {
        w
    } else {
        let w1 = widen_row(w, row.drop_last());
        let i = row.len() - 1;
        let dw = display_width(row.last());
        w1.update(i, if dw > w1[i] { dw as usize } else { w1[i] })
    }
}

pub open spec fn widen_rows(w: Seq<usize>, rows: Seq<Seq<Seq<char>>>) -> Seq<usize>
    decreases rows.len(),
{
    if rows.len() == 0 {
        w
    } else {
        widen_row(widen_rows(w, rows.drop_last()), rows.last())
    }
}

pub open spec fn sum_sat(w: Seq<usize>) -> usize
    decreases w.len(),
{
    if w.len() == 0 {
        0
    } else {
        sum_sat(w.drop_last()).saturating_add(w.last())
    }
}

/// The column widths of a table: each column as wide as its widest cell and
/// at least 3; when they do not fit in `max_width` with the separators, each
/// is capped at an equal share of the room.
pub open spec fn column_widths(rows: Seq<Seq<Seq<char>>>, max_width: usize) -> Seq<usize> {
    let cols = max_row_len(rows);
    if cols == 0 {
        Seq::empty()
    } else {
        let widths = widen_rows(Seq::new(cols, |_i: int| 3usize), rows);
        let c = cols as usize;
        let separator_cost = c.saturating_add(c).saturating_add(c).saturating_add(1);
        let room = max_width.saturating_sub(separator_cost);
        let available = if room >= cols { room } else { cols as usize };
        if sum_sat(widths) <= available {
            widths
        } else {
            let cap = available / (cols as usize);
            let cap1 = if cap >= 1 { cap } else { 1usize };
            widths.map_values(|w: usize| if w <= cap1 { w } else { cap1 })
        }
    }
}

/// The exact sum of a sequence of widths.
pub open spec fn sum_int(w: Seq<usize>) -> int
    decreases w.len(),
{
    if w.len() == 0 {
        0
    } else {
        sum_int(w.drop_last()) + w.last()
    }
}

proof fn lemma_sum_sat_exact(w: Seq<usize>)
    ensures
        sum_sat(w) < usize::MAX ==> sum_sat(w) == sum_int(w),
    decreases w.len(),
{
    if w.len() > 0 {
        lemma_sum_sat_exact(w.drop_last());
    }
}

proof fn lemma_sum_capped(w: Seq<usize>, cap: usize)
    ensures
        sum_int(w.map_values(|x: usize| if x <= cap { x } else { cap })) <= w.len() * cap,
    decreases w.len(),
{
    let f = |x: usize| if x <= cap { x } else { cap };
    if w.len() > 0 {
        lemma_sum_capped(w.drop_last(), cap);
        assert(w.map_values(f).drop_last() =~= w.drop_last().map_values(f));
        assert((w.len() - 1) * cap + cap == w.len() * cap) by (nonlinear_arith);
    }
}

proof fn lemma_widen_row_len(w: Seq<usize>, row: Seq<Seq<char>>)
    requires
        row.len() <= w.len(),
    ensures
        widen_row(w, row).len() == w.len(),
    decreases row.len(),
{
    if row.len() > 0 {
        lemma_widen_row_len(w, row.drop_last());
    }
}

proof fn lemma_widen_rows_len(w: Seq<usize>, rows: Seq<Seq<Seq<char>>>)
    requires
        forall|i: int| 0 <= i < rows.len() ==> #[trigger] rows[i].len() <= w.len(),
    ensures
        widen_rows(w, rows).len() == w.len(),
    decreases rows.len(),
{
    if rows.len() > 0 {
        assert forall|i: int| 0 <= i < rows.drop_last().len() implies #[trigger] rows.drop_last()[i].len()
            <= w.len() by {
            assert(rows.drop_last()[i] == rows[i]);
        }
        lemma_widen_rows_len(w, rows.drop_last());
        lemma_widen_row_len(widen_rows(w, rows.drop_last()), rows.last());
    }
}

/// A table fits its room: there is one width per column, and the widths add
/// up to at most the width left after the separators (or to the number of
/// columns, when that is more).  Rows with
/// `usize::MAX` cells cannot be held in memory, so they are left out.
pub proof fn lemma_column_widths_fit(rows: Seq<Seq<Seq<char>>>, max_width: usize)
    requires
        max_row_len(rows) < usize::MAX,
    ensures
        ({
            let cols = max_row_len(rows);
            let c = cols as usize;
            let room = max_width.saturating_sub(c.saturating_add(c).saturating_add(c).saturating_add(1));
            let available: int = if room >= cols { room as int } else { cols as int };
            let w = column_widths(rows, max_width);
            &&& w.len() == cols
            &&& sum_int(w) <= available
        }),
{
    let cols = max_row_len(rows);
    if cols > 0 {
        let init = Seq::new(cols, |_i: int| 3usize);
        let widths = widen_rows(init, rows);
        lemma_max_row_len(rows);
        lemma_widen_rows_len(init, rows);
        let c = cols as usize;
        let room = max_width.saturating_sub(c.saturating_add(c).saturating_add(c).saturating_add(1));
        let available = if room >= cols { room } else { cols as usize };
        assert(available < usize::MAX);
        if sum_sat(widths) <= available {
            lemma_sum_sat_exact(widths);
        } else {
            let cap = available / (cols as usize);
            assert(cap >= 1) by (nonlinear_arith)
                requires
                    cap == available / (cols as usize),
                    available >= cols,
                    cols > 0,
            ;
            lemma_sum_capped(widths, cap);
            let a = available as int;
            let n = cols as int;
            vstd::arithmetic::div_mod::lemma_fundamental_div_mod(a, n);
            assert(cap == a / n);
            assert(n * cap <= a) by (nonlinear_arith)
                requires
                    a == n * (a / n) + a % n,
                    cap == a / n,
                    a % n >= 0,
            ;
        }
    }
}

pub open spec fn cell_style(header: bool, theme: Theme) -> SpanStyle {
    if header {
        SpanStyle::spec_fg(theme.heading).spec_with_effect(Effect::Bold)
    } else {
        SpanStyle::spec_plain()
    }
}

pub open spec fn table_cells(
    cells: Seq<Seq<char>>,
    widths: Seq<usize>,
    header: bool,
    theme: Theme,
) -> Seq<SpanV>
    decreases widths.len(),
{
    if widths.len() == 0 {
        Seq::empty()
    } else {
        let i = widths.len() - 1;
        let w = widths.last();
        let cell = if i < cells.len() {
            cells[i]
        } else {
            Seq::empty()
        };
        let style = cell_style(header, theme);
        table_cells(cells, widths.drop_last(), header, theme) + seq![
            span("│ "@, SpanStyle::spec_fg(theme.muted), None),
            span(pad_right(truncated(cell, w as nat), w as nat), style, None),
            span(seq![' '], style, None),
        ]
    }
}

/// The spans of a table row: each cell truncated to its column's width and
/// padded, between vertical bars.
pub open spec fn table_row(
    cells: Seq<Seq<char>>,
    widths: Seq<usize>,
    header: bool,
    theme: Theme,
) -> Seq<SpanV> {
    table_cells(cells, widths, header, theme).push(
        span("│"@, SpanStyle::spec_fg(theme.muted), None),
    )
}

/// The line under a table's head: dashes as wide as each column plus two,
/// joined by plus signs.
pub open spec fn separator(widths: Seq<usize>) -> Seq<char>
    decreases widths.len(),
{
    if widths.len() == 0 {
        Seq::empty()
    } else if widths.len() == 1 {
        repeat_char('-', widths[0].saturating_add(2) as nat)
    } else {
        separator(widths.drop_last()) + seq!['+'] + repeat_char(
            '-',
            widths.last().saturating_add(2) as nat,
        )
    }
}

pub open spec fn cells_plain(cells: Seq<Seq<InlineV>>) -> Seq<Seq<char>> {
    cells.map_values(|c: Seq<InlineV>| plain_of(c))
}

pub open spec fn table_plain(headers: Seq<Seq<InlineV>>, rows: Seq<Seq<Seq<InlineV>>>) -> Seq<
    Seq<Seq<char>>,
> {
    seq![cells_plain(headers)] + rows.map_values(|r: Seq<Seq<InlineV>>| cells_plain(r))
}

// =====================================================================
// Rendering
// =====================================================================

/// The lines and table of contents laid out so far.
#[verifier::ext_equal]
pub struct RState {
    pub lines: Seq<LineV>,
    pub toc: Seq<TocV>,
}

pub open spec fn push_lines(st: RState, lines: Seq<LineV>) -> RState {
    RState { lines: st.lines + lines, toc: st.toc }
}

pub open spec fn push_wrapped(
    width: nat,
    st: RState,
    spans: Seq<SpanV>,
    indent: nat,
    first_prefix: Seq<char>,
    continuation_prefix: Seq<char>,
) -> RState {
    push_lines(
        st,
        wrap(
            spans,
            indent,
            first_prefix,
            continuation_prefix,
            if width >= 8 { width } else { 8 },
        ),
    )
}

pub open spec fn push_blank(st: RState) -> RState {
    RState { lines: st.lines.push(blank_line()), toc: st.toc }
}

pub open spec fn sat(n: nat) -> nat {
    if n > usize::MAX {
        usize::MAX as nat
    } else {
        n
    }
}

/// A line of given spans after `indent` spaces, without wrapping.
pub open spec fn prebuilt_line(indent: nat, spans: Seq<SpanV>) -> LineV {
    let ind = repeat_char(' ', indent);
    LineV {
        spans: if indent > 0 {
            seq![span(ind, SpanStyle::spec_plain(), None)] + spans
        } else {
            spans
        },
        plain: ind + span_texts(spans),
        links: span_links(spans),
    }
}


pub open spec fn code_lines(lines: Seq<Seq<char>>, indent: nat, style: SpanStyle) -> Seq<LineV> {
    lines.map_values(|l: Seq<char>| prebuilt_line(indent, seq![span(l, style, None)]))
}

pub open spec fn quote_line(l: LineV, indent: nat, theme: Theme) -> LineV {
    let prefix = repeat_char(' ', indent) + "> "@;
    LineV {
        spans: seq![span(prefix, SpanStyle::spec_fg(theme.quote), None)] + l.spans,
        plain: prefix + l.plain,
        links: l.links,
    }
}

/// The lines from index `before` on, each one that is not blank given the
/// quote marker after `indent` spaces.
pub open spec fn quote_lines(lines: Seq<LineV>, before: int, indent: nat, theme: Theme) -> Seq<
    LineV,
> {
    Seq::new(
        lines.len(),
        |i: int|
            if i < before || (lines[i].spans.len() == 0 && lines[i].plain.len() == 0) {
                lines[i]
            } else {
                quote_line(lines[i], indent, theme)
            },
    )
}

pub open spec fn list_marker(task: Option<bool>, ordered: bool, start: usize, offset: usize) -> Seq<
    char,
> {
    match task {
        Some(checked) => if checked {
            "[x] "@
        } else {
            "[ ] "@
        },
        None => if ordered {
            decimal(start.wrapping_add(offset) as nat) + ". "@
        } else {
            "• "@
        },
    }
}

pub open spec fn render_block(w: nat, theme: Theme, st: RState, b: BlockV, indent: nat) -> RState
    decreases b,
{
    let e = Seq::<char>::empty();
    match b {
        BlockV::Paragraph(t) => push_wrapped(
            w,
            st,
            inline_spans(t, SpanStyle::spec_plain(), theme),
            indent,
            e,
            e,
        ),
        BlockV::Heading { level, text, .. } => {
            let n = level.spec_number();
            let prefix = repeat_char('#', n) + seq![' '];
            let style = heading_style(theme, level);
            let spans = seq![span(prefix, style.spec_with_effect(Effect::Bold), None)] + restyle(
                inline_spans(text, SpanStyle::spec_plain(), theme),
                style,
            );
            let line_index = st.lines.len() as usize;
            let s1 = push_wrapped(w, st, spans, indent, e, repeat_char(' ', n + 1));
            let s2 = RState {
                lines: s1.lines,
                toc: s1.toc.push(TocV { title: plain_of(text), level, line_index }),
            };
            push_blank(s2)
        },
        BlockV::Quote(bs) => push_blank(render_quote(w, theme, st, bs, indent)),
        BlockV::List { ordered, start, items } => push_blank(
            render_items(w, theme, st, items, ordered, start, indent),
        ),
        BlockV::CodeBlock { language, code } => {
            let style = SpanStyle::spec_fg(theme.code);
            let head = "```"@ + match language {
                Some(l) => l,
                None => e,
            };
            let s1 = push_wrapped(w, st, seq![span(head, style, None)], indent, e, e);
            let s2 = push_lines(s1, code_lines(text_lines(code), sat(indent + 2), style));
            let s3 = push_wrapped(w, s2, seq![span("```"@, style, None)], indent, e, e);
            push_blank(s3)
        },
        BlockV::Table { headers, rows } => {
            let room = (w as usize).saturating_sub(indent as usize);
            let max_width = if room >= 8 { room } else { 8usize };
            let widths0 = column_widths(table_plain(headers, rows), max_width);
            let widths = if widths0.len() == 0 {
                seq![1usize]
            } else {
                widths0
            };
            let s1 = if headers.len() > 0 {
                let sh = push_wrapped(
                    w,
                    st,
                    table_row(cells_plain(headers), widths, true, theme),
                    indent,
                    e,
                    e,
                );
                push_wrapped(
                    w,
                    sh,
                    seq![span(separator(widths), SpanStyle::spec_fg(theme.rule), None)],
                    indent,
                    e,
                    e,
                )
            } else {
                st
            };
            push_blank(render_rows(w, theme, s1, rows, widths, indent))
        },
        BlockV::Rule => {
            let room = (w as usize).saturating_sub(indent as usize);
            let r = if room >= 4 { room } else { 4usize };
            let n = if r <= 40 { r } else { 40usize };
            push_blank(
                push_wrapped(
                    w,
                    st,
                    seq![span(repeat_char('─', n as nat), SpanStyle::spec_fg(theme.rule), None)],
                    indent,
                    e,
                    e,
                ),
            )
        },
        BlockV::Html(h) => push_wrapped(
            w,
            st,
            seq![span("[html omitted] "@ + h, SpanStyle::spec_fg(theme.muted), None)],
            indent,
            e,
            e,
        ),
        BlockV::FootnoteDefinition(f) => {
            let s1 = push_wrapped(
                w,
                st,
                seq![span(seq!['[', '^'] + f.label + seq![']'], emphasis_style(theme), None)],
                indent,
                e,
                e,
            );
            render_blocks(w, theme, s1, f.blocks, sat(indent + 2))
        },
    }
}

pub open spec fn render_blocks(w: nat, theme: Theme, st: RState, bs: Seq<BlockV>, indent: nat) -> RState
    decreases bs,
{
    if bs.len() == 0 {
        st
    } else {
        render_block(w, theme, render_blocks(w, theme, st, bs.drop_last(), indent), bs.last(), indent)
    }
}

pub open spec fn render_quote(w: nat, theme: Theme, st: RState, bs: Seq<BlockV>, indent: nat) -> RState
    decreases bs,
{
    if bs.len() == 0 {
        st
    } else {
        let s1 = render_quote(w, theme, st, bs.drop_last(), indent);
        let s2 = render_block(w, theme, s1, bs.last(), sat(indent + 2));
        RState { lines: quote_lines(s2.lines, s1.lines.len() as int, indent, theme), toc: s2.toc }
    }
}

pub open spec fn render_items(
    w: nat,
    theme: Theme,
    st: RState,
    items: Seq<ListItemV>,
    ordered: bool,
    start: usize,
    indent: nat,
) -> RState
    decreases items,
{
    if items.len() == 0 {
        st
    } else {
        let s1 = render_items(w, theme, st, items.drop_last(), ordered, start, indent);
        let item = items.last();
        let marker = list_marker(item.task, ordered, start, (items.len() - 1) as usize);
        render_item(w, theme, s1, item, marker, indent)
    }
}

/// The items of an ordered list are numbered on from its start: the item at
/// position `k` (counting from 0) that has no task box is rendered with the
/// marker `start + k` in decimal followed by ". ", so consecutive items get
/// consecutive numbers, the first one `start`.
pub proof fn lemma_ordered_items_numbered(
    w: nat,
    theme: Theme,
    st: RState,
    items: Seq<ListItemV>,
    start: usize,
    indent: nat,
)
    requires
        items.len() > 0,
        items.last().task is None,
        start + items.len() - 1 <= usize::MAX,
    ensures
        render_items(w, theme, st, items, true, start, indent) == render_item(
            w,
            theme,
            render_items(w, theme, st, items.drop_last(), true, start, indent),
            items.last(),
            decimal((start + items.len() - 1) as nat) + ". "@,
            indent,
        ),
{
    let k = (items.len() - 1) as usize;
    assert(start.wrapping_add(k) == start + k) by (nonlinear_arith)
        requires
            start + k <= usize::MAX,
    {
    }
}

/// A list item with a task box is rendered with the box, ticked or not, in
/// place of a number or bullet; an item of an unordered list without one
/// with a bullet.
pub proof fn lemma_list_item_markers(
    w: nat,
    theme: Theme,
    st: RState,
    items: Seq<ListItemV>,
    ordered: bool,
    start: usize,
    indent: nat,
)
    requires
        items.len() > 0,
    ensures
        items.last().task == Some(true) ==> render_items(w, theme, st, items, ordered, start, indent)
            == render_item(
            w,
            theme,
            render_items(w, theme, st, items.drop_last(), ordered, start, indent),
            items.last(),
            "[x] "@,
            indent,
        ),
        items.last().task == Some(false) ==> render_items(w, theme, st, items, ordered, start, indent)
            == render_item(
            w,
            theme,
            render_items(w, theme, st, items.drop_last(), ordered, start, indent),
            items.last(),
            "[ ] "@,
            indent,
        ),
        items.last().task is None && !ordered ==> render_items(
            w,
            theme,
            st,
            items,
            ordered,
            start,
            indent,
        ) == render_item(
            w,
            theme,
            render_items(w, theme, st, items.drop_last(), ordered, start, indent),
            items.last(),
            "\u{2022} "@,
            indent,
        ),
{
}

pub open spec fn render_item(
    w: nat,
    theme: Theme,
    st: RState,
    item: ListItemV,
    marker: Seq<char>,
    indent: nat,
) -> RState
    decreases item,
{
    let mw = display_width(marker);
    let pad = repeat_char(' ', mw);
    if item.blocks.len() > 0 {
        let first = item.blocks[0];
        let s1 = match first {
            BlockV::Paragraph(t) => push_wrapped(
                w,
                st,
                inline_spans(t, SpanStyle::spec_plain(), theme),
                indent,
                marker,
                pad,
            ),
            _ => render_block(
                w,
                theme,
                push_wrapped(w, st, seq![], indent, marker, pad),
                first,
                sat(indent + mw),
            ),
        };
        render_blocks(w, theme, s1, item.blocks.drop_first(), sat(indent + mw))
    } else {
        push_wrapped(w, st, seq![], indent, marker, pad)
    }
}

pub open spec fn render_rows(
    w: nat,
    theme: Theme,
    st: RState,
    rows: Seq<Seq<Seq<InlineV>>>,
    widths: Seq<usize>,
    indent: nat,
) -> RState
    decreases rows.len(),
{
    if rows.len() == 0 {
        st
    } else {
        let s1 = render_rows(w, theme, st, rows.drop_last(), widths, indent);
        push_wrapped(
            w,
            s1,
            table_row(cells_plain(rows.last()), widths, false, theme),
            indent,
            Seq::empty(),
            Seq::empty(),
        )
    }
}

/// The layout of a document: its blocks one after another at indent 0, with
/// the width at least 8 columns.
pub open spec fn layout_of(doc_blocks: Seq<BlockV>, options: LayoutOptions) -> LayoutV {
    let w = if options.width >= 8 { options.width as nat } else { 8 };
    let st = render_blocks(
        w,
        theme_of(options.theme),
        RState { lines: seq![], toc: seq![] },
        doc_blocks,
        0,
    );
    LayoutV { lines: st.lines, toc: st.toc }
}

// =====================================================================
// Rendering only adds lines
// =====================================================================

proof fn lemma_render_block_grows(w: nat, theme: Theme, st: RState, b: BlockV, indent: nat)
    ensures
        st.lines.len() <= render_block(w, theme, st, b, indent).lines.len(),
    decreases b,
{
    match b {
        BlockV::Quote(bs) => lemma_render_quote_grows(w, theme, st, bs, indent),
        BlockV::List { ordered, start, items } => lemma_render_items_grows(
            w,
            theme,
            st,
            items,
            ordered,
            start,
            indent,
        ),
        BlockV::Table { headers, rows } => {
            let room = (w as usize).saturating_sub(indent as usize);
            let max_width = if room >= 8 { room } else { 8usize };
            let widths0 = column_widths(table_plain(headers, rows), max_width);
            let widths = if widths0.len() == 0 { seq![1usize] } else { widths0 };
            let e = Seq::<char>::empty();
            let s1 = if headers.len() > 0 {
                let sh = push_wrapped(
                    w,
                    st,
                    table_row(cells_plain(headers), widths, true, theme),
                    indent,
                    e,
                    e,
                );
                push_wrapped(
                    w,
                    sh,
                    seq![span(separator(widths), SpanStyle::spec_fg(theme.rule), None)],
                    indent,
                    e,
                    e,
                )
            } else {
                st
            };
            lemma_render_rows_grows(w, theme, s1, rows, widths, indent);
        },
        BlockV::FootnoteDefinition(f) => {
            let s1 = push_wrapped(
                w,
                st,
                seq![span(seq!['[', '^'] + f.label + seq![']'], emphasis_style(theme), None)],
                indent,
                Seq::empty(),
                Seq::empty(),
            );
            lemma_render_blocks_grows(w, theme, s1, f.blocks, sat(indent + 2));
        },
        _ => {},
    }
}

proof fn lemma_render_blocks_grows(w: nat, theme: Theme, st: RState, bs: Seq<BlockV>, indent: nat)
    ensures
        st.lines.len() <= render_blocks(w, theme, st, bs, indent).lines.len(),
    decreases bs,
{
    if bs.len() > 0 {
        lemma_render_blocks_grows(w, theme, st, bs.drop_last(), indent);
        lemma_render_block_grows(
            w,
            theme,
            render_blocks(w, theme, st, bs.drop_last(), indent),
            bs.last(),
            indent,
        );
    }
}

proof fn lemma_render_quote_grows(w: nat, theme: Theme, st: RState, bs: Seq<BlockV>, indent: nat)
    ensures
        st.lines.len() <= render_quote(w, theme, st, bs, indent).lines.len(),
    decreases bs,
{
    if bs.len() > 0 {
        lemma_render_quote_grows(w, theme, st, bs.drop_last(), indent);
        lemma_render_block_grows(
            w,
            theme,
            render_quote(w, theme, st, bs.drop_last(), indent),
            bs.last(),
            sat(indent + 2),
        );
    }
}

proof fn lemma_render_items_grows(
    w: nat,
    theme: Theme,
    st: RState,
    items: Seq<ListItemV>,
    ordered: bool,
    start: usize,
    indent: nat,
)
    ensures
        st.lines.len() <= render_items(w, theme, st, items, ordered, start, indent).lines.len(),
    decreases items,
{
    if items.len() > 0 {
        lemma_render_items_grows(w, theme, st, items.drop_last(), ordered, start, indent);
        let s1 = render_items(w, theme, st, items.drop_last(), ordered, start, indent);
        let item = items.last();
        let marker = list_marker(item.task, ordered, start, (items.len() - 1) as usize);
        lemma_render_item_grows(w, theme, s1, item, marker, indent);
    }
}

proof fn lemma_render_item_grows(
    w: nat,
    theme: Theme,
    st: RState,
    item: ListItemV,
    marker: Seq<char>,
    indent: nat,
)
    ensures
        st.lines.len() <= render_item(w, theme, st, item, marker, indent).lines.len(),
    decreases item,
{
    let mw = display_width(marker);
    let pad = repeat_char(' ', mw);
    if item.blocks.len() > 0 {
        let first = item.blocks[0];
        let s1 = match first {
            BlockV::Paragraph(t) => push_wrapped(
                w,
                st,
                inline_spans(t, SpanStyle::spec_plain(), theme),
                indent,
                marker,
                pad,
            ),
            _ => render_block(
                w,
                theme,
                push_wrapped(w, st, seq![], indent, marker, pad),
                first,
                sat(indent + mw),
            ),
        };
        match first {
            BlockV::Paragraph(t) => {},
            _ => lemma_render_block_grows(
                w,
                theme,
                push_wrapped(w, st, seq![], indent, marker, pad),
                first,
                sat(indent + mw),
            ),
        }
        lemma_render_blocks_grows(w, theme, s1, item.blocks.drop_first(), sat(indent + mw));
    }
}

proof fn lemma_render_rows_grows(
    w: nat,
    theme: Theme,
    st: RState,
    rows: Seq<Seq<Seq<InlineV>>>,
    widths: Seq<usize>,
    indent: nat,
)
    ensures
        st.lines.len() <= render_rows(w, theme, st, rows, widths, indent).lines.len(),
    decreases rows.len(),
{
    if rows.len() > 0 {
        lemma_render_rows_grows(w, theme, st, rows.drop_last(), widths, indent);
    }
}

// =====================================================================
// Every table-of-contents entry names a line
// =====================================================================

/// Each entry of the table of contents points at a line that exists.
pub open spec fn toc_points_at_lines(st: RState) -> bool {
    forall|i: int| 0 <= i < st.toc.len() ==> (#[trigger] st.toc[i]).line_index < st.lines.len()
}

proof fn lemma_render_rows_toc(
    w: nat,
    theme: Theme,
    st: RState,
    rows: Seq<Seq<Seq<InlineV>>>,
    widths: Seq<usize>,
    indent: nat,
)
    ensures
        render_rows(w, theme, st, rows, widths, indent).toc == st.toc,
    decreases rows.len(),
{
    if rows.len() > 0 {
        lemma_render_rows_toc(w, theme, st, rows.drop_last(), widths, indent);
    }
}

proof fn lemma_render_block_toc(w: nat, theme: Theme, st: RState, b: BlockV, indent: nat)
    requires
        toc_points_at_lines(st),
    ensures
        toc_points_at_lines(render_block(w, theme, st, b, indent)),
    decreases b,
{
    let e = Seq::<char>::empty();
    lemma_render_block_grows(w, theme, st, b, indent);
    match b {
        BlockV::Heading { level, text, .. } => {
            let n = level.spec_number();
            let prefix = repeat_char('#', n) + seq![' '];
            let style = heading_style(theme, level);
            let spans = seq![span(prefix, style.spec_with_effect(Effect::Bold), None)] + restyle(
                inline_spans(text, SpanStyle::spec_plain(), theme),
                style,
            );
            let ww = if w >= 8 { w } else { 8 };
            lemma_wrap_nonempty(spans, indent, e, repeat_char(' ', n + 1), ww);
            let s1 = push_wrapped(w, st, spans, indent, e, repeat_char(' ', n + 1));
            assert(s1.lines.len() > st.lines.len());
            let r = render_block(w, theme, st, b, indent);
            assert forall|i: int| 0 <= i < r.toc.len() implies (#[trigger] r.toc[i]).line_index
                < r.lines.len() by {
                if i < st.toc.len() {
                    assert(r.toc[i] == st.toc[i]);
                }
            }
        },
        BlockV::Quote(bs) => lemma_render_quote_toc(w, theme, st, bs, indent),
        BlockV::List { ordered, start, items } => lemma_render_items_toc(
            w,
            theme,
            st,
            items,
            ordered,
            start,
            indent,
        ),
        BlockV::Table { headers, rows } => {
            let room = (w as usize).saturating_sub(indent as usize);
            let max_width = if room >= 8 { room } else { 8usize };
            let widths0 = column_widths(table_plain(headers, rows), max_width);
            let widths = if widths0.len() == 0 { seq![1usize] } else { widths0 };
            let s1 = if headers.len() > 0 {
                let sh = push_wrapped(
                    w,
                    st,
                    table_row(cells_plain(headers), widths, true, theme),
                    indent,
                    e,
                    e,
                );
                push_wrapped(
                    w,
                    sh,
                    seq![span(separator(widths), SpanStyle::spec_fg(theme.rule), None)],
                    indent,
                    e,
                    e,
                )
            } else {
                st
            };
            lemma_render_rows_toc(w, theme, s1, rows, widths, indent);
            lemma_render_rows_grows(w, theme, s1, rows, widths, indent);
        },
        BlockV::FootnoteDefinition(f) => {
            let s1 = push_wrapped(
                w,
                st,
                seq![span(seq!['[', '^'] + f.label + seq![']'], emphasis_style(theme), None)],
                indent,
                e,
                e,
            );
            lemma_render_blocks_toc(w, theme, s1, f.blocks, sat(indent + 2));
        },
        _ => {},
    }
}

proof fn lemma_render_blocks_toc(w: nat, theme: Theme, st: RState, bs: Seq<BlockV>, indent: nat)
    requires
        toc_points_at_lines(st),
    ensures
        toc_points_at_lines(render_blocks(w, theme, st, bs, indent)),
    decreases bs,
{
    if bs.len() > 0 {
        lemma_render_blocks_toc(w, theme, st, bs.drop_last(), indent);
        lemma_render_block_toc(
            w,
            theme,
            render_blocks(w, theme, st, bs.drop_last(), indent),
            bs.last(),
            indent,
        );
    }
}

proof fn lemma_render_quote_toc(w: nat, theme: Theme, st: RState, bs: Seq<BlockV>, indent: nat)
    requires
        toc_points_at_lines(st),
    ensures
        toc_points_at_lines(render_quote(w, theme, st, bs, indent)),
    decreases bs,
{
    if bs.len() > 0 {
        lemma_render_quote_toc(w, theme, st, bs.drop_last(), indent);
        let s1 = render_quote(w, theme, st, bs.drop_last(), indent);
        lemma_render_block_toc(w, theme, s1, bs.last(), sat(indent + 2));
    }
}

proof fn lemma_render_items_toc(
    w: nat,
    theme: Theme,
    st: RState,
    items: Seq<ListItemV>,
    ordered: bool,
    start: usize,
    indent: nat,
)
    requires
        toc_points_at_lines(st),
    ensures
        toc_points_at_lines(render_items(w, theme, st, items, ordered, start, indent)),
    decreases items,
{
    if items.len() > 0 {
        lemma_render_items_toc(w, theme, st, items.drop_last(), ordered, start, indent);
        let s1 = render_items(w, theme, st, items.drop_last(), ordered, start, indent);
        let item = items.last();
        let marker = list_marker(item.task, ordered, start, (items.len() - 1) as usize);
        lemma_render_item_toc(w, theme, s1, item, marker, indent);
    }
}

proof fn lemma_render_item_toc(
    w: nat,
    theme: Theme,
    st: RState,
    item: ListItemV,
    marker: Seq<char>,
    indent: nat,
)
    requires
        toc_points_at_lines(st),
    ensures
        toc_points_at_lines(render_item(w, theme, st, item, marker, indent)),
    decreases item,
{
    let mw = display_width(marker);
    let pad = repeat_char(' ', mw);
    if item.blocks.len() > 0 {
        let first = item.blocks[0];
        let s1 = match first {
            BlockV::Paragraph(t) => push_wrapped(
                w,
                st,
                inline_spans(t, SpanStyle::spec_plain(), theme),
                indent,
                marker,
                pad,
            ),
            _ => render_block(
                w,
                theme,
                push_wrapped(w, st, seq![], indent, marker, pad),
                first,
                sat(indent + mw),
            ),
        };
        match first {
            BlockV::Paragraph(t) => {},
            _ => lemma_render_block_toc(
                w,
                theme,
                push_wrapped(w, st, seq![], indent, marker, pad),
                first,
                sat(indent + mw),
            ),
        }
        lemma_render_blocks_toc(w, theme, s1, item.blocks.drop_first(), sat(indent + mw));
    }
}

/// Every entry of a layout's table of contents points at one of its lines.
pub proof fn lemma_toc_points_at_lines(doc_blocks: Seq<BlockV>, options: LayoutOptions)
    ensures
        forall|i: int|
            0 <= i < layout_of(doc_blocks, options).toc.len() ==> (#[trigger] layout_of(
                doc_blocks,
                options,
            ).toc[i]).line_index < layout_of(doc_blocks, options).lines.len(),
{
    let w = if options.width >= 8 { options.width as nat } else { 8 };
    let init = RState { lines: seq![], toc: seq![] };
    lemma_render_blocks_toc(w, theme_of(options.theme), init, doc_blocks, 0);
}

// =====================================================================
// The table of contents lists the headings in reading order
// =====================================================================

/// The level and title of each table-of-contents entry.
pub open spec fn toc_heads(toc: Seq<TocV>) -> Seq<(HeadingLevel, Seq<char>)> {
    toc.map_values(|t: TocV| (t.level, t.title))
}

/// The level and title of each heading.
pub open spec fn heading_heads(hs: Seq<HeadingV>) -> Seq<(HeadingLevel, Seq<char>)> {
    hs.map_values(|h: HeadingV| (h.level, h.title))
}

/// The entries point at lines further and further down.
pub open spec fn toc_ordered(toc: Seq<TocV>) -> bool {
    forall|i: int, j: int|
        0 <= i < j < toc.len() ==> #[trigger] toc[i].line_index < #[trigger] toc[j].line_index
}

/// What holds of a partial layout: its entries point at its lines, and at
/// lines in order wherever every line number fits in a `usize`.
pub open spec fn toc_sound(st: RState) -> bool {
    toc_points_at_lines(st) && (st.lines.len() <= usize::MAX ==> toc_ordered(st.toc))
}

proof fn lemma_heading_heads_add(a: Seq<HeadingV>, b: Seq<HeadingV>)
    ensures
        heading_heads(a + b) == heading_heads(a) + heading_heads(b),
{
    assert(heading_heads(a + b) =~= heading_heads(a) + heading_heads(b));
}

proof fn lemma_blocks_headings_first(bs: Seq<BlockV>)
    requires
        bs.len() > 0,
    ensures
        blocks_headings(bs) == block_headings(bs[0]) + blocks_headings(bs.drop_first()),
    decreases bs.len(),
{
    if bs.len() == 1 {
        assert(bs.drop_last() =~= Seq::<BlockV>::empty());
        assert(bs.drop_first() =~= Seq::<BlockV>::empty());
        assert(blocks_headings(bs) =~= block_headings(bs[0]) + blocks_headings(bs.drop_first()));
    } else {
        lemma_blocks_headings_first(bs.drop_last());
        assert(bs.drop_last().drop_first() =~= bs.drop_first().drop_last());
        assert(bs.drop_last()[0] == bs[0]);
        assert(bs.drop_first().last() == bs.last());
        assert(blocks_headings(bs) =~= block_headings(bs[0]) + blocks_headings(bs.drop_first()));
    }
}

/// `r` adds to the entries of `st` one for each of `hs`, and keeps them sound.
pub open spec fn toc_extends(st: RState, r: RState, hs: Seq<HeadingV>) -> bool {
    &&& toc_heads(r.toc) == toc_heads(st.toc) + heading_heads(hs)
    &&& toc_sound(r)
}

proof fn lemma_toc_refl(st: RState)
    requires
        toc_sound(st),
    ensures
        toc_extends(st, st, seq![]),
{
    assert(toc_heads(st.toc) =~= toc_heads(st.toc) + heading_heads(seq![]));
}

proof fn lemma_toc_keep(st: RState, s1: RState, r: RState, h: Seq<HeadingV>)
    requires
        toc_extends(st, s1, h),
        r.toc == s1.toc,
        s1.lines.len() <= r.lines.len(),
    ensures
        toc_extends(st, r, h),
{
}

proof fn lemma_toc_chain(st: RState, s1: RState, r: RState, h1: Seq<HeadingV>, h2: Seq<HeadingV>)
    requires
        toc_extends(st, s1, h1),
        toc_extends(s1, r, h2),
    ensures
        toc_extends(st, r, h1 + h2),
{
    lemma_heading_heads_add(h1, h2);
    assert(toc_heads(r.toc) =~= toc_heads(st.toc) + heading_heads(h1 + h2));
}

proof fn lemma_render_block_toc_order(w: nat, theme: Theme, st: RState, b: BlockV, indent: nat)
    requires
        toc_sound(st),
    ensures
        toc_extends(st, render_block(w, theme, st, b, indent), block_headings(b)),
    decreases b,
{
    let e = Seq::<char>::empty();
    let r = render_block(w, theme, st, b, indent);
    lemma_render_block_grows(w, theme, st, b, indent);
    lemma_render_block_toc(w, theme, st, b, indent);
    match b {
        BlockV::Heading { level, text, id } => {
            let n = level.spec_number();
            let prefix = repeat_char('#', n) + seq![' '];
            let style = heading_style(theme, level);
            let spans = seq![span(prefix, style.spec_with_effect(Effect::Bold), None)] + restyle(
                inline_spans(text, SpanStyle::spec_plain(), theme),
                style,
            );
            let ww = if w >= 8 { w } else { 8 };
            lemma_wrap_nonempty(spans, indent, e, repeat_char(' ', n + 1), ww);
            let s1 = push_wrapped(w, st, spans, indent, e, repeat_char(' ', n + 1));
            let t = TocV { title: plain_of(text), level, line_index: st.lines.len() as usize };
            assert(r.toc == st.toc.push(t));
            let h = HeadingV { level, id, title: plain_of(text) };
            assert(toc_heads(r.toc) =~= toc_heads(st.toc) + heading_heads(seq![h]));
            if r.lines.len() <= usize::MAX {
                assert forall|i: int, j: int| 0 <= i < j < r.toc.len() implies #[trigger] r.toc[i].line_index
                    < #[trigger] r.toc[j].line_index by {
                    if j < st.toc.len() {
                        assert(r.toc[i] == st.toc[i] && r.toc[j] == st.toc[j]);
                    } else {
                        assert(r.toc[i] == st.toc[i]);
                        assert(st.toc[i].line_index < st.lines.len());
                    }
                }
            }
        },
        BlockV::Quote(bs) => {
            lemma_render_quote_toc_order(w, theme, st, bs, indent);
            lemma_toc_keep(st, render_quote(w, theme, st, bs, indent), r, blocks_headings(bs));
        },
        BlockV::List { ordered, start, items } => {
            lemma_render_items_toc_order(w, theme, st, items, ordered, start, indent);
            let s1 = render_items(w, theme, st, items, ordered, start, indent);
            lemma_toc_keep(st, s1, r, items_headings(items));
        },
        BlockV::Table { headers, rows } => {
            let room = (w as usize).saturating_sub(indent as usize);
            let max_width = if room >= 8 { room } else { 8usize };
            let widths0 = column_widths(table_plain(headers, rows), max_width);
            let widths = if widths0.len() == 0 { seq![1usize] } else { widths0 };
            let s1 = if headers.len() > 0 {
                let sh = push_wrapped(
                    w,
                    st,
                    table_row(cells_plain(headers), widths, true, theme),
                    indent,
                    e,
                    e,
                );
                push_wrapped(
                    w,
                    sh,
                    seq![span(separator(widths), SpanStyle::spec_fg(theme.rule), None)],
                    indent,
                    e,
                    e,
                )
            } else {
                st
            };
            lemma_render_rows_toc(w, theme, s1, rows, widths, indent);
            lemma_render_rows_grows(w, theme, s1, rows, widths, indent);
            lemma_toc_refl(st);
            lemma_toc_keep(st, st, r, seq![]);
        },
        BlockV::FootnoteDefinition(f) => {
            let s1 = push_wrapped(
                w,
                st,
                seq![span(seq!['[', '^'] + f.label + seq![']'], emphasis_style(theme), None)],
                indent,
                e,
                e,
            );
            lemma_toc_refl(st);
            lemma_toc_keep(st, st, s1, seq![]);
            lemma_render_blocks_toc_order(w, theme, s1, f.blocks, sat(indent + 2));
            lemma_toc_chain(st, s1, r, seq![], blocks_headings(f.blocks));
            assert(seq![] + blocks_headings(f.blocks) =~= blocks_headings(f.blocks));
        },
        _ => {
            lemma_toc_refl(st);
            lemma_toc_keep(st, st, r, seq![]);
        },
    }
}

proof fn lemma_render_blocks_toc_order(w: nat, theme: Theme, st: RState, bs: Seq<BlockV>, indent: nat)
    requires
        toc_sound(st),
    ensures
        toc_extends(st, render_blocks(w, theme, st, bs, indent), blocks_headings(bs)),
    decreases bs,
{
    if bs.len() == 0 {
        lemma_toc_refl(st);
    } else {
        lemma_render_blocks_toc_order(w, theme, st, bs.drop_last(), indent);
        let s1 = render_blocks(w, theme, st, bs.drop_last(), indent);
        lemma_render_block_toc_order(w, theme, s1, bs.last(), indent);
        lemma_toc_chain(
            st,
            s1,
            render_blocks(w, theme, st, bs, indent),
            blocks_headings(bs.drop_last()),
            block_headings(bs.last()),
        );
    }
}

proof fn lemma_render_quote_toc_order(w: nat, theme: Theme, st: RState, bs: Seq<BlockV>, indent: nat)
    requires
        toc_sound(st),
    ensures
        toc_extends(st, render_quote(w, theme, st, bs, indent), blocks_headings(bs)),
    decreases bs,
{
    if bs.len() == 0 {
        lemma_toc_refl(st);
    } else {
        lemma_render_quote_toc_order(w, theme, st, bs.drop_last(), indent);
        let s1 = render_quote(w, theme, st, bs.drop_last(), indent);
        lemma_render_block_toc_order(w, theme, s1, bs.last(), sat(indent + 2));
        let s2 = render_block(w, theme, s1, bs.last(), sat(indent + 2));
        let r = render_quote(w, theme, st, bs, indent);
        lemma_toc_keep(s1, s2, r, block_headings(bs.last()));
        lemma_toc_chain(st, s1, r, blocks_headings(bs.drop_last()), block_headings(bs.last()));
    }
}

proof fn lemma_render_items_toc_order(
    w: nat,
    theme: Theme,
    st: RState,
    items: Seq<ListItemV>,
    ordered: bool,
    start: usize,
    indent: nat,
)
    requires
        toc_sound(st),
    ensures
        toc_extends(
            st,
            render_items(w, theme, st, items, ordered, start, indent),
            items_headings(items),
        ),
    decreases items,
{
    if items.len() == 0 {
        lemma_toc_refl(st);
    } else {
        lemma_render_items_toc_order(w, theme, st, items.drop_last(), ordered, start, indent);
        let s1 = render_items(w, theme, st, items.drop_last(), ordered, start, indent);
        let item = items.last();
        let marker = list_marker(item.task, ordered, start, (items.len() - 1) as usize);
        lemma_render_item_toc_order(w, theme, s1, item, marker, indent);
        lemma_toc_chain(
            st,
            s1,
            render_items(w, theme, st, items, ordered, start, indent),
            items_headings(items.drop_last()),
            blocks_headings(item.blocks),
        );
    }
}

proof fn lemma_render_item_toc_order(
    w: nat,
    theme: Theme,
    st: RState,
    item: ListItemV,
    marker: Seq<char>,
    indent: nat,
)
    requires
        toc_sound(st),
    ensures
        toc_extends(st, render_item(w, theme, st, item, marker, indent), blocks_headings(item.blocks)),
    decreases item,
{
    let mw = display_width(marker);
    let pad = repeat_char(' ', mw);
    let r = render_item(w, theme, st, item, marker, indent);
    lemma_toc_refl(st);
    if item.blocks.len() > 0 {
        let first = item.blocks[0];
        let s0 = push_wrapped(w, st, seq![], indent, marker, pad);
        let s1 = match first {
            BlockV::Paragraph(t) => push_wrapped(
                w,
                st,
                inline_spans(t, SpanStyle::spec_plain(), theme),
                indent,
                marker,
                pad,
            ),
            _ => render_block(w, theme, s0, first, sat(indent + mw)),
        };
        match first {
            BlockV::Paragraph(t) => {
                lemma_toc_keep(st, st, s1, seq![]);
            },
            _ => {
                lemma_toc_keep(st, st, s0, seq![]);
                lemma_render_block_toc_order(w, theme, s0, first, sat(indent + mw));
                lemma_toc_chain(st, s0, s1, seq![], block_headings(first));
                assert(seq![] + block_headings(first) =~= block_headings(first));
            },
        }
        lemma_render_blocks_toc_order(w, theme, s1, item.blocks.drop_first(), sat(indent + mw));
        lemma_toc_chain(st, s1, r, block_headings(first), blocks_headings(item.blocks.drop_first()));
        lemma_blocks_headings_first(item.blocks);
    } else {
        lemma_toc_keep(st, st, r, seq![]);
        assert(blocks_headings(item.blocks) == Seq::<HeadingV>::empty());
    }
}

/// The table of contents of a layout lists the document's headings in
/// reading order (at any depth: in quotes, list items and footnotes), each
/// with its level and plain-text title; its entries point at lines further
/// and further down the layout.
pub proof fn lemma_toc_lists_headings(doc_blocks: Seq<BlockV>, options: LayoutOptions)
    ensures
        toc_heads(layout_of(doc_blocks, options).toc) == heading_heads(blocks_headings(doc_blocks)),
        layout_of(doc_blocks, options).lines.len() <= usize::MAX ==> toc_ordered(
            layout_of(doc_blocks, options).toc,
        ),
{
    let w = if options.width >= 8 { options.width as nat } else { 8 };
    let init = RState { lines: seq![], toc: seq![] };
    lemma_render_blocks_toc_order(w, theme_of(options.theme), init, doc_blocks, 0);
    assert(toc_heads(init.toc) + heading_heads(blocks_headings(doc_blocks)) =~= heading_heads(
        blocks_headings(doc_blocks),
    ));
}

// =====================================================================
// Every line agrees with its spans
// =====================================================================

proof fn lemma_span_texts_add(a: Seq<SpanV>, b: Seq<SpanV>)
    ensures
        span_texts(a + b) == span_texts(a) + span_texts(b),
        span_links(a + b) == span_links(a) + span_links(b),
    decreases b.len(),
{
    if b.len() == 0 {
        assert(a + b =~= a);
        assert(span_texts(a) + span_texts(b) =~= span_texts(a));
        assert(span_links(a) + span_links(b) =~= span_links(a));
    } else {
        assert((a + b).drop_last() =~= a + b.drop_last());
        lemma_span_texts_add(a, b.drop_last());
        assert(span_texts(a) + span_texts(b.drop_last()) + b.last().text =~= span_texts(a) + (
        span_texts(b.drop_last()) + b.last().text));
        match b.last().link {
            Some(l) => {
                assert((span_links(a) + span_links(b.drop_last())).push(l) =~= span_links(a) + span_links(
                    b.drop_last(),
                ).push(l));
            },
            None => {},
        }
    }
}

proof fn lemma_lines_consistent_add(a: Seq<LineV>, b: Seq<LineV>)
    requires
        lines_consistent(a),
        lines_consistent(b),
    ensures
        lines_consistent(a + b),
{
    assert forall|i: int| 0 <= i < (a + b).len() implies line_consistent(#[trigger] (a + b)[i]) by {
        if i < a.len() {
            assert((a + b)[i] == a[i]);
        } else {
            assert((a + b)[i] == b[i - a.len()]);
        }
    }
}

proof fn lemma_blank_consistent(st: RState)
    requires
        lines_consistent(st.lines),
    ensures
        lines_consistent(push_blank(st).lines),
{
    assert(span_links(Seq::<SpanV>::empty()) =~= Seq::<usize>::empty());
    assert(line_consistent(blank_line()));
    assert(push_blank(st).lines =~= st.lines + seq![blank_line()]);
    lemma_lines_consistent_add(st.lines, seq![blank_line()]);
}

proof fn lemma_push_wrapped_consistent(
    width: nat,
    st: RState,
    spans: Seq<SpanV>,
    indent: nat,
    first_prefix: Seq<char>,
    continuation_prefix: Seq<char>,
)
    requires
        lines_consistent(st.lines),
    ensures
        lines_consistent(
            push_wrapped(width, st, spans, indent, first_prefix, continuation_prefix).lines,
        ),
{
    let w = if width >= 8 { width } else { 8 };
    lemma_wrap_consistent(spans, indent, first_prefix, continuation_prefix, w);
    lemma_lines_consistent_add(
        st.lines,
        wrap(spans, indent, first_prefix, continuation_prefix, w),
    );
}

proof fn lemma_code_lines_consistent(lines: Seq<Seq<char>>, indent: nat, style: SpanStyle)
    ensures
        lines_consistent(code_lines(lines, indent, style)),
{
    assert forall|i: int| 0 <= i < code_lines(lines, indent, style).len() implies line_consistent(
        #[trigger] code_lines(lines, indent, style)[i],
    ) by {
        let x = span(lines[i], style, None);
        let ind = repeat_char(' ', indent);
        let y = span(ind, SpanStyle::spec_plain(), None);
        lemma_single_span(x);
        lemma_single_span(y);
        lemma_span_texts_add(seq![y], seq![x]);
        assert(Seq::<usize>::empty() + Seq::<usize>::empty() =~= Seq::<usize>::empty());
    }
}

proof fn lemma_quote_lines_consistent(lines: Seq<LineV>, before: int, indent: nat, theme: Theme)
    requires
        lines_consistent(lines),
    ensures
        lines_consistent(quote_lines(lines, before, indent, theme)),
{
    let q = quote_lines(lines, before, indent, theme);
    assert forall|i: int| 0 <= i < q.len() implies line_consistent(#[trigger] q[i]) by {
        assert(line_consistent(lines[i]));
        if !(i < before || (lines[i].spans.len() == 0 && lines[i].plain.len() == 0)) {
            let prefix = repeat_char(' ', indent) + "> "@;
            let x = span(prefix, SpanStyle::spec_fg(theme.quote), None);
            lemma_single_span(x);
            lemma_span_texts_add(seq![x], lines[i].spans);
            assert(Seq::<usize>::empty() + span_links(lines[i].spans) =~= span_links(lines[i].spans));
        }
    }
}

proof fn lemma_render_rows_consistent(
    w: nat,
    theme: Theme,
    st: RState,
    rows: Seq<Seq<Seq<InlineV>>>,
    widths: Seq<usize>,
    indent: nat,
)
    requires
        lines_consistent(st.lines),
    ensures
        lines_consistent(render_rows(w, theme, st, rows, widths, indent).lines),
    decreases rows.len(),
{
    if rows.len() > 0 {
        lemma_render_rows_consistent(w, theme, st, rows.drop_last(), widths, indent);
        let s1 = render_rows(w, theme, st, rows.drop_last(), widths, indent);
        lemma_push_wrapped_consistent(
            w,
            s1,
            table_row(cells_plain(rows.last()), widths, false, theme),
            indent,
            Seq::empty(),
            Seq::empty(),
        );
    }
}

proof fn lemma_render_block_consistent(w: nat, theme: Theme, st: RState, b: BlockV, indent: nat)
    requires
        lines_consistent(st.lines),
    ensures
        lines_consistent(render_block(w, theme, st, b, indent).lines),
    decreases b,
{
    let e = Seq::<char>::empty();
    match b {
        BlockV::Paragraph(t) => lemma_push_wrapped_consistent(
            w,
            st,
            inline_spans(t, SpanStyle::spec_plain(), theme),
            indent,
            e,
            e,
        ),
        BlockV::Heading { level, text, .. } => {
            let n = level.spec_number();
            let prefix = repeat_char('#', n) + seq![' '];
            let style = heading_style(theme, level);
            let spans = seq![span(prefix, style.spec_with_effect(Effect::Bold), None)] + restyle(
                inline_spans(text, SpanStyle::spec_plain(), theme),
                style,
            );
            lemma_push_wrapped_consistent(w, st, spans, indent, e, repeat_char(' ', n + 1));
            let s1 = push_wrapped(w, st, spans, indent, e, repeat_char(' ', n + 1));
            lemma_blank_consistent(
                RState {
                    lines: s1.lines,
                    toc: s1.toc.push(
                        TocV { title: plain_of(text), level, line_index: st.lines.len() as usize },
                    ),
                },
            );
        },
        BlockV::Quote(bs) => {
            lemma_render_quote_consistent(w, theme, st, bs, indent);
            lemma_blank_consistent(render_quote(w, theme, st, bs, indent));
        },
        BlockV::List { ordered, start, items } => {
            lemma_render_items_consistent(w, theme, st, items, ordered, start, indent);
            lemma_blank_consistent(render_items(w, theme, st, items, ordered, start, indent));
        },
        BlockV::CodeBlock { language, code } => {
            let style = SpanStyle::spec_fg(theme.code);
            let head = "```"@ + match language {
                Some(l) => l,
                None => e,
            };
            lemma_push_wrapped_consistent(w, st, seq![span(head, style, None)], indent, e, e);
            let s1 = push_wrapped(w, st, seq![span(head, style, None)], indent, e, e);
            lemma_code_lines_consistent(text_lines(code), sat(indent + 2), style);
            lemma_lines_consistent_add(
                s1.lines,
                code_lines(text_lines(code), sat(indent + 2), style),
            );
            let s2 = push_lines(s1, code_lines(text_lines(code), sat(indent + 2), style));
            lemma_push_wrapped_consistent(w, s2, seq![span("```"@, style, None)], indent, e, e);
            lemma_blank_consistent(
                push_wrapped(w, s2, seq![span("```"@, style, None)], indent, e, e),
            );
        },
        BlockV::Table { headers, rows } => {
            let room = (w as usize).saturating_sub(indent as usize);
            let max_width = if room >= 8 { room } else { 8usize };
            let widths0 = column_widths(table_plain(headers, rows), max_width);
            let widths = if widths0.len() == 0 { seq![1usize] } else { widths0 };
            let s1 = if headers.len() > 0 {
                let hs = table_row(cells_plain(headers), widths, true, theme);
                lemma_push_wrapped_consistent(w, st, hs, indent, e, e);
                let sh = push_wrapped(w, st, hs, indent, e, e);
                let sep = seq![span(separator(widths), SpanStyle::spec_fg(theme.rule), None)];
                lemma_push_wrapped_consistent(w, sh, sep, indent, e, e);
                push_wrapped(w, sh, sep, indent, e, e)
            } else {
                st
            };
            lemma_render_rows_consistent(w, theme, s1, rows, widths, indent);
            lemma_blank_consistent(render_rows(w, theme, s1, rows, widths, indent));
        },
        BlockV::Rule => {
            let room = (w as usize).saturating_sub(indent as usize);
            let r = if room >= 4 { room } else { 4usize };
            let n = if r <= 40 { r } else { 40usize };
            let sp = seq![span(repeat_char('─', n as nat), SpanStyle::spec_fg(theme.rule), None)];
            lemma_push_wrapped_consistent(w, st, sp, indent, e, e);
            lemma_blank_consistent(push_wrapped(w, st, sp, indent, e, e));
        },
        BlockV::Html(h) => lemma_push_wrapped_consistent(
            w,
            st,
            seq![span("[html omitted] "@ + h, SpanStyle::spec_fg(theme.muted), None)],
            indent,
            e,
            e,
        ),
        BlockV::FootnoteDefinition(f) => {
            let sp = seq![span(seq!['[', '^'] + f.label + seq![']'], emphasis_style(theme), None)];
            lemma_push_wrapped_consistent(w, st, sp, indent, e, e);
            let s1 = push_wrapped(w, st, sp, indent, e, e);
            lemma_render_blocks_consistent(w, theme, s1, f.blocks, sat(indent + 2));
        },
    }
}

proof fn lemma_render_blocks_consistent(
    w: nat,
    theme: Theme,
    st: RState,
    bs: Seq<BlockV>,
    indent: nat,
)
    requires
        lines_consistent(st.lines),
    ensures
        lines_consistent(render_blocks(w, theme, st, bs, indent).lines),
    decreases bs,
{
    if bs.len() > 0 {
        lemma_render_blocks_consistent(w, theme, st, bs.drop_last(), indent);
        lemma_render_block_consistent(
            w,
            theme,
            render_blocks(w, theme, st, bs.drop_last(), indent),
            bs.last(),
            indent,
        );
    }
}

proof fn lemma_render_quote_consistent(
    w: nat,
    theme: Theme,
    st: RState,
    bs: Seq<BlockV>,
    indent: nat,
)
    requires
        lines_consistent(st.lines),
    ensures
        lines_consistent(render_quote(w, theme, st, bs, indent).lines),
    decreases bs,
{
    if bs.len() > 0 {
        lemma_render_quote_consistent(w, theme, st, bs.drop_last(), indent);
        let s1 = render_quote(w, theme, st, bs.drop_last(), indent);
        lemma_render_block_consistent(w, theme, s1, bs.last(), sat(indent + 2));
        let s2 = render_block(w, theme, s1, bs.last(), sat(indent + 2));
        lemma_quote_lines_consistent(s2.lines, s1.lines.len() as int, indent, theme);
    }
}

proof fn lemma_render_items_consistent(
    w: nat,
    theme: Theme,
    st: RState,
    items: Seq<ListItemV>,
    ordered: bool,
    start: usize,
    indent: nat,
)
    requires
        lines_consistent(st.lines),
    ensures
        lines_consistent(render_items(w, theme, st, items, ordered, start, indent).lines),
    decreases items,
{
    if items.len() > 0 {
        lemma_render_items_consistent(w, theme, st, items.drop_last(), ordered, start, indent);
        let s1 = render_items(w, theme, st, items.drop_last(), ordered, start, indent);
        let item = items.last();
        let marker = list_marker(item.task, ordered, start, (items.len() - 1) as usize);
        lemma_render_item_consistent(w, theme, s1, item, marker, indent);
    }
}

proof fn lemma_render_item_consistent(
    w: nat,
    theme: Theme,
    st: RState,
    item: ListItemV,
    marker: Seq<char>,
    indent: nat,
)
    requires
        lines_consistent(st.lines),
    ensures
        lines_consistent(render_item(w, theme, st, item, marker, indent).lines),
    decreases item,
{
    let mw = display_width(marker);
    let pad = repeat_char(' ', mw);
    if item.blocks.len() > 0 {
        let first = item.blocks[0];
        let s1 = match first {
            BlockV::Paragraph(t) => push_wrapped(
                w,
                st,
                inline_spans(t, SpanStyle::spec_plain(), theme),
                indent,
                marker,
                pad,
            ),
            _ => render_block(
                w,
                theme,
                push_wrapped(w, st, seq![], indent, marker, pad),
                first,
                sat(indent + mw),
            ),
        };
        match first {
            BlockV::Paragraph(t) => lemma_push_wrapped_consistent(
                w,
                st,
                inline_spans(t, SpanStyle::spec_plain(), theme),
                indent,
                marker,
                pad,
            ),
            _ => {
                lemma_push_wrapped_consistent(w, st, seq![], indent, marker, pad);
                lemma_render_block_consistent(
                    w,
                    theme,
                    push_wrapped(w, st, seq![], indent, marker, pad),
                    first,
                    sat(indent + mw),
                );
            },
        }
        lemma_render_blocks_consistent(w, theme, s1, item.blocks.drop_first(), sat(indent + mw));
    } else {
        lemma_push_wrapped_consistent(w, st, seq![], indent, marker, pad);
    }
}

/// Every line of a layout agrees with its spans: its plain text is their
/// texts one after another, and its link indices are strictly increasing and
/// are exactly the links of its spans.
pub proof fn lemma_layout_lines_consistent(doc_blocks: Seq<BlockV>, options: LayoutOptions)
    ensures
        lines_consistent(layout_of(doc_blocks, options).lines),
{
    let w = if options.width >= 8 { options.width as nat } else { 8 };
    let init = RState { lines: seq![], toc: seq![] };
    lemma_render_blocks_consistent(w, theme_of(options.theme), init, doc_blocks, 0);
}

// =====================================================================
// Executable layout
// =====================================================================

fn heading_style_of(theme: Theme, level: HeadingLevel) -> (r: SpanStyle)
    ensures
        r == heading_style(theme, level),
{
    let color = match level {
        HeadingLevel::H1 | HeadingLevel::H2 => theme.heading,
        HeadingLevel::H3 | HeadingLevel::H4 => theme.accent,
        HeadingLevel::H5 | HeadingLevel::H6 => theme.link,
    };
    SpanStyle::fg(color)
}

fn one_char(c: char) -> (r: String)
    ensures
        r@ == seq![c],
{
    let mut s = String::new();
    s.push(c);
    assert(s@ =~= seq![c]);
    s
}

fn push_span(spans: &mut Vec<StyledSpan>, x: StyledSpan)
    ensures
        spans_view(final(spans)@) == spans_view(old(spans)@).push(x@),
{
    let ghost prev = spans@;
    spans.push(x);
    proof {
        lemma_spans_view_push(prev, x);
    }
}

fn append_inlines(spans: &mut Vec<StyledSpan>, inlines: &Vec<Inline>, base: SpanStyle, theme: Theme)
    ensures
        spans_view(final(spans)@) == spans_view(old(spans)@) + inline_spans(
            inlines_view(inlines@),
            base,
            theme,
        ),
    decreases inlines,
{
    let ghost start = spans_view(spans@);
    let mut i: usize = 0;
    while i < inlines.len()
        invariant
            i <= inlines.len(),
            spans_view(spans@) == start + inline_spans(
                inlines_view(inlines@.take(i as int)),
                base,
                theme,
            ),
        decreases inlines.len() - i,
    {
        let ghost before = spans_view(spans@);
        append_inline(spans, &inlines[i], base, theme);
        proof {
            let p = inlines@.take(i as int);
            assert(inlines@.take(i + 1).drop_last() =~= p);
            let pv = inlines_view(p).push(inline_view(inlines@[i as int]));
            assert(inlines_view(inlines@.take(i + 1)) == pv);
            assert(pv.drop_last() =~= inlines_view(p));
            assert(spans_view(spans@) =~= start + inline_spans(pv, base, theme));
        }
        i += 1;
    }
    assert(inlines@.take(inlines.len() as int) =~= inlines@);
}

fn append_inline(spans: &mut Vec<StyledSpan>, x: &Inline, base: SpanStyle, theme: Theme)
    ensures
        spans_view(final(spans)@) == spans_view(old(spans)@) + inline_spans_one(
            inline_view(*x),
            base,
            theme,
        ),
    decreases x,
{
    let ghost before = spans_view(spans@);
    match x {
        Inline::Text(t) => push_span(spans, styled(t.clone(), base, None)),
        Inline::Code(t) => push_span(spans, styled(t.clone(), SpanStyle::fg(theme.code), None)),
        Inline::SoftBreak => push_span(spans, styled(one_char(' '), base, None)),
        Inline::HardBreak => push_span(spans, styled(one_char('\n'), base, None)),
        Inline::Emphasis(c) => append_inlines(spans, c, base.with_effect(Effect::Italic), theme),
        Inline::Strong(c) => append_inlines(spans, c, base.with_effect(Effect::Bold), theme),
        Inline::Strikethrough(c) => append_inlines(
            spans,
            c,
            base.with_effect(Effect::Strikethrough),
            theme,
        ),
        Inline::Link { text, index, .. } => append_link(
            spans,
            text,
            SpanStyle::fg(theme.link).with_effect(Effect::Underline),
            *index,
        ),
    }
    proof {
        assert(spans_view(spans@) =~= before + inline_spans_one(inline_view(*x), base, theme));
    }
}

fn append_link(spans: &mut Vec<StyledSpan>, inlines: &Vec<Inline>, style: SpanStyle, index: usize)
    ensures
        spans_view(final(spans)@) == spans_view(old(spans)@) + link_spans(
            inlines_view(inlines@),
            style,
            index,
        ),
    decreases inlines,
{
    let ghost start = spans_view(spans@);
    let mut i: usize = 0;
    while i < inlines.len()
        invariant
            i <= inlines.len(),
            spans_view(spans@) == start + link_spans(
                inlines_view(inlines@.take(i as int)),
                style,
                index,
            ),
        decreases inlines.len() - i,
    {
        append_link_one(spans, &inlines[i], style, index);
        proof {
            let p = inlines@.take(i as int);
            assert(inlines@.take(i + 1).drop_last() =~= p);
            let pv = inlines_view(p).push(inline_view(inlines@[i as int]));
            assert(inlines_view(inlines@.take(i + 1)) == pv);
            assert(pv.drop_last() =~= inlines_view(p));
            assert(spans_view(spans@) =~= start + link_spans(pv, style, index));
        }
        i += 1;
    }
    assert(inlines@.take(inlines.len() as int) =~= inlines@);
}

fn append_link_one(spans: &mut Vec<StyledSpan>, x: &Inline, style: SpanStyle, index: usize)
    ensures
        spans_view(final(spans)@) == spans_view(old(spans)@) + link_spans_one(
            inline_view(*x),
            style,
            index,
        ),
    decreases x,
{
    let ghost before = spans_view(spans@);
    match x {
        Inline::Text(t) => push_span(spans, styled(t.clone(), style, Some(index))),
        Inline::Code(t) => push_span(spans, styled(t.clone(), style, Some(index))),
        Inline::SoftBreak => push_span(spans, styled(one_char(' '), style, Some(index))),
        Inline::HardBreak => push_span(spans, styled(one_char('\n'), style, Some(index))),
        Inline::Emphasis(c) => append_link(spans, c, style, index),
        Inline::Strong(c) => append_link(spans, c, style, index),
        Inline::Strikethrough(c) => append_link(spans, c, style, index),
        Inline::Link { text, .. } => append_link(spans, text, style, index),
    }
    proof {
        assert(spans_view(spans@) =~= before + link_spans_one(inline_view(*x), style, index));
    }
}

/// The spans of inline content in the plain base style.
pub fn inlines_to_spans(inlines: &Vec<Inline>, theme: Theme) -> (r: Vec<StyledSpan>)
    ensures
        spans_view(r@) == inline_spans(inlines_view(inlines@), SpanStyle::spec_plain(), theme),
{
    let mut spans: Vec<StyledSpan> = Vec::new();
    assert(spans_view(spans@) =~= Seq::<SpanV>::empty());
    append_inlines(&mut spans, inlines, SpanStyle::plain(), theme);
    assert(spans_view(spans@) =~= inline_spans(
        inlines_view(inlines@),
        SpanStyle::spec_plain(),
        theme,
    ));
    spans
}

/// The lines of a text as `str::lines` yields them (see `text_lines`).
pub fn text_lines_of(s: &String) -> (r: Vec<String>)
    ensures
        r@.map_values(|l: String| l@) == text_lines(s@),
{
    let cs = chars_of(s.as_str());
    let mut done: Vec<String> = Vec::new();
    let mut cur = String::new();
    let mut i: usize = 0;
    while i < cs.len()
        invariant
            cs@ == s@,
            i <= cs.len(),
            lines_fold(cs@.take(i as int)) == (done@.map_values(|l: String| l@), cur@),
        decreases cs.len() - i,
    {
        let c = cs[i];
        let ghost prev = done@;
        assert(cs@.take(i + 1).drop_last() =~= cs@.take(i as int));
        if c == '\n' {
            let mut line = String::new();
            std::mem::swap(&mut line, &mut cur);
            if line.as_str().is_empty() {
                done.push(line);
            } else {
                let ghost before = line@;
                let last = line.pop();
                if last == Some('\r') {
                    done.push(line);
                } else {
                    match last {
                        Some(ch) => line.push(ch),
                        None => {},
                    }
                    assert(line@ =~= before);
                    done.push(line);
                }
            }
            assert(done@.map_values(|l: String| l@) =~= prev.map_values(|l: String| l@).push(
                done@.last()@,
            ));
        } else {
            cur.push(c);
        }
        i += 1;
    }
    assert(cs@.take(cs.len() as int) =~= cs@);
    let ghost prev = done@;
    if !cur.as_str().is_empty() {
        done.push(cur);
        assert(done@.map_values(|l: String| l@) =~= prev.map_values(|l: String| l@).push(
            done@.last()@,
        ));
    }
    done
}

/// The longest prefix of whole graphemes of `input` that fits in `width`
/// columns.
pub fn truncate_to_width(input: &String, width: usize) -> (r: String)
    ensures
        r@ == truncated(input@, width as nat),
{
    let gs = graphemes(input.as_str());
    let ghost gsv = gs@.map_values(|g: String| g@);
    let mut out = String::new();
    let mut used: usize = 0;
    let mut i: usize = 0;
    while i < gs.len()
        invariant
            gsv == gs@.map_values(|g: String| g@),
            gsv == grapheme_clusters(input@),
            i <= gs.len(),
            truncate_fold(gsv.take(i as int), width as nat) == (out@, used as nat, false),
        decreases gs.len() - i,
    {
        let gw = text_width(gs[i].as_str());
        assert(gsv.take(i + 1).drop_last() =~= gsv.take(i as int));
        if used > width || gw > width - used {
            proof {
                lemma_truncate_stays(gsv, i as int, width as nat);
            }
            return out;
        }
        used = used + gw;
        out.append(gs[i].as_str());
        i += 1;
    }
    assert(gsv.take(gs.len() as int) =~= gsv);
    out
}

proof fn lemma_truncate_stays(gs: Seq<Seq<char>>, i: int, width: nat)
    requires
        0 <= i < gs.len(),
        truncate_fold(gs.take(i), width).2 == false,
        truncate_fold(gs.take(i), width).1 + display_width(gs[i]) > width,
    ensures
        truncate_fold(gs, width).0 == truncate_fold(gs.take(i), width).0,
    decreases gs.len() - i,
{
    if i + 1 == gs.len() {
        assert(gs.take(i + 1) =~= gs);
        assert(gs.drop_last() =~= gs.take(i));
        assert(gs.last() == gs[i]);
    } else {
        assert(gs.take(i + 1).drop_last() =~= gs.take(i));
        assert(gs.take(i + 1).last() == gs[i]);
        lemma_truncate_after_stop(gs, i + 1, width);
    }
}

proof fn lemma_truncate_after_stop(gs: Seq<Seq<char>>, j: int, width: nat)
    requires
        0 < j <= gs.len(),
        truncate_fold(gs.take(j), width).2,
    ensures
        truncate_fold(gs, width) == truncate_fold(gs.take(j), width),
    decreases gs.len() - j,
{
    if j == gs.len() {
        assert(gs.take(j) =~= gs);
    } else {
        assert(gs.take(j + 1).drop_last() =~= gs.take(j));
        lemma_truncate_after_stop(gs, j + 1, width);
    }
}

/// Pads a string with spaces to `width` characters.
pub(crate) fn pad_to(s: String, width: usize) -> (r: String)
    ensures
        r@ == pad_right(s@, width as nat),
{
    let n = chars_of(s.as_str()).len();
    if n < width {
        let mut out = s;
        out.append(repeat_string(' ', width - n).as_str());
        out
    } else {
        s
    }
}


pub open spec fn strings_view(s: Seq<String>) -> Seq<Seq<char>> {
    s.map_values(|c: String| c@)
}

pub open spec fn grid_view(s: Seq<Vec<String>>) -> Seq<Seq<Seq<char>>> {
    s.map_values(|r: Vec<String>| strings_view(r@))
}

proof fn lemma_max_row_len(rows: Seq<Seq<Seq<char>>>)
    ensures
        forall|i: int| 0 <= i < rows.len() ==> #[trigger] rows[i].len() <= max_row_len(rows),
    decreases rows.len(),
{
    if rows.len() > 0 {
        lemma_max_row_len(rows.drop_last());
        assert forall|i: int| 0 <= i < rows.len() implies #[trigger] rows[i].len() <= max_row_len(
            rows,
        ) by {
            if i < rows.len() - 1 {
                assert(rows.drop_last()[i] == rows[i]);
            }
        }
    }
}

/// The column widths of a table of plain cell texts (see `column_widths`).
pub fn compute_column_widths(rows: &Vec<Vec<String>>, max_width: usize) -> (r: Vec<usize>)
    ensures
        r@ == column_widths(grid_view(rows@), max_width),
{
    let ghost g = grid_view(rows@);
    let mut cols: usize = 0;
    let mut i: usize = 0;
    while i < rows.len()
        invariant
            g == grid_view(rows@),
            i <= rows.len(),
            cols == max_row_len(g.take(i as int)),
        decreases rows.len() - i,
    {
        assert(g.take(i + 1).drop_last() =~= g.take(i as int));
        assert(g.take(i + 1).last() == strings_view(rows@[i as int]@));
        if rows[i].len() > cols {
            cols = rows[i].len();
        }
        i += 1;
    }
    assert(g.take(rows.len() as int) =~= g);
    if cols == 0 {
        return Vec::new();
    }
    let mut widths: Vec<usize> = Vec::new();
    let mut k: usize = 0;
    while k < cols
        invariant
            k <= cols,
            widths@ =~= Seq::new(k as nat, |_i: int| 3usize),
        decreases cols - k,
    {
        widths.push(3);
        k += 1;
    }
    let ghost w0 = widths@;
    proof {
        lemma_max_row_len(g);
    }
    let mut i: usize = 0;
    while i < rows.len()
        invariant
            g == grid_view(rows@),
            cols == max_row_len(g),
            forall|x: int| 0 <= x < g.len() ==> #[trigger] g[x].len() <= cols,
            w0.len() == cols,
            i <= rows.len(),
            widths@ == widen_rows(w0, g.take(i as int)),
            widths@.len() == cols,
        decreases rows.len() - i,
    {
        let row = &rows[i];
        let ghost rv = g[i as int];
        assert(rv == strings_view(row@));
        assert(g[i as int].len() <= cols);
        assert(rv.len() == row@.len());
        let ghost base = widths@;
        let mut j: usize = 0;
        while j < row.len()
            invariant
                rv == strings_view(row@),
                row.len() <= cols,
                base.len() == cols,
                j <= row.len(),
                widths@ == widen_row(base, rv.take(j as int)),
                widths@.len() == cols,
            decreases row.len() - j,
        {
            let dw = text_width(row[j].as_str());
            proof {
                assert(rv.take(j + 1).drop_last() =~= rv.take(j as int));
                assert(rv.take(j + 1).last() == row@[j as int]@);
            }
            if dw > widths[j] {
                widths.set(j, dw);
            }
            proof {
                assert(widths@ =~= widen_row(base, rv.take(j + 1)));
            }
            j += 1;
        }
        proof {
            assert(rv.take(row.len() as int) =~= rv);
            assert(g.take(i + 1).drop_last() =~= g.take(i as int));
        }
        i += 1;
    }
    assert(g.take(rows.len() as int) =~= g);
    let separator_cost = cols.saturating_add(cols).saturating_add(cols).saturating_add(1);
    let room = max_width.saturating_sub(separator_cost);
    let available = if room >= cols { room } else { cols };
    let mut total: usize = 0;
    let mut k: usize = 0;
    while k < widths.len()
        invariant
            k <= widths.len(),
            total == sum_sat(widths@.take(k as int)),
        decreases widths.len() - k,
    {
        assert(widths@.take(k + 1).drop_last() =~= widths@.take(k as int));
        total = total.saturating_add(widths[k]);
        k += 1;
    }
    assert(widths@.take(widths.len() as int) =~= widths@);
    if total <= available {
        return widths;
    }
    let cap = available / cols;
    let cap1 = if cap >= 1 { cap } else { 1 };
    let mut out: Vec<usize> = Vec::new();
    let mut k: usize = 0;
    while k < widths.len()
        invariant
            k <= widths.len(),
            out@ =~= widths@.take(k as int).map_values(
                |w: usize| if w <= cap1 { w } else { cap1 },
            ),
        decreases widths.len() - k,
    {
        let w = widths[k];
        out.push(if w <= cap1 { w } else { cap1 });
        k += 1;
    }
    assert(widths@.take(widths.len() as int) =~= widths@);
    out
}

fn bar(s: &str, theme: Theme) -> (r: StyledSpan)
    ensures
        r@ == span(s@, SpanStyle::spec_fg(theme.muted), None),
{
    styled(s.to_string(), SpanStyle::fg(theme.muted), None)
}

/// The spans of a table row (see `table_row`).
pub fn render_table_row(cells: &Vec<String>, widths: &Vec<usize>, header: bool, theme: Theme) -> (r:
    Vec<StyledSpan>)
    ensures
        spans_view(r@) == table_row(strings_view(cells@), widths@, header, theme),
{
    let ghost cv = strings_view(cells@);
    let mut spans: Vec<StyledSpan> = Vec::new();
    assert(spans_view(spans@) =~= Seq::<SpanV>::empty());
    let style = if header {
        SpanStyle::fg(theme.heading).with_effect(Effect::Bold)
    } else {
        SpanStyle::plain()
    };
    let mut i: usize = 0;
    while i < widths.len()
        invariant
            i <= widths.len(),
            cv == strings_view(cells@),
            style == cell_style(header, theme),
            spans_view(spans@) == table_cells(cv, widths@.take(i as int), header, theme),
        decreases widths.len() - i,
    {
        let w = widths[i];
        let cell = if i < cells.len() {
            cells[i].clone()
        } else {
            String::new()
        };
        assert(cell@ == (if i < cv.len() { cv[i as int] } else { Seq::<char>::empty() }));
        let t = truncate_to_width(&cell, w);
        let padded = pad_to(t, w);
        push_span(&mut spans, bar("│ ", theme));
        push_span(&mut spans, styled(padded, style, None));
        push_span(&mut spans, styled(one_char(' '), style, None));
        proof {
            assert(widths@.take(i + 1).drop_last() =~= widths@.take(i as int));
            assert(spans_view(spans@) =~= table_cells(cv, widths@.take(i + 1), header, theme));
        }
        i += 1;
    }
    assert(widths@.take(widths.len() as int) =~= widths@);
    push_span(&mut spans, bar("│", theme));
    spans
}

/// The line under a table's head (see `separator`).
pub fn table_separator(widths: &Vec<usize>) -> (r: String)
    ensures
        r@ == separator(widths@),
{
    let mut out = String::new();
    let mut i: usize = 0;
    while i < widths.len()
        invariant
            i <= widths.len(),
            out@ == separator(widths@.take(i as int)),
        decreases widths.len() - i,
    {
        let dashes = repeat_string('-', widths[i].saturating_add(2));
        if i > 0 {
            out.push('+');
        }
        out.append(dashes.as_str());
        proof {
            let t = widths@.take(i + 1);
            assert(t.drop_last() =~= widths@.take(i as int));
            if i == 0 {
                assert(out@ =~= separator(t));
            } else {
                assert(out@ =~= separator(t));
            }
        }
        i += 1;
    }
    assert(widths@.take(widths.len() as int) =~= widths@);
    out
}

fn cells_to_plain(cells: &Vec<Vec<Inline>>) -> (r: Vec<String>)
    ensures
        strings_view(r@) == cells_plain(cells_view(cells@)),
{
    let mut out: Vec<String> = Vec::new();
    let mut i: usize = 0;
    while i < cells.len()
        invariant
            i <= cells.len(),
            strings_view(out@) == cells_plain(cells_view(cells@.take(i as int))),
        decreases cells.len() - i,
    {
        let t = plain_text(&cells[i]);
        let ghost prev = out@;
        out.push(t);
        proof {
            let p = cells@.take(i as int);
            assert(cells@.take(i + 1).drop_last() =~= p);
            assert(cells_view(cells@.take(i + 1)) == cells_view(p).push(
                inlines_view(cells@[i as int]@),
            ));
            let x = inlines_view(cells@[i as int]@);
            assert(cells_plain(cells_view(p).push(x)) =~= cells_plain(cells_view(p)).push(
                plain_of(x),
            ));
            assert(strings_view(out@) =~= strings_view(prev).push(t@));
            assert(strings_view(out@) =~= cells_plain(cells_view(cells@.take(i + 1))));
        }
        i += 1;
    }
    assert(cells@.take(cells.len() as int) =~= cells@);
    out
}


fn concat_str(a: &str, b: &str) -> (r: String)
    ensures
        r@ == a@ + b@,
{
    let mut s = a.to_string();
    s.append(b);
    s
}

struct Renderer {
    width: usize,
    theme: Theme,
    lines: Vec<LayoutLine>,
    toc: Vec<TocEntry>,
}

impl Renderer {
    spec fn rs(&self) -> RState {
        RState { lines: lines_view(self.lines@), toc: toc_view(self.toc@) }
    }

    spec fn same_setup(&self, other: &Renderer) -> bool {
        self.width == other.width && self.theme == other.theme
    }

    fn push_wrapped(&mut self, spans: Vec<StyledSpan>, indent: usize, fp: &str, cp: &str)
        ensures
            final(self).same_setup(old(self)),
            final(self).rs() == push_wrapped(
                old(self).width as nat,
                old(self).rs(),
                spans_view(spans@),
                indent as nat,
                fp@,
                cp@,
            ),
    {
        let w = if self.width >= 8 {
            self.width
        } else {
            8
        };
        let mut rendered = wrap_spans(spans, indent, fp, cp, w);
        let ghost prev = self.lines@;
        let ghost rv = rendered@;
        self.lines.append(&mut rendered);
        proof {
            lemma_lines_view_add(prev, rv);
        }
    }

    fn push_blank(&mut self)
        ensures
            final(self).same_setup(old(self)),
            final(self).rs() == push_blank(old(self).rs()),
    {
        let ghost prev = self.lines@;
        let line = empty_line();
        self.lines.push(line);
        proof {
            lemma_lines_view_push(prev, line);
        }
    }

    fn push_line(&mut self, line: LayoutLine)
        ensures
            final(self).same_setup(old(self)),
            final(self).rs() == (RState {
                lines: old(self).rs().lines.push(line@),
                toc: old(self).rs().toc,
            }),
    {
        let ghost prev = self.lines@;
        self.lines.push(line);
        proof {
            lemma_lines_view_push(prev, line);
        }
    }

    fn push_prebuilt_line(&mut self, indent: usize, spans: &Vec<StyledSpan>)
        ensures
            final(self).same_setup(old(self)),
            final(self).rs() == (RState {
                lines: old(self).rs().lines.push(prebuilt_line(indent as nat, spans_view(spans@))),
                toc: old(self).rs().toc,
            }),
    {
        let indent_text = repeat_string(' ', indent);
        let mut out_spans: Vec<StyledSpan> = Vec::new();
        let mut plain = indent_text.clone();
        let mut links: Vec<usize> = Vec::new();
        let ghost sv = spans_view(spans@);
        if indent > 0 {
            out_spans.push(styled(indent_text, SpanStyle::plain(), None));
        }
        let ghost head = spans_view(out_spans@);
        assert(head =~= (if indent > 0 {
            seq![span(repeat_char(' ', indent as nat), SpanStyle::spec_plain(), None)]
        } else {
            Seq::<SpanV>::empty()
        }));
        let mut k: usize = 0;
        while k < spans.len()
            invariant
                k <= spans.len(),
                sv == spans_view(spans@),
                spans_view(out_spans@) == head + sv.take(k as int),
                plain@ == repeat_char(' ', indent as nat) + span_texts(sv.take(k as int)),
                links@ == span_links(sv.take(k as int)),
            decreases spans.len() - k,
        {
            let x = &spans[k];
            match x.link_index {
                Some(l) => links.push(l),
                None => {},
            }
            plain.append(x.text.as_str());
            let ghost prev = out_spans@;
            out_spans.push(StyledSpan { text: x.text.clone(), style: x.style, link_index: x.link_index });
            proof {
                lemma_spans_view_push(prev, out_spans@.last());
                assert(sv.take(k + 1).drop_last() =~= sv.take(k as int));
                assert(sv.take(k + 1) =~= sv.take(k as int).push(sv[k as int]));
                assert(spans_view(out_spans@) =~= head + sv.take(k + 1));
            }
            k += 1;
        }
        assert(sv.take(spans.len() as int) =~= sv);
        let line = LayoutLine { spans: out_spans, plain_text: plain, link_indices: links };
        self.push_line(line);
    }

    fn render_blocks(&mut self, blocks: &Vec<Block>, indent: usize)
        ensures
            final(self).same_setup(old(self)),
            final(self).rs() == render_blocks(
                old(self).width as nat,
                old(self).theme,
                old(self).rs(),
                blocks_view(blocks@),
                indent as nat,
            ),
        decreases blocks,
    {
        let ghost st0 = self.rs();
        let mut i: usize = 0;
        while i < blocks.len()
            invariant
                i <= blocks.len(),
                self.same_setup(old(self)),
                st0 == old(self).rs(),
                self.rs() == render_blocks(
                    self.width as nat,
                    self.theme,
                    st0,
                    blocks_view(blocks@.take(i as int)),
                    indent as nat,
                ),
            decreases blocks.len() - i,
        {
            self.render_block(&blocks[i], indent);
            proof {
                let p = blocks@.take(i as int);
                assert(blocks@.take(i + 1).drop_last() =~= p);
                let pv = blocks_view(p).push(block_view(blocks@[i as int]));
                assert(blocks_view(blocks@.take(i + 1)) == pv);
                assert(pv.drop_last() =~= blocks_view(p));
            }
            i += 1;
        }
        assert(blocks@.take(blocks.len() as int) =~= blocks@);
    }

    fn render_quote(&mut self, blocks: &Vec<Block>, indent: usize)
        ensures
            final(self).same_setup(old(self)),
            final(self).rs() == render_quote(
                old(self).width as nat,
                old(self).theme,
                old(self).rs(),
                blocks_view(blocks@),
                indent as nat,
            ),
        decreases blocks,
    {
        let ghost st0 = self.rs();
        let mut i: usize = 0;
        while i < blocks.len()
            invariant
                i <= blocks.len(),
                self.same_setup(old(self)),
                st0 == old(self).rs(),
                self.rs() == render_quote(
                    self.width as nat,
                    self.theme,
                    st0,
                    blocks_view(blocks@.take(i as int)),
                    indent as nat,
                ),
            decreases blocks.len() - i,
        {
            let before = self.lines.len();
            let ghost s1 = self.rs();
            self.render_block(&blocks[i], indent.saturating_add(2));
            let ghost s2 = self.rs();
            proof {
                lemma_render_block_grows(
                    self.width as nat,
                    self.theme,
                    s1,
                    block_view(blocks@[i as int]),
                    sat(indent as nat + 2),
                );
            }
            let ghost target = quote_lines(s2.lines, before as int, indent as nat, self.theme);
            let mut k = before;
            while k < self.lines.len()
                invariant
                    before <= k <= self.lines.len(),
                    self.same_setup(old(self)),
                    self.lines@.len() == s2.lines.len(),
                    target == quote_lines(s2.lines, before as int, indent as nat, self.theme),
                    self.toc@ == old(self).toc@ || true,
                    toc_view(self.toc@) == s2.toc,
                    forall|j: int|
                        0 <= j < self.lines@.len() ==> #[trigger] lines_view(self.lines@)[j] == (
                        if j < k {
                            target[j]
                        } else {
                            s2.lines[j]
                        }),
                decreases self.lines.len() - k,
            {
                let ghost lines0 = self.lines@;
                let ghost cur = lines_view(self.lines@)[k as int];
                assert(cur == s2.lines[k as int]);
                let mut line = empty_line();
                self.lines.set_and_swap(k, &mut line);
                assert(line@ == cur);
                if line.spans.len() == 0 && line.plain_text.as_str().is_empty() {
                    self.lines.set_and_swap(k, &mut line);
                    assert(lines_view(self.lines@)[k as int] == target[k as int]);
                } else {
                    let mut prefix = repeat_string(' ', indent);
                    prefix.append("> ");
                    let ghost old_spans = line.spans@;
                    line.spans.insert(0, styled(prefix.clone(), SpanStyle::fg(self.theme.quote), None));
                    line.plain_text = concat_str(prefix.as_str(), line.plain_text.as_str());
                    proof {
                        assert(spans_view(line.spans@) =~= seq![
                            span(prefix@, SpanStyle::spec_fg(self.theme.quote), None),
                        ] + spans_view(old_spans));
                    }
                    self.lines.set_and_swap(k, &mut line);
                    assert(lines_view(self.lines@)[k as int] == target[k as int]);
                }
                proof {
                    assert forall|j: int| 0 <= j < self.lines@.len() implies #[trigger] lines_view(
                        self.lines@,
                    )[j] == (if j < k + 1 {
                        target[j]
                    } else {
                        s2.lines[j]
                    }) by {
                        if j != k {
                            assert(self.lines@[j] == lines0[j]);
                            assert(lines_view(lines0)[j] == lines0[j]@);
                        }
                    }
                }
                k += 1;
            }
            proof {
                assert(lines_view(self.lines@) =~= target);
                let p = blocks@.take(i as int);
                assert(blocks@.take(i + 1).drop_last() =~= p);
                let pv = blocks_view(p).push(block_view(blocks@[i as int]));
                assert(blocks_view(blocks@.take(i + 1)) == pv);
                assert(pv.drop_last() =~= blocks_view(p));
            }
            i += 1;
        }
        assert(blocks@.take(blocks.len() as int) =~= blocks@);
    }

    fn render_list(&mut self, ordered: bool, start: usize, items: &Vec<ListItem>, indent: usize)
        ensures
            final(self).same_setup(old(self)),
            final(self).rs() == render_items(
                old(self).width as nat,
                old(self).theme,
                old(self).rs(),
                items_view(items@),
                ordered,
                start,
                indent as nat,
            ),
        decreases items,
    {
        let ghost st0 = self.rs();
        let mut i: usize = 0;
        while i < items.len()
            invariant
                i <= items.len(),
                self.same_setup(old(self)),
                st0 == old(self).rs(),
                self.rs() == render_items(
                    self.width as nat,
                    self.theme,
                    st0,
                    items_view(items@.take(i as int)),
                    ordered,
                    start,
                    indent as nat,
                ),
            decreases items.len() - i,
        {
            let item = &items[i];
            let marker = match item.task {
                Some(checked) => if checked {
                    "[x] ".to_string()
                } else {
                    "[ ] ".to_string()
                },
                None => if ordered {
                    let mut m = String::new();
                    push_decimal(&mut m, start.wrapping_add(i) as u64);
                    m.append(". ");
                    m
                } else {
                    "• ".to_string()
                },
            };
            self.render_item(item, &marker, indent);
            proof {
                let p = items@.take(i as int);
                assert(items@.take(i + 1).drop_last() =~= p);
                assert(items@.take(i + 1).last() == items@[i as int]);
                lemma_items_view_index(items@.take(i + 1));
                lemma_items_view_index(p);
                assert(items_view(items@.take(i + 1)).drop_last() =~= items_view(p));
            }
            i += 1;
        }
        assert(items@.take(items.len() as int) =~= items@);
    }

    fn render_item(&mut self, item: &ListItem, marker: &String, indent: usize)
        ensures
            final(self).same_setup(old(self)),
            final(self).rs() == render_item(
                old(self).width as nat,
                old(self).theme,
                old(self).rs(),
                ListItemV { task: item.task, blocks: blocks_view(item.blocks@) },
                marker@,
                indent as nat,
            ),
        decreases item,
    {
        let mw = text_width(marker.as_str());
        let pad = repeat_string(' ', mw);
        let inner = indent.saturating_add(mw);
        let ghost bv = blocks_view(item.blocks@);
        proof {
            lemma_blocks_view_index(item.blocks@);
        }
        if item.blocks.len() > 0 {
            match &item.blocks[0] {
                Block::Paragraph(t) => {
                    let spans = inlines_to_spans(t, self.theme);
                    self.push_wrapped(spans, indent, marker.as_str(), pad.as_str());
                },
                other => {
                    self.push_wrapped(Vec::new(), indent, marker.as_str(), pad.as_str());
                    proof {
                        assert(spans_view(Seq::<StyledSpan>::empty()) =~= Seq::<SpanV>::empty());
                    }
                    self.render_block(other, inner);
                },
            }
            proof {
                assert(spans_view(Seq::<StyledSpan>::empty()) =~= Seq::<SpanV>::empty());
            }
            let ghost s1 = self.rs();
            let mut k: usize = 1;
            while k < item.blocks.len()
                invariant
                    1 <= k <= item.blocks.len(),
                    self.same_setup(old(self)),
                    bv == blocks_view(item.blocks@),
                    bv.len() == item.blocks.len(),
                    forall|j: int| 0 <= j < bv.len() ==> #[trigger] bv[j] == block_view(item.blocks@[j]),
                    self.rs() == render_blocks(
                        self.width as nat,
                        self.theme,
                        s1,
                        bv.subrange(1, k as int),
                        inner as nat,
                    ),
                decreases item.blocks.len() - k,
            {
                self.render_block(&item.blocks[k], inner);
                proof {
                    assert(bv.subrange(1, k + 1).drop_last() =~= bv.subrange(1, k as int));
                    assert(bv.subrange(1, k + 1).last() == bv[k as int]);
                }
                k += 1;
            }
            assert(bv.subrange(1, item.blocks.len() as int) =~= bv.drop_first());
        } else {
            self.push_wrapped(Vec::new(), indent, marker.as_str(), pad.as_str());
            proof {
                assert(spans_view(Seq::<StyledSpan>::empty()) =~= Seq::<SpanV>::empty());
            }
        }
    }

    fn render_heading(&mut self, level: HeadingLevel, text: &Vec<Inline>, indent: usize)
        ensures
            final(self).same_setup(old(self)),
            final(self).rs() == render_block(
                old(self).width as nat,
                old(self).theme,
                old(self).rs(),
                BlockV::Heading { level, text: inlines_view(text@), id: Seq::empty() },
                indent as nat,
            ),
    {
        let n = level.as_usize();
        let mut prefix = repeat_string('#', n);
        prefix.push(' ');
        assert(prefix@ =~= repeat_char('#', n as nat) + seq![' ']);
        let style = heading_style_of(self.theme, level);
        let mut spans: Vec<StyledSpan> = Vec::new();
        assert(spans_view(spans@) =~= Seq::<SpanV>::empty());
        push_span(&mut spans, styled(prefix, style.with_effect(Effect::Bold), None));
        let inner = inlines_to_spans(text, self.theme);
        let ghost iv = spans_view(inner@);
        let ghost head = spans_view(spans@);
        let mut k: usize = 0;
        while k < inner.len()
            invariant
                k <= inner.len(),
                iv == spans_view(inner@),
                spans_view(spans@) == head + restyle(iv.take(k as int), style),
            decreases inner.len() - k,
        {
            let x = &inner[k];
            let ghost prev = spans@;
            spans.push(styled(x.text.clone(), style, x.link_index));
            proof {
                lemma_spans_view_push(prev, spans@.last());
                assert(restyle(iv.take(k + 1), style) =~= restyle(iv.take(k as int), style).push(
                    span(iv[k as int].text, style, iv[k as int].link),
                ));
            }
            k += 1;
        }
        assert(iv.take(inner.len() as int) =~= iv);
        proof {
            assert(spans_view(spans@) =~= seq![
                span(
                    repeat_char('#', n as nat) + seq![' '],
                    style.spec_with_effect(Effect::Bold),
                    None,
                ),
            ] + restyle(iv, style));
        }
        let line_index = self.lines.len();
        self.push_wrapped(spans, indent, "", repeat_string(' ', n + 1).as_str());
        let title = plain_text(text);
        let ghost prev_toc = self.toc@;
        let entry = TocEntry { title, level, line_index };
        self.toc.push(entry);
        proof {
            assert(toc_view(self.toc@) =~= toc_view(prev_toc).push(entry@));
            reveal_strlit("");
            assert(""@ =~= Seq::<char>::empty());
        }
        self.push_blank();
    }

    fn render_code_block(&mut self, fence: &CodeFence, indent: usize)
        ensures
            final(self).same_setup(old(self)),
            final(self).rs() == render_block(
                old(self).width as nat,
                old(self).theme,
                old(self).rs(),
                block_view(Block::CodeBlock(*fence)),
                indent as nat,
            ),
    {
        let style = SpanStyle::fg(self.theme.code);
        let mut head = "```".to_string();
        match &fence.language {
            Some(l) => head.append(l.as_str()),
            None => {},
        }
        let mut head_spans: Vec<StyledSpan> = Vec::new();
        push_span(&mut head_spans, styled(head, style, None));
        proof {
            assert(spans_view(Seq::<StyledSpan>::empty()) =~= Seq::<SpanV>::empty());
            reveal_strlit("");
            assert(""@ =~= Seq::<char>::empty());
        }
        self.push_wrapped(head_spans, indent, "", "");
        let body = text_lines_of(&fence.code);
        let ghost tl = body@.map_values(|l: String| l@);
        let ghost s1 = self.rs();
        let inner = indent.saturating_add(2);
        let mut k: usize = 0;
        while k < body.len()
            invariant
                k <= body.len(),
                self.same_setup(old(self)),
                tl == body@.map_values(|l: String| l@),
                inner as nat == sat(indent as nat + 2),
                self.rs() == push_lines(s1, code_lines(tl.take(k as int), inner as nat, style)),
            decreases body.len() - k,
        {
            let mut line_spans: Vec<StyledSpan> = Vec::new();
            push_span(&mut line_spans, styled(body[k].clone(), style, None));
            proof {
                assert(spans_view(Seq::<StyledSpan>::empty()) =~= Seq::<SpanV>::empty());
            }
            self.push_prebuilt_line(inner, &line_spans);
            proof {
                assert(code_lines(tl.take(k + 1), inner as nat, style) =~= code_lines(
                    tl.take(k as int),
                    inner as nat,
                    style,
                ).push(prebuilt_line(inner as nat, seq![span(tl[k as int], style, None)])));
            }
            k += 1;
        }
        assert(tl.take(body.len() as int) =~= tl);
        let mut tail: Vec<StyledSpan> = Vec::new();
        push_span(&mut tail, styled("```".to_string(), style, None));
        self.push_wrapped(tail, indent, "", "");
        self.push_blank();
    }

    fn render_table(&mut self, table: &Table, indent: usize)
        ensures
            final(self).same_setup(old(self)),
            final(self).rs() == render_block(
                old(self).width as nat,
                old(self).theme,
                old(self).rs(),
                block_view(Block::Table(*table)),
                indent as nat,
            ),
    {
        let ghost hv = cells_view(table.headers@);
        let ghost rv = rows_view(table.rows@);
        proof {
            lemma_cells_view_index(table.headers@);
            lemma_rows_view_index(table.rows@);
        }
        let mut grid: Vec<Vec<String>> = Vec::new();
        grid.push(cells_to_plain(&table.headers));
        assert(grid_view(grid@) =~= table_plain(hv, rv.take(0)));
        let mut r: usize = 0;
        while r < table.rows.len()
            invariant
                r <= table.rows.len(),
                rv == rows_view(table.rows@),
                rv.len() == table.rows.len(),
                forall|j: int| 0 <= j < rv.len() ==> #[trigger] rv[j] == cells_view(table.rows@[j]@),
                grid@.len() == r + 1,
                grid_view(grid@) == table_plain(hv, rv.take(r as int)),
            decreases table.rows.len() - r,
        {
            let ghost prev = grid@;
            let cells = cells_to_plain(&table.rows[r]);
            let ghost cv = cells@;
            grid.push(cells);
            proof {
                assert(grid_view(grid@) =~= grid_view(prev).push(strings_view(cv)));
                assert(rv.take(r + 1) =~= rv.take(r as int).push(rv[r as int]));
                assert(table_plain(hv, rv.take(r + 1)) =~= table_plain(hv, rv.take(r as int)).push(
                    cells_plain(rv[r as int]),
                ));
            }
            r += 1;
        }
        assert(rv.take(table.rows.len() as int) =~= rv);
        let room = self.width.saturating_sub(indent);
        let max_width = if room >= 8 {
            room
        } else {
            8
        };
        let mut widths = compute_column_widths(&grid, max_width);
        if widths.len() == 0 {
            widths.push(1);
            assert(widths@ =~= seq![1usize]);
        }
        proof {
            reveal_strlit("");
            assert(""@ =~= Seq::<char>::empty());
            assert(grid_view(grid@)[0] == cells_plain(hv));
        }
        if table.headers.len() > 0 {
            let header = render_table_row(&grid[0], &widths, true, self.theme);
            self.push_wrapped(header, indent, "", "");
            let sep = table_separator(&widths);
            let mut sep_spans: Vec<StyledSpan> = Vec::new();
            push_span(&mut sep_spans, styled(sep, SpanStyle::fg(self.theme.rule), None));
            proof {
                assert(spans_view(Seq::<StyledSpan>::empty()) =~= Seq::<SpanV>::empty());
            }
            self.push_wrapped(sep_spans, indent, "", "");
        }
        let ghost s1 = self.rs();
        let mut r: usize = 0;
        while r < table.rows.len()
            invariant
                r <= table.rows.len(),
                self.same_setup(old(self)),
                rv == rows_view(table.rows@),
                rv.len() == table.rows.len(),
                grid@.len() == table.rows.len() + 1,
                grid_view(grid@) == table_plain(hv, rv),
                self.rs() == render_rows(
                    self.width as nat,
                    self.theme,
                    s1,
                    rv.take(r as int),
                    widths@,
                    indent as nat,
                ),
            decreases table.rows.len() - r,
        {
            proof {
                reveal_strlit("");
                assert(""@ =~= Seq::<char>::empty());
                assert(grid_view(grid@)[r + 1] == strings_view(grid@[r + 1]@));
                assert(table_plain(hv, rv)[r + 1] == cells_plain(rv[r as int]));
            }
            let row = render_table_row(&grid[r + 1], &widths, false, self.theme);
            self.push_wrapped(row, indent, "", "");
            proof {
                assert(rv.take(r + 1).drop_last() =~= rv.take(r as int));
                assert(rv.take(r + 1).last() == rv[r as int]);
            }
            r += 1;
        }
        assert(rv.take(table.rows.len() as int) =~= rv);
        self.push_blank();
    }

    fn render_rule(&mut self, indent: usize)
        ensures
            final(self).same_setup(old(self)),
            final(self).rs() == render_block(
                old(self).width as nat,
                old(self).theme,
                old(self).rs(),
                BlockV::Rule,
                indent as nat,
            ),
    {
        let room = self.width.saturating_sub(indent);
        let r = if room >= 4 {
            room
        } else {
            4
        };
        let n = if r <= 40 {
            r
        } else {
            40
        };
        let mut spans: Vec<StyledSpan> = Vec::new();
        push_span(&mut spans, styled(repeat_string('─', n), SpanStyle::fg(self.theme.rule), None));
        proof {
            assert(spans_view(Seq::<StyledSpan>::empty()) =~= Seq::<SpanV>::empty());
            reveal_strlit("");
            assert(""@ =~= Seq::<char>::empty());
        }
        self.push_wrapped(spans, indent, "", "");
        self.push_blank();
    }

    fn render_block(&mut self, block: &Block, indent: usize)
        ensures
            final(self).same_setup(old(self)),
            final(self).rs() == render_block(
                old(self).width as nat,
                old(self).theme,
                old(self).rs(),
                block_view(*block),
                indent as nat,
            ),
        decreases block,
    {
        proof {
            reveal_strlit("");
            assert(""@ =~= Seq::<char>::empty());
            assert(spans_view(Seq::<StyledSpan>::empty()) =~= Seq::<SpanV>::empty());
        }
        match block {
            Block::Paragraph(inlines) => {
                let spans = inlines_to_spans(inlines, self.theme);
                self.push_wrapped(spans, indent, "", "");
            },
            Block::Heading { level, text, .. } => {
                self.render_heading(*level, text, indent);
            },
            Block::Quote(blocks) => {
                self.render_quote(blocks, indent);
                self.push_blank();
            },
            Block::List { ordered, start, items } => {
                self.render_list(*ordered, *start, items, indent);
                self.push_blank();
            },
            Block::CodeBlock(fence) => {
                self.render_code_block(fence, indent);
            },
            Block::Table(table) => {
                self.render_table(table, indent);
            },
            Block::Rule => {
                self.render_rule(indent);
            },
            Block::Html(html) => {
                let text = concat_str("[html omitted] ", html.as_str());
                let mut spans: Vec<StyledSpan> = Vec::new();
                push_span(&mut spans, styled(text, SpanStyle::fg(self.theme.muted), None));
                self.push_wrapped(spans, indent, "", "");
            },
            Block::FootnoteDefinition(footnote) => {
                let mut label = String::new();
                label.push('[');
                label.push('^');
                label.append(footnote.label.as_str());
                label.push(']');
                assert(label@ =~= seq!['[', '^'] + footnote.label@ + seq![']']);
                let mut spans: Vec<StyledSpan> = Vec::new();
                assert(spans_view(spans@) =~= Seq::<SpanV>::empty());
                push_span(
                    &mut spans,
                    styled(
                        label,
                        SpanStyle::fg(self.theme.accent).with_effect(Effect::Bold),
                        None,
                    ),
                );
                proof {
                    assert(spans_view(spans@) =~= seq![
                        span(
                            seq!['[', '^'] + footnote.label@ + seq![']'],
                            emphasis_style(self.theme),
                            None,
                        ),
                    ]);
                }
                self.push_wrapped(spans, indent, "", "");
                self.render_blocks(&footnote.blocks, indent.saturating_add(2));
            },
        }
    }
}

/// Lays a document out into styled lines at the given width (at least 8
/// columns) and theme, and collects the table of contents: one entry per
/// heading, with the index of the heading's first line.
pub fn layout_document(document: &Document, options: &LayoutOptions) -> (r: Layout)
    ensures
        r@ == layout_of(blocks_view(document.blocks@), *options),
        forall|i: int| 0 <= i < r.toc@.len() ==> (#[trigger] r.toc@[i]).line_index < r.lines@.len(),
        lines_consistent(r@.lines),
        toc_heads(r@.toc) == heading_heads(blocks_headings(blocks_view(document.blocks@))),
        toc_ordered(r@.toc),
{
    proof {
        lemma_toc_points_at_lines(blocks_view(document.blocks@), *options);
        lemma_toc_lists_headings(blocks_view(document.blocks@), *options);
        lemma_layout_lines_consistent(blocks_view(document.blocks@), *options);
    }
    let width = if options.width >= 8 {
        options.width
    } else {
        8
    };
    let theme = Theme::resolve(options.theme);
    let mut renderer = Renderer { width, theme, lines: Vec::new(), toc: Vec::new() };
    proof {
        assert(renderer.rs() =~= (RState { lines: seq![], toc: seq![] }));
    }
    renderer.render_blocks(&document.blocks, 0);
    let r = Layout { lines: renderer.lines, toc: renderer.toc };
    let line_count = r.lines.len();
    proof {
        assert forall|i: int| 0 <= i < r.toc@.len() implies (#[trigger] r.toc@[i]).line_index
            < r.lines@.len() by {
            assert(r@.toc[i] == r.toc@[i]@);
        }
        assert(r@.lines.len() == line_count);
    }
    r
}

} // verus!
