//! Builds the document tree from the Markdown event stream.
//!
//! The parser walks the event stream once, left to right.  Each function below
//! comes in two forms: a spec function that says what the result is, written as
//! a recursion over the stream position, and the executable method that
//! computes it and is proved to agree.

use vstd::prelude::*;

use crate::document::{
    headings_view, links_view, lemma_inlines_view_append, lemma_single_inline, block_view, blocks_view, copy_footnote, footnote_view, footnotes_view, inline_view, inlines_view,
    Block, BlockV, CodeFence, Document, DocumentV, Footnote, FootnoteV, Heading, HeadingLevel,
    HeadingV, Inline, InlineV, Link, LinkV, ListItem, ListItemV, Table, cells_view, rows_view,
    items_view,
};
use crate::events::{
    events_view, is_block_tag, markdown_event_list, markdown_events, EventKind, EventV, MdEvent,
    TagKind, MARKDOWN_OPTIONS,
};
use crate::text::{
    ascii_alnum, chars_of, is_ascii_alnum, is_caseless_slug_char, is_white_space,
    lowercase_chars, lowercase_of,
    string_from_range, white_space,
};

verus! {

// =====================================================================
// Specification
// =====================================================================

/// Where the parser stands: the stream position and what it has collected on
/// the side (headings, links and footnotes, in the order they were met).
#[verifier::ext_equal]
pub struct ParseState {
    pub pos: int,
    pub headings: Seq<HeadingV>,
    pub links: Seq<LinkV>,
    pub footnotes: Seq<FootnoteV>,
}

impl ParseState {
    pub open spec fn at(self, pos: int) -> ParseState {
        ParseState { pos, headings: self.headings, links: self.links, footnotes: self.footnotes }
    }

    pub open spec fn next(self) -> ParseState {
        self.at(self.pos + 1)
    }

    pub open spec fn initial() -> ParseState {
        ParseState { pos: 0, headings: seq![], links: seq![], footnotes: seq![] }
    }
}

/// The event that ends the construct being parsed.
#[derive(Debug, Clone, Copy, PartialEq, Eq, Structural)]
pub enum EndCondition {
    Document,
    Paragraph,
    Heading(u8),
    BlockQuote,
    List,
    Item,
    CodeBlock,
    Table,
    TableHead,
    TableRow,
    TableCell,
    FootnoteDefinition,
    Emphasis,
    Strong,
    Strikethrough,
    Link,
    Image,
    HtmlBlock,
    Other,
}

pub open spec fn end_tag(end: EndCondition) -> TagKind {
    match end {
        EndCondition::Paragraph => TagKind::Paragraph,
        EndCondition::Heading(_) => TagKind::Heading,
        EndCondition::BlockQuote => TagKind::BlockQuote,
        EndCondition::List => TagKind::List,
        EndCondition::Item => TagKind::Item,
        EndCondition::CodeBlock => TagKind::CodeBlock,
        EndCondition::Table => TagKind::Table,
        EndCondition::TableHead => TagKind::TableHead,
        EndCondition::TableRow => TagKind::TableRow,
        EndCondition::TableCell => TagKind::TableCell,
        EndCondition::FootnoteDefinition => TagKind::FootnoteDefinition,
        EndCondition::Emphasis => TagKind::Emphasis,
        EndCondition::Strong => TagKind::Strong,
        EndCondition::Strikethrough => TagKind::Strikethrough,
        EndCondition::Link => TagKind::Link,
        EndCondition::Image => TagKind::Image,
        EndCondition::HtmlBlock => TagKind::HtmlBlock,
        _ => TagKind::Other,
    }
}

/// Whether `e` is the event that ends the construct.
pub open spec fn end_matches(end: EndCondition, e: EventV) -> bool {
    match end {
        EndCondition::Document => false,
        EndCondition::Heading(level) => e.kind == EventKind::End && e.tag == TagKind::Heading
            && e.level == level,
        EndCondition::Other => e.kind == EventKind::End,
        _ => e.kind == EventKind::End && e.tag == end_tag(end),
    }
}

/// The end condition for the contents of a tag met among inline events.
pub open spec fn inline_end(e: EventV) -> EndCondition {
    match e.tag {
        TagKind::Emphasis => EndCondition::Emphasis,
        TagKind::Strong => EndCondition::Strong,
        TagKind::Strikethrough => EndCondition::Strikethrough,
        TagKind::Link => EndCondition::Link,
        TagKind::Image => EndCondition::Image,
        TagKind::Paragraph => EndCondition::Paragraph,
        TagKind::Heading => EndCondition::Heading(e.level),
        TagKind::HtmlBlock => EndCondition::HtmlBlock,
        _ => EndCondition::Other,
    }
}

/// The heading level of a level number (pulldown-cmark numbers them 1 to 6).
pub open spec fn heading_level_of(n: u8) -> HeadingLevel {
    if n <= 1 {
        HeadingLevel::H1
    } else if n == 2 {
        HeadingLevel::H2
    } else if n == 3 {
        HeadingLevel::H3
    } else if n == 4 {
        HeadingLevel::H4
    } else if n == 5 {
        HeadingLevel::H5
    } else {
        HeadingLevel::H6
    }
}

/// A heading that pulldown-cmark reports at level `n` keeps that level: its
/// level's number is `n`, for each of the six levels.
pub proof fn lemma_heading_level_kept(n: u8)
    requires
        1 <= n <= 6,
    ensures
        heading_level_of(n).spec_number() == n,
{
}

/// A heading block keeps the level of the event that opens it, and the
/// headings list records it at that level.
pub proof fn lemma_heading_block_level(ev: Seq<EventV>, e: EventV, st: ParseState)
    requires
        e.tag == TagKind::Heading,
        1 <= e.level <= 6,
    ensures
        block(ev, e, st).0 matches BlockV::Heading { level, .. } && level.spec_number() == e.level,
        block(ev, e, st).1.headings.last().level.spec_number() == e.level,
{
}

/// The plain text of inline content: text and code as they are, a space for
/// each break, and the text inside emphasis and links.
pub open spec fn plain_of(s: Seq<InlineV>) -> Seq<char>
    decreases s,
{
    if s.len() == 0 {
        Seq::empty()
    } else {
        plain_of(s.drop_last()) + plain_one(s.last())
    }
}

/// The plain text of two runs of inline content one after the other is the
/// plain text of the first followed by that of the second.
pub proof fn lemma_plain_of_add(a: Seq<InlineV>, b: Seq<InlineV>)
    ensures
        plain_of(a + b) == plain_of(a) + plain_of(b),
    decreases b.len(),
{
    if b.len() == 0 {
        assert(a + b =~= a);
        assert(plain_of(a) + plain_of(b) =~= plain_of(a));
    } else {
        assert((a + b).drop_last() =~= a + b.drop_last());
        lemma_plain_of_add(a, b.drop_last());
        assert(plain_of(a) + plain_of(b.drop_last()) + plain_one(b.last()) =~= plain_of(a) + (
        plain_of(b.drop_last()) + plain_one(b.last())));
    }
}

pub open spec fn plain_one(x: InlineV) -> Seq<char>
    decreases x,
{
    match x {
        InlineV::Text(t) => t,
        InlineV::Code(t) => t,
        InlineV::SoftBreak => seq![' '],
        InlineV::HardBreak => seq![' '],
        InlineV::Emphasis(c) => plain_of(c),
        InlineV::Strong(c) => plain_of(c),
        InlineV::Strikethrough(c) => plain_of(c),
        InlineV::Link { text, .. } => plain_of(text),
    }
}

/// The lowercase mapping of each character, concatenated.
pub open spec fn lower_all(s: Seq<char>) -> Seq<char>
    decreases s.len(),
{
    if s.len() == 0 {
        Seq::empty()
    } else {
        lower_all(s.drop_last()) + lowercase_of(s.last())
    }
}

/// One step of building a slug: ASCII letters and digits are kept, and a run
/// of whitespace, dashes and underscores after some kept text becomes one dash.
pub open spec fn slug_step(acc: (Seq<char>, bool), ch: char) -> (Seq<char>, bool) {
    if is_ascii_alnum(ch) {
        (acc.0.push(ch), false)
    } else if (is_white_space(ch) || ch == '-' || ch == '_') && !acc.1 && acc.0.len() > 0 {
        (acc.0.push('-'), true)
    } else {
        acc
    }
}

pub open spec fn slug_fold(cs: Seq<char>) -> (Seq<char>, bool)
    decreases cs.len(),
{
    if cs.len() == 0 {
        (Seq::empty(), false)
    } else {
        slug_step(slug_fold(cs.drop_last()), cs.last())
    }
}

pub open spec fn trim_end_dashes(s: Seq<char>) -> Seq<char>
    decreases s.len(),
{
    if s.len() > 0 && s.last() == '-' {
        trim_end_dashes(s.drop_last())
    } else {
        s
    }
}

pub open spec fn trim_start_dashes(s: Seq<char>) -> Seq<char>
    decreases s.len(),
{
    if s.len() > 0 && s[0] == '-' {
        trim_start_dashes(s.drop_first())
    } else {
        s
    }
}

/// The anchor id of a heading title.
pub open spec fn slug_of(input: Seq<char>) -> Seq<char> {
    trim_start_dashes(trim_end_dashes(slug_fold(lower_all(input)).0))
}

/// The shape of an anchor id: ASCII letters, digits and single dashes, with
/// no dash at either end.
pub open spec fn is_slug(s: Seq<char>) -> bool {
    &&& forall|i: int| 0 <= i < s.len() ==> is_ascii_alnum(#[trigger] s[i]) || s[i] == '-'
    &&& forall|i: int| 0 <= i < s.len() - 1 ==> !(#[trigger] s[i] == '-' && s[i + 1] == '-')
    &&& s.len() > 0 ==> s[0] != '-' && s.last() != '-'
}

proof fn lemma_slug_fold_shape(cs: Seq<char>)
    ensures
        ({
            let (s, dash) = slug_fold(cs);
            &&& forall|i: int| 0 <= i < s.len() ==> is_ascii_alnum(#[trigger] s[i]) || s[i] == '-'
            &&& forall|i: int| 0 <= i < s.len() - 1 ==> !(#[trigger] s[i] == '-' && s[i + 1] == '-')
            &&& s.len() > 0 ==> s[0] != '-'
            &&& dash == (s.len() > 0 && s.last() == '-')
        }),
    decreases cs.len(),
{
    if cs.len() > 0 {
        lemma_slug_fold_shape(cs.drop_last());
        let (p, _) = slug_fold(cs.drop_last());
        let (s, _) = slug_fold(cs);
        assert forall|i: int| 0 <= i < s.len() - 1 implies !(#[trigger] s[i] == '-' && s[i + 1]
            == '-') by {
            if s.len() > p.len() && i == p.len() - 1 {
                assert(s[i] == p[i]);
            } else if s.len() > p.len() {
                assert(s[i] == p[i] && s[i + 1] == p[i + 1]);
            }
        }
        assert forall|i: int| 0 <= i < s.len() implies is_ascii_alnum(#[trigger] s[i]) || s[i]
            == '-' by {
            if i < p.len() {
                assert(s[i] == p[i]);
            }
        }
    }
}

/// An anchor id always has the shape of `is_slug`.
pub proof fn lemma_slug_shape(input: Seq<char>)
    ensures
        is_slug(slug_of(input)),
{
    let (s, _) = slug_fold(lower_all(input));
    lemma_slug_fold_shape(lower_all(input));
    let t = if s.len() > 0 && s.last() == '-' {
        s.drop_last()
    } else {
        s
    };
    if s.len() > 0 && s.last() == '-' {
        let d = s.drop_last();
        if d.len() > 0 {
            assert(!(s[d.len() - 1] == '-' && s[d.len() as int] == '-'));
            assert(d.last() == s[d.len() - 1]);
        }
        assert(trim_end_dashes(d) == d);
    }
    assert(trim_end_dashes(s) == t);
    if t.len() > 0 {
        assert(t[0] == s[0]);
    }
    assert(trim_start_dashes(t) == t);
    assert forall|i: int| 0 <= i < t.len() - 1 implies !(#[trigger] t[i] == '-' && t[i + 1]
        == '-') by {
        assert(t[i] == s[i] && t[i + 1] == s[i + 1]);
    }
    assert forall|i: int| 0 <= i < t.len() implies is_ascii_alnum(#[trigger] t[i]) || t[i] == '-' by {
        assert(t[i] == s[i]);
    }
}

/// An anchor id in lowercase: lowercase ASCII letters, digits and single
/// dashes, with no dash at either end.
pub open spec fn is_lower_slug(s: Seq<char>) -> bool {
    &&& forall|i: int| 0 <= i < s.len() ==> is_caseless_slug_char(#[trigger] s[i])
    &&& forall|i: int| 0 <= i < s.len() - 1 ==> !(#[trigger] s[i] == '-' && s[i + 1] == '-')
    &&& s.len() > 0 ==> s[0] != '-' && s.last() != '-'
}

proof fn lemma_slug_fold_keeps(s: Seq<char>)
    requires
        forall|i: int| 0 <= i < s.len() ==> is_caseless_slug_char(#[trigger] s[i]),
        forall|i: int| 0 <= i < s.len() - 1 ==> !(#[trigger] s[i] == '-' && s[i + 1] == '-'),
        s.len() > 0 ==> s[0] != '-',
    ensures
        slug_fold(s) == (s, s.len() > 0 && s.last() == '-'),
    decreases s.len(),
{
    if s.len() > 0 {
        let p = s.drop_last();
        assert forall|i: int| 0 <= i < p.len() - 1 implies !(#[trigger] p[i] == '-' && p[i + 1]
            == '-') by {
            assert(p[i] == s[i] && p[i + 1] == s[i + 1]);
        }
        assert forall|i: int| 0 <= i < p.len() implies is_caseless_slug_char(#[trigger] p[i]) by {
            assert(p[i] == s[i]);
        }
        lemma_slug_fold_keeps(p);
        let c = s.last();
        assert(is_caseless_slug_char(s[s.len() - 1]));
        if c == '-' {
            assert(s.len() > 1);
            assert(!(s[s.len() - 2] == '-' && s[s.len() - 1] == '-'));
            assert(p.last() == s[s.len() - 2]);
        }
        assert(p.push(c) =~= s);
    }
}

/// A lowercase anchor id whose characters lowercase to themselves is its own
/// anchor id.
proof fn lemma_slug_of_slug(s: Seq<char>)
    requires
        is_lower_slug(s),
        lower_all(s) == s,
    ensures
        slug_of(s) == s,
{
    lemma_slug_fold_keeps(s);
    assert(trim_end_dashes(s) == s);
    assert(trim_start_dashes(s) == s);
}

/// The concatenation of text chunks.
pub open spec fn concat(s: Seq<Seq<char>>) -> Seq<char>
    decreases s.len(),
{
    if s.len() == 0 {
        Seq::empty()
    } else {
        concat(s.drop_last()) + s.last()
    }
}

pub open spec fn footnote_ref_text(label: Seq<char>) -> Seq<char> {
    seq!['[', '^'] + label + seq![']']
}

pub open spec fn image_placeholder(alt: Seq<char>, dest: Seq<char>) -> Seq<char> {
    if alt.len() == 0 {
        "[image] "@ + dest
    } else {
        "[image: "@ + alt + "] "@ + dest
    }
}

/// Block sequence up to the end condition.
pub open spec fn blocks_loop(
    ev: Seq<EventV>,
    end: EndCondition,
    st: ParseState,
    acc: Seq<BlockV>,
) -> (Seq<BlockV>, ParseState)
    decreases ev.len() - st.pos, 1nat,
{
    if !(0 <= st.pos < ev.len()) {
        (acc, st)
    } else {
        let e = ev[st.pos];
        let st1 = st.next();
        if end_matches(end, e) {
            (acc, st1)
        } else if e.kind == EventKind::Start {
            let (b, st2) = block(ev, e, st1);
            if st.pos < st2.pos <= ev.len() {
                blocks_loop(ev, end, st2, acc.push(b))
            } else {
                (acc.push(b), st2)
            }
        } else if e.kind == EventKind::Rule {
            blocks_loop(ev, end, st1, acc.push(BlockV::Rule))
        } else if e.kind == EventKind::Html || e.kind == EventKind::InlineHtml {
            blocks_loop(ev, end, st1, acc.push(BlockV::Html(e.text)))
        } else if e.kind == EventKind::Text {
            blocks_loop(ev, end, st1, acc.push(BlockV::Paragraph(seq![InlineV::Text(e.text)])))
        } else if e.kind == EventKind::Code || e.kind == EventKind::InlineMath || e.kind
            == EventKind::DisplayMath {
            blocks_loop(ev, end, st1, acc.push(BlockV::Paragraph(seq![InlineV::Code(e.text)])))
        } else if e.kind == EventKind::End {
            (acc, st1)
        } else if e.kind == EventKind::FootnoteReference {
            blocks_loop(
                ev,
                end,
                st1,
                acc.push(BlockV::Paragraph(seq![InlineV::Text(footnote_ref_text(e.text))])),
            )
        } else {
            blocks_loop(ev, end, st1, acc)
        }
    }
}

/// The block that the start event `e` opens; `st` stands after `e`.
pub open spec fn block(ev: Seq<EventV>, e: EventV, st: ParseState) -> (BlockV, ParseState)
    decreases ev.len() - st.pos, 4nat,
{
    match e.tag {
        TagKind::Paragraph => {
            let (t, s2) = inlines_loop(ev, EndCondition::Paragraph, st, seq![]);
            (BlockV::Paragraph(t), s2)
        },
        TagKind::Heading => {
            let (t, s2) = inlines_loop(ev, EndCondition::Heading(e.level), st, seq![]);
            let title = plain_of(t);
            let id = slug_of(title);
            let level = heading_level_of(e.level);
            (
                BlockV::Heading { level, text: t, id },
                ParseState {
                    headings: s2.headings.push(HeadingV { level, id, title }),
                    ..s2
                },
            )
        },
        TagKind::BlockQuote => {
            let (c, s2) = blocks_loop(ev, EndCondition::BlockQuote, st, seq![]);
            (BlockV::Quote(c), s2)
        },
        TagKind::List => {
            let (items, s2) = list_loop(ev, st, seq![]);
            (
                BlockV::List {
                    ordered: e.list_start is Some,
                    start: (match e.list_start {
                        Some(n) => n,
                        None => 1u64,
                    }) as usize,
                    items,
                },
                s2,
            )
        },
        TagKind::Item => {
            let (item, s2) = list_item(ev, st);
            (BlockV::List { ordered: false, start: 1, items: seq![item] }, s2)
        },
        TagKind::CodeBlock => {
            let (chunks, s2) = collect_loop(ev, EndCondition::CodeBlock, st, seq![]);
            let language = if e.fenced && e.text.len() > 0 {
                Some(e.text)
            } else {
                None
            };
            (BlockV::CodeBlock { language, code: concat(chunks) }, s2)
        },
        TagKind::Table => {
            let (headers, rows, s2) = table_loop(ev, st, seq![], seq![]);
            (BlockV::Table { headers, rows }, s2)
        },
        TagKind::FootnoteDefinition => {
            let (c, s2) = blocks_loop(ev, EndCondition::FootnoteDefinition, st, seq![]);
            let f = FootnoteV { label: e.text, blocks: c };
            (BlockV::FootnoteDefinition(f), ParseState { footnotes: s2.footnotes.push(f), ..s2 })
        },
        TagKind::HtmlBlock => {
            let (chunks, s2) = collect_loop(ev, EndCondition::HtmlBlock, st, seq![]);
            (BlockV::Html(concat(chunks)), s2)
        },
        _ => {
            let (t, s2) = inlines_loop(ev, inline_end(e), st, seq![]);
            (BlockV::Paragraph(t), s2)
        },
    }
}

/// List items up to the end of the list (the end event is consumed).
pub open spec fn list_loop(ev: Seq<EventV>, st: ParseState, acc: Seq<ListItemV>) -> (
    Seq<ListItemV>,
    ParseState,
)
    decreases ev.len() - st.pos, 1nat,
{
    if !(0 <= st.pos < ev.len()) {
        (acc, st)
    } else if end_matches(EndCondition::List, ev[st.pos]) {
        (acc, st.next())
    } else {
        let e = ev[st.pos];
        let st1 = st.next();
        if e.kind == EventKind::Start && e.tag == TagKind::Item {
            let (item, s2) = list_item(ev, st1);
            if st.pos < s2.pos <= ev.len() {
                list_loop(ev, s2, acc.push(item))
            } else {
                (acc.push(item), s2)
            }
        } else {
            list_loop(ev, st1, acc)
        }
    }
}

/// A list item; `st` stands after its start event.
pub open spec fn list_item(ev: Seq<EventV>, st: ParseState) -> (ListItemV, ParseState)
    decreases ev.len() - st.pos, 3nat,
{
    let has_marker = 0 <= st.pos < ev.len() && ev[st.pos].kind == EventKind::TaskListMarker;
    let task = if has_marker {
        Some(ev[st.pos].checked)
    } else {
        None
    };
    let st1 = if has_marker {
        st.next()
    } else {
        st
    };
    let (blocks, s2) = item_loop(ev, st1, seq![]);
    (ListItemV { task, blocks }, s2)
}

/// The blocks of a list item up to its end (the end event is consumed).
pub open spec fn item_loop(ev: Seq<EventV>, st: ParseState, acc: Seq<BlockV>) -> (
    Seq<BlockV>,
    ParseState,
)
    decreases ev.len() - st.pos, 1nat,
{
    if !(0 <= st.pos < ev.len()) {
        (acc, st)
    } else if end_matches(EndCondition::Item, ev[st.pos]) {
        (acc, st.next())
    } else {
        let e = ev[st.pos];
        let st1 = st.next();
        if e.kind == EventKind::Start && is_block_tag(e.tag) {
            let (b, s2) = block(ev, e, st1);
            if st.pos < s2.pos <= ev.len() {
                item_loop(ev, s2, acc.push(b))
            } else {
                (acc.push(b), s2)
            }
        } else if starts_inline(e) {
            let (t, s2) = item_inlines(ev, st, seq![]);
            if st.pos < s2.pos <= ev.len() {
                item_loop(ev, s2, acc.push(BlockV::Paragraph(t)))
            } else {
                (acc.push(BlockV::Paragraph(t)), s2)
            }
        } else if e.kind == EventKind::Rule {
            item_loop(ev, st1, acc.push(BlockV::Rule))
        } else {
            item_loop(ev, st1, acc)
        }
    }
}

/// The head and rows of a table up to its end (the end event is consumed).
pub open spec fn table_loop(
    ev: Seq<EventV>,
    st: ParseState,
    headers: Seq<Seq<InlineV>>,
    rows: Seq<Seq<Seq<InlineV>>>,
) -> (Seq<Seq<InlineV>>, Seq<Seq<Seq<InlineV>>>, ParseState)
    decreases ev.len() - st.pos, 1nat,
{
    if !(0 <= st.pos < ev.len()) {
        (headers, rows, st)
    } else if end_matches(EndCondition::Table, ev[st.pos]) {
        (headers, rows, st.next())
    } else {
        let e = ev[st.pos];
        let st1 = st.next();
        if e.kind == EventKind::Start && e.tag == TagKind::TableHead {
            let (cells, s2) = row_loop(ev, EndCondition::TableHead, st1, seq![]);
            if st.pos < s2.pos <= ev.len() {
                table_loop(ev, s2, cells, rows)
            } else {
                (cells, rows, s2)
            }
        } else if e.kind == EventKind::Start && e.tag == TagKind::TableRow {
            let (cells, s2) = row_loop(ev, EndCondition::TableRow, st1, seq![]);
            if st.pos < s2.pos <= ev.len() {
                table_loop(ev, s2, headers, rows.push(cells))
            } else {
                (headers, rows.push(cells), s2)
            }
        } else {
            table_loop(ev, st1, headers, rows)
        }
    }
}

/// The cells of a table head or row up to its end (the end event is consumed).
pub open spec fn row_loop(
    ev: Seq<EventV>,
    end: EndCondition,
    st: ParseState,
    acc: Seq<Seq<InlineV>>,
) -> (Seq<Seq<InlineV>>, ParseState)
    decreases ev.len() - st.pos, 1nat,
{
    if !(0 <= st.pos < ev.len()) {
        (acc, st)
    } else if end_matches(end, ev[st.pos]) {
        (acc, st.next())
    } else {
        let e = ev[st.pos];
        let st1 = st.next();
        if e.kind == EventKind::Start && e.tag == TagKind::TableCell {
            let (cell, s2) = inlines_loop(ev, EndCondition::TableCell, st1, seq![]);
            if st.pos < s2.pos <= ev.len() {
                row_loop(ev, end, s2, acc.push(cell))
            } else {
                (acc.push(cell), s2)
            }
        } else {
            row_loop(ev, end, st1, acc)
        }
    }
}

/// Adds the inline element that the start event `e` opens, with contents
/// `c`, to `acc`: emphasis, strong and strikethrough wrap the contents; a
/// link wraps them and is recorded in the state's links; an image becomes a
/// placeholder text and is recorded too; the contents of any other tag are
/// added as they are.
pub open spec fn inline_wrapped(e: EventV, c: Seq<InlineV>, acc: Seq<InlineV>, s2: ParseState) -> (
    Seq<InlineV>,
    ParseState,
) {
    if e.tag == TagKind::Emphasis {
        (acc.push(InlineV::Emphasis(c)), s2)
    } else if e.tag == TagKind::Strong {
        (acc.push(InlineV::Strong(c)), s2)
    } else if e.tag == TagKind::Strikethrough {
        (acc.push(InlineV::Strikethrough(c)), s2)
    } else if e.tag == TagKind::Link {
        let index = s2.links.len() as usize;
        let link = LinkV { index, destination: e.text, title: e.title, label: plain_of(c) };
        (
            acc.push(InlineV::Link { text: c, destination: e.text, title: e.title, index }),
            ParseState { links: s2.links.push(link), ..s2 },
        )
    } else if e.tag == TagKind::Image {
        let alt = plain_of(c);
        let index = s2.links.len() as usize;
        let link = LinkV { index, destination: e.text, title: e.title, label: alt };
        (
            acc.push(InlineV::Text(image_placeholder(alt, e.text))),
            ParseState { links: s2.links.push(link), ..s2 },
        )
    } else {
        (acc + c, s2)
    }
}

/// Whether an event begins inline content: text, code, breaks, footnote
/// references, or the start of a tag that is not a block.
pub open spec fn starts_inline(e: EventV) -> bool {
    ||| e.kind == EventKind::Text
    ||| e.kind == EventKind::Html
    ||| e.kind == EventKind::InlineHtml
    ||| e.kind == EventKind::Code
    ||| e.kind == EventKind::InlineMath
    ||| e.kind == EventKind::DisplayMath
    ||| e.kind == EventKind::SoftBreak
    ||| e.kind == EventKind::HardBreak
    ||| e.kind == EventKind::FootnoteReference
    ||| (e.kind == EventKind::Start && !is_block_tag(e.tag))
}

/// The inline element of an event that holds no other events.
pub open spec fn inline_leaf(e: EventV) -> InlineV {
    if e.kind == EventKind::Code || e.kind == EventKind::InlineMath || e.kind
        == EventKind::DisplayMath {
        InlineV::Code(e.text)
    } else if e.kind == EventKind::SoftBreak {
        InlineV::SoftBreak
    } else if e.kind == EventKind::HardBreak {
        InlineV::HardBreak
    } else if e.kind == EventKind::FootnoteReference {
        InlineV::Text(footnote_ref_text(e.text))
    } else {
        InlineV::Text(e.text)
    }
}

/// The inline content of a tight list item: inline elements up to the first
/// event that does not begin one (a block, the item's end), which is left
/// for the caller.
pub open spec fn item_inlines(ev: Seq<EventV>, st: ParseState, acc: Seq<InlineV>) -> (
    Seq<InlineV>,
    ParseState,
)
    decreases ev.len() - st.pos,
{
    if !(0 <= st.pos < ev.len()) || !starts_inline(ev[st.pos]) {
        (acc, st)
    } else {
        let e = ev[st.pos];
        let st1 = st.next();
        if e.kind != EventKind::Start {
            item_inlines(ev, st1, acc.push(inline_leaf(e)))
        } else {
            let (c, s2) = inlines_loop(ev, inline_end(e), st1, seq![]);
            let (acc2, s3) = inline_wrapped(e, c, acc, s2);
            if st.pos < s3.pos <= ev.len() {
                item_inlines(ev, s3, acc2)
            } else {
                (acc2, s3)
            }
        }
    }
}

/// Inline content up to the end condition.
pub open spec fn inlines_loop(
    ev: Seq<EventV>,
    end: EndCondition,
    st: ParseState,
    acc: Seq<InlineV>,
) -> (Seq<InlineV>, ParseState)
    decreases ev.len() - st.pos, 1nat,
{
    if !(0 <= st.pos < ev.len()) {
        (acc, st)
    } else {
        let e = ev[st.pos];
        let st1 = st.next();
        if end_matches(end, e) {
            (acc, st1)
        } else if e.kind == EventKind::Text || e.kind == EventKind::Html || e.kind
            == EventKind::InlineHtml {
            inlines_loop(ev, end, st1, acc.push(InlineV::Text(e.text)))
        } else if e.kind == EventKind::Code || e.kind == EventKind::InlineMath || e.kind
            == EventKind::DisplayMath {
            inlines_loop(ev, end, st1, acc.push(InlineV::Code(e.text)))
        } else if e.kind == EventKind::SoftBreak {
            inlines_loop(ev, end, st1, acc.push(InlineV::SoftBreak))
        } else if e.kind == EventKind::HardBreak {
            inlines_loop(ev, end, st1, acc.push(InlineV::HardBreak))
        } else if e.kind == EventKind::FootnoteReference {
            inlines_loop(ev, end, st1, acc.push(InlineV::Text(footnote_ref_text(e.text))))
        } else if e.kind == EventKind::Rule {
            inlines_loop(ev, end, st1, acc.push(InlineV::Text("---"@)))
        } else if e.kind == EventKind::End {
            (acc, st1)
        } else if e.kind == EventKind::Start {
            let inner_end = inline_end(e);
            let (c, s2) = inlines_loop(ev, inner_end, st1, seq![]);
            let (acc2, s3) = inline_wrapped(e, c, acc, s2);
            if st.pos < s3.pos <= ev.len() {
                inlines_loop(ev, end, s3, acc2)
            } else {
                (acc2, s3)
            }
        } else {
            inlines_loop(ev, end, st1, acc)
        }
    }
}

/// Text chunks up to the end condition (for code and HTML blocks).
pub open spec fn collect_loop(
    ev: Seq<EventV>,
    end: EndCondition,
    st: ParseState,
    acc: Seq<Seq<char>>,
) -> (Seq<Seq<char>>, ParseState)
    decreases ev.len() - st.pos, 1nat,
{
    if !(0 <= st.pos < ev.len()) {
        (acc, st)
    } else {
        let e = ev[st.pos];
        let st1 = st.next();
        if end_matches(end, e) {
            (acc, st1)
        } else if e.kind == EventKind::Text || e.kind == EventKind::Code || e.kind
            == EventKind::Html || e.kind == EventKind::InlineHtml {
            collect_loop(ev, end, st1, acc.push(e.text))
        } else if e.kind == EventKind::SoftBreak || e.kind == EventKind::HardBreak {
            collect_loop(ev, end, st1, acc.push(seq!['\n']))
        } else if e.kind == EventKind::Start {
            let (c, s2) = inlines_loop(ev, inline_end(e), st1, seq![]);
            if st.pos < s2.pos <= ev.len() {
                collect_loop(ev, end, s2, acc.push(plain_of(c)))
            } else {
                (acc.push(plain_of(c)), s2)
            }
        } else {
            collect_loop(ev, end, st1, acc)
        }
    }
}

/// The document that an event stream describes.
pub open spec fn document_of(ev: Seq<EventV>) -> DocumentV {
    let (blocks, st) = blocks_loop(ev, EndCondition::Document, ParseState::initial(), seq![]);
    DocumentV {
        blocks,
        headings: st.headings,
        links: st.links,
        footnotes: st.footnotes,
    }
}

// =====================================================================
// What the parse keeps: link numbers and heading ids
// =====================================================================

/// Every link records its own position in the list.
pub open spec fn links_numbered(links: Seq<LinkV>) -> bool {
    forall|i: int| 0 <= i < links.len() ==> (#[trigger] links[i]).index == i as usize
}

/// Every heading's id is the anchor slug of its title.
pub open spec fn headings_slugged(headings: Seq<HeadingV>) -> bool {
    forall|i: int| 0 <= i < headings.len() ==> (#[trigger] headings[i]).id == slug_of(headings[i].title)
}

/// What the parser's state keeps while it walks the events.
pub open spec fn state_ok(st: ParseState) -> bool {
    links_numbered(st.links) && headings_slugged(st.headings)
}

proof fn lemma_push_link(links: Seq<LinkV>, link: LinkV)
    requires
        links_numbered(links),
        link.index == links.len() as usize,
    ensures
        links_numbered(links.push(link)),
{
    assert forall|i: int| 0 <= i < links.push(link).len() implies (#[trigger] links.push(
        link,
    )[i]).index == i as usize by {
        if i < links.len() {
            assert(links.push(link)[i] == links[i]);
        }
    }
}

proof fn lemma_inline_wrapped_keeps_state(
    e: EventV,
    c: Seq<InlineV>,
    acc: Seq<InlineV>,
    s2: ParseState,
)
    requires
        state_ok(s2),
    ensures
        state_ok(inline_wrapped(e, c, acc, s2).1),
{
    if e.tag == TagKind::Link {
        let link = LinkV {
            index: s2.links.len() as usize,
            destination: e.text,
            title: e.title,
            label: plain_of(c),
        };
        lemma_push_link(s2.links, link);
    } else if e.tag == TagKind::Image {
        let link = LinkV {
            index: s2.links.len() as usize,
            destination: e.text,
            title: e.title,
            label: plain_of(c),
        };
        lemma_push_link(s2.links, link);
    }
}

proof fn lemma_item_inlines_keeps_state(ev: Seq<EventV>, st: ParseState, acc: Seq<InlineV>)
    requires
        state_ok(st),
    ensures
        state_ok(item_inlines(ev, st, acc).1),
    decreases ev.len() - st.pos,
{
    if 0 <= st.pos < ev.len() && starts_inline(ev[st.pos]) {
        let e = ev[st.pos];
        let st1 = st.next();
        if e.kind != EventKind::Start {
            lemma_item_inlines_keeps_state(ev, st1, acc.push(inline_leaf(e)));
        } else {
            lemma_inlines_loop_keeps_state(ev, inline_end(e), st1, seq![]);
            let (c, s2) = inlines_loop(ev, inline_end(e), st1, seq![]);
            lemma_inline_wrapped_keeps_state(e, c, acc, s2);
            let (acc2, s3) = inline_wrapped(e, c, acc, s2);
            if st.pos < s3.pos <= ev.len() {
                lemma_item_inlines_keeps_state(ev, s3, acc2);
            }
        }
    }
}

proof fn lemma_blocks_loop_keeps_state(
    ev: Seq<EventV>,
    end: EndCondition,
    st: ParseState,
    acc: Seq<BlockV>,
)
    requires
        state_ok(st),
    ensures
        state_ok(blocks_loop(ev, end, st, acc).1),
    decreases ev.len() - st.pos, 1nat,
{
    if 0 <= st.pos < ev.len() {
        let e = ev[st.pos];
        let st1 = st.next();
        if end_matches(end, e) {
        } else if e.kind == EventKind::Start {
            lemma_block_keeps_state(ev, e, st1);
            let (b, st2) = block(ev, e, st1);
            if st.pos < st2.pos <= ev.len() {
                lemma_blocks_loop_keeps_state(ev, end, st2, acc.push(b));
            }
        } else if e.kind == EventKind::Rule {
            lemma_blocks_loop_keeps_state(ev, end, st1, acc.push(BlockV::Rule));
        } else if e.kind == EventKind::Html || e.kind == EventKind::InlineHtml {
            lemma_blocks_loop_keeps_state(ev, end, st1, acc.push(BlockV::Html(e.text)));
        } else if e.kind == EventKind::Text {
            lemma_blocks_loop_keeps_state(
                ev,
                end,
                st1,
                acc.push(BlockV::Paragraph(seq![InlineV::Text(e.text)])),
            );
        } else if e.kind == EventKind::Code || e.kind == EventKind::InlineMath || e.kind
            == EventKind::DisplayMath {
            lemma_blocks_loop_keeps_state(
                ev,
                end,
                st1,
                acc.push(BlockV::Paragraph(seq![InlineV::Code(e.text)])),
            );
        } else if e.kind == EventKind::End {
        } else if e.kind == EventKind::FootnoteReference {
            lemma_blocks_loop_keeps_state(
                ev,
                end,
                st1,
                acc.push(BlockV::Paragraph(seq![InlineV::Text(footnote_ref_text(e.text))])),
            );
        } else {
            lemma_blocks_loop_keeps_state(ev, end, st1, acc);
        }
    }
}

proof fn lemma_block_keeps_state(ev: Seq<EventV>, e: EventV, st: ParseState)
    requires
        state_ok(st),
    ensures
        state_ok(block(ev, e, st).1),
    decreases ev.len() - st.pos, 4nat,
{
    match e.tag {
        TagKind::Paragraph => lemma_inlines_loop_keeps_state(ev, EndCondition::Paragraph, st, seq![]),
        TagKind::Heading => {
            lemma_inlines_loop_keeps_state(ev, EndCondition::Heading(e.level), st, seq![]);
            let (t, s2) = inlines_loop(ev, EndCondition::Heading(e.level), st, seq![]);
            let title = plain_of(t);
            let h = HeadingV { level: heading_level_of(e.level), id: slug_of(title), title };
            assert forall|i: int| 0 <= i < s2.headings.push(h).len() implies (#[trigger] s2.headings.push(
                h,
            )[i]).id == slug_of(s2.headings.push(h)[i].title) by {
                if i < s2.headings.len() {
                    assert(s2.headings.push(h)[i] == s2.headings[i]);
                }
            }
        },
        TagKind::BlockQuote => lemma_blocks_loop_keeps_state(ev, EndCondition::BlockQuote, st, seq![]),
        TagKind::List => lemma_list_loop_keeps_state(ev, st, seq![]),
        TagKind::Item => lemma_list_item_keeps_state(ev, st),
        TagKind::CodeBlock => lemma_collect_loop_keeps_state(ev, EndCondition::CodeBlock, st, seq![]),
        TagKind::Table => lemma_table_loop_keeps_state(ev, st, seq![], seq![]),
        TagKind::FootnoteDefinition => lemma_blocks_loop_keeps_state(
            ev,
            EndCondition::FootnoteDefinition,
            st,
            seq![],
        ),
        TagKind::HtmlBlock => lemma_collect_loop_keeps_state(ev, EndCondition::HtmlBlock, st, seq![]),
        _ => lemma_inlines_loop_keeps_state(ev, inline_end(e), st, seq![]),
    }
}

proof fn lemma_list_loop_keeps_state(ev: Seq<EventV>, st: ParseState, acc: Seq<ListItemV>)
    requires
        state_ok(st),
    ensures
        state_ok(list_loop(ev, st, acc).1),
    decreases ev.len() - st.pos, 1nat,
{
    if 0 <= st.pos < ev.len() && !end_matches(EndCondition::List, ev[st.pos]) {
        let e = ev[st.pos];
        let st1 = st.next();
        if e.kind == EventKind::Start && e.tag == TagKind::Item {
            lemma_list_item_keeps_state(ev, st1);
            let (item, s2) = list_item(ev, st1);
            if st.pos < s2.pos <= ev.len() {
                lemma_list_loop_keeps_state(ev, s2, acc.push(item));
            }
        } else {
            lemma_list_loop_keeps_state(ev, st1, acc);
        }
    }
}

proof fn lemma_list_item_keeps_state(ev: Seq<EventV>, st: ParseState)
    requires
        state_ok(st),
    ensures
        state_ok(list_item(ev, st).1),
    decreases ev.len() - st.pos, 3nat,
{
    let has_marker = 0 <= st.pos < ev.len() && ev[st.pos].kind == EventKind::TaskListMarker;
    let st1 = if has_marker {
        st.next()
    } else {
        st
    };
    lemma_item_loop_keeps_state(ev, st1, seq![]);
}

proof fn lemma_item_loop_keeps_state(ev: Seq<EventV>, st: ParseState, acc: Seq<BlockV>)
    requires
        state_ok(st),
    ensures
        state_ok(item_loop(ev, st, acc).1),
    decreases ev.len() - st.pos, 1nat,
{
    if 0 <= st.pos < ev.len() && !end_matches(EndCondition::Item, ev[st.pos]) {
        let e = ev[st.pos];
        let st1 = st.next();
        if e.kind == EventKind::Start && is_block_tag(e.tag) {
            lemma_block_keeps_state(ev, e, st1);
            let (b, s2) = block(ev, e, st1);
            if st.pos < s2.pos <= ev.len() {
                lemma_item_loop_keeps_state(ev, s2, acc.push(b));
            }
        } else if starts_inline(e) {
            lemma_item_inlines_keeps_state(ev, st, seq![]);
            let (t, s2) = item_inlines(ev, st, seq![]);
            if st.pos < s2.pos <= ev.len() {
                lemma_item_loop_keeps_state(ev, s2, acc.push(BlockV::Paragraph(t)));
            }
        } else if e.kind == EventKind::Rule {
            lemma_item_loop_keeps_state(ev, st1, acc.push(BlockV::Rule));
        } else {
            lemma_item_loop_keeps_state(ev, st1, acc);
        }
    }
}

proof fn lemma_table_loop_keeps_state(
    ev: Seq<EventV>,
    st: ParseState,
    headers: Seq<Seq<InlineV>>,
    rows: Seq<Seq<Seq<InlineV>>>,
)
    requires
        state_ok(st),
    ensures
        state_ok(table_loop(ev, st, headers, rows).2),
    decreases ev.len() - st.pos, 1nat,
{
    if 0 <= st.pos < ev.len() && !end_matches(EndCondition::Table, ev[st.pos]) {
        let e = ev[st.pos];
        let st1 = st.next();
        if e.kind == EventKind::Start && e.tag == TagKind::TableHead {
            lemma_row_loop_keeps_state(ev, EndCondition::TableHead, st1, seq![]);
            let (cells, s2) = row_loop(ev, EndCondition::TableHead, st1, seq![]);
            if st.pos < s2.pos <= ev.len() {
                lemma_table_loop_keeps_state(ev, s2, cells, rows);
            }
        } else if e.kind == EventKind::Start && e.tag == TagKind::TableRow {
            lemma_row_loop_keeps_state(ev, EndCondition::TableRow, st1, seq![]);
            let (cells, s2) = row_loop(ev, EndCondition::TableRow, st1, seq![]);
            if st.pos < s2.pos <= ev.len() {
                lemma_table_loop_keeps_state(ev, s2, headers, rows.push(cells));
            }
        } else {
            lemma_table_loop_keeps_state(ev, st1, headers, rows);
        }
    }
}

proof fn lemma_row_loop_keeps_state(
    ev: Seq<EventV>,
    end: EndCondition,
    st: ParseState,
    acc: Seq<Seq<InlineV>>,
)
    requires
        state_ok(st),
    ensures
        state_ok(row_loop(ev, end, st, acc).1),
    decreases ev.len() - st.pos, 1nat,
{
    if 0 <= st.pos < ev.len() && !end_matches(end, ev[st.pos]) {
        let e = ev[st.pos];
        let st1 = st.next();
        if e.kind == EventKind::Start && e.tag == TagKind::TableCell {
            lemma_inlines_loop_keeps_state(ev, EndCondition::TableCell, st1, seq![]);
            let (cell, s2) = inlines_loop(ev, EndCondition::TableCell, st1, seq![]);
            if st.pos < s2.pos <= ev.len() {
                lemma_row_loop_keeps_state(ev, end, s2, acc.push(cell));
            }
        } else {
            lemma_row_loop_keeps_state(ev, end, st1, acc);
        }
    }
}

proof fn lemma_inlines_loop_keeps_state(
    ev: Seq<EventV>,
    end: EndCondition,
    st: ParseState,
    acc: Seq<InlineV>,
)
    requires
        state_ok(st),
    ensures
        state_ok(inlines_loop(ev, end, st, acc).1),
    decreases ev.len() - st.pos, 1nat,
{
    if 0 <= st.pos < ev.len() {
        let e = ev[st.pos];
        let st1 = st.next();
        if end_matches(end, e) {
        } else if e.kind == EventKind::Text || e.kind == EventKind::Html || e.kind
            == EventKind::InlineHtml {
            lemma_inlines_loop_keeps_state(ev, end, st1, acc.push(InlineV::Text(e.text)));
        } else if e.kind == EventKind::Code || e.kind == EventKind::InlineMath || e.kind
            == EventKind::DisplayMath {
            lemma_inlines_loop_keeps_state(ev, end, st1, acc.push(InlineV::Code(e.text)));
        } else if e.kind == EventKind::SoftBreak {
            lemma_inlines_loop_keeps_state(ev, end, st1, acc.push(InlineV::SoftBreak));
        } else if e.kind == EventKind::HardBreak {
            lemma_inlines_loop_keeps_state(ev, end, st1, acc.push(InlineV::HardBreak));
        } else if e.kind == EventKind::FootnoteReference {
            lemma_inlines_loop_keeps_state(
                ev,
                end,
                st1,
                acc.push(InlineV::Text(footnote_ref_text(e.text))),
            );
        } else if e.kind == EventKind::Rule {
            lemma_inlines_loop_keeps_state(ev, end, st1, acc.push(InlineV::Text("---"@)));
        } else if e.kind == EventKind::End {
        } else if e.kind == EventKind::Start {
            let inner_end = inline_end(e);
            lemma_inlines_loop_keeps_state(ev, inner_end, st1, seq![]);
            let (c, s2) = inlines_loop(ev, inner_end, st1, seq![]);
            lemma_inline_wrapped_keeps_state(e, c, acc, s2);
            let (acc2, s3) = inline_wrapped(e, c, acc, s2);
            if st.pos < s3.pos <= ev.len() {
                lemma_inlines_loop_keeps_state(ev, end, s3, acc2);
            }
        } else {
            lemma_inlines_loop_keeps_state(ev, end, st1, acc);
        }
    }
}

proof fn lemma_collect_loop_keeps_state(
    ev: Seq<EventV>,
    end: EndCondition,
    st: ParseState,
    acc: Seq<Seq<char>>,
)
    requires
        state_ok(st),
    ensures
        state_ok(collect_loop(ev, end, st, acc).1),
    decreases ev.len() - st.pos, 1nat,
{
    if 0 <= st.pos < ev.len() {
        let e = ev[st.pos];
        let st1 = st.next();
        if end_matches(end, e) {
        } else if e.kind == EventKind::Text || e.kind == EventKind::Code || e.kind
            == EventKind::Html || e.kind == EventKind::InlineHtml {
            lemma_collect_loop_keeps_state(ev, end, st1, acc.push(e.text));
        } else if e.kind == EventKind::SoftBreak || e.kind == EventKind::HardBreak {
            lemma_collect_loop_keeps_state(ev, end, st1, acc.push(seq!['\n']));
        } else if e.kind == EventKind::Start {
            lemma_inlines_loop_keeps_state(ev, inline_end(e), st1, seq![]);
            let (c, s2) = inlines_loop(ev, inline_end(e), st1, seq![]);
            if st.pos < s2.pos <= ev.len() {
                lemma_collect_loop_keeps_state(ev, end, s2, acc.push(plain_of(c)));
            }
        } else {
            lemma_collect_loop_keeps_state(ev, end, st1, acc);
        }
    }
}

/// The links of a document are numbered in the order they appear: each
/// records its own position in the list (for the positions a `usize` can
/// name, which covers every list in memory).  And every heading's id is the
/// anchor slug of its title.
pub proof fn lemma_document_links_and_ids(ev: Seq<EventV>)
    ensures
        links_numbered(document_of(ev).links),
        headings_slugged(document_of(ev).headings),
{
    lemma_blocks_loop_keeps_state(ev, EndCondition::Document, ParseState::initial(), seq![]);
}

// =====================================================================
// Every link in the text is recorded in the document's links
// =====================================================================

/// `a` is the start of `b`.
pub open spec fn links_prefix(a: Seq<LinkV>, b: Seq<LinkV>) -> bool {
    a.len() <= b.len() && forall|i: int| 0 <= i < a.len() ==> #[trigger] b[i] == a[i]
}

/// The link list holds, at the position that `index` names, a link with the
/// given destination and label.
pub open spec fn link_recorded(
    links: Seq<LinkV>,
    index: usize,
    destination: Seq<char>,
    label: Seq<char>,
) -> bool {
    exists|i: int|
        0 <= i < links.len() && index == i as usize && (#[trigger] links[i]).destination
            == destination && links[i].label == label
}

/// Every link inside an inline element is recorded in `links`, labelled with
/// its plain text.
pub open spec fn inline_links_ok(x: InlineV, links: Seq<LinkV>) -> bool
    decreases x,
{
    match x {
        InlineV::Emphasis(c) => inlines_links_ok(c, links),
        InlineV::Strong(c) => inlines_links_ok(c, links),
        InlineV::Strikethrough(c) => inlines_links_ok(c, links),
        InlineV::Link { text, destination, index, .. } => link_recorded(
            links,
            index,
            destination,
            plain_of(text),
        ) && inlines_links_ok(text, links),
        _ => true,
    }
}

/// Every link inside a sequence of inline elements is recorded in `links`.
pub open spec fn inlines_links_ok(s: Seq<InlineV>, links: Seq<LinkV>) -> bool
    decreases s,
{
    if s.len() == 0 {
        true
    } else {
        inlines_links_ok(s.drop_last(), links) && inline_links_ok(s.last(), links)
    }
}

/// Every link inside a row of table cells is recorded in `links`.
pub open spec fn cells_links_ok(cells: Seq<Seq<InlineV>>, links: Seq<LinkV>) -> bool
    decreases cells.len(),
{
    if cells.len() == 0 {
        true
    } else {
        cells_links_ok(cells.drop_last(), links) && inlines_links_ok(cells.last(), links)
    }
}

/// Every link inside the rows of a table is recorded in `links`.
pub open spec fn rows_links_ok(rows: Seq<Seq<Seq<InlineV>>>, links: Seq<LinkV>) -> bool
    decreases rows.len(),
{
    if rows.len() == 0 {
        true
    } else {
        rows_links_ok(rows.drop_last(), links) && cells_links_ok(rows.last(), links)
    }
}

/// Every link inside a block is recorded in `links`.
pub open spec fn block_links_ok(b: BlockV, links: Seq<LinkV>) -> bool
    decreases b,
{
    match b {
        BlockV::Paragraph(t) => inlines_links_ok(t, links),
        BlockV::Heading { text, .. } => inlines_links_ok(text, links),
        BlockV::Quote(bs) => blocks_links_ok(bs, links),
        BlockV::List { items, .. } => items_links_ok(items, links),
        BlockV::Table { headers, rows } => cells_links_ok(headers, links) && rows_links_ok(
            rows,
            links,
        ),
        BlockV::FootnoteDefinition(f) => blocks_links_ok(f.blocks, links),
        _ => true,
    }
}

/// Every link inside a sequence of blocks is recorded in `links`.
pub open spec fn blocks_links_ok(bs: Seq<BlockV>, links: Seq<LinkV>) -> bool
    decreases bs,
{
    if bs.len() == 0 {
        true
    } else {
        blocks_links_ok(bs.drop_last(), links) && block_links_ok(bs.last(), links)
    }
}

/// Every link inside a sequence of list items is recorded in `links`.
pub open spec fn items_links_ok(items: Seq<ListItemV>, links: Seq<LinkV>) -> bool
    decreases items,
{
    if items.len() == 0 {
        true
    } else {
        items_links_ok(items.drop_last(), links) && blocks_links_ok(items.last().blocks, links)
    }
}

proof fn lemma_inline_links_grow(x: InlineV, a: Seq<LinkV>, b: Seq<LinkV>)
    requires
        inline_links_ok(x, a),
        links_prefix(a, b),
    ensures
        inline_links_ok(x, b),
    decreases x,
{
    match x {
        InlineV::Emphasis(c) => lemma_inlines_links_grow(c, a, b),
        InlineV::Strong(c) => lemma_inlines_links_grow(c, a, b),
        InlineV::Strikethrough(c) => lemma_inlines_links_grow(c, a, b),
        InlineV::Link { text, destination, index, .. } => {
            lemma_inlines_links_grow(text, a, b);
            let i = choose|i: int|
                0 <= i < a.len() && index == i as usize && (#[trigger] a[i]).destination
                    == destination && a[i].label == plain_of(text);
            assert(b[i] == a[i]);
        },
        _ => {},
    }
}

proof fn lemma_inlines_links_grow(s: Seq<InlineV>, a: Seq<LinkV>, b: Seq<LinkV>)
    requires
        inlines_links_ok(s, a),
        links_prefix(a, b),
    ensures
        inlines_links_ok(s, b),
    decreases s,
{
    if s.len() > 0 {
        lemma_inlines_links_grow(s.drop_last(), a, b);
        lemma_inline_links_grow(s.last(), a, b);
    }
}

proof fn lemma_cells_links_grow(cells: Seq<Seq<InlineV>>, a: Seq<LinkV>, b: Seq<LinkV>)
    requires
        cells_links_ok(cells, a),
        links_prefix(a, b),
    ensures
        cells_links_ok(cells, b),
    decreases cells.len(),
{
    if cells.len() > 0 {
        lemma_cells_links_grow(cells.drop_last(), a, b);
        lemma_inlines_links_grow(cells.last(), a, b);
    }
}

proof fn lemma_rows_links_grow(rows: Seq<Seq<Seq<InlineV>>>, a: Seq<LinkV>, b: Seq<LinkV>)
    requires
        rows_links_ok(rows, a),
        links_prefix(a, b),
    ensures
        rows_links_ok(rows, b),
    decreases rows.len(),
{
    if rows.len() > 0 {
        lemma_rows_links_grow(rows.drop_last(), a, b);
        lemma_cells_links_grow(rows.last(), a, b);
    }
}

proof fn lemma_block_links_grow(x: BlockV, a: Seq<LinkV>, b: Seq<LinkV>)
    requires
        block_links_ok(x, a),
        links_prefix(a, b),
    ensures
        block_links_ok(x, b),
    decreases x,
{
    match x {
        BlockV::Paragraph(t) => lemma_inlines_links_grow(t, a, b),
        BlockV::Heading { text, .. } => lemma_inlines_links_grow(text, a, b),
        BlockV::Quote(bs) => lemma_blocks_links_grow(bs, a, b),
        BlockV::List { items, .. } => lemma_items_links_grow(items, a, b),
        BlockV::Table { headers, rows } => {
            lemma_cells_links_grow(headers, a, b);
            lemma_rows_links_grow(rows, a, b);
        },
        BlockV::FootnoteDefinition(f) => lemma_blocks_links_grow(f.blocks, a, b),
        _ => {},
    }
}

proof fn lemma_blocks_links_grow(bs: Seq<BlockV>, a: Seq<LinkV>, b: Seq<LinkV>)
    requires
        blocks_links_ok(bs, a),
        links_prefix(a, b),
    ensures
        blocks_links_ok(bs, b),
    decreases bs,
{
    if bs.len() > 0 {
        lemma_blocks_links_grow(bs.drop_last(), a, b);
        lemma_block_links_grow(bs.last(), a, b);
    }
}

proof fn lemma_items_links_grow(items: Seq<ListItemV>, a: Seq<LinkV>, b: Seq<LinkV>)
    requires
        items_links_ok(items, a),
        links_prefix(a, b),
    ensures
        items_links_ok(items, b),
    decreases items,
{
    if items.len() > 0 {
        lemma_items_links_grow(items.drop_last(), a, b);
        lemma_blocks_links_grow(items.last().blocks, a, b);
    }
}

proof fn lemma_inlines_push_ok(s: Seq<InlineV>, x: InlineV, links: Seq<LinkV>)
    requires
        inlines_links_ok(s, links),
        inline_links_ok(x, links),
    ensures
        inlines_links_ok(s.push(x), links),
{
    assert(s.push(x).drop_last() =~= s);
}

proof fn lemma_inlines_add_ok(a: Seq<InlineV>, c: Seq<InlineV>, links: Seq<LinkV>)
    requires
        inlines_links_ok(a, links),
        inlines_links_ok(c, links),
    ensures
        inlines_links_ok(a + c, links),
    decreases c.len(),
{
    if c.len() == 0 {
        assert(a + c =~= a);
    } else {
        lemma_inlines_add_ok(a, c.drop_last(), links);
        assert((a + c).drop_last() =~= a + c.drop_last());
        assert((a + c).last() == c.last());
    }
}

proof fn lemma_blocks_push_ok(s: Seq<BlockV>, x: BlockV, links: Seq<LinkV>)
    requires
        blocks_links_ok(s, links),
        block_links_ok(x, links),
    ensures
        blocks_links_ok(s.push(x), links),
{
    assert(s.push(x).drop_last() =~= s);
}

proof fn lemma_leaf_paragraph_ok(x: InlineV, links: Seq<LinkV>)
    requires
        inline_links_ok(x, links),
    ensures
        block_links_ok(BlockV::Paragraph(seq![x]), links),
{
    lemma_inlines_push_ok(seq![], x, links);
    assert(seq![].push(x) =~= seq![x]);
}

proof fn lemma_inline_wrapped_links(
    e: EventV,
    c: Seq<InlineV>,
    acc: Seq<InlineV>,
    s2: ParseState,
)
    requires
        inlines_links_ok(acc, s2.links),
        inlines_links_ok(c, s2.links),
    ensures
        links_prefix(s2.links, inline_wrapped(e, c, acc, s2).1.links),
        inlines_links_ok(inline_wrapped(e, c, acc, s2).0, inline_wrapped(e, c, acc, s2).1.links),
{
    let (acc2, s3) = inline_wrapped(e, c, acc, s2);
    if e.tag == TagKind::Emphasis || e.tag == TagKind::Strong || e.tag == TagKind::Strikethrough {
        lemma_inlines_push_ok(acc, acc2.last(), s2.links);
        assert(acc.push(acc2.last()) =~= acc2);
    } else if e.tag == TagKind::Link || e.tag == TagKind::Image {
        let n = s2.links.len();
        assert(links_prefix(s2.links, s3.links));
        lemma_inlines_links_grow(acc, s2.links, s3.links);
        lemma_inlines_links_grow(c, s2.links, s3.links);
        assert(s3.links[n as int] == s3.links.last());
        assert(inline_links_ok(acc2.last(), s3.links));
        lemma_inlines_push_ok(acc, acc2.last(), s3.links);
        assert(acc.push(acc2.last()) =~= acc2);
    } else {
        lemma_inlines_add_ok(acc, c, s2.links);
    }
}

proof fn lemma_item_inlines_links(ev: Seq<EventV>, st: ParseState, acc: Seq<InlineV>)
    requires
        inlines_links_ok(acc, st.links),
    ensures
        links_prefix(st.links, item_inlines(ev, st, acc).1.links),
        inlines_links_ok(item_inlines(ev, st, acc).0, item_inlines(ev, st, acc).1.links),
    decreases ev.len() - st.pos,
{
    if 0 <= st.pos < ev.len() && starts_inline(ev[st.pos]) {
        let e = ev[st.pos];
        let st1 = st.next();
        if e.kind != EventKind::Start {
            lemma_inlines_push_ok(acc, inline_leaf(e), st.links);
            lemma_item_inlines_links(ev, st1, acc.push(inline_leaf(e)));
        } else {
            lemma_inlines_loop_links(ev, inline_end(e), st1, seq![]);
            let (c, s2) = inlines_loop(ev, inline_end(e), st1, seq![]);
            lemma_inlines_links_grow(acc, st.links, s2.links);
            lemma_inline_wrapped_links(e, c, acc, s2);
            let (acc2, s3) = inline_wrapped(e, c, acc, s2);
            if st.pos < s3.pos <= ev.len() {
                lemma_item_inlines_links(ev, s3, acc2);
            }
        }
    }
}

proof fn lemma_inlines_loop_links(
    ev: Seq<EventV>,
    end: EndCondition,
    st: ParseState,
    acc: Seq<InlineV>,
)
    requires
        inlines_links_ok(acc, st.links),
    ensures
        links_prefix(st.links, inlines_loop(ev, end, st, acc).1.links),
        inlines_links_ok(inlines_loop(ev, end, st, acc).0, inlines_loop(ev, end, st, acc).1.links),
    decreases ev.len() - st.pos, 1nat,
{
    if 0 <= st.pos < ev.len() {
        let e = ev[st.pos];
        let st1 = st.next();
        if end_matches(end, e) {
        } else if e.kind == EventKind::Text || e.kind == EventKind::Html || e.kind
            == EventKind::InlineHtml {
            lemma_inlines_push_ok(acc, InlineV::Text(e.text), st.links);
            lemma_inlines_loop_links(ev, end, st1, acc.push(InlineV::Text(e.text)));
        } else if e.kind == EventKind::Code || e.kind == EventKind::InlineMath || e.kind
            == EventKind::DisplayMath {
            lemma_inlines_push_ok(acc, InlineV::Code(e.text), st.links);
            lemma_inlines_loop_links(ev, end, st1, acc.push(InlineV::Code(e.text)));
        } else if e.kind == EventKind::SoftBreak {
            lemma_inlines_push_ok(acc, InlineV::SoftBreak, st.links);
            lemma_inlines_loop_links(ev, end, st1, acc.push(InlineV::SoftBreak));
        } else if e.kind == EventKind::HardBreak {
            lemma_inlines_push_ok(acc, InlineV::HardBreak, st.links);
            lemma_inlines_loop_links(ev, end, st1, acc.push(InlineV::HardBreak));
        } else if e.kind == EventKind::FootnoteReference {
            let x = InlineV::Text(footnote_ref_text(e.text));
            lemma_inlines_push_ok(acc, x, st.links);
            lemma_inlines_loop_links(ev, end, st1, acc.push(x));
        } else if e.kind == EventKind::Rule {
            lemma_inlines_push_ok(acc, InlineV::Text("---"@), st.links);
            lemma_inlines_loop_links(ev, end, st1, acc.push(InlineV::Text("---"@)));
        } else if e.kind == EventKind::End {
        } else if e.kind == EventKind::Start {
            let inner_end = inline_end(e);
            lemma_inlines_loop_links(ev, inner_end, st1, seq![]);
            let (c, s2) = inlines_loop(ev, inner_end, st1, seq![]);
            lemma_inlines_links_grow(acc, st.links, s2.links);
            lemma_inline_wrapped_links(e, c, acc, s2);
            let (acc2, s3) = inline_wrapped(e, c, acc, s2);
            if st.pos < s3.pos <= ev.len() {
                lemma_inlines_loop_links(ev, end, s3, acc2);
            }
        } else {
            lemma_inlines_loop_links(ev, end, st1, acc);
        }
    }
}

proof fn lemma_collect_loop_links(
    ev: Seq<EventV>,
    end: EndCondition,
    st: ParseState,
    acc: Seq<Seq<char>>,
)
    ensures
        links_prefix(st.links, collect_loop(ev, end, st, acc).1.links),
    decreases ev.len() - st.pos, 1nat,
{
    if 0 <= st.pos < ev.len() {
        let e = ev[st.pos];
        let st1 = st.next();
        if end_matches(end, e) {
        } else if e.kind == EventKind::Text || e.kind == EventKind::Code || e.kind
            == EventKind::Html || e.kind == EventKind::InlineHtml {
            lemma_collect_loop_links(ev, end, st1, acc.push(e.text));
        } else if e.kind == EventKind::SoftBreak || e.kind == EventKind::HardBreak {
            lemma_collect_loop_links(ev, end, st1, acc.push(seq!['\n']));
        } else if e.kind == EventKind::Start {
            lemma_inlines_loop_links(ev, inline_end(e), st1, seq![]);
            let (c, s2) = inlines_loop(ev, inline_end(e), st1, seq![]);
            if st.pos < s2.pos <= ev.len() {
                lemma_collect_loop_links(ev, end, s2, acc.push(plain_of(c)));
            }
        } else {
            lemma_collect_loop_links(ev, end, st1, acc);
        }
    }
}

proof fn lemma_row_loop_links(
    ev: Seq<EventV>,
    end: EndCondition,
    st: ParseState,
    acc: Seq<Seq<InlineV>>,
)
    requires
        cells_links_ok(acc, st.links),
    ensures
        links_prefix(st.links, row_loop(ev, end, st, acc).1.links),
        cells_links_ok(row_loop(ev, end, st, acc).0, row_loop(ev, end, st, acc).1.links),
    decreases ev.len() - st.pos, 1nat,
{
    if 0 <= st.pos < ev.len() && !end_matches(end, ev[st.pos]) {
        let e = ev[st.pos];
        let st1 = st.next();
        if e.kind == EventKind::Start && e.tag == TagKind::TableCell {
            lemma_inlines_loop_links(ev, EndCondition::TableCell, st1, seq![]);
            let (cell, s2) = inlines_loop(ev, EndCondition::TableCell, st1, seq![]);
            lemma_cells_links_grow(acc, st.links, s2.links);
            assert(acc.push(cell).drop_last() =~= acc);
            if st.pos < s2.pos <= ev.len() {
                lemma_row_loop_links(ev, end, s2, acc.push(cell));
            }
        } else {
            lemma_row_loop_links(ev, end, st1, acc);
        }
    }
}

proof fn lemma_table_loop_links(
    ev: Seq<EventV>,
    st: ParseState,
    headers: Seq<Seq<InlineV>>,
    rows: Seq<Seq<Seq<InlineV>>>,
)
    requires
        cells_links_ok(headers, st.links),
        rows_links_ok(rows, st.links),
    ensures
        links_prefix(st.links, table_loop(ev, st, headers, rows).2.links),
        cells_links_ok(table_loop(ev, st, headers, rows).0, table_loop(ev, st, headers, rows).2.links),
        rows_links_ok(table_loop(ev, st, headers, rows).1, table_loop(ev, st, headers, rows).2.links),
    decreases ev.len() - st.pos, 1nat,
{
    if 0 <= st.pos < ev.len() && !end_matches(EndCondition::Table, ev[st.pos]) {
        let e = ev[st.pos];
        let st1 = st.next();
        if e.kind == EventKind::Start && e.tag == TagKind::TableHead {
            lemma_row_loop_links(ev, EndCondition::TableHead, st1, seq![]);
            let (cells, s2) = row_loop(ev, EndCondition::TableHead, st1, seq![]);
            lemma_rows_links_grow(rows, st.links, s2.links);
            if st.pos < s2.pos <= ev.len() {
                lemma_table_loop_links(ev, s2, cells, rows);
            }
        } else if e.kind == EventKind::Start && e.tag == TagKind::TableRow {
            lemma_row_loop_links(ev, EndCondition::TableRow, st1, seq![]);
            let (cells, s2) = row_loop(ev, EndCondition::TableRow, st1, seq![]);
            lemma_rows_links_grow(rows, st.links, s2.links);
            lemma_cells_links_grow(headers, st.links, s2.links);
            assert(rows.push(cells).drop_last() =~= rows);
            if st.pos < s2.pos <= ev.len() {
                lemma_table_loop_links(ev, s2, headers, rows.push(cells));
            }
        } else {
            lemma_table_loop_links(ev, st1, headers, rows);
        }
    }
}

proof fn lemma_blocks_loop_links(
    ev: Seq<EventV>,
    end: EndCondition,
    st: ParseState,
    acc: Seq<BlockV>,
)
    requires
        blocks_links_ok(acc, st.links),
    ensures
        links_prefix(st.links, blocks_loop(ev, end, st, acc).1.links),
        blocks_links_ok(blocks_loop(ev, end, st, acc).0, blocks_loop(ev, end, st, acc).1.links),
    decreases ev.len() - st.pos, 1nat,
{
    if 0 <= st.pos < ev.len() {
        let e = ev[st.pos];
        let st1 = st.next();
        if end_matches(end, e) {
        } else if e.kind == EventKind::Start {
            lemma_block_links(ev, e, st1);
            let (b, st2) = block(ev, e, st1);
            lemma_blocks_links_grow(acc, st.links, st2.links);
            lemma_blocks_push_ok(acc, b, st2.links);
            if st.pos < st2.pos <= ev.len() {
                lemma_blocks_loop_links(ev, end, st2, acc.push(b));
            }
        } else if e.kind == EventKind::Rule {
            lemma_blocks_push_ok(acc, BlockV::Rule, st.links);
            lemma_blocks_loop_links(ev, end, st1, acc.push(BlockV::Rule));
        } else if e.kind == EventKind::Html || e.kind == EventKind::InlineHtml {
            lemma_blocks_push_ok(acc, BlockV::Html(e.text), st.links);
            lemma_blocks_loop_links(ev, end, st1, acc.push(BlockV::Html(e.text)));
        } else if e.kind == EventKind::Text {
            let b = BlockV::Paragraph(seq![InlineV::Text(e.text)]);
            lemma_leaf_paragraph_ok(InlineV::Text(e.text), st.links);
            lemma_blocks_push_ok(acc, b, st.links);
            lemma_blocks_loop_links(ev, end, st1, acc.push(b));
        } else if e.kind == EventKind::Code || e.kind == EventKind::InlineMath || e.kind
            == EventKind::DisplayMath {
            let b = BlockV::Paragraph(seq![InlineV::Code(e.text)]);
            lemma_leaf_paragraph_ok(InlineV::Code(e.text), st.links);
            lemma_blocks_push_ok(acc, b, st.links);
            lemma_blocks_loop_links(ev, end, st1, acc.push(b));
        } else if e.kind == EventKind::End {
        } else if e.kind == EventKind::FootnoteReference {
            let x = InlineV::Text(footnote_ref_text(e.text));
            let b = BlockV::Paragraph(seq![x]);
            lemma_leaf_paragraph_ok(x, st.links);
            lemma_blocks_push_ok(acc, b, st.links);
            lemma_blocks_loop_links(ev, end, st1, acc.push(b));
        } else {
            lemma_blocks_loop_links(ev, end, st1, acc);
        }
    }
}

proof fn lemma_block_links(ev: Seq<EventV>, e: EventV, st: ParseState)
    ensures
        links_prefix(st.links, block(ev, e, st).1.links),
        block_links_ok(block(ev, e, st).0, block(ev, e, st).1.links),
    decreases ev.len() - st.pos, 4nat,
{
    if e.tag == TagKind::Paragraph {
        lemma_inlines_loop_links(ev, EndCondition::Paragraph, st, seq![]);
    } else if e.tag == TagKind::Heading {
        lemma_inlines_loop_links(ev, EndCondition::Heading(e.level), st, seq![]);
    } else if e.tag == TagKind::BlockQuote {
        lemma_blocks_loop_links(ev, EndCondition::BlockQuote, st, seq![]);
    } else if e.tag == TagKind::List {
        lemma_list_loop_links(ev, st, seq![]);
    } else if e.tag == TagKind::Item {
        lemma_list_item_links(ev, st);
        let (item, s3) = list_item(ev, st);
        assert(seq![item].drop_last() =~= seq![]);
        assert(seq![item].last() == item);
        assert(blocks_links_ok(item.blocks, s3.links));
        assert(items_links_ok(seq![], s3.links));
    } else if e.tag == TagKind::CodeBlock {
        lemma_collect_loop_links(ev, EndCondition::CodeBlock, st, seq![]);
    } else if e.tag == TagKind::Table {
        lemma_table_loop_links(ev, st, seq![], seq![]);
    } else if e.tag == TagKind::FootnoteDefinition {
        lemma_blocks_loop_links(ev, EndCondition::FootnoteDefinition, st, seq![]);
    } else if e.tag == TagKind::HtmlBlock {
        lemma_collect_loop_links(ev, EndCondition::HtmlBlock, st, seq![]);
    } else {
        lemma_inlines_loop_links(ev, inline_end(e), st, seq![]);
    }
}

proof fn lemma_list_loop_links(ev: Seq<EventV>, st: ParseState, acc: Seq<ListItemV>)
    requires
        items_links_ok(acc, st.links),
    ensures
        links_prefix(st.links, list_loop(ev, st, acc).1.links),
        items_links_ok(list_loop(ev, st, acc).0, list_loop(ev, st, acc).1.links),
    decreases ev.len() - st.pos, 1nat,
{
    if 0 <= st.pos < ev.len() && !end_matches(EndCondition::List, ev[st.pos]) {
        let e = ev[st.pos];
        let st1 = st.next();
        if e.kind == EventKind::Start && e.tag == TagKind::Item {
            lemma_list_item_links(ev, st1);
            let (item, s2) = list_item(ev, st1);
            lemma_items_links_grow(acc, st.links, s2.links);
            assert(acc.push(item).drop_last() =~= acc);
            if st.pos < s2.pos <= ev.len() {
                lemma_list_loop_links(ev, s2, acc.push(item));
            }
        } else {
            lemma_list_loop_links(ev, st1, acc);
        }
    }
}

proof fn lemma_list_item_links(ev: Seq<EventV>, st: ParseState)
    ensures
        links_prefix(st.links, list_item(ev, st).1.links),
        blocks_links_ok(list_item(ev, st).0.blocks, list_item(ev, st).1.links),
    decreases ev.len() - st.pos, 3nat,
{
    let has_marker = 0 <= st.pos < ev.len() && ev[st.pos].kind == EventKind::TaskListMarker;
    let st1 = if has_marker {
        st.next()
    } else {
        st
    };
    lemma_item_loop_links(ev, st1, seq![]);
}

proof fn lemma_item_loop_links(ev: Seq<EventV>, st: ParseState, acc: Seq<BlockV>)
    requires
        blocks_links_ok(acc, st.links),
    ensures
        links_prefix(st.links, item_loop(ev, st, acc).1.links),
        blocks_links_ok(item_loop(ev, st, acc).0, item_loop(ev, st, acc).1.links),
    decreases ev.len() - st.pos, 1nat,
{
    if 0 <= st.pos < ev.len() && !end_matches(EndCondition::Item, ev[st.pos]) {
        let e = ev[st.pos];
        let st1 = st.next();
        if e.kind == EventKind::Start && is_block_tag(e.tag) {
            lemma_block_links(ev, e, st1);
            let (b, s2) = block(ev, e, st1);
            lemma_blocks_links_grow(acc, st.links, s2.links);
            lemma_blocks_push_ok(acc, b, s2.links);
            if st.pos < s2.pos <= ev.len() {
                lemma_item_loop_links(ev, s2, acc.push(b));
            }
        } else if starts_inline(e) {
            lemma_item_inlines_links(ev, st, seq![]);
            let (t, s2) = item_inlines(ev, st, seq![]);
            lemma_blocks_links_grow(acc, st.links, s2.links);
            lemma_blocks_push_ok(acc, BlockV::Paragraph(t), s2.links);
            if st.pos < s2.pos <= ev.len() {
                lemma_item_loop_links(ev, s2, acc.push(BlockV::Paragraph(t)));
            }
        } else if e.kind == EventKind::Rule {
            lemma_blocks_push_ok(acc, BlockV::Rule, st.links);
            lemma_item_loop_links(ev, st1, acc.push(BlockV::Rule));
        } else {
            lemma_item_loop_links(ev, st1, acc);
        }
    }
}

/// Every link written in a document's text is recorded in the document's
/// link list: an inline link whose index is `i` finds at position `i` of the
/// list a link with the same destination, labelled with the link's plain
/// text.
pub proof fn lemma_document_links_match(ev: Seq<EventV>)
    ensures
        blocks_links_ok(document_of(ev).blocks, document_of(ev).links),
{
    lemma_blocks_loop_links(ev, EndCondition::Document, ParseState::initial(), seq![]);
}

// =====================================================================
// The headings list is the headings of the tree, in reading order
// =====================================================================

/// The headings of a block and of every block inside it, in reading order
/// (a heading itself, then those inside quotes, list items and footnotes).
pub open spec fn block_headings(b: BlockV) -> Seq<HeadingV>
    decreases b,
{
    match b {
        BlockV::Heading { level, text, id } => seq![HeadingV { level, id, title: plain_of(text) }],
        BlockV::Quote(bs) => blocks_headings(bs),
        BlockV::List { items, .. } => items_headings(items),
        BlockV::FootnoteDefinition(f) => blocks_headings(f.blocks),
        _ => seq![],
    }
}

/// The headings of a sequence of blocks, in reading order.
pub open spec fn blocks_headings(bs: Seq<BlockV>) -> Seq<HeadingV>
    decreases bs,
{
    if bs.len() == 0 {
        seq![]
    } else {
        blocks_headings(bs.drop_last()) + block_headings(bs.last())
    }
}

/// The headings inside a sequence of list items, in reading order.
pub open spec fn items_headings(items: Seq<ListItemV>) -> Seq<HeadingV>
    decreases items,
{
    if items.len() == 0 {
        seq![]
    } else {
        items_headings(items.drop_last()) + blocks_headings(items.last().blocks)
    }
}

proof fn lemma_inline_wrapped_headings(e: EventV, c: Seq<InlineV>, acc: Seq<InlineV>, s2: ParseState)
    ensures
        inline_wrapped(e, c, acc, s2).1.headings == s2.headings,
{
}

proof fn lemma_item_inlines_headings(ev: Seq<EventV>, st: ParseState, acc: Seq<InlineV>)
    ensures
        item_inlines(ev, st, acc).1.headings == st.headings,
    decreases ev.len() - st.pos,
{
    if 0 <= st.pos < ev.len() && starts_inline(ev[st.pos]) {
        let e = ev[st.pos];
        let st1 = st.next();
        if e.kind != EventKind::Start {
            lemma_item_inlines_headings(ev, st1, acc.push(inline_leaf(e)));
        } else {
            lemma_inlines_loop_headings(ev, inline_end(e), st1, seq![]);
            let (c, s2) = inlines_loop(ev, inline_end(e), st1, seq![]);
            let (acc2, s3) = inline_wrapped(e, c, acc, s2);
            if st.pos < s3.pos <= ev.len() {
                lemma_item_inlines_headings(ev, s3, acc2);
            }
        }
    }
}

proof fn lemma_inlines_loop_headings(
    ev: Seq<EventV>,
    end: EndCondition,
    st: ParseState,
    acc: Seq<InlineV>,
)
    ensures
        inlines_loop(ev, end, st, acc).1.headings == st.headings,
    decreases ev.len() - st.pos, 1nat,
{
    if 0 <= st.pos < ev.len() {
        let e = ev[st.pos];
        let st1 = st.next();
        if end_matches(end, e) {
        } else if e.kind == EventKind::Text || e.kind == EventKind::Html || e.kind
            == EventKind::InlineHtml {
            lemma_inlines_loop_headings(ev, end, st1, acc.push(InlineV::Text(e.text)));
        } else if e.kind == EventKind::Code || e.kind == EventKind::InlineMath || e.kind
            == EventKind::DisplayMath {
            lemma_inlines_loop_headings(ev, end, st1, acc.push(InlineV::Code(e.text)));
        } else if e.kind == EventKind::SoftBreak {
            lemma_inlines_loop_headings(ev, end, st1, acc.push(InlineV::SoftBreak));
        } else if e.kind == EventKind::HardBreak {
            lemma_inlines_loop_headings(ev, end, st1, acc.push(InlineV::HardBreak));
        } else if e.kind == EventKind::FootnoteReference {
            lemma_inlines_loop_headings(
                ev,
                end,
                st1,
                acc.push(InlineV::Text(footnote_ref_text(e.text))),
            );
        } else if e.kind == EventKind::Rule {
            lemma_inlines_loop_headings(ev, end, st1, acc.push(InlineV::Text("---"@)));
        } else if e.kind == EventKind::End {
        } else if e.kind == EventKind::Start {
            let inner_end = inline_end(e);
            lemma_inlines_loop_headings(ev, inner_end, st1, seq![]);
            let (c, s2) = inlines_loop(ev, inner_end, st1, seq![]);
            let (acc2, s3) = inline_wrapped(e, c, acc, s2);
            if st.pos < s3.pos <= ev.len() {
                lemma_inlines_loop_headings(ev, end, s3, acc2);
            }
        } else {
            lemma_inlines_loop_headings(ev, end, st1, acc);
        }
    }
}

proof fn lemma_collect_loop_headings(
    ev: Seq<EventV>,
    end: EndCondition,
    st: ParseState,
    acc: Seq<Seq<char>>,
)
    ensures
        collect_loop(ev, end, st, acc).1.headings == st.headings,
    decreases ev.len() - st.pos, 1nat,
{
    if 0 <= st.pos < ev.len() {
        let e = ev[st.pos];
        let st1 = st.next();
        if end_matches(end, e) {
        } else if e.kind == EventKind::Text || e.kind == EventKind::Code || e.kind
            == EventKind::Html || e.kind == EventKind::InlineHtml {
            lemma_collect_loop_headings(ev, end, st1, acc.push(e.text));
        } else if e.kind == EventKind::SoftBreak || e.kind == EventKind::HardBreak {
            lemma_collect_loop_headings(ev, end, st1, acc.push(seq!['\n']));
        } else if e.kind == EventKind::Start {
            lemma_inlines_loop_headings(ev, inline_end(e), st1, seq![]);
            let (c, s2) = inlines_loop(ev, inline_end(e), st1, seq![]);
            if st.pos < s2.pos <= ev.len() {
                lemma_collect_loop_headings(ev, end, s2, acc.push(plain_of(c)));
            }
        } else {
            lemma_collect_loop_headings(ev, end, st1, acc);
        }
    }
}

proof fn lemma_row_loop_headings(
    ev: Seq<EventV>,
    end: EndCondition,
    st: ParseState,
    acc: Seq<Seq<InlineV>>,
)
    ensures
        row_loop(ev, end, st, acc).1.headings == st.headings,
    decreases ev.len() - st.pos, 1nat,
{
    if 0 <= st.pos < ev.len() && !end_matches(end, ev[st.pos]) {
        let e = ev[st.pos];
        let st1 = st.next();
        if e.kind == EventKind::Start && e.tag == TagKind::TableCell {
            lemma_inlines_loop_headings(ev, EndCondition::TableCell, st1, seq![]);
            let (cell, s2) = inlines_loop(ev, EndCondition::TableCell, st1, seq![]);
            if st.pos < s2.pos <= ev.len() {
                lemma_row_loop_headings(ev, end, s2, acc.push(cell));
            }
        } else {
            lemma_row_loop_headings(ev, end, st1, acc);
        }
    }
}

proof fn lemma_table_loop_headings(
    ev: Seq<EventV>,
    st: ParseState,
    headers: Seq<Seq<InlineV>>,
    rows: Seq<Seq<Seq<InlineV>>>,
)
    ensures
        table_loop(ev, st, headers, rows).2.headings == st.headings,
    decreases ev.len() - st.pos, 1nat,
{
    if 0 <= st.pos < ev.len() && !end_matches(EndCondition::Table, ev[st.pos]) {
        let e = ev[st.pos];
        let st1 = st.next();
        if e.kind == EventKind::Start && e.tag == TagKind::TableHead {
            lemma_row_loop_headings(ev, EndCondition::TableHead, st1, seq![]);
            let (cells, s2) = row_loop(ev, EndCondition::TableHead, st1, seq![]);
            if st.pos < s2.pos <= ev.len() {
                lemma_table_loop_headings(ev, s2, cells, rows);
            }
        } else if e.kind == EventKind::Start && e.tag == TagKind::TableRow {
            lemma_row_loop_headings(ev, EndCondition::TableRow, st1, seq![]);
            let (cells, s2) = row_loop(ev, EndCondition::TableRow, st1, seq![]);
            if st.pos < s2.pos <= ev.len() {
                lemma_table_loop_headings(ev, s2, headers, rows.push(cells));
            }
        } else {
            lemma_table_loop_headings(ev, st1, headers, rows);
        }
    }
}

proof fn lemma_blocks_loop_headings(
    ev: Seq<EventV>,
    end: EndCondition,
    st: ParseState,
    acc: Seq<BlockV>,
    base: Seq<HeadingV>,
)
    requires
        st.headings == base + blocks_headings(acc),
    ensures
        blocks_loop(ev, end, st, acc).1.headings == base + blocks_headings(
            blocks_loop(ev, end, st, acc).0,
        ),
    decreases ev.len() - st.pos, 1nat,
{
    if 0 <= st.pos < ev.len() {
        let e = ev[st.pos];
        let st1 = st.next();
        if end_matches(end, e) {
        } else if e.kind == EventKind::Start {
            lemma_block_headings(ev, e, st1);
            let (b, st2) = block(ev, e, st1);
            lemma_blocks_push_headings(acc, b, base);
            if st.pos < st2.pos <= ev.len() {
                lemma_blocks_loop_headings(ev, end, st2, acc.push(b), base);
            }
        } else if e.kind == EventKind::Rule {
            lemma_blocks_push_headings(acc, BlockV::Rule, base);
            lemma_blocks_loop_headings(ev, end, st1, acc.push(BlockV::Rule), base);
        } else if e.kind == EventKind::Html || e.kind == EventKind::InlineHtml {
            lemma_blocks_push_headings(acc, BlockV::Html(e.text), base);
            lemma_blocks_loop_headings(ev, end, st1, acc.push(BlockV::Html(e.text)), base);
        } else if e.kind == EventKind::Text {
            let b = BlockV::Paragraph(seq![InlineV::Text(e.text)]);
            lemma_blocks_push_headings(acc, b, base);
            lemma_blocks_loop_headings(ev, end, st1, acc.push(b), base);
        } else if e.kind == EventKind::Code || e.kind == EventKind::InlineMath || e.kind
            == EventKind::DisplayMath {
            let b = BlockV::Paragraph(seq![InlineV::Code(e.text)]);
            lemma_blocks_push_headings(acc, b, base);
            lemma_blocks_loop_headings(ev, end, st1, acc.push(b), base);
        } else if e.kind == EventKind::End {
        } else if e.kind == EventKind::FootnoteReference {
            let b = BlockV::Paragraph(seq![InlineV::Text(footnote_ref_text(e.text))]);
            lemma_blocks_push_headings(acc, b, base);
            lemma_blocks_loop_headings(ev, end, st1, acc.push(b), base);
        } else {
            lemma_blocks_loop_headings(ev, end, st1, acc, base);
        }
    }
}

proof fn lemma_blocks_push_headings(acc: Seq<BlockV>, b: BlockV, base: Seq<HeadingV>)
    ensures
        base + blocks_headings(acc.push(b)) == (base + blocks_headings(acc)) + block_headings(b),
{
    assert(acc.push(b).drop_last() =~= acc);
    assert(base + blocks_headings(acc.push(b)) =~= (base + blocks_headings(acc)) + block_headings(
        b,
    ));
}

proof fn lemma_block_headings(ev: Seq<EventV>, e: EventV, st: ParseState)
    ensures
        block(ev, e, st).1.headings == st.headings + block_headings(block(ev, e, st).0),
    decreases ev.len() - st.pos, 4nat,
{
    let (b, s2) = block(ev, e, st);
    if e.tag == TagKind::Paragraph {
        lemma_inlines_loop_headings(ev, EndCondition::Paragraph, st, seq![]);
    } else if e.tag == TagKind::Heading {
        lemma_inlines_loop_headings(ev, EndCondition::Heading(e.level), st, seq![]);
    } else if e.tag == TagKind::BlockQuote {
        lemma_blocks_loop_headings(ev, EndCondition::BlockQuote, st, seq![], st.headings);
    } else if e.tag == TagKind::List {
        lemma_list_loop_headings(ev, st, seq![], st.headings);
    } else if e.tag == TagKind::Item {
        lemma_list_item_headings(ev, st);
        let (item, s3) = list_item(ev, st);
        assert(seq![item].drop_last() =~= seq![]);
        assert(seq![item].last() == item);
        assert(items_headings(seq![]) == Seq::<HeadingV>::empty());
        assert(items_headings(seq![item]) == items_headings(seq![]) + blocks_headings(item.blocks));
        assert(items_headings(seq![item]) =~= blocks_headings(item.blocks));
    } else if e.tag == TagKind::CodeBlock {
        lemma_collect_loop_headings(ev, EndCondition::CodeBlock, st, seq![]);
    } else if e.tag == TagKind::Table {
        lemma_table_loop_headings(ev, st, seq![], seq![]);
    } else if e.tag == TagKind::FootnoteDefinition {
        lemma_blocks_loop_headings(ev, EndCondition::FootnoteDefinition, st, seq![], st.headings);
    } else if e.tag == TagKind::HtmlBlock {
        lemma_collect_loop_headings(ev, EndCondition::HtmlBlock, st, seq![]);
    } else {
        lemma_inlines_loop_headings(ev, inline_end(e), st, seq![]);
    }
    assert(s2.headings =~= st.headings + block_headings(b));
}

proof fn lemma_list_loop_headings(
    ev: Seq<EventV>,
    st: ParseState,
    acc: Seq<ListItemV>,
    base: Seq<HeadingV>,
)
    requires
        st.headings == base + items_headings(acc),
    ensures
        list_loop(ev, st, acc).1.headings == base + items_headings(list_loop(ev, st, acc).0),
    decreases ev.len() - st.pos, 1nat,
{
    if 0 <= st.pos < ev.len() && !end_matches(EndCondition::List, ev[st.pos]) {
        let e = ev[st.pos];
        let st1 = st.next();
        if e.kind == EventKind::Start && e.tag == TagKind::Item {
            lemma_list_item_headings(ev, st1);
            let (item, s2) = list_item(ev, st1);
            assert(acc.push(item).drop_last() =~= acc);
            assert(s2.headings =~= base + items_headings(acc.push(item)));
            if st.pos < s2.pos <= ev.len() {
                lemma_list_loop_headings(ev, s2, acc.push(item), base);
            }
        } else {
            lemma_list_loop_headings(ev, st1, acc, base);
        }
    }
}

proof fn lemma_list_item_headings(ev: Seq<EventV>, st: ParseState)
    ensures
        list_item(ev, st).1.headings == st.headings + blocks_headings(list_item(ev, st).0.blocks),
    decreases ev.len() - st.pos, 3nat,
{
    let has_marker = 0 <= st.pos < ev.len() && ev[st.pos].kind == EventKind::TaskListMarker;
    let st1 = if has_marker {
        st.next()
    } else {
        st
    };
    assert(st.headings + blocks_headings(seq![]) =~= st.headings);
    lemma_item_loop_headings(ev, st1, seq![], st.headings);
}

proof fn lemma_item_loop_headings(
    ev: Seq<EventV>,
    st: ParseState,
    acc: Seq<BlockV>,
    base: Seq<HeadingV>,
)
    requires
        st.headings == base + blocks_headings(acc),
    ensures
        item_loop(ev, st, acc).1.headings == base + blocks_headings(item_loop(ev, st, acc).0),
    decreases ev.len() - st.pos, 1nat,
{
    if 0 <= st.pos < ev.len() && !end_matches(EndCondition::Item, ev[st.pos]) {
        let e = ev[st.pos];
        let st1 = st.next();
        if e.kind == EventKind::Start && is_block_tag(e.tag) {
            lemma_block_headings(ev, e, st1);
            let (b, s2) = block(ev, e, st1);
            lemma_blocks_push_headings(acc, b, base);
            if st.pos < s2.pos <= ev.len() {
                lemma_item_loop_headings(ev, s2, acc.push(b), base);
            }
        } else if starts_inline(e) {
            lemma_item_inlines_headings(ev, st, seq![]);
            let (t, s2) = item_inlines(ev, st, seq![]);
            lemma_blocks_push_headings(acc, BlockV::Paragraph(t), base);
            if st.pos < s2.pos <= ev.len() {
                lemma_item_loop_headings(ev, s2, acc.push(BlockV::Paragraph(t)), base);
            }
        } else if e.kind == EventKind::Rule {
            lemma_blocks_push_headings(acc, BlockV::Rule, base);
            lemma_item_loop_headings(ev, st1, acc.push(BlockV::Rule), base);
        } else {
            lemma_item_loop_headings(ev, st1, acc, base);
        }
    }
}

/// A document's headings list is the headings of its block tree in reading
/// order: each heading, at any depth (inside quotes, list items and
/// footnotes), with its level, its id and its plain-text title.
pub proof fn lemma_document_headings_in_order(ev: Seq<EventV>)
    ensures
        document_of(ev).headings == blocks_headings(document_of(ev).blocks),
{
    let init = ParseState::initial();
    assert(init.headings =~= seq![] + blocks_headings(seq![]));
    lemma_blocks_loop_headings(ev, EndCondition::Document, init, seq![], seq![]);
    let (bs, st) = blocks_loop(ev, EndCondition::Document, init, seq![]);
    assert(seq![] + blocks_headings(bs) =~= blocks_headings(bs));
}

// =====================================================================
// Plain text and slugs
// =====================================================================

/// The plain text of inline content.
pub fn plain_text(inlines: &Vec<Inline>) -> (r: String)
    ensures
        r@ == plain_of(inlines_view(inlines@)),
    decreases inlines,
{
    let mut out = String::new();
    let mut i: usize = 0;
    while i < inlines.len()
        invariant
            i <= inlines.len(),
            out@ == plain_of(inlines_view(inlines@.take(i as int))),
        decreases inlines.len() - i,
    {
        let part = plain_inline(&inlines[i]);
        out.append(part.as_str());
        proof {
            let prefix = inlines@.take(i as int);
            assert(inlines@.take(i + 1).drop_last() =~= prefix);
            assert(inlines_view(inlines@.take(i + 1)) == inlines_view(prefix).push(
                inline_view(inlines@[i as int]),
            ));
            assert(inlines_view(prefix).push(inline_view(inlines@[i as int])).drop_last()
                =~= inlines_view(prefix));
        }
        i += 1;
    }
    proof {
        assert(inlines@.take(inlines.len() as int) =~= inlines@);
    }
    out
}

fn plain_inline(x: &Inline) -> (r: String)
    ensures
        r@ == plain_one(inline_view(*x)),
    decreases x,
{
    match x {
        Inline::Text(t) => t.clone(),
        Inline::Code(t) => t.clone(),
        Inline::SoftBreak | Inline::HardBreak => {
            let mut s = String::new();
            s.push(' ');
            assert(s@ =~= seq![' ']);
            s
        },
        Inline::Emphasis(c) => plain_text(c),
        Inline::Strong(c) => plain_text(c),
        Inline::Strikethrough(c) => plain_text(c),
        Inline::Link { text, .. } => plain_text(text),
    }
}

/// The anchor id of a heading title: lowercase ASCII letters and digits, with
/// runs of whitespace, dashes and underscores turned into single dashes, and
/// no dash at either end.  A lowercase slug is left as it is.
pub fn slugify(input: &str) -> (r: String)
    ensures
        r@ == slug_of(input@),
        is_lower_slug(input@) ==> r@ == input@,
{
    let cs = chars_of(input);
    let mut slug: Vec<char> = Vec::new();
    let mut last_was_dash = false;
    let mut i: usize = 0;
    while i < cs.len()
        invariant
            cs@ == input@,
            i <= cs.len(),
            (slug@, last_was_dash) == slug_fold(lower_all(cs@.take(i as int))),
            is_lower_slug(input@) ==> lower_all(cs@.take(i as int)) == cs@.take(i as int),
        decreases cs.len() - i,
    {
        let lower = lowercase_chars(cs[i]);
        proof {
            if is_lower_slug(input@) {
                assert(is_caseless_slug_char(cs@[i as int]));
                assert(cs@.take(i + 1).drop_last() =~= cs@.take(i as int));
                assert(cs@.take(i as int).push(cs@[i as int]) =~= cs@.take(i + 1));
            }
        }
        let ghost base = lower_all(cs@.take(i as int));
        let mut j: usize = 0;
        while j < lower.len()
            invariant
                i < cs.len(),
                lower@ == lowercase_of(cs@[i as int]),
                j <= lower.len(),
                (slug@, last_was_dash) == slug_fold(base + lower@.take(j as int)),
            decreases lower.len() - j,
        {
            let ch = lower[j];
            proof {
                assert((base + lower@.take(j + 1)).drop_last() =~= base + lower@.take(j as int));
                assert((base + lower@.take(j + 1)).last() == ch);
            }
            if ascii_alnum(ch) {
                slug.push(ch);
                last_was_dash = false;
            } else if (white_space(ch) || ch == '-' || ch == '_') && !last_was_dash && slug.len()
                > 0 {
                slug.push('-');
                last_was_dash = true;
            }
            j += 1;
        }
        proof {
            assert(cs@.take(i + 1).drop_last() =~= cs@.take(i as int));
            assert(lower@.take(lower.len() as int) =~= lower@);
        }
        i += 1;
    }
    proof {
        assert(cs@.take(cs.len() as int) =~= cs@);
        if is_lower_slug(input@) {
            lemma_slug_of_slug(input@);
        }
    }
    let ghost folded = slug@;
    let mut end = slug.len();
    assert(folded.take(end as int) =~= folded);
    while end > 0 && slug[end - 1] == '-'
        invariant
            end <= slug.len(),
            slug@ == folded,
            trim_end_dashes(folded) == trim_end_dashes(folded.take(end as int)),
        decreases end,
    {
        assert(folded.take(end as int).drop_last() =~= folded.take(end - 1));
        end -= 1;
    }
    assert(folded.take(end as int) =~= folded.subrange(0, end as int));
    let ghost trimmed = folded.take(end as int);
    let mut start: usize = 0;
    while start < end && slug[start] == '-'
        invariant
            start <= end <= slug.len(),
            slug@ == folded,
            trimmed == folded.take(end as int),
            trim_start_dashes(trimmed) == trim_start_dashes(
                folded.subrange(start as int, end as int),
            ),
        decreases end - start,
    {
        assert(folded.subrange(start as int, end as int).drop_first() =~= folded.subrange(
            start + 1,
            end as int,
        ));
        start += 1;
    }
    string_from_range(&slug, start, end)
}

// =====================================================================
// The executable parser
// =====================================================================

fn convert_heading(n: u8) -> (r: HeadingLevel)
    ensures
        r == heading_level_of(n),
{
    if n <= 1 {
        HeadingLevel::H1
    } else if n == 2 {
        HeadingLevel::H2
    } else if n == 3 {
        HeadingLevel::H3
    } else if n == 4 {
        HeadingLevel::H4
    } else if n == 5 {
        HeadingLevel::H5
    } else {
        HeadingLevel::H6
    }
}

impl EndCondition {
    fn matches(self, e: &MdEvent) -> (r: bool)
        ensures
            r == end_matches(self, e@),
    {
        if e.kind != EventKind::End {
            return false;
        }
        match self {
            EndCondition::Document => false,
            EndCondition::Heading(level) => e.tag == TagKind::Heading && e.level == level,
            EndCondition::Other => true,
            EndCondition::Paragraph => e.tag == TagKind::Paragraph,
            EndCondition::BlockQuote => e.tag == TagKind::BlockQuote,
            EndCondition::List => e.tag == TagKind::List,
            EndCondition::Item => e.tag == TagKind::Item,
            EndCondition::CodeBlock => e.tag == TagKind::CodeBlock,
            EndCondition::Table => e.tag == TagKind::Table,
            EndCondition::TableHead => e.tag == TagKind::TableHead,
            EndCondition::TableRow => e.tag == TagKind::TableRow,
            EndCondition::TableCell => e.tag == TagKind::TableCell,
            EndCondition::FootnoteDefinition => e.tag == TagKind::FootnoteDefinition,
            EndCondition::Emphasis => e.tag == TagKind::Emphasis,
            EndCondition::Strong => e.tag == TagKind::Strong,
            EndCondition::Strikethrough => e.tag == TagKind::Strikethrough,
            EndCondition::Link => e.tag == TagKind::Link,
            EndCondition::Image => e.tag == TagKind::Image,
            EndCondition::HtmlBlock => e.tag == TagKind::HtmlBlock,
        }
    }

    fn from_inline_tag(e: &MdEvent) -> (r: EndCondition)
        ensures
            r == inline_end(e@),
    {
        match e.tag {
            TagKind::Emphasis => EndCondition::Emphasis,
            TagKind::Strong => EndCondition::Strong,
            TagKind::Strikethrough => EndCondition::Strikethrough,
            TagKind::Link => EndCondition::Link,
            TagKind::Image => EndCondition::Image,
            TagKind::Paragraph => EndCondition::Paragraph,
            TagKind::Heading => EndCondition::Heading(e.level),
            TagKind::HtmlBlock => EndCondition::HtmlBlock,
            _ => EndCondition::Other,
        }
    }
}

fn footnote_reference(label: &String) -> (r: String)
    ensures
        r@ == footnote_ref_text(label@),
{
    let mut s = String::new();
    s.push('[');
    s.push('^');
    s.append(label.as_str());
    s.push(']');
    assert(s@ =~= footnote_ref_text(label@));
    s
}

fn image_label(alt: &String, dest: &String) -> (r: String)
    ensures
        r@ == image_placeholder(alt@, dest@),
{
    if alt.as_str().is_empty() {
        let mut s = "[image] ".to_string();
        s.append(dest.as_str());
        s
    } else {
        let mut s = "[image: ".to_string();
        s.append(alt.as_str());
        s.append("] ");
        s.append(dest.as_str());
        s
    }
}

fn join_chunks(chunks: &Vec<String>) -> (r: String)
    ensures
        r@ == concat(chunks@.map_values(|c: String| c@)),
{
    let mut out = String::new();
    let mut i: usize = 0;
    while i < chunks.len()
        invariant
            i <= chunks.len(),
            out@ == concat(chunks@.take(i as int).map_values(|c: String| c@)),
        decreases chunks.len() - i,
    {
        out.append(chunks[i].as_str());
        proof {
            assert(chunks@.take(i + 1).map_values(|c: String| c@).drop_last() =~= chunks@.take(
                i as int,
            ).map_values(|c: String| c@));
        }
        i += 1;
    }
    proof {
        assert(chunks@.take(chunks.len() as int) =~= chunks@);
    }
    out
}

/// A paragraph holding one inline element.
fn paragraph_of(x: Inline) -> (r: Block)
    ensures
        block_view(r) == BlockV::Paragraph(seq![inline_view(x)]),
{
    let ghost xv = inline_view(x);
    let v = vec![x];
    proof {
        lemma_single_inline(v@[0]);
        assert(v@ =~= seq![v@[0]]);
    }
    Block::Paragraph(v)
}

/// Whether a start or end event's tag is a block (see `is_block_tag`).
fn block_tag(t: TagKind) -> (r: bool)
    ensures
        r == is_block_tag(t),
{
    match t {
        TagKind::Paragraph | TagKind::Heading | TagKind::BlockQuote | TagKind::CodeBlock
        | TagKind::HtmlBlock | TagKind::List | TagKind::Item | TagKind::FootnoteDefinition
        | TagKind::Table => true,
        _ => false,
    }
}

/// Whether an event begins inline content (see `starts_inline`).
fn begins_inline(e: &MdEvent) -> (r: bool)
    ensures
        r == starts_inline(e@),
{
    match e.kind {
        EventKind::Text | EventKind::Html | EventKind::InlineHtml | EventKind::Code
        | EventKind::InlineMath | EventKind::DisplayMath | EventKind::SoftBreak
        | EventKind::HardBreak | EventKind::FootnoteReference => true,
        EventKind::Start => !block_tag(e.tag),
        _ => false,
    }
}

/// The inline element of an event that holds no other events (see
/// `inline_leaf`).
fn leaf_inline(e: &MdEvent) -> (r: Inline)
    ensures
        inline_view(r) == inline_leaf(e@),
{
    match e.kind {
        EventKind::Code | EventKind::InlineMath | EventKind::DisplayMath => Inline::Code(
            e.text.clone(),
        ),
        EventKind::SoftBreak => Inline::SoftBreak,
        EventKind::HardBreak => Inline::HardBreak,
        EventKind::FootnoteReference => Inline::Text(footnote_reference(&e.text)),
        _ => Inline::Text(e.text.clone()),
    }
}

struct MarkdownParser {
    events: Vec<MdEvent>,
    cursor: usize,
    headings: Vec<Heading>,
    links: Vec<Link>,
    footnotes: Vec<Footnote>,
}

impl MarkdownParser {
    spec fn ev(&self) -> Seq<EventV> {
        events_view(self.events@)
    }

    spec fn state(&self) -> ParseState {
        ParseState {
            pos: self.cursor as int,
            headings: headings_view(self.headings@),
            links: links_view(self.links@),
            footnotes: footnotes_view(self.footnotes@),
        }
    }

    fn parse_blocks_until(&mut self, end: EndCondition) -> (r: Vec<Block>)
        requires
            old(self).cursor <= old(self).events.len(),
        ensures
            final(self).events@ == old(self).events@,
            old(self).cursor <= final(self).cursor <= final(self).events.len(),
            (blocks_view(r@), final(self).state()) == blocks_loop(
                old(self).ev(),
                end,
                old(self).state(),
                seq![],
            ),
        decreases old(self).events.len() - old(self).cursor, 1nat,
    {
        let ghost ev = self.ev();
        let ghost st0 = self.state();
        let mut blocks: Vec<Block> = Vec::new();
        loop
            invariant
                self.events@ == old(self).events@,
                ev == self.ev(),
                ev == old(self).ev(),
                st0 == old(self).state(),
                st0.pos <= self.cursor <= self.events.len(),
                blocks_loop(ev, end, self.state(), blocks_view(blocks@)) == blocks_loop(
                    ev,
                    end,
                    st0,
                    seq![],
                ),
            decreases self.events.len() - self.cursor,
        {
            let ghost st = self.state();
            let ghost acc = blocks_view(blocks@);
            if self.cursor >= self.events.len() {
                return blocks;
            }
            let i = self.cursor;
            let kind = self.events[i].kind;
            if end.matches(&self.events[i]) {
                self.cursor = i + 1;
                return blocks;
            }
            self.cursor = i + 1;
            let ghost prev = blocks@;
            match kind {
                EventKind::Start => {
                    let b = self.parse_block(i);
                    blocks.push(b);
                },
                EventKind::Rule => {
                    blocks.push(Block::Rule);
                },
                EventKind::Html | EventKind::InlineHtml => {
                    blocks.push(Block::Html(self.events[i].text.clone()));
                },
                EventKind::Text => {
                    let t = self.events[i].text.clone();
                    blocks.push(paragraph_of(Inline::Text(t)));
                },
                EventKind::Code | EventKind::InlineMath | EventKind::DisplayMath => {
                    let t = self.events[i].text.clone();
                    blocks.push(paragraph_of(Inline::Code(t)));
                },
                EventKind::End => {
                    return blocks;
                },
                EventKind::FootnoteReference => {
                    let t = footnote_reference(&self.events[i].text);
                    blocks.push(paragraph_of(Inline::Text(t)));
                },
                _ => {},
            }
            proof {
                if blocks@.len() > prev.len() {
                    assert(blocks@.drop_last() =~= prev);
                    assert(blocks_view(blocks@) == acc.push(block_view(blocks@.last())));
                } else {
                    assert(blocks@ =~= prev);
                }
                assert(blocks_loop(ev, end, st, acc) == blocks_loop(
                    ev,
                    end,
                    self.state(),
                    blocks_view(blocks@),
                ));
            }
        }
    }

    /// Parses the block that the start event at index `at` opens; the cursor
    /// stands after that event.
    fn parse_block(&mut self, at: usize) -> (r: Block)
        requires
            at < old(self).events.len(),
            old(self).cursor <= old(self).events.len(),
        ensures
            final(self).events@ == old(self).events@,
            old(self).cursor <= final(self).cursor <= final(self).events.len(),
            (block_view(r), final(self).state()) == block(
                old(self).ev(),
                old(self).ev()[at as int],
                old(self).state(),
            ),
        decreases old(self).events.len() - old(self).cursor, 4nat,
    {
        let ghost ev = self.ev();
        let ghost st = self.state();
        let tag = self.events[at].tag;
        match tag {
            TagKind::Paragraph => {
                let t = self.parse_inlines_until(EndCondition::Paragraph);
                Block::Paragraph(t)
            },
            TagKind::Heading => {
                let level_n = self.events[at].level;
                let text = self.parse_inlines_until(EndCondition::Heading(level_n));
                let title = plain_text(&text);
                let id = slugify(title.as_str());
                let level = convert_heading(level_n);
                let ghost prev = self.headings@;
                self.headings.push(Heading { level, id: id.clone(), title });
                proof {
                    assert(headings_view(self.headings@) =~= headings_view(prev).push(
                        self.headings@.last()@,
                    ));
                }
                Block::Heading { level, text, id }
            },
            TagKind::BlockQuote => {
                let c = self.parse_blocks_until(EndCondition::BlockQuote);
                Block::Quote(c)
            },
            TagKind::List => {
                let list_start = self.events[at].list_start;
                let items = self.parse_list();
                let start = match list_start {
                    Some(n) => n,
                    None => 1u64,
                };
                Block::List { ordered: list_start.is_some(), start: #[verifier::truncate] (start as usize), items }
            },
            TagKind::Item => {
                let item = self.parse_list_item();
                let items = vec![item];
                proof {
                    assert(items@ =~= seq![items@[0]]);
                    assert(items@.drop_last() =~= Seq::<ListItem>::empty());
                    assert(items_view(items@.drop_last()) =~= Seq::<ListItemV>::empty());
                    assert(items_view(items@) =~= seq![
                        ListItemV { task: items@[0].task, blocks: blocks_view(items@[0].blocks@) },
                    ]);
                }
                Block::List { ordered: false, start: 1, items }
            },
            TagKind::CodeBlock => {
                let language = if self.events[at].fenced && !self.events[at].text.as_str().is_empty() {
                    Some(self.events[at].text.clone())
                } else {
                    None
                };
                let chunks = self.collect_text_until(EndCondition::CodeBlock);
                let code = join_chunks(&chunks);
                Block::CodeBlock(CodeFence { language, code })
            },
            TagKind::Table => {
                let (headers, rows) = self.parse_table();
                Block::Table(Table { headers, rows })
            },
            TagKind::FootnoteDefinition => {
                let label = self.events[at].text.clone();
                let blocks = self.parse_blocks_until(EndCondition::FootnoteDefinition);
                let footnote = Footnote { label, blocks };
                let ghost prev = self.footnotes@;
                self.footnotes.push(copy_footnote(&footnote));
                proof {
                    assert(footnotes_view(self.footnotes@) =~= footnotes_view(prev).push(
                        footnote_view(footnote),
                    ));
                }
                Block::FootnoteDefinition(footnote)
            },
            TagKind::HtmlBlock => {
                let chunks = self.collect_text_until(EndCondition::HtmlBlock);
                Block::Html(join_chunks(&chunks))
            },
            _ => {
                let end = EndCondition::from_inline_tag(&self.events[at]);
                let t = self.parse_inlines_until(end);
                Block::Paragraph(t)
            },
        }
    }

    fn parse_list(&mut self) -> (r: Vec<ListItem>)
        requires
            old(self).cursor <= old(self).events.len(),
        ensures
            final(self).events@ == old(self).events@,
            old(self).cursor <= final(self).cursor <= final(self).events.len(),
            (items_view(r@), final(self).state()) == list_loop(
                old(self).ev(),
                old(self).state(),
                seq![],
            ),
        decreases old(self).events.len() - old(self).cursor, 1nat,
    {
        let ghost ev = self.ev();
        let ghost st0 = self.state();
        let mut items: Vec<ListItem> = Vec::new();
        loop
            invariant
                self.events@ == old(self).events@,
                ev == self.ev(),
                ev == old(self).ev(),
                st0 == old(self).state(),
                st0.pos <= self.cursor <= self.events.len(),
                list_loop(ev, self.state(), items_view(items@)) == list_loop(ev, st0, seq![]),
            decreases self.events.len() - self.cursor,
        {
            if self.cursor >= self.events.len() {
                return items;
            }
            let i = self.cursor;
            if EndCondition::List.matches(&self.events[i]) {
                self.cursor = i + 1;
                return items;
            }
            self.cursor = i + 1;
            if self.events[i].kind == EventKind::Start && self.events[i].tag == TagKind::Item {
                let ghost prev = items@;
                let item = self.parse_list_item();
                items.push(item);
                proof {
                    assert(items@.drop_last() =~= prev);
                }
            }
        }
    }

    fn parse_list_item(&mut self) -> (r: ListItem)
        requires
            old(self).cursor <= old(self).events.len(),
        ensures
            final(self).events@ == old(self).events@,
            old(self).cursor <= final(self).cursor <= final(self).events.len(),
            ({
                let (v, s) = list_item(old(self).ev(), old(self).state());
                &&& v == (ListItemV { task: r.task, blocks: blocks_view(r.blocks@) })
                &&& s == final(self).state()
            }),
        decreases old(self).events.len() - old(self).cursor, 3nat,
    {
        let ghost ev = self.ev();
        let ghost st_in = self.state();
        let ghost has_marker = 0 <= st_in.pos < ev.len() && ev[st_in.pos].kind
            == EventKind::TaskListMarker;
        let mut task: Option<bool> = None;
        if self.cursor < self.events.len() && self.events[self.cursor].kind
            == EventKind::TaskListMarker {
            task = Some(self.events[self.cursor].checked);
            self.cursor = self.cursor + 1;
        }
        let ghost st0 = self.state();
        assert(task == (if has_marker { Some(ev[st_in.pos].checked) } else { None }));
        assert(st0 == (if has_marker { st_in.next() } else { st_in }));
        let mut blocks: Vec<Block> = Vec::new();
        loop
            invariant
                self.events@ == old(self).events@,
                ev == self.ev(),
                ev == old(self).ev(),
                st_in == old(self).state(),
                has_marker == (0 <= st_in.pos < ev.len() && ev[st_in.pos].kind
                    == EventKind::TaskListMarker),
                task == (if has_marker { Some(ev[st_in.pos].checked) } else { None }),
                st0 == (if has_marker { st_in.next() } else { st_in }),
                old(self).cursor <= st0.pos <= self.cursor <= self.events.len(),
                item_loop(ev, self.state(), blocks_view(blocks@)) == item_loop(ev, st0, seq![]),
            decreases self.events.len() - self.cursor,
        {
            if self.cursor >= self.events.len() {
                return ListItem { task, blocks };
            }
            let i = self.cursor;
            if EndCondition::Item.matches(&self.events[i]) {
                self.cursor = i + 1;
                return ListItem { task, blocks };
            }
            let ghost st = self.state();
            let ghost acc = blocks_view(blocks@);
            self.cursor = i + 1;
            let ghost prev = blocks@;
            let kind = self.events[i].kind;
            if kind == EventKind::Start && block_tag(self.events[i].tag) {
                let b = self.parse_block(i);
                blocks.push(b);
            } else if begins_inline(&self.events[i]) {
                assert(ev[i as int] == self.events@[i as int]@);
                self.cursor = i;
                let t = self.parse_item_inlines();
                let ghost tv = inlines_view(t@);
                blocks.push(Block::Paragraph(t));
                proof {
                    assert(block_view(blocks@.last()) == BlockV::Paragraph(tv));
                }
            } else if kind == EventKind::Rule {
                blocks.push(Block::Rule);
            }
            proof {
                if blocks@.len() > prev.len() {
                    assert(blocks@.drop_last() =~= prev);
                    assert(blocks_view(blocks@) == acc.push(block_view(blocks@.last())));
                } else {
                    assert(blocks@ =~= prev);
                }
                assert(item_loop(ev, st, acc) == item_loop(ev, self.state(), blocks_view(blocks@)));
            }
        }
    }

    fn parse_table(&mut self) -> (r: (Vec<Vec<Inline>>, Vec<Vec<Vec<Inline>>>))
        requires
            old(self).cursor <= old(self).events.len(),
        ensures
            final(self).events@ == old(self).events@,
            old(self).cursor <= final(self).cursor <= final(self).events.len(),
            (cells_view(r.0@), rows_view(r.1@), final(self).state()) == table_loop(
                old(self).ev(),
                old(self).state(),
                seq![],
                seq![],
            ),
        decreases old(self).events.len() - old(self).cursor, 1nat,
    {
        let ghost ev = self.ev();
        let ghost st0 = self.state();
        let mut headers: Vec<Vec<Inline>> = Vec::new();
        let mut rows: Vec<Vec<Vec<Inline>>> = Vec::new();
        loop
            invariant
                self.events@ == old(self).events@,
                ev == self.ev(),
                ev == old(self).ev(),
                st0 == old(self).state(),
                st0.pos <= self.cursor <= self.events.len(),
                table_loop(ev, self.state(), cells_view(headers@), rows_view(rows@))
                    == table_loop(ev, st0, seq![], seq![]),
            decreases self.events.len() - self.cursor,
        {
            if self.cursor >= self.events.len() {
                return (headers, rows);
            }
            let i = self.cursor;
            if EndCondition::Table.matches(&self.events[i]) {
                self.cursor = i + 1;
                return (headers, rows);
            }
            self.cursor = i + 1;
            let kind = self.events[i].kind;
            let tag = self.events[i].tag;
            if kind == EventKind::Start && tag == TagKind::TableHead {
                headers = self.parse_table_cells(EndCondition::TableHead);
            } else if kind == EventKind::Start && tag == TagKind::TableRow {
                let ghost prev = rows@;
                let row = self.parse_table_cells(EndCondition::TableRow);
                rows.push(row);
                proof {
                    assert(rows@.drop_last() =~= prev);
                }
            }
        }
    }

    fn parse_table_cells(&mut self, end: EndCondition) -> (r: Vec<Vec<Inline>>)
        requires
            old(self).cursor <= old(self).events.len(),
        ensures
            final(self).events@ == old(self).events@,
            old(self).cursor <= final(self).cursor <= final(self).events.len(),
            (cells_view(r@), final(self).state()) == row_loop(
                old(self).ev(),
                end,
                old(self).state(),
                seq![],
            ),
        decreases old(self).events.len() - old(self).cursor, 1nat,
    {
        let ghost ev = self.ev();
        let ghost st0 = self.state();
        let mut cells: Vec<Vec<Inline>> = Vec::new();
        loop
            invariant
                self.events@ == old(self).events@,
                ev == self.ev(),
                ev == old(self).ev(),
                st0 == old(self).state(),
                st0.pos <= self.cursor <= self.events.len(),
                row_loop(ev, end, self.state(), cells_view(cells@)) == row_loop(
                    ev,
                    end,
                    st0,
                    seq![],
                ),
            decreases self.events.len() - self.cursor,
        {
            if self.cursor >= self.events.len() {
                return cells;
            }
            let i = self.cursor;
            if end.matches(&self.events[i]) {
                self.cursor = i + 1;
                return cells;
            }
            self.cursor = i + 1;
            if self.events[i].kind == EventKind::Start && self.events[i].tag
                == TagKind::TableCell {
                let ghost prev = cells@;
                let cell = self.parse_inlines_until(EndCondition::TableCell);
                cells.push(cell);
                proof {
                    assert(cells@.drop_last() =~= prev);
                }
            }
        }
    }

    /// Adds the element that the start event at `i` opens, with contents `c`
    /// (see `inline_wrapped`).
    fn wrap_inline(&mut self, i: usize, c: Vec<Inline>, inlines: &mut Vec<Inline>)
        requires
            i < old(self).events.len(),
        ensures
            final(self).events@ == old(self).events@,
            final(self).cursor == old(self).cursor,
            (inlines_view(final(inlines)@), final(self).state()) == inline_wrapped(
                old(self).ev()[i as int],
                inlines_view(c@),
                inlines_view(old(inlines)@),
                old(self).state(),
            ),
    {
        let ghost prev = inlines@;
        let ghost e = self.ev()[i as int];
        assert(e == self.events@[i as int]@);
        let tag = self.events[i].tag;
        if tag == TagKind::Emphasis {
            inlines.push(Inline::Emphasis(c));
        } else if tag == TagKind::Strong {
            inlines.push(Inline::Strong(c));
        } else if tag == TagKind::Strikethrough {
            inlines.push(Inline::Strikethrough(c));
        } else if tag == TagKind::Link {
            let index = self.links.len();
            let label = plain_text(&c);
            let destination = self.events[i].text.clone();
            let title = self.events[i].title.clone();
            let ghost prev_links = self.links@;
            self.links.push(Link { index, destination: destination.clone(), title: title.clone(), label });
            proof {
                assert(links_view(self.links@) =~= links_view(prev_links).push(self.links@.last()@));
            }
            inlines.push(Inline::Link { text: c, destination, title, index });
        } else if tag == TagKind::Image {
            let alt = plain_text(&c);
            let label = image_label(&alt, &self.events[i].text);
            let index = self.links.len();
            let ghost prev_links = self.links@;
            self.links.push(
                Link {
                    index,
                    destination: self.events[i].text.clone(),
                    title: self.events[i].title.clone(),
                    label: alt,
                },
            );
            proof {
                assert(links_view(self.links@) =~= links_view(prev_links).push(self.links@.last()@));
            }
            inlines.push(Inline::Text(label));
        } else {
            let ghost cv = c@;
            let mut c = c;
            inlines.append(&mut c);
            proof {
                lemma_inlines_view_append(prev, cv);
            }
        }
        proof {
            if inlines@.len() == prev.len() + 1 && (tag == TagKind::Emphasis || tag == TagKind::Strong
                || tag == TagKind::Strikethrough || tag == TagKind::Link || tag == TagKind::Image) {
                assert(inlines@.drop_last() =~= prev);
                assert(inlines_view(inlines@) == inlines_view(prev).push(inline_view(inlines@.last())));
            }
        }
    }

    /// The inline content of a tight list item (see `item_inlines`).
    fn parse_item_inlines(&mut self) -> (r: Vec<Inline>)
        requires
            old(self).cursor <= old(self).events.len(),
        ensures
            final(self).events@ == old(self).events@,
            old(self).cursor <= final(self).cursor <= final(self).events.len(),
            (inlines_view(r@), final(self).state()) == item_inlines(
                old(self).ev(),
                old(self).state(),
                seq![],
            ),
            old(self).cursor < old(self).events.len() && starts_inline(
                old(self).ev()[old(self).cursor as int],
            ) ==> old(self).cursor < final(self).cursor,
    {
        let ghost ev = self.ev();
        let ghost st0 = self.state();
        let mut inlines: Vec<Inline> = Vec::new();
        loop
            invariant
                self.events@ == old(self).events@,
                ev == self.ev(),
                ev == old(self).ev(),
                st0 == old(self).state(),
                st0.pos <= self.cursor <= self.events.len(),
                item_inlines(ev, self.state(), inlines_view(inlines@)) == item_inlines(
                    ev,
                    st0,
                    seq![],
                ),
            decreases self.events.len() - self.cursor,
        {
            if self.cursor >= self.events.len() {
                return inlines;
            }
            let i = self.cursor;
            assert(ev[i as int] == self.events@[i as int]@);
            if !begins_inline(&self.events[i]) {
                return inlines;
            }
            let ghost st = self.state();
            let ghost acc = inlines_view(inlines@);
            self.cursor = i + 1;
            if self.events[i].kind != EventKind::Start {
                let ghost prev = inlines@;
                inlines.push(leaf_inline(&self.events[i]));
                proof {
                    assert(inlines@.drop_last() =~= prev);
                    assert(inlines_view(inlines@) == acc.push(inline_view(inlines@.last())));
                }
            } else {
                let inner_end = EndCondition::from_inline_tag(&self.events[i]);
                let c = self.parse_inlines_until(inner_end);
                self.wrap_inline(i, c, &mut inlines);
            }
        }
    }

    fn parse_inlines_until(&mut self, end: EndCondition) -> (r: Vec<Inline>)
        requires
            old(self).cursor <= old(self).events.len(),
        ensures
            final(self).events@ == old(self).events@,
            old(self).cursor <= final(self).cursor <= final(self).events.len(),
            (inlines_view(r@), final(self).state()) == inlines_loop(
                old(self).ev(),
                end,
                old(self).state(),
                seq![],
            ),
            links_prefix(old(self).state().links, final(self).state().links),
            inlines_links_ok(inlines_view(r@), final(self).state().links),
            state_ok(old(self).state()) ==> state_ok(final(self).state()),
        decreases old(self).events.len() - old(self).cursor, 1nat,
    {
        let ghost ev = self.ev();
        let ghost st0 = self.state();
        proof {
            lemma_inlines_loop_links(ev, end, st0, seq![]);
            if state_ok(st0) {
                lemma_inlines_loop_keeps_state(ev, end, st0, seq![]);
            }
        }
        let mut inlines: Vec<Inline> = Vec::new();
        loop
            invariant
                self.events@ == old(self).events@,
                ev == self.ev(),
                ev == old(self).ev(),
                st0 == old(self).state(),
                links_prefix(st0.links, inlines_loop(ev, end, st0, seq![]).1.links),
                state_ok(st0) ==> state_ok(inlines_loop(ev, end, st0, seq![]).1),
                inlines_links_ok(
                    inlines_loop(ev, end, st0, seq![]).0,
                    inlines_loop(ev, end, st0, seq![]).1.links,
                ),
                st0.pos <= self.cursor <= self.events.len(),
                inlines_loop(ev, end, self.state(), inlines_view(inlines@)) == inlines_loop(
                    ev,
                    end,
                    st0,
                    seq![],
                ),
            decreases self.events.len() - self.cursor,
        {
            if self.cursor >= self.events.len() {
                return inlines;
            }
            let i = self.cursor;
            if end.matches(&self.events[i]) {
                self.cursor = i + 1;
                return inlines;
            }
            let ghost st = self.state();
            let ghost acc = inlines_view(inlines@);
            self.cursor = i + 1;
            let ghost prev = inlines@;
            let kind = self.events[i].kind;
            match kind {
                EventKind::Text | EventKind::Html | EventKind::InlineHtml => {
                    inlines.push(Inline::Text(self.events[i].text.clone()));
                },
                EventKind::Code | EventKind::InlineMath | EventKind::DisplayMath => {
                    inlines.push(Inline::Code(self.events[i].text.clone()));
                },
                EventKind::SoftBreak => inlines.push(Inline::SoftBreak),
                EventKind::HardBreak => inlines.push(Inline::HardBreak),
                EventKind::FootnoteReference => {
                    inlines.push(Inline::Text(footnote_reference(&self.events[i].text)));
                },
                EventKind::Rule => inlines.push(Inline::Text("---".to_string())),
                EventKind::End => {
                    return inlines;
                },
                EventKind::Start => {
                    let inner_end = EndCondition::from_inline_tag(&self.events[i]);
                    let c = self.parse_inlines_until(inner_end);
                    self.wrap_inline(i, c, &mut inlines);
                },
                _ => {},
            }
            proof {
                if kind != EventKind::Start {
                    if inlines@.len() == prev.len() + 1 {
                        assert(inlines@.drop_last() =~= prev);
                        assert(inlines_view(inlines@) == acc.push(inline_view(inlines@.last())));
                    } else {
                        assert(inlines@ =~= prev);
                    }
                }
                assert(inlines_loop(ev, end, st, acc) == inlines_loop(
                    ev,
                    end,
                    self.state(),
                    inlines_view(inlines@),
                ));
            }
        }
    }

    fn collect_text_until(&mut self, end: EndCondition) -> (r: Vec<String>)
        requires
            old(self).cursor <= old(self).events.len(),
        ensures
            final(self).events@ == old(self).events@,
            old(self).cursor <= final(self).cursor <= final(self).events.len(),
            (r@.map_values(|c: String| c@), final(self).state()) == collect_loop(
                old(self).ev(),
                end,
                old(self).state(),
                seq![],
            ),
        decreases old(self).events.len() - old(self).cursor, 1nat,
    {
        let ghost ev = self.ev();
        let ghost st0 = self.state();
        let mut chunks: Vec<String> = Vec::new();
        assert(chunks@.map_values(|c: String| c@) =~= Seq::<Seq<char>>::empty());
        loop
            invariant
                self.events@ == old(self).events@,
                ev == self.ev(),
                ev == old(self).ev(),
                st0 == old(self).state(),
                st0.pos <= self.cursor <= self.events.len(),
                collect_loop(ev, end, self.state(), chunks@.map_values(|c: String| c@))
                    == collect_loop(ev, end, st0, seq![]),
            decreases self.events.len() - self.cursor,
        {
            if self.cursor >= self.events.len() {
                return chunks;
            }
            let i = self.cursor;
            if end.matches(&self.events[i]) {
                self.cursor = i + 1;
                return chunks;
            }
            self.cursor = i + 1;
            let ghost prev = chunks@;
            let kind = self.events[i].kind;
            match kind {
                EventKind::Text | EventKind::Code | EventKind::Html | EventKind::InlineHtml => {
                    chunks.push(self.events[i].text.clone());
                },
                EventKind::SoftBreak | EventKind::HardBreak => {
                    let mut nl = String::new();
                    nl.push('\n');
                    assert(nl@ =~= seq!['\n']);
                    chunks.push(nl);
                },
                EventKind::Start => {
                    let inner_end = EndCondition::from_inline_tag(&self.events[i]);
                    let c = self.parse_inlines_until(inner_end);
                    chunks.push(plain_text(&c));
                },
                _ => {},
            }
            proof {
                if chunks@.len() > prev.len() {
                    assert(chunks@.map_values(|c: String| c@) =~= prev.map_values(
                        |c: String| c@,
                    ).push(chunks@.last()@));
                } else {
                    assert(chunks@ =~= prev);
                }
            }
        }
    }
}

/// Builds the document that an event stream describes.
pub fn parse_events(events: Vec<MdEvent>) -> (doc: Document)
    ensures
        doc@ == document_of(events_view(events@)),
        forall|i: int| 0 <= i < doc.links@.len() ==> (#[trigger] doc.links@[i]).index == i,
        forall|i: int|
            0 <= i < doc.headings@.len() ==> (#[trigger] doc.headings@[i]).id@ == slug_of(
                doc.headings@[i].title@,
            ),
        blocks_links_ok(doc@.blocks, doc@.links),
        doc@.headings == blocks_headings(doc@.blocks),
{
    let mut parser = MarkdownParser {
        events,
        cursor: 0,
        headings: Vec::new(),
        links: Vec::new(),
        footnotes: Vec::new(),
    };
    proof {
        assert(parser.state() =~= ParseState::initial());
    }
    let blocks = parser.parse_blocks_until(EndCondition::Document);
    let doc = Document {
        blocks,
        headings: parser.headings,
        links: parser.links,
        footnotes: parser.footnotes,
    };
    proof {
        lemma_document_links_and_ids(events_view(events@));
        lemma_document_links_match(events_view(events@));
        lemma_document_headings_in_order(events_view(events@));
        assert forall|i: int| 0 <= i < doc.links@.len() implies (#[trigger] doc.links@[i]).index
            == i by {
            assert(doc@.links[i] == doc.links@[i]@);
            assert(doc.links@.len() == doc.links.len());
        }
        assert forall|i: int| 0 <= i < doc.headings@.len() implies (#[trigger] doc.headings@[i]).id@
            == slug_of(doc.headings@[i].title@) by {
            assert(doc@.headings[i] == doc.headings@[i]@);
        }
    }
    doc
}

/// Parses Markdown source text into a document: pulldown-cmark produces the
/// event stream (with tables, footnotes, strikethrough, task lists and
/// GitHub-flavoured blockquotes enabled) and `parse_events` builds the tree.
pub fn parse_document(source: &str) -> (doc: Document)
    ensures
        doc@ == document_of(markdown_events(source@, MARKDOWN_OPTIONS)),
        forall|i: int| 0 <= i < doc.links@.len() ==> (#[trigger] doc.links@[i]).index == i,
        forall|i: int|
            0 <= i < doc.headings@.len() ==> (#[trigger] doc.headings@[i]).id@ == slug_of(
                doc.headings@[i].title@,
            ),
        blocks_links_ok(doc@.blocks, doc@.links),
        doc@.headings == blocks_headings(doc@.blocks),
{
    let events = markdown_event_list(source, MARKDOWN_OPTIONS);
    parse_events(events)
}

} // verus!
