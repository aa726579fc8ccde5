//! The document model produced by the parser, with its mathematical view.

use vstd::prelude::*;

verus! {

/// Parsed Markdown document used by the renderer and pager.
#[derive(Debug, Default, PartialEq, Eq)]
pub struct Document {
    pub blocks: Vec<Block>,
    pub headings: Vec<Heading>,
    pub links: Vec<Link>,
    pub footnotes: Vec<Footnote>,
}

/// A block of the document.
#[derive(Debug, PartialEq, Eq)]
pub enum Block {
    Paragraph(Vec<Inline>),
    Heading { level: HeadingLevel, text: Vec<Inline>, id: String },
    Quote(Vec<Block>),
    List { ordered: bool, start: usize, items: Vec<ListItem> },
    CodeBlock(CodeFence),
    Table(Table),
    Rule,
    Html(String),
    FootnoteDefinition(Footnote),
}

/// A code block: its language, when the fence names one, and its text.
#[derive(Debug, Clone, PartialEq, Eq)]
pub struct CodeFence {
    pub language: Option<String>,
    pub code: String,
}

/// A table: the head's cells and the rows' cells.
#[derive(Debug, PartialEq, Eq)]
pub struct Table {
    pub headers: Vec<Vec<Inline>>,
    pub rows: Vec<Vec<Vec<Inline>>>,
}

/// A list item: its task state, if it is a task, and its blocks.
#[derive(Debug, PartialEq, Eq)]
pub struct ListItem {
    pub task: Option<bool>,
    pub blocks: Vec<Block>,
}

/// Inline content.
#[derive(Debug, PartialEq, Eq)]
pub enum Inline {
    Text(String),
    Code(String),
    SoftBreak,
    HardBreak,
    Emphasis(Vec<Inline>),
    Strong(Vec<Inline>),
    Strikethrough(Vec<Inline>),
    Link { text: Vec<Inline>, destination: String, title: String, index: usize },
}

/// A heading of the document: its level, anchor id and plain title.
#[derive(Debug, Clone, PartialEq, Eq)]
pub struct Heading {
    pub level: HeadingLevel,
    pub id: String,
    pub title: String,
}

/// A link or image of the document, numbered in order of appearance.
#[derive(Debug, Clone, PartialEq, Eq)]
pub struct Link {
    pub index: usize,
    pub destination: String,
    pub title: String,
    pub label: String,
}

/// A footnote definition: its label and blocks.
#[derive(Debug, PartialEq, Eq)]
pub struct Footnote {
    pub label: String,
    pub blocks: Vec<Block>,
}

#[derive(Debug, Clone, Copy, PartialEq, Eq, Structural, PartialOrd, Ord)]
/// The six heading levels.
pub enum HeadingLevel {
    H1,
    H2,
    H3,
    H4,
    H5,
    H6,
}

impl HeadingLevel {
    /// The level as a number from 1 to 6.
    pub open spec fn spec_number(self) -> nat {
        match self {
            HeadingLevel::H1 => 1,
            HeadingLevel::H2 => 2,
            HeadingLevel::H3 => 3,
            HeadingLevel::H4 => 4,
            HeadingLevel::H5 => 5,
            HeadingLevel::H6 => 6,
        }
    }

    /// The level as a number from 1 to 6.
    pub fn as_usize(self) -> (n: usize)
        ensures
            n == self.spec_number(),
            1 <= n <= 6,
    {
        match self {
            Self::H1 => 1,
            Self::H2 => 2,
            Self::H3 => 3,
            Self::H4 => 4,
            Self::H5 => 5,
            Self::H6 => 6,
        }
    }
}

// ---------------------------------------------------------------------
// Mathematical view of the model: strings become character sequences and
// vectors become sequences, recursively.
// ---------------------------------------------------------------------

pub enum InlineV {
    Text(Seq<char>),
    Code(Seq<char>),
    SoftBreak,
    HardBreak,
    Emphasis(Seq<InlineV>),
    Strong(Seq<InlineV>),
    Strikethrough(Seq<InlineV>),
    Link { text: Seq<InlineV>, destination: Seq<char>, title: Seq<char>, index: usize },
}

pub struct ListItemV {
    pub task: Option<bool>,
    pub blocks: Seq<BlockV>,
}

pub struct FootnoteV {
    pub label: Seq<char>,
    pub blocks: Seq<BlockV>,
}

pub enum BlockV {
    Paragraph(Seq<InlineV>),
    Heading { level: HeadingLevel, text: Seq<InlineV>, id: Seq<char> },
    Quote(Seq<BlockV>),
    List { ordered: bool, start: usize, items: Seq<ListItemV> },
    CodeBlock { language: Option<Seq<char>>, code: Seq<char> },
    Table { headers: Seq<Seq<InlineV>>, rows: Seq<Seq<Seq<InlineV>>> },
    Rule,
    Html(Seq<char>),
    FootnoteDefinition(FootnoteV),
}

pub struct HeadingV {
    pub level: HeadingLevel,
    pub id: Seq<char>,
    pub title: Seq<char>,
}

pub struct LinkV {
    pub index: usize,
    pub destination: Seq<char>,
    pub title: Seq<char>,
    pub label: Seq<char>,
}

pub struct DocumentV {
    pub blocks: Seq<BlockV>,
    pub headings: Seq<HeadingV>,
    pub links: Seq<LinkV>,
    pub footnotes: Seq<FootnoteV>,
}

pub open spec fn inline_view(x: Inline) -> InlineV
    decreases x,
{
    match x {
        Inline::Text(t) => InlineV::Text(t@),
        Inline::Code(t) => InlineV::Code(t@),
        Inline::SoftBreak => InlineV::SoftBreak,
        Inline::HardBreak => InlineV::HardBreak,
        Inline::Emphasis(c) => InlineV::Emphasis(inlines_view(c@)),
        Inline::Strong(c) => InlineV::Strong(inlines_view(c@)),
        Inline::Strikethrough(c) => InlineV::Strikethrough(inlines_view(c@)),
        Inline::Link { text, destination, title, index } => InlineV::Link {
            text: inlines_view(text@),
            destination: destination@,
            title: title@,
            index,
        },
    }
}

pub open spec fn inlines_view(s: Seq<Inline>) -> Seq<InlineV>
    decreases s,
{
    if s.len() == 0 {
        Seq::empty()
    } else {
        inlines_view(s.drop_last()).push(inline_view(s.last()))
    }
}


pub open spec fn cells_view(s: Seq<Vec<Inline>>) -> Seq<Seq<InlineV>>
    decreases s,
{
    if s.len() == 0 {
        Seq::empty()
    } else {
        cells_view(s.drop_last()).push(inlines_view(s.last()@))
    }
}

pub open spec fn rows_view(s: Seq<Vec<Vec<Inline>>>) -> Seq<Seq<Seq<InlineV>>>
    decreases s,
{
    if s.len() == 0 {
        Seq::empty()
    } else {
        rows_view(s.drop_last()).push(cells_view(s.last()@))
    }
}

pub open spec fn block_view(b: Block) -> BlockV
    decreases b,
{
    match b {
        Block::Paragraph(t) => BlockV::Paragraph(inlines_view(t@)),
        Block::Heading { level, text, id } => BlockV::Heading {
            level,
            text: inlines_view(text@),
            id: id@,
        },
        Block::Quote(c) => BlockV::Quote(blocks_view(c@)),
        Block::List { ordered, start, items } => BlockV::List {
            ordered,
            start,
            items: items_view(items@),
        },
        Block::CodeBlock(f) => BlockV::CodeBlock {
            language: match f.language {
                Some(l) => Some(l@),
                None => None,
            },
            code: f.code@,
        },
        Block::Table(t) => BlockV::Table {
            headers: cells_view(t.headers@),
            rows: rows_view(t.rows@),
        },
        Block::Rule => BlockV::Rule,
        Block::Html(h) => BlockV::Html(h@),
        Block::FootnoteDefinition(f) => BlockV::FootnoteDefinition(
            FootnoteV { label: f.label@, blocks: blocks_view(f.blocks@) },
        ),
    }
}

pub open spec fn blocks_view(s: Seq<Block>) -> Seq<BlockV>
    decreases s,
{
    if s.len() == 0 {
        Seq::empty()
    } else {
        blocks_view(s.drop_last()).push(block_view(s.last()))
    }
}

pub open spec fn items_view(s: Seq<ListItem>) -> Seq<ListItemV>
    decreases s,
{
    if s.len() == 0 {
        Seq::empty()
    } else {
        items_view(s.drop_last()).push(
            ListItemV { task: s.last().task, blocks: blocks_view(s.last().blocks@) },
        )
    }
}

pub open spec fn headings_view(s: Seq<Heading>) -> Seq<HeadingV> {
    s.map_values(|h: Heading| h@)
}

pub open spec fn links_view(s: Seq<Link>) -> Seq<LinkV> {
    s.map_values(|l: Link| l@)
}

pub open spec fn footnote_view(f: Footnote) -> FootnoteV {
    FootnoteV { label: f.label@, blocks: blocks_view(f.blocks@) }
}

pub open spec fn footnotes_view(s: Seq<Footnote>) -> Seq<FootnoteV> {
    s.map_values(|f: Footnote| footnote_view(f))
}

impl View for Heading {
    type V = HeadingV;

    open spec fn view(&self) -> HeadingV {
        HeadingV { level: self.level, id: self.id@, title: self.title@ }
    }
}

impl View for Link {
    type V = LinkV;

    open spec fn view(&self) -> LinkV {
        LinkV {
            index: self.index,
            destination: self.destination@,
            title: self.title@,
            label: self.label@,
        }
    }
}

impl View for Document {
    type V = DocumentV;

    open spec fn view(&self) -> DocumentV {
        DocumentV {
            blocks: blocks_view(self.blocks@),
            headings: headings_view(self.headings@),
            links: links_view(self.links@),
            footnotes: footnotes_view(self.footnotes@),
        }
    }
}

/// Appending to a sequence of inline elements appends to its view.
pub proof fn lemma_inlines_view_append(a: Seq<Inline>, b: Seq<Inline>)
    ensures
        inlines_view(a + b) == inlines_view(a) + inlines_view(b),
    decreases b.len(),
{
    if b.len() == 0 {
        assert(a + b =~= a);
        assert(inlines_view(a) + inlines_view(b) =~= inlines_view(a));
    } else {
        lemma_inlines_view_append(a, b.drop_last());
        assert((a + b).drop_last() =~= a + b.drop_last());
        assert(inlines_view(a + b) =~= inlines_view(a) + inlines_view(b));
    }
}

pub proof fn lemma_inlines_view_index(s: Seq<Inline>)
    ensures
        inlines_view(s).len() == s.len(),
        forall|i: int| 0 <= i < s.len() ==> #[trigger] inlines_view(s)[i] == inline_view(s[i]),
    decreases s.len(),
{
    if s.len() > 0 {
        lemma_inlines_view_index(s.drop_last());
    }
}

pub proof fn lemma_blocks_view_index(s: Seq<Block>)
    ensures
        blocks_view(s).len() == s.len(),
        forall|i: int| 0 <= i < s.len() ==> #[trigger] blocks_view(s)[i] == block_view(s[i]),
    decreases s.len(),
{
    if s.len() > 0 {
        lemma_blocks_view_index(s.drop_last());
    }
}

pub proof fn lemma_items_view_index(s: Seq<ListItem>)
    ensures
        items_view(s).len() == s.len(),
        forall|i: int|
            0 <= i < s.len() ==> #[trigger] items_view(s)[i] == (ListItemV {
                task: s[i].task,
                blocks: blocks_view(s[i].blocks@),
            }),
    decreases s.len(),
{
    if s.len() > 0 {
        lemma_items_view_index(s.drop_last());
    }
}

pub proof fn lemma_cells_view_index(s: Seq<Vec<Inline>>)
    ensures
        cells_view(s).len() == s.len(),
        forall|i: int| 0 <= i < s.len() ==> #[trigger] cells_view(s)[i] == inlines_view(s[i]@),
    decreases s.len(),
{
    if s.len() > 0 {
        lemma_cells_view_index(s.drop_last());
    }
}

pub proof fn lemma_rows_view_index(s: Seq<Vec<Vec<Inline>>>)
    ensures
        rows_view(s).len() == s.len(),
        forall|i: int| 0 <= i < s.len() ==> #[trigger] rows_view(s)[i] == cells_view(s[i]@),
    decreases s.len(),
{
    if s.len() > 0 {
        lemma_rows_view_index(s.drop_last());
    }
}

pub proof fn lemma_single_inline(x: Inline)
    ensures
        inlines_view(seq![x]) == seq![inline_view(x)],
{
    assert(seq![x].drop_last() =~= Seq::<Inline>::empty());
    assert(inlines_view(seq![x].drop_last()) =~= Seq::<InlineV>::empty());
    assert(seq![x].last() == x);
    assert(inlines_view(seq![x]) =~= seq![inline_view(x)]);
}

/// A deep copy of a block.
pub fn copy_block(b: &Block) -> (r: Block)
    ensures
        block_view(r) == block_view(*b),
    decreases b,
{
    match b {
        Block::Paragraph(t) => Block::Paragraph(copy_inlines(t)),
        Block::Heading { level, text, id } => Block::Heading {
            level: *level,
            text: copy_inlines(text),
            id: id.clone(),
        },
        Block::Quote(c) => Block::Quote(copy_blocks(c)),
        Block::List { ordered, start, items } => Block::List {
            ordered: *ordered,
            start: *start,
            items: copy_items(items),
        },
        Block::CodeBlock(f) => {
            let language = match &f.language {
                Some(l) => Some(l.clone()),
                None => None,
            };
            Block::CodeBlock(CodeFence { language, code: f.code.clone() })
        },
        Block::Table(t) => Block::Table(
            Table { headers: copy_cells(&t.headers), rows: copy_rows(&t.rows) },
        ),
        Block::Rule => Block::Rule,
        Block::Html(h) => Block::Html(h.clone()),
        Block::FootnoteDefinition(f) => Block::FootnoteDefinition(
            Footnote { label: f.label.clone(), blocks: copy_blocks(&f.blocks) },
        ),
    }
}

/// A deep copy of a sequence of blocks.
pub fn copy_blocks(v: &Vec<Block>) -> (r: Vec<Block>)
    ensures
        blocks_view(r@) == blocks_view(v@),
    decreases v,
{
    let mut out: Vec<Block> = Vec::new();
    let mut i: usize = 0;
    while i < v.len()
        invariant
            i <= v.len(),
            blocks_view(out@) == blocks_view(v@.take(i as int)),
        decreases v.len() - i,
    {
        proof {
            assert(v@.take(i + 1).drop_last() =~= v@.take(i as int));
        }
        let c = copy_block(&v[i]);
        let ghost prev = out@;
        out.push(c);
        proof {
            assert(out@.drop_last() =~= prev);
        }
        i += 1;
    }
    proof {
        assert(v@.take(v.len() as int) =~= v@);
    }
    out
}

fn copy_items(v: &Vec<ListItem>) -> (r: Vec<ListItem>)
    ensures
        items_view(r@) == items_view(v@),
    decreases v,
{
    let mut out: Vec<ListItem> = Vec::new();
    let mut i: usize = 0;
    while i < v.len()
        invariant
            i <= v.len(),
            items_view(out@) == items_view(v@.take(i as int)),
        decreases v.len() - i,
    {
        proof {
            assert(v@.take(i + 1).drop_last() =~= v@.take(i as int));
        }
        let c = ListItem { task: v[i].task, blocks: copy_blocks(&v[i].blocks) };
        let ghost prev = out@;
        out.push(c);
        proof {
            assert(out@.drop_last() =~= prev);
        }
        i += 1;
    }
    proof {
        assert(v@.take(v.len() as int) =~= v@);
    }
    out
}

fn copy_cells(v: &Vec<Vec<Inline>>) -> (r: Vec<Vec<Inline>>)
    ensures
        cells_view(r@) == cells_view(v@),
{
    let mut out: Vec<Vec<Inline>> = Vec::new();
    let mut i: usize = 0;
    while i < v.len()
        invariant
            i <= v.len(),
            cells_view(out@) == cells_view(v@.take(i as int)),
        decreases v.len() - i,
    {
        proof {
            assert(v@.take(i + 1).drop_last() =~= v@.take(i as int));
        }
        let c = copy_inlines(&v[i]);
        let ghost prev = out@;
        out.push(c);
        proof {
            assert(out@.drop_last() =~= prev);
        }
        i += 1;
    }
    proof {
        assert(v@.take(v.len() as int) =~= v@);
    }
    out
}

fn copy_rows(v: &Vec<Vec<Vec<Inline>>>) -> (r: Vec<Vec<Vec<Inline>>>)
    ensures
        rows_view(r@) == rows_view(v@),
{
    let mut out: Vec<Vec<Vec<Inline>>> = Vec::new();
    let mut i: usize = 0;
    while i < v.len()
        invariant
            i <= v.len(),
            rows_view(out@) == rows_view(v@.take(i as int)),
        decreases v.len() - i,
    {
        proof {
            assert(v@.take(i + 1).drop_last() =~= v@.take(i as int));
        }
        let c = copy_cells(&v[i]);
        let ghost prev = out@;
        out.push(c);
        proof {
            assert(out@.drop_last() =~= prev);
        }
        i += 1;
    }
    proof {
        assert(v@.take(v.len() as int) =~= v@);
    }
    out
}

/// A deep copy of a footnote.
pub fn copy_footnote(f: &Footnote) -> (r: Footnote)
    ensures
        footnote_view(r) == footnote_view(*f),
{
    Footnote { label: f.label.clone(), blocks: copy_blocks(&f.blocks) }
}

/// A deep copy of an inline element.
pub fn copy_inline(x: &Inline) -> (r: Inline)
    ensures
        inline_view(r) == inline_view(*x),
    decreases x,
{
    match x {
        Inline::Text(t) => Inline::Text(t.clone()),
        Inline::Code(t) => Inline::Code(t.clone()),
        Inline::SoftBreak => Inline::SoftBreak,
        Inline::HardBreak => Inline::HardBreak,
        Inline::Emphasis(c) => Inline::Emphasis(copy_inlines(c)),
        Inline::Strong(c) => Inline::Strong(copy_inlines(c)),
        Inline::Strikethrough(c) => Inline::Strikethrough(copy_inlines(c)),
        Inline::Link { text, destination, title, index } => Inline::Link {
            text: copy_inlines(text),
            destination: destination.clone(),
            title: title.clone(),
            index: *index,
        },
    }
}

/// A deep copy of a sequence of inline elements.
pub fn copy_inlines(v: &Vec<Inline>) -> (r: Vec<Inline>)
    ensures
        inlines_view(r@) == inlines_view(v@),
    decreases v,
{
    let mut out: Vec<Inline> = Vec::new();
    let mut i: usize = 0;
    while i < v.len()
        invariant
            i <= v.len(),
            inlines_view(out@) == inlines_view(v@.take(i as int)),
        decreases v.len() - i,
    {
        proof {
            assert(v@.take(i + 1).drop_last() =~= v@.take(i as int));
        }
        let c = copy_inline(&v[i]);
        let ghost prev = out@;
        out.push(c);
        proof {
            assert(out@.drop_last() =~= prev);
        }
        i += 1;
    }
    proof {
        assert(v@.take(v.len() as int) =~= v@);
    }
    out
}

impl Clone for Inline {
    fn clone(&self) -> (r: Self)
        ensures
            inline_view(r) == inline_view(*self),
    {
        copy_inline(self)
    }
}

} // verus!
