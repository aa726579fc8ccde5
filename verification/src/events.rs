//! The Markdown event stream, as plain values.
//!
//! pulldown-cmark turns the source text into a flat stream of events (start of
//! a tag, end of a tag, text, breaks, ...).  The parser of this crate builds the
//! document tree from that stream; this module hands the stream over as
//! `MdEvent` values, each field read from pulldown-cmark's own event.

use vstd::prelude::*;
use pulldown_cmark::{CodeBlockKind, Event, Options, Parser, Tag, TagEnd};

verus! {

#[verifier::external_type_specification]
#[verifier::external_body]
pub struct ExEvent<'a>(Event<'a>);

/// The variant of an event.
#[derive(Debug, Clone, Copy, PartialEq, Eq, Structural)]
pub enum EventKind {
    Start,
    End,
    Text,
    Code,
    InlineMath,
    DisplayMath,
    Html,
    InlineHtml,
    FootnoteReference,
    SoftBreak,
    HardBreak,
    Rule,
    TaskListMarker,
}

/// The tag that a start or end event opens or closes; `Other` for the tags
/// this crate does not distinguish and for events that carry no tag.
#[derive(Debug, Clone, Copy, PartialEq, Eq, Structural)]
pub enum TagKind {
    Paragraph,
    Heading,
    BlockQuote,
    CodeBlock,
    HtmlBlock,
    List,
    Item,
    FootnoteDefinition,
    Table,
    TableHead,
    TableRow,
    TableCell,
    Emphasis,
    Strong,
    Strikethrough,
    Link,
    Image,
    Other,
}

/// One event of the stream.
///
/// `level` is the heading level (1 to 6) of a heading tag, else 0;
/// `list_start` is the start number of an ordered list's start tag;
/// `fenced` tells a fenced code block's start tag;
/// `text` is the text of a text-like event, the info string of a fenced code
/// block, the label of a footnote definition, or the destination of a link or
/// image; `title` is the title of a link or image; `checked` is the state of a
/// task list marker.
#[derive(Debug)]
pub struct MdEvent {
    pub kind: EventKind,
    pub tag: TagKind,
    pub level: u8,
    pub list_start: Option<u64>,
    pub fenced: bool,
    pub text: String,
    pub title: String,
    pub checked: bool,
}

/// The view of an event: its strings as character sequences.
pub struct EventV {
    pub kind: EventKind,
    pub tag: TagKind,
    pub level: u8,
    pub list_start: Option<u64>,
    pub fenced: bool,
    pub text: Seq<char>,
    pub title: Seq<char>,
    pub checked: bool,
}

impl View for MdEvent {
    type V = EventV;

    open spec fn view(&self) -> EventV {
        EventV {
            kind: self.kind,
            tag: self.tag,
            level: self.level,
            list_start: self.list_start,
            fenced: self.fenced,
            text: self.text@,
            title: self.title@,
            checked: self.checked,
        }
    }
}

pub open spec fn events_view(s: Seq<MdEvent>) -> Seq<EventV> {
    s.map_values(|e: MdEvent| e@)
}

/// The options this viewer hands to pulldown-cmark: tables, footnotes,
/// strikethrough, task lists and GitHub-flavoured blockquote tags.
pub const MARKDOWN_OPTIONS: u32 = 2078;

/// The event stream that pulldown-cmark produces for a source text with the
/// given option bits.
pub uninterp spec fn markdown_events(source: Seq<char>, options: u32) -> Seq<EventV>;

pub open spec fn is_block_tag(t: TagKind) -> bool {
    match t {
        TagKind::Paragraph | TagKind::Heading | TagKind::BlockQuote | TagKind::CodeBlock
        | TagKind::HtmlBlock | TagKind::List | TagKind::Item | TagKind::FootnoteDefinition
        | TagKind::Table => true,
        _ => false,
    }
}

pub open spec fn block_part(t: TagKind) -> TagKind {
    if is_block_tag(t) { t } else { TagKind::Other }
}

pub open spec fn inline_part(t: TagKind) -> TagKind {
    if is_block_tag(t) { TagKind::Other } else { t }
}

/// pulldown-cmark's events for one source text, kept with that text and
/// the options they were produced with.  Only `event_stream` builds one.
pub struct EventStream<'a> {
    source: &'a str,
    options: u32,
    events: Vec<Event<'a>>,
}

/// Runs `pulldown_cmark::Parser::new_ext` on the source with the option bits
/// and collects its events.  The contract claims that their number is that of
/// the named stream `markdown_events(source, options)`.
#[verifier::external_body]
fn event_stream<'a>(source: &'a str, options: u32) -> (r: EventStream<'a>)
    ensures
        r.source@ == source@,
        r.options == options,
        r.events.len() == markdown_events(source@, options).len(),
{
    let events = Parser::new_ext(source, Options::from_bits_truncate(options)).collect();
    EventStream { source, options, events }
}

/// Reads the variant of pulldown-cmark's `Event` at index `i`.
#[verifier::external_body]
fn event_kind(s: &EventStream, i: usize) -> (r: EventKind)
    requires
        i < s.events.len(),
    ensures
        r == markdown_events(s.source@, s.options)[i as int].kind,
{
    match &s.events[i] {
        Event::Start(_) => EventKind::Start,
        Event::End(_) => EventKind::End,
        Event::Text(_) => EventKind::Text,
        Event::Code(_) => EventKind::Code,
        Event::InlineMath(_) => EventKind::InlineMath,
        Event::DisplayMath(_) => EventKind::DisplayMath,
        Event::Html(_) => EventKind::Html,
        Event::InlineHtml(_) => EventKind::InlineHtml,
        Event::FootnoteReference(_) => EventKind::FootnoteReference,
        Event::SoftBreak => EventKind::SoftBreak,
        Event::HardBreak => EventKind::HardBreak,
        Event::Rule => EventKind::Rule,
        Event::TaskListMarker(_) => EventKind::TaskListMarker,
    }
}

/// Reads the string that pulldown-cmark's `Event` at index `i` carries, or
/// the empty string.
#[verifier::external_body]
fn event_text(s: &EventStream, i: usize) -> (r: String)
    requires
        i < s.events.len(),
    ensures
        r@ == markdown_events(s.source@, s.options)[i as int].text,
{
    match &s.events[i] {
        Event::Text(t) | Event::Code(t) | Event::InlineMath(t) | Event::DisplayMath(t)
        | Event::Html(t) | Event::InlineHtml(t) | Event::FootnoteReference(t)
        | Event::Start(Tag::FootnoteDefinition(t))
        | Event::Start(Tag::CodeBlock(CodeBlockKind::Fenced(t)))
        | Event::Start(Tag::Link { dest_url: t, .. })
        | Event::Start(Tag::Image { dest_url: t, .. }) => t.to_string(),
        _ => String::new(),
    }
}

/// Reads the title of a link or image start event at index `i`, or the empty
/// string.
#[verifier::external_body]
fn event_title(s: &EventStream, i: usize) -> (r: String)
    requires
        i < s.events.len(),
    ensures
        r@ == markdown_events(s.source@, s.options)[i as int].title,
{
    match &s.events[i] {
        Event::Start(Tag::Link { title, .. }) | Event::Start(Tag::Image { title, .. }) => {
            title.to_string()
        },
        _ => String::new(),
    }
}

/// Reads which block-level tag (as `TagEnd::from` maps it) a start or end
/// event at index `i` carries; `Other` for the rest.
#[verifier::external_body]
fn event_block_tag(s: &EventStream, i: usize) -> (r: TagKind)
    requires
        i < s.events.len(),
    ensures
        r == block_part(markdown_events(s.source@, s.options)[i as int].tag),
{
    let end = match &s.events[i] {
        Event::Start(t) => t.to_end(),
        Event::End(e) => *e,
        _ => return TagKind::Other,
    };
    match end {
        TagEnd::Paragraph => TagKind::Paragraph, TagEnd::Heading(_) => TagKind::Heading,
        TagEnd::BlockQuote(_) => TagKind::BlockQuote, TagEnd::CodeBlock => TagKind::CodeBlock,
        TagEnd::HtmlBlock => TagKind::HtmlBlock, TagEnd::List(_) => TagKind::List,
        TagEnd::Item => TagKind::Item, TagEnd::Table => TagKind::Table,
        TagEnd::FootnoteDefinition => TagKind::FootnoteDefinition,
        _ => TagKind::Other,
    }
}

/// Reads which table-part or inline tag (as `TagEnd::from` maps it) a start
/// or end event at index `i` carries; `Other` for the rest.
#[verifier::external_body]
fn event_inline_tag(s: &EventStream, i: usize) -> (r: TagKind)
    requires
        i < s.events.len(),
    ensures
        r == inline_part(markdown_events(s.source@, s.options)[i as int].tag),
{
    let end = match &s.events[i] {
        Event::Start(t) => t.to_end(),
        Event::End(e) => *e,
        _ => return TagKind::Other,
    };
    match end {
        TagEnd::TableHead => TagKind::TableHead, TagEnd::TableRow => TagKind::TableRow,
        TagEnd::TableCell => TagKind::TableCell, TagEnd::Emphasis => TagKind::Emphasis,
        TagEnd::Strong => TagKind::Strong, TagEnd::Strikethrough => TagKind::Strikethrough,
        TagEnd::Link => TagKind::Link, TagEnd::Image => TagKind::Image,
        _ => TagKind::Other,
    }
}

/// Reads the heading level of a heading start or end event at index `i`
/// (pulldown-cmark numbers `HeadingLevel` from 1 to 6), or 0.
#[verifier::external_body]
fn event_level(s: &EventStream, i: usize) -> (r: u8)
    requires
        i < s.events.len(),
    ensures
        r == markdown_events(s.source@, s.options)[i as int].level,
        r <= 6,
{
    match &s.events[i] {
        Event::Start(Tag::Heading { level, .. }) | Event::End(TagEnd::Heading(level)) => {
            *level as u8
        },
        _ => 0,
    }
}

/// Reads the start number of a list start event at index `i`.
#[verifier::external_body]
fn event_list_start(s: &EventStream, i: usize) -> (r: Option<u64>)
    requires
        i < s.events.len(),
    ensures
        r == markdown_events(s.source@, s.options)[i as int].list_start,
{
    match &s.events[i] {
        Event::Start(Tag::List(start)) => *start,
        _ => None,
    }
}

/// Tells whether the event at index `i` starts a fenced code block.
#[verifier::external_body]
fn event_fenced(s: &EventStream, i: usize) -> (r: bool)
    requires
        i < s.events.len(),
    ensures
        r == markdown_events(s.source@, s.options)[i as int].fenced,
{
    matches!(&s.events[i], Event::Start(Tag::CodeBlock(CodeBlockKind::Fenced(_))))
}

/// Reads the state of a task list marker at index `i`, or false.
#[verifier::external_body]
fn event_checked(s: &EventStream, i: usize) -> (r: bool)
    requires
        i < s.events.len(),
    ensures
        r == markdown_events(s.source@, s.options)[i as int].checked,
{
    match &s.events[i] {
        Event::TaskListMarker(checked) => *checked,
        _ => false,
    }
}

/// The events of `markdown_events(source, options)` as `MdEvent` values.
pub fn markdown_event_list(source: &str, options: u32) -> (r: Vec<MdEvent>)
    ensures
        events_view(r@) == markdown_events(source@, options),
{
    let stream = event_stream(source, options);
    let n = stream.events.len();
    let ghost target = markdown_events(source@, options);
    let mut out: Vec<MdEvent> = Vec::new();
    let mut i: usize = 0;
    while i < n
        invariant
            n == stream.events.len(),
            n == target.len(),
            stream.source@ == source@,
            stream.options == options,
            target == markdown_events(source@, options),
            i <= n,
            out@.len() == i,
            forall|j: int| 0 <= j < i ==> #[trigger] out@[j]@ == target[j],
        decreases n - i,
    {
        let block = event_block_tag(&stream, i);
        let tag = if block != TagKind::Other {
            block
        } else {
            event_inline_tag(&stream, i)
        };
        let e = MdEvent {
            kind: event_kind(&stream, i),
            tag,
            level: event_level(&stream, i),
            list_start: event_list_start(&stream, i),
            fenced: event_fenced(&stream, i),
            text: event_text(&stream, i),
            title: event_title(&stream, i),
            checked: event_checked(&stream, i),
        };
        out.push(e);
        i += 1;
    }
    assert(events_view(out@) =~= target);
    out
}

} // verus!
