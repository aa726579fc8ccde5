//! Styled spans, layout lines, and the wrapping of spans into lines of a
//! given width.

use vstd::prelude::*;

use crate::style::{render_reset, render_style, style_codes, SpanStyle};
use crate::text::{chars_of, repeat_char, repeat_string, string_from_chars};
use crate::text::is_white_space;
use crate::unicode::{display_width, flatten_text, grapheme_clusters, graphemes, text_width};

verus! {

/// A piece of text with its style and the link it belongs to, if any.
#[derive(Debug, Clone)]
pub struct StyledSpan {
    pub text: String,
    pub style: SpanStyle,
    pub link_index: Option<usize>,
}

/// A line of the layout: its spans, its plain text, and the links on it.
#[derive(Debug, Clone)]
pub struct LayoutLine {
    pub spans: Vec<StyledSpan>,
    pub plain_text: String,
    pub link_indices: Vec<usize>,
}

pub struct SpanV {
    pub text: Seq<char>,
    pub style: SpanStyle,
    pub link: Option<usize>,
}

pub struct LineV {
    pub spans: Seq<SpanV>,
    pub plain: Seq<char>,
    pub links: Seq<usize>,
}

impl View for StyledSpan {
    type V = SpanV;

    open spec fn view(&self) -> SpanV {
        SpanV { text: self.text@, style: self.style, link: self.link_index }
    }
}

pub open spec fn spans_view(s: Seq<StyledSpan>) -> Seq<SpanV> {
    s.map_values(|x: StyledSpan| x@)
}

impl View for LayoutLine {
    type V = LineV;

    open spec fn view(&self) -> LineV {
        LineV { spans: spans_view(self.spans@), plain: self.plain_text@, links: self.link_indices@ }
    }
}

pub open spec fn lines_view(s: Seq<LayoutLine>) -> Seq<LineV> {
    s.map_values(|x: LayoutLine| x@)
}

pub open spec fn span(text: Seq<char>, style: SpanStyle, link: Option<usize>) -> SpanV {
    SpanV { text, style, link }
}

/// A span of text.
pub fn styled(text: String, style: SpanStyle, link_index: Option<usize>) -> (r: StyledSpan)
    ensures
        r@ == span(text@, style, link_index),
{
    StyledSpan { text, style, link_index }
}

pub open spec fn blank_line() -> LineV {
    LineV { spans: seq![], plain: seq![], links: seq![] }
}

/// A line with nothing on it.
pub fn empty_line() -> (r: LayoutLine)
    ensures
        r@ == blank_line(),
{
    let r = LayoutLine { spans: Vec::new(), plain_text: String::new(), link_indices: Vec::new() };
    assert(spans_view(r.spans@) =~= seq![]);
    r
}

pub proof fn lemma_spans_view_push(s: Seq<StyledSpan>, x: StyledSpan)
    ensures
        spans_view(s.push(x)) == spans_view(s).push(x@),
{
    assert(spans_view(s.push(x)) =~= spans_view(s).push(x@));
}

pub proof fn lemma_lines_view_push(s: Seq<LayoutLine>, x: LayoutLine)
    ensures
        lines_view(s.push(x)) == lines_view(s).push(x@),
{
    assert(lines_view(s.push(x)) =~= lines_view(s).push(x@));
}

pub proof fn lemma_lines_view_add(a: Seq<LayoutLine>, b: Seq<LayoutLine>)
    ensures
        lines_view(a + b) == lines_view(a) + lines_view(b),
{
    assert(lines_view(a + b) =~= lines_view(a) + lines_view(b));
}

/// A line as ANSI text: for each span its style's escape codes, then its
/// text, then the reset of the plain style (which is empty).
pub open spec fn ansi_text(spans: Seq<SpanV>) -> Seq<char>
    decreases spans.len(),
{
    if spans.len() == 0 {
        Seq::empty()
    } else {
        ansi_text(spans.drop_last()) + style_codes(spans.last().style) + spans.last().text
    }
}

impl LayoutLine {
    /// The line as ANSI text (see `ansi_text`).
    pub fn to_ansi_string(&self) -> (r: String)
        ensures
            r@ == ansi_text(spans_view(self.spans@)),
    {
        let mut out = render_reset(SpanStyle::plain());
        let ghost sv = spans_view(self.spans@);
        let mut i: usize = 0;
        while i < self.spans.len()
            invariant
                i <= self.spans.len(),
                sv == spans_view(self.spans@),
                out@ == ansi_text(sv.take(i as int)),
            decreases self.spans.len() - i,
        {
            let x = &self.spans[i];
            out.append(render_style(x.style).as_str());
            out.append(x.text.as_str());
            out.append(render_reset(SpanStyle::plain()).as_str());
            proof {
                assert(sv.take(i + 1).drop_last() =~= sv.take(i as int));
                assert(out@ =~= ansi_text(sv.take(i + 1)));
            }
            i += 1;
        }
        assert(sv.take(self.spans.len() as int) =~= sv);
        out
    }
}

// ---------------------------------------------------------------------
// Sorted, duplicate-free link indices
// ---------------------------------------------------------------------

/// Inserts a value into a strictly increasing sequence, keeping it so.
pub open spec fn insert_sorted(s: Seq<usize>, x: usize) -> Seq<usize>
    decreases s.len(),
{
    if s.len() == 0 {
        seq![x]
    } else if s.last() == x {
        s
    } else if s.last() < x {
        s.push(x)
    } else {
        insert_sorted(s.drop_last(), x).push(s.last())
    }
}

/// The values of a sequence in increasing order, each once.
pub open spec fn sorted_distinct(s: Seq<usize>) -> Seq<usize>
    decreases s.len(),
{
    if s.len() == 0 {
        Seq::empty()
    } else {
        insert_sorted(sorted_distinct(s.drop_last()), s.last())
    }
}

pub open spec fn strictly_increasing(s: Seq<usize>) -> bool {
    forall|i: int, j: int| 0 <= i < j < s.len() ==> s[i] < s[j]
}

proof fn lemma_insert_sorted(s: Seq<usize>, x: usize)
    requires
        strictly_increasing(s),
    ensures
        strictly_increasing(insert_sorted(s, x)),
        forall|y: usize| #[trigger] insert_sorted(s, x).contains(y) <==> (s.contains(y) || y == x),
    decreases s.len(),
{
    if s.len() == 0 {
        assert(insert_sorted(s, x) =~= seq![x]);
        assert forall|y: usize| #[trigger] insert_sorted(s, x).contains(y) <==> (s.contains(y)
            || y == x) by {
            if y == x {
                assert(seq![x][0] == y);
            }
        }
    } else if s.last() == x {
        assert(s[s.len() - 1] == x);
        assert(s.contains(x));
    } else if s.last() < x {
        let r = s.push(x);
        assert forall|y: usize| r.contains(y) <==> (s.contains(y) || y == x) by {
            if r.contains(y) {
                let k = choose|k: int| 0 <= k < r.len() && r[k] == y;
                if k < s.len() {
                    assert(s[k] == y);
                }
            }
            if s.contains(y) {
                let k = choose|k: int| 0 <= k < s.len() && s[k] == y;
                assert(r[k] == y);
            }
            if y == x {
                assert(r[s.len() as int] == y);
            }
        }
    } else {
        let p = s.drop_last();
        assert(strictly_increasing(p));
        lemma_insert_sorted(p, x);
        let q = insert_sorted(p, x);
        let r = q.push(s.last());
        assert forall|y: usize| q.contains(y) implies y < s.last() by {
            if p.contains(y) {
                let k = choose|k: int| 0 <= k < p.len() && p[k] == y;
                assert(s[k] < s[s.len() - 1]);
            }
        }
        assert forall|i: int, j: int| 0 <= i < j < r.len() implies r[i] < r[j] by {
            if j == r.len() - 1 {
                assert(q.contains(r[i]));
            }
        }
        assert forall|y: usize| r.contains(y) <==> (s.contains(y) || y == x) by {
            if r.contains(y) {
                let k = choose|k: int| 0 <= k < r.len() && r[k] == y;
                if k < q.len() {
                    assert(q.contains(y));
                    if p.contains(y) {
                        let m = choose|m: int| 0 <= m < p.len() && p[m] == y;
                        assert(s[m] == y);
                    }
                } else {
                    assert(s[s.len() - 1] == y);
                }
            }
            if s.contains(y) {
                let k = choose|k: int| 0 <= k < s.len() && s[k] == y;
                if k < p.len() {
                    assert(p[k] == y);
                    assert(p.contains(y));
                    assert(q.contains(y));
                    let m = choose|m: int| 0 <= m < q.len() && q[m] == y;
                    assert(r[m] == y);
                } else {
                    assert(r[r.len() - 1] == y);
                }
            }
            if y == x {
                assert(q.contains(y));
                let m = choose|m: int| 0 <= m < q.len() && q[m] == y;
                assert(r[m] == y);
            }
        }
    }
}

/// What `dedup_indices` returns is strictly increasing and holds exactly the
/// values of its input.
pub proof fn lemma_sorted_distinct(s: Seq<usize>)
    ensures
        strictly_increasing(sorted_distinct(s)),
        forall|y: usize| #[trigger] sorted_distinct(s).contains(y) <==> s.contains(y),
    decreases s.len(),
{
    if s.len() == 0 {
    } else {
        let p = s.drop_last();
        lemma_sorted_distinct(p);
        lemma_insert_sorted(sorted_distinct(p), s.last());
        assert forall|y: usize| sorted_distinct(s).contains(y) <==> s.contains(y) by {
            if p.contains(y) {
                let k = choose|k: int| 0 <= k < p.len() && p[k] == y;
                assert(s[k] == y);
            }
            if s.contains(y) {
                let k = choose|k: int| 0 <= k < s.len() && s[k] == y;
                if k < p.len() {
                    assert(p[k] == y);
                }
            }
        }
    }
}

fn insert_sorted_exec(v: &mut Vec<usize>, x: usize)
    ensures
        final(v)@ == insert_sorted(old(v)@, x),
    decreases old(v)@.len(),
{
    if v.len() == 0 {
        v.push(x);
        assert(v@ =~= seq![x]);
        return;
    }
    let last = v[v.len() - 1];
    if last == x {
        return;
    }
    if last < x {
        v.push(x);
        return;
    }
    let popped = v.pop();
    insert_sorted_exec(v, x);
    v.push(last);
}

/// The link indices of a line, sorted and without repetition.
pub fn dedup_indices(indices: Vec<usize>) -> (r: Vec<usize>)
    ensures
        r@ == sorted_distinct(indices@),
        strictly_increasing(r@),
        forall|y: usize| r@.contains(y) <==> indices@.contains(y),
{
    let mut out: Vec<usize> = Vec::new();
    let mut i: usize = 0;
    while i < indices.len()
        invariant
            i <= indices.len(),
            out@ == sorted_distinct(indices@.take(i as int)),
        decreases indices.len() - i,
    {
        assert(indices@.take(i + 1).drop_last() =~= indices@.take(i as int));
        insert_sorted_exec(&mut out, indices[i]);
        i += 1;
    }
    assert(indices@.take(indices.len() as int) =~= indices@);
    proof {
        lemma_sorted_distinct(indices@);
    }
    out
}

// ---------------------------------------------------------------------
// Splitting text at newlines
// ---------------------------------------------------------------------

/// The runs of a text between newlines, each newline a part of its own,
/// without empty parts.
pub open spec fn newline_runs(s: Seq<char>) -> Seq<Seq<char>>
    decreases s.len(),
{
    if s.len() == 0 {
        Seq::empty()
    } else {
        let prev = newline_runs(s.drop_last());
        let c = s.last();
        if c == '\n' {
            prev.push(seq!['\n'])
        } else if prev.len() > 0 && prev.last() != seq!['\n'] {
            prev.update(prev.len() - 1, prev.last().push(c))
        } else {
            prev.push(seq![c])
        }
    }
}

/// The parts of a text for wrapping: its newline runs, or one empty part for
/// the empty text.
pub open spec fn split_newlines(s: Seq<char>) -> Seq<Seq<char>> {
    if s.len() == 0 {
        seq![Seq::empty()]
    } else {
        newline_runs(s)
    }
}

pub open spec fn with_run(parts: Seq<Seq<char>>, run: Seq<char>) -> Seq<Seq<char>> {
    if run.len() > 0 {
        parts.push(run)
    } else {
        parts
    }
}

/// Splits a text into the runs between newlines and the newlines themselves.
pub fn split_preserving_newlines(input: &str) -> (r: Vec<String>)
    ensures
        r@.map_values(|p: String| p@) == split_newlines(input@),
{
    let cs = chars_of(input);
    let mut parts: Vec<String> = Vec::new();
    let mut run: Vec<char> = Vec::new();
    let mut i: usize = 0;
    while i < cs.len()
        invariant
            cs@ == input@,
            i <= cs.len(),
            newline_runs(cs@.take(i as int)) == with_run(
                parts@.map_values(|p: String| p@),
                run@,
            ),
            parts@.len() > 0 ==> parts@.last()@ == seq!['\n'],
            forall|k: int| 0 <= k < run@.len() ==> #[trigger] run@[k] != '\n',
            forall|k: int| 0 <= k < parts@.len() ==> #[trigger] parts@[k]@.len() > 0,
        decreases cs.len() - i,
    {
        let c = cs[i];
        let ghost pv = parts@.map_values(|p: String| p@);
        let ghost before = newline_runs(cs@.take(i as int));
        assert(cs@.take(i + 1).drop_last() =~= cs@.take(i as int));
        if c == '\n' {
            if run.len() > 0 {
                let s = string_from_chars(&run);
                parts.push(s);
                run = Vec::new();
            }
            let mut nl = String::new();
            nl.push('\n');
            parts.push(nl);
            proof {
                assert(parts@.map_values(|p: String| p@) =~= before.push(seq!['\n']));
            }
        } else {
            let ghost old_run = run@;
            run.push(c);
            proof {
                assert(run@.drop_last() =~= old_run);
                if run@.len() > 1 {
                    assert(old_run[0] != '\n');
                    assert(old_run != seq!['\n']);
                    assert(before =~= pv.push(run@.drop_last()));
                    assert(with_run(pv, run@) =~= before.update(
                        before.len() - 1,
                        before.last().push(c),
                    ));
                } else {
                    assert(run@ =~= seq![c]);
                    assert(before =~= pv);
                    if pv.len() > 0 {
                        assert(pv.last() == parts@.last()@);
                    }
                }
            }
        }
        i += 1;
    }
    assert(cs@.take(cs.len() as int) =~= cs@);
    if run.len() > 0 {
        let s = string_from_chars(&run);
        parts.push(s);
    }
    if parts.len() == 0 {
        parts.push(String::new());
    }
    proof {
        assert(parts@.map_values(|p: String| p@) =~= split_newlines(input@));
    }
    parts
}

// ---------------------------------------------------------------------
// Wrapping
// ---------------------------------------------------------------------

pub open spec fn sat_add(a: nat, b: nat) -> nat {
    if a + b > usize::MAX {
        usize::MAX as nat
    } else {
        a + b
    }
}

pub open spec fn max_nat(a: nat, b: nat) -> nat {
    if a >= b {
        a
    } else {
        b
    }
}

/// The line being filled and the lines already finished.  Beside each
/// finished line stands how the wrap measured it: its width (the display
/// width of its prefix plus those of its graphemes, saturating), its limit,
/// and how many of its graphemes have a width; `wide` counts those of the
/// line being filled.
pub struct WrapState {
    pub lines: Seq<LineV>,
    pub spans: Seq<SpanV>,
    pub plain: Seq<char>,
    pub width: nat,
    pub links: Seq<usize>,
    pub limit: nat,
    pub measured: Seq<(nat, nat, nat)>,
    pub wide: nat,
}

/// The prefix of every continuation line, its width, and the width limit of
/// such lines.
pub struct WrapPrefix {
    pub next: Seq<char>,
    pub next_width: nat,
    pub next_limit: nat,
}

pub open spec fn finish(ws: WrapState) -> LineV {
    LineV { spans: ws.spans, plain: ws.plain, links: sorted_distinct(ws.links) }
}

/// Ends the current line and starts a continuation line.
pub open spec fn new_line(ws: WrapState, p: WrapPrefix) -> WrapState {
    WrapState {
        lines: ws.lines.push(finish(ws)),
        spans: seq![span(p.next, SpanStyle::spec_plain(), None)],
        plain: p.next,
        width: p.next_width,
        links: seq![],
        limit: p.next_limit,
        measured: ws.measured.push((ws.width, ws.limit, ws.wide)),
        wide: 0,
    }
}

/// Adds one grapheme: it goes to a new line when it would pass the limit of a
/// line that already holds something, and it extends the last span when that
/// span has the same style and link.
pub open spec fn add_grapheme(
    ws: WrapState,
    p: WrapPrefix,
    g: Seq<char>,
    style: SpanStyle,
    link: Option<usize>,
) -> WrapState {
    let gw = display_width(g);
    let w = if ws.width + gw > ws.limit && ws.width > 0 {
        new_line(ws, p)
    } else {
        ws
    };
    let n = w.spans.len();
    let spans = if n > 0 && w.spans[n - 1].style == style && w.spans[n - 1].link == link {
        w.spans.update(n - 1, span(w.spans[n - 1].text + g, style, link))
    } else {
        w.spans.push(span(g, style, link))
    };
    WrapState {
        lines: w.lines,
        spans,
        plain: w.plain + g,
        width: sat_add(w.width, gw),
        links: match link {
            Some(l) => w.links.push(l),
            None => w.links,
        },
        limit: w.limit,
        measured: w.measured,
        wide: if gw > 0 {
            w.wide + 1
        } else {
            w.wide
        },
    }
}

pub open spec fn add_graphemes(
    ws: WrapState,
    p: WrapPrefix,
    gs: Seq<Seq<char>>,
    style: SpanStyle,
    link: Option<usize>,
) -> WrapState
    decreases gs.len(),
{
    if gs.len() == 0 {
        ws
    } else {
        add_grapheme(add_graphemes(ws, p, gs.drop_last(), style, link), p, gs.last(), style, link)
    }
}

pub open spec fn add_part(
    ws: WrapState,
    p: WrapPrefix,
    part: Seq<char>,
    style: SpanStyle,
    link: Option<usize>,
) -> WrapState {
    if part == seq!['\n'] {
        new_line(ws, p)
    } else {
        add_graphemes(ws, p, grapheme_clusters(part), style, link)
    }
}

pub open spec fn add_parts(
    ws: WrapState,
    p: WrapPrefix,
    parts: Seq<Seq<char>>,
    style: SpanStyle,
    link: Option<usize>,
) -> WrapState
    decreases parts.len(),
{
    if parts.len() == 0 {
        ws
    } else {
        add_part(add_parts(ws, p, parts.drop_last(), style, link), p, parts.last(), style, link)
    }
}

pub open spec fn add_spans(ws: WrapState, p: WrapPrefix, spans: Seq<SpanV>) -> WrapState
    decreases spans.len(),
{
    if spans.len() == 0 {
        ws
    } else {
        let s = spans.last();
        add_parts(add_spans(ws, p, spans.drop_last()), p, split_newlines(s.text), s.style, s.link)
    }
}

/// The texts of spans one after another.
pub open spec fn span_texts(s: Seq<SpanV>) -> Seq<char>
    decreases s.len(),
{
    if s.len() == 0 {
        Seq::empty()
    } else {
        span_texts(s.drop_last()) + s.last().text
    }
}

/// The link indices of spans, in order, one per span that has a link.
pub open spec fn span_links(s: Seq<SpanV>) -> Seq<usize>
    decreases s.len(),
{
    if s.len() == 0 {
        Seq::empty()
    } else {
        match s.last().link {
            Some(l) => span_links(s.drop_last()).push(l),
            None => span_links(s.drop_last()),
        }
    }
}

/// A line agrees with its spans: its plain text is their texts one after
/// another, and its link indices are strictly increasing and are exactly the
/// links of its spans.
pub open spec fn line_consistent(l: LineV) -> bool {
    &&& l.plain == span_texts(l.spans)
    &&& strictly_increasing(l.links)
    &&& forall|y: usize| #[trigger] l.links.contains(y) <==> span_links(l.spans).contains(y)
}

/// Every line of a sequence agrees with its spans.
pub open spec fn lines_consistent(lines: Seq<LineV>) -> bool {
    forall|i: int| 0 <= i < lines.len() ==> line_consistent(#[trigger] lines[i])
}

/// The line being filled agrees with its spans, as do the finished lines;
/// the links collected so far are those of the spans.
pub open spec fn state_consistent(ws: WrapState) -> bool {
    &&& lines_consistent(ws.lines)
    &&& ws.plain == span_texts(ws.spans)
    &&& forall|y: usize| #[trigger] ws.links.contains(y) <==> span_links(ws.spans).contains(y)
}

pub(crate) proof fn lemma_single_span(x: SpanV)
    ensures
        span_texts(seq![x]) == x.text,
        x.link is None ==> span_links(seq![x]) == Seq::<usize>::empty(),
{
    let sp = seq![x];
    assert(sp.drop_last() =~= Seq::<SpanV>::empty());
    assert(sp.last() == x);
    assert(span_texts(sp.drop_last()) == Seq::<char>::empty());
    assert(span_links(sp.drop_last()) == Seq::<usize>::empty());
    assert(Seq::<char>::empty() + x.text =~= x.text);
}

proof fn lemma_finish_consistent(ws: WrapState)
    requires
        state_consistent(ws),
    ensures
        line_consistent(finish(ws)),
{
    lemma_sorted_distinct(ws.links);
}

proof fn lemma_new_line_consistent(ws: WrapState, p: WrapPrefix)
    requires
        state_consistent(ws),
    ensures
        state_consistent(new_line(ws, p)),
{
    lemma_finish_consistent(ws);
    let w = new_line(ws, p);
    assert forall|i: int| 0 <= i < w.lines.len() implies line_consistent(#[trigger] w.lines[i]) by {
        if i < ws.lines.len() {
            assert(w.lines[i] == ws.lines[i]);
        }
    }
    lemma_single_span(span(p.next, SpanStyle::spec_plain(), None));
}

proof fn lemma_add_grapheme_consistent(
    ws: WrapState,
    p: WrapPrefix,
    g: Seq<char>,
    style: SpanStyle,
    link: Option<usize>,
)
    requires
        state_consistent(ws),
    ensures
        state_consistent(add_grapheme(ws, p, g, style, link)),
{
    let gw = display_width(g);
    let w = if ws.width + gw > ws.limit && ws.width > 0 {
        new_line(ws, p)
    } else {
        ws
    };
    if ws.width + gw > ws.limit && ws.width > 0 {
        lemma_new_line_consistent(ws, p);
    }
    let r = add_grapheme(ws, p, g, style, link);
    let n = w.spans.len();
    if n > 0 && w.spans[n - 1].style == style && w.spans[n - 1].link == link {
        let last = span(w.spans[n - 1].text + g, style, link);
        let sp = w.spans.update(n - 1, last);
        assert(sp.drop_last() =~= w.spans.drop_last());
        assert(span_texts(sp) =~= span_texts(w.spans) + g);
        assert(span_links(sp) == span_links(w.spans));
        match link {
            Some(l) => {
                assert(span_links(w.spans).contains(l)) by {
                    assert(span_links(w.spans).last() == l);
                }
                assert forall|y: usize| #[trigger] r.links.contains(y) <==> span_links(
                    r.spans,
                ).contains(y) by {
                    assert(r.links == w.links.push(l));
                    if w.links.push(l).contains(y) && y != l {
                        let k = choose|k: int| 0 <= k < w.links.push(l).len() && w.links.push(l)[k] == y;
                        assert(w.links[k] == y);
                    }
                    if w.links.contains(y) {
                        let k = choose|k: int| 0 <= k < w.links.len() && w.links[k] == y;
                        assert(w.links.push(l)[k] == y);
                    }
                    assert(w.links.push(l)[w.links.len() as int] == l);
                }
            },
            None => {},
        }
    } else {
        let sp = w.spans.push(span(g, style, link));
        assert(sp.drop_last() =~= w.spans);
        assert(span_texts(sp) =~= span_texts(w.spans) + g);
        match link {
            Some(l) => {
                assert forall|y: usize| #[trigger] r.links.contains(y) <==> span_links(
                    r.spans,
                ).contains(y) by {
                    let a = w.links;
                    let b = span_links(w.spans);
                    assert(span_links(sp) == b.push(l));
                    if a.push(l).contains(y) && y != l {
                        let k = choose|k: int| 0 <= k < a.push(l).len() && a.push(l)[k] == y;
                        assert(a[k] == y);
                    }
                    if a.contains(y) {
                        let k = choose|k: int| 0 <= k < a.len() && a[k] == y;
                        assert(a.push(l)[k] == y);
                    }
                    if b.push(l).contains(y) && y != l {
                        let k = choose|k: int| 0 <= k < b.push(l).len() && b.push(l)[k] == y;
                        assert(b[k] == y);
                    }
                    if b.contains(y) {
                        let k = choose|k: int| 0 <= k < b.len() && b[k] == y;
                        assert(b.push(l)[k] == y);
                    }
                    assert(a.push(l)[a.len() as int] == l);
                    assert(b.push(l)[b.len() as int] == l);
                }
            },
            None => {
                assert(span_links(sp) == span_links(w.spans));
            },
        }
    }
}

proof fn lemma_add_graphemes_consistent(
    ws: WrapState,
    p: WrapPrefix,
    gs: Seq<Seq<char>>,
    style: SpanStyle,
    link: Option<usize>,
)
    requires
        state_consistent(ws),
    ensures
        state_consistent(add_graphemes(ws, p, gs, style, link)),
    decreases gs.len(),
{
    if gs.len() > 0 {
        lemma_add_graphemes_consistent(ws, p, gs.drop_last(), style, link);
        lemma_add_grapheme_consistent(
            add_graphemes(ws, p, gs.drop_last(), style, link),
            p,
            gs.last(),
            style,
            link,
        );
    }
}

proof fn lemma_add_parts_consistent(
    ws: WrapState,
    p: WrapPrefix,
    parts: Seq<Seq<char>>,
    style: SpanStyle,
    link: Option<usize>,
)
    requires
        state_consistent(ws),
    ensures
        state_consistent(add_parts(ws, p, parts, style, link)),
    decreases parts.len(),
{
    if parts.len() > 0 {
        lemma_add_parts_consistent(ws, p, parts.drop_last(), style, link);
        let w = add_parts(ws, p, parts.drop_last(), style, link);
        if parts.last() == seq!['\n'] {
            lemma_new_line_consistent(w, p);
        } else {
            lemma_add_graphemes_consistent(w, p, grapheme_clusters(parts.last()), style, link);
        }
    }
}

proof fn lemma_add_spans_consistent(ws: WrapState, p: WrapPrefix, spans: Seq<SpanV>)
    requires
        state_consistent(ws),
    ensures
        state_consistent(add_spans(ws, p, spans)),
    decreases spans.len(),
{
    if spans.len() > 0 {
        lemma_add_spans_consistent(ws, p, spans.drop_last());
        let s = spans.last();
        lemma_add_parts_consistent(
            add_spans(ws, p, spans.drop_last()),
            p,
            split_newlines(s.text),
            s.style,
            s.link,
        );
    }
}

/// Every wrapped line agrees with its spans: its plain text is their texts,
/// and its link indices are strictly increasing and are exactly their links.
pub proof fn lemma_wrap_consistent(
    spans: Seq<SpanV>,
    indent: nat,
    first_prefix: Seq<char>,
    continuation_prefix: Seq<char>,
    width: nat,
)
    ensures
        lines_consistent(wrap(spans, indent, first_prefix, continuation_prefix, width)),
{
    let ind = repeat_char(' ', indent);
    let fp = ind + first_prefix;
    let cp = ind + continuation_prefix;
    let fw = display_width(fp);
    let cw = display_width(cp);
    let p = WrapPrefix { next: cp, next_width: cw, next_limit: max_nat(width, sat_add(cw, 1)) };
    let sp = seq![span(fp, SpanStyle::spec_plain(), None)];
    let init = WrapState {
        lines: seq![],
        spans: sp,
        plain: fp,
        width: fw,
        links: seq![],
        limit: max_nat(width, sat_add(fw, 1)),
        measured: seq![],
        wide: 0,
    };
    lemma_single_span(span(fp, SpanStyle::spec_plain(), None));
    lemma_add_spans_consistent(init, p, spans);
    let end = add_spans(init, p, spans);
    if end.spans.len() > 1 || has_visible(end.plain) {
        lemma_new_line_consistent(end, p);
    }
    let lines = wrap(spans, indent, first_prefix, continuation_prefix, width);
    if end.lines.len() == 0 && !(end.spans.len() > 1 || has_visible(end.plain)) {
        assert(line_consistent(lines[0]));
    }
}

/// The characters of a text other than newlines.
pub open spec fn without_newlines(s: Seq<char>) -> Seq<char>
    decreases s.len(),
{
    if s.len() == 0 {
        s
    } else if s.last() == '\n' {
        without_newlines(s.drop_last())
    } else {
        without_newlines(s.drop_last()).push(s.last())
    }
}

/// The text that the parts of a split text stand for: newlines count for
/// nothing.
pub open spec fn parts_text(parts: Seq<Seq<char>>) -> Seq<char>
    decreases parts.len(),
{
    if parts.len() == 0 {
        Seq::empty()
    } else if parts.last() == seq!['\n'] {
        parts_text(parts.drop_last())
    } else {
        parts_text(parts.drop_last()) + parts.last()
    }
}

proof fn lemma_without_newlines_add(a: Seq<char>, b: Seq<char>)
    ensures
        without_newlines(a + b) == without_newlines(a) + without_newlines(b),
    decreases b.len(),
{
    if b.len() == 0 {
        assert(a + b =~= a);
        assert(without_newlines(a) + without_newlines(b) =~= without_newlines(a));
    } else {
        assert((a + b).drop_last() =~= a + b.drop_last());
        lemma_without_newlines_add(a, b.drop_last());
        if b.last() != '\n' {
            assert(without_newlines(a) + without_newlines(b.drop_last()).push(b.last())
                =~= (without_newlines(a) + without_newlines(b.drop_last())).push(b.last()));
        }
    }
}

proof fn lemma_newline_runs_text(s: Seq<char>)
    ensures
        parts_text(newline_runs(s)) == without_newlines(s),
        newline_runs(s).len() > 0 ==> newline_runs(s).last().len() > 0,
    decreases s.len(),
{
    if s.len() > 0 {
        lemma_newline_runs_text(s.drop_last());
        let prev = newline_runs(s.drop_last());
        let c = s.last();
        if c == '\n' {
            assert(newline_runs(s).drop_last() =~= prev);
        } else if prev.len() > 0 && prev.last() != seq!['\n'] {
            let parts = newline_runs(s);
            assert(parts.drop_last() =~= prev.drop_last());
            assert(parts.last() == prev.last().push(c));
            assert(parts.last() != seq!['\n']) by {
                if parts.last() == seq!['\n'] {
                    assert(parts.last()[parts.last().len() - 1] == c);
                }
            }
            assert(parts_text(prev) == parts_text(prev.drop_last()) + prev.last());
            assert(parts_text(prev.drop_last()) + prev.last().push(c) =~= (parts_text(
                prev.drop_last(),
            ) + prev.last()).push(c));
        } else {
            assert(newline_runs(s).drop_last() =~= prev);
            assert(seq![c] != seq!['\n']) by {
                assert(seq![c][0] == c);
            }
            assert(parts_text(prev) + seq![c] =~= parts_text(prev).push(c));
        }
    }
}

/// The split of a text stands for its characters other than newlines.
proof fn lemma_split_newlines_text(s: Seq<char>)
    ensures
        parts_text(split_newlines(s)) == without_newlines(s),
{
    lemma_newline_runs_text(s);
    if s.len() == 0 {
        assert(split_newlines(s).drop_last() =~= Seq::<Seq<char>>::empty());
        assert(Seq::<char>::empty() != seq!['\n']) by {
            assert(seq!['\n'].len() == 1);
        }
    }
}

/// The text of wrapped lines without their prefixes: the first line's prefix
/// is `first` characters long, the others' `rest`.
pub open spec fn lines_text(lines: Seq<LineV>, first: nat, rest: nat) -> Seq<char>
    decreases lines.len(),
{
    if lines.len() == 0 {
        Seq::empty()
    } else {
        let n: nat = if lines.len() == 1 {
            first
        } else {
            rest
        };
        lines_text(lines.drop_last(), first, rest) + lines.last().plain.skip(n as int)
    }
}

/// The prefix of line `i`: `fp` on the first line, `cp` on the others.
pub open spec fn line_prefix(i: int, fp: Seq<char>, cp: Seq<char>) -> Seq<char> {
    if i == 0 {
        fp
    } else {
        cp
    }
}

/// Every line's plain text starts with its prefix.
pub open spec fn lines_prefixed(lines: Seq<LineV>, fp: Seq<char>, cp: Seq<char>) -> bool {
    forall|i: int|
        0 <= i < lines.len() ==> (#[trigger] lines[i]).plain.len() >= line_prefix(i, fp, cp).len()
            && lines[i].plain.take(line_prefix(i, fp, cp).len() as int) == line_prefix(i, fp, cp)
}

/// The finished lines and the line being filled all start with their
/// prefixes.
pub open spec fn state_prefixed(ws: WrapState, fp: Seq<char>, cp: Seq<char>) -> bool {
    let cur = line_prefix(ws.lines.len() as int, fp, cp);
    &&& lines_prefixed(ws.lines, fp, cp)
    &&& ws.plain.len() >= cur.len()
    &&& ws.plain.take(cur.len() as int) == cur
}

/// The text wrapped so far, without prefixes.
pub open spec fn state_text(ws: WrapState, fp: Seq<char>, cp: Seq<char>) -> Seq<char> {
    let cur = line_prefix(ws.lines.len() as int, fp, cp);
    lines_text(ws.lines, fp.len(), cp.len()) + ws.plain.skip(cur.len() as int)
}

proof fn lemma_new_line_text(ws: WrapState, p: WrapPrefix, fp: Seq<char>, cp: Seq<char>)
    requires
        state_prefixed(ws, fp, cp),
        p.next == cp,
    ensures
        state_prefixed(new_line(ws, p), fp, cp),
        state_text(new_line(ws, p), fp, cp) == state_text(ws, fp, cp),
{
    let w = new_line(ws, p);
    assert(w.lines.drop_last() =~= ws.lines);
    assert forall|i: int| 0 <= i < w.lines.len() implies (#[trigger] w.lines[i]).plain.len()
        >= line_prefix(i, fp, cp).len() && w.lines[i].plain.take(
        line_prefix(i, fp, cp).len() as int,
    ) == line_prefix(i, fp, cp) by {
        if i < ws.lines.len() {
            assert(w.lines[i] == ws.lines[i]);
        }
    }
    assert(cp.skip(cp.len() as int) =~= Seq::<char>::empty());
    assert(cp.take(cp.len() as int) =~= cp);
    assert(state_text(w, fp, cp) =~= state_text(ws, fp, cp));
}

proof fn lemma_add_grapheme_text(
    ws: WrapState,
    p: WrapPrefix,
    g: Seq<char>,
    style: SpanStyle,
    link: Option<usize>,
    fp: Seq<char>,
    cp: Seq<char>,
)
    requires
        state_prefixed(ws, fp, cp),
        p.next == cp,
    ensures
        state_prefixed(add_grapheme(ws, p, g, style, link), fp, cp),
        state_text(add_grapheme(ws, p, g, style, link), fp, cp) == state_text(ws, fp, cp) + g,
{
    let gw = display_width(g);
    let w = if ws.width + gw > ws.limit && ws.width > 0 {
        new_line(ws, p)
    } else {
        ws
    };
    if ws.width + gw > ws.limit && ws.width > 0 {
        lemma_new_line_text(ws, p, fp, cp);
    }
    let r = add_grapheme(ws, p, g, style, link);
    let cur = line_prefix(w.lines.len() as int, fp, cp);
    assert(r.lines == w.lines);
    assert(r.plain == w.plain + g);
    assert((w.plain + g).take(cur.len() as int) =~= w.plain.take(cur.len() as int));
    assert((w.plain + g).skip(cur.len() as int) =~= w.plain.skip(cur.len() as int) + g);
    assert(state_text(r, fp, cp) =~= state_text(w, fp, cp) + g);
}

proof fn lemma_add_graphemes_text(
    ws: WrapState,
    p: WrapPrefix,
    gs: Seq<Seq<char>>,
    style: SpanStyle,
    link: Option<usize>,
    fp: Seq<char>,
    cp: Seq<char>,
)
    requires
        state_prefixed(ws, fp, cp),
        p.next == cp,
    ensures
        state_prefixed(add_graphemes(ws, p, gs, style, link), fp, cp),
        state_text(add_graphemes(ws, p, gs, style, link), fp, cp) == state_text(ws, fp, cp)
            + flatten_text(gs),
    decreases gs.len(),
{
    if gs.len() > 0 {
        lemma_add_graphemes_text(ws, p, gs.drop_last(), style, link, fp, cp);
        let w = add_graphemes(ws, p, gs.drop_last(), style, link);
        lemma_add_grapheme_text(w, p, gs.last(), style, link, fp, cp);
        assert(state_text(ws, fp, cp) + flatten_text(gs.drop_last()) + gs.last() =~= state_text(
            ws,
            fp,
            cp,
        ) + flatten_text(gs));
    } else {
        assert(state_text(ws, fp, cp) + flatten_text(gs) =~= state_text(ws, fp, cp));
    }
}

/// Whether a text holds a character other than whitespace.
pub open spec fn has_visible(s: Seq<char>) -> bool {
    exists|i: int| 0 <= i < s.len() && !is_white_space(#[trigger] s[i])
}

/// The lines that `spans` wrap into: the first line starts with `indent`
/// spaces and `first_prefix`, the others with `indent` spaces and
/// `continuation_prefix`; a line holds at most `width` columns (or one more
/// than its prefix) unless a single grapheme is wider; newlines in the text
/// end lines.  There is always at least one line.
pub open spec fn wrap(
    spans: Seq<SpanV>,
    indent: nat,
    first_prefix: Seq<char>,
    continuation_prefix: Seq<char>,
    width: nat,
) -> Seq<LineV> {
    let ind = repeat_char(' ', indent);
    let fp = ind + first_prefix;
    let cp = ind + continuation_prefix;
    let fw = display_width(fp);
    let cw = display_width(cp);
    let p = WrapPrefix { next: cp, next_width: cw, next_limit: max_nat(width, sat_add(cw, 1)) };
    let init = WrapState {
        lines: seq![],
        spans: seq![span(fp, SpanStyle::spec_plain(), None)],
        plain: fp,
        width: fw,
        links: seq![],
        limit: max_nat(width, sat_add(fw, 1)),
        measured: seq![],
        wide: 0,
    };
    let end = add_spans(init, p, spans);
    let lines = if end.spans.len() > 1 || has_visible(end.plain) {
        end.lines.push(finish(end))
    } else {
        end.lines
    };
    if lines.len() == 0 {
        seq![
            LineV {
                spans: seq![span(fp, SpanStyle::spec_plain(), None)],
                plain: fp,
                links: seq![],
            },
        ]
    } else {
        lines
    }
}

struct WrapBuf {
    lines: Vec<LayoutLine>,
    spans: Vec<StyledSpan>,
    plain: String,
    width: usize,
    links: Vec<usize>,
    limit: usize,
    measured: Ghost<Seq<(nat, nat, nat)>>,
    wide: Ghost<nat>,
}

struct PrefixExec {
    next: String,
    next_width: usize,
    next_limit: usize,
}

impl WrapBuf {
    spec fn view(&self) -> WrapState {
        WrapState {
            lines: lines_view(self.lines@),
            spans: spans_view(self.spans@),
            plain: self.plain@,
            width: self.width as nat,
            links: self.links@,
            limit: self.limit as nat,
            measured: self.measured@,
            wide: self.wide@,
        }
    }

    fn finish_line(&mut self, p: &PrefixExec)
        ensures
            final(self).view() == new_line(old(self).view(), p.view()),
    {
        let mut spans = vec![styled(p.next.clone(), SpanStyle::plain(), None)];
        std::mem::swap(&mut self.spans, &mut spans);
        let mut plain = p.next.clone();
        std::mem::swap(&mut self.plain, &mut plain);
        let mut links: Vec<usize> = Vec::new();
        std::mem::swap(&mut self.links, &mut links);
        let line = LayoutLine { spans, plain_text: plain, link_indices: dedup_indices(links) };
        let ghost prev = self.lines@;
        self.measured = Ghost(self.measured@.push((self.width as nat, self.limit as nat, self.wide@)));
        self.wide = Ghost(0nat);
        self.lines.push(line);
        self.width = p.next_width;
        self.limit = p.next_limit;
        proof {
            lemma_lines_view_push(prev, line);
            assert(spans_view(self.spans@) =~= seq![
                span(p.next@, SpanStyle::spec_plain(), None),
            ]);
        }
    }

    fn add_grapheme(&mut self, p: &PrefixExec, g: &String, style: SpanStyle, link: Option<usize>)
        ensures
            final(self).view() == add_grapheme(old(self).view(), p.view(), g@, style, link),
    {
        let gw = text_width(g.as_str());
        if self.width > 0 && (self.width > self.limit || gw > self.limit - self.width) {
            self.finish_line(p);
        }
        let ghost w = self.view();
        if gw > 0 {
            self.wide = Ghost(self.wide@ + 1);
        }
        self.width = self.width.saturating_add(gw);
        self.plain.append(g.as_str());
        match link {
            Some(l) => self.links.push(l),
            None => {},
        }
        let ghost before = self.spans@;
        if self.spans.len() > 0 {
            let mut last = self.spans.pop().unwrap();
            if last.style == style && last.link_index == link {
                last.text.append(g.as_str());
                self.spans.push(last);
                proof {
                    assert(spans_view(self.spans@) =~= w.spans.update(
                        w.spans.len() - 1,
                        span(w.spans[w.spans.len() - 1].text + g@, style, link),
                    ));
                }
            } else {
                self.spans.push(last);
                self.spans.push(styled(g.clone(), style, link));
                proof {
                    assert(self.spans@.drop_last() =~= before);
                    assert(spans_view(self.spans@) =~= w.spans.push(span(g@, style, link)));
                }
            }
        } else {
            self.spans.push(styled(g.clone(), style, link));
            proof {
                assert(spans_view(self.spans@) =~= w.spans.push(span(g@, style, link)));
            }
        }
    }
}

impl PrefixExec {
    spec fn view(&self) -> WrapPrefix {
        WrapPrefix {
            next: self.next@,
            next_width: self.next_width as nat,
            next_limit: self.next_limit as nat,
        }
    }
}

/// Whether a text holds a character other than whitespace (see `has_visible`).
pub fn has_visible_text(s: &String) -> (r: bool)
    ensures
        r == has_visible(s@),
{
    let cs = chars_of(s.as_str());
    let mut i: usize = 0;
    while i < cs.len()
        invariant
            cs@ == s@,
            i <= cs.len(),
            forall|j: int| 0 <= j < i ==> is_white_space(#[trigger] cs@[j]),
        decreases cs.len() - i,
    {
        if !crate::text::white_space(cs[i]) {
            return true;
        }
        i += 1;
    }
    false
}

/// Wraps styled spans into lines (see `wrap`).  Every line starts with its
/// prefix, and no text is lost: after their prefixes, the lines hold the
/// spans' text without its newlines, but for whitespace at the very end.
pub fn wrap_spans(
    spans: Vec<StyledSpan>,
    indent: usize,
    first_prefix: &str,
    continuation_prefix: &str,
    width: usize,
) -> (r: Vec<LayoutLine>)
    ensures
        lines_view(r@) == wrap(
            spans_view(spans@),
            indent as nat,
            first_prefix@,
            continuation_prefix@,
            width as nat,
        ),
        ({
            let fp = repeat_char(' ', indent as nat) + first_prefix@;
            let cp = repeat_char(' ', indent as nat) + continuation_prefix@;
            let lines = lines_view(r@);
            &&& lines_prefixed(lines, fp, cp)
            &&& exists|tail: Seq<char>|
                lines_text(lines, fp.len(), cp.len()) + tail == without_newlines(
                    span_texts(spans_view(spans@)),
                ) && !has_visible(tail)
        }),
{
    let mut first_full = repeat_string(' ', indent);
    first_full.append(first_prefix);
    let mut cont_full = repeat_string(' ', indent);
    cont_full.append(continuation_prefix);
    let first_width = text_width(first_full.as_str());
    let cont_width = text_width(cont_full.as_str());
    let limit = if width >= first_width.saturating_add(1) {
        width
    } else {
        first_width.saturating_add(1)
    };
    let cont_limit = if width >= cont_width.saturating_add(1) {
        width
    } else {
        cont_width.saturating_add(1)
    };
    let p = PrefixExec { next: cont_full, next_width: cont_width, next_limit: cont_limit };
    let mut buf = WrapBuf {
        lines: Vec::new(),
        spans: vec![styled(first_full.clone(), SpanStyle::plain(), None)],
        plain: first_full.clone(),
        width: first_width,
        links: Vec::new(),
        limit,
        measured: Ghost(Seq::empty()),
        wide: Ghost(0nat),
    };
    let ghost pv = p.view();
    let ghost sv = spans_view(spans@);
    let ghost init = buf.view();
    let ghost fpv = first_full@;
    let ghost cpv = p.next@;
    proof {
        assert(lines_view(buf.lines@) =~= seq![]);
        assert(spans_view(buf.spans@) =~= seq![
            span(first_full@, SpanStyle::spec_plain(), None),
        ]);
        assert(fpv.take(fpv.len() as int) =~= fpv);
        assert(fpv.skip(fpv.len() as int) =~= Seq::<char>::empty());
        assert(span_texts(sv.take(0)) =~= Seq::<char>::empty());
        assert(state_text(init, fpv, cpv) =~= Seq::<char>::empty());
    }
    let mut i: usize = 0;
    while i < spans.len()
        invariant
            i <= spans.len(),
            sv == spans_view(spans@),
            pv == p.view(),
            buf.view() == add_spans(init, pv, sv.take(i as int)),
            pv.next == cpv,
            state_prefixed(buf.view(), fpv, cpv),
            state_text(buf.view(), fpv, cpv) == without_newlines(span_texts(sv.take(i as int))),
        decreases spans.len() - i,
    {
        let text = &spans[i].text;
        let style = spans[i].style;
        let link = spans[i].link_index;
        let parts = split_preserving_newlines(text.as_str());
        let ghost base = buf.view();
        let ghost partsv = parts@.map_values(|x: String| x@);
        let mut j: usize = 0;
        while j < parts.len()
            invariant
                j <= parts.len(),
                pv == p.view(),
                partsv == parts@.map_values(|x: String| x@),
                buf.view() == add_parts(base, pv, partsv.take(j as int), style, link),
                pv.next == cpv,
                state_prefixed(buf.view(), fpv, cpv),
                state_text(buf.view(), fpv, cpv) == state_text(base, fpv, cpv) + parts_text(
                    partsv.take(j as int),
                ),
            decreases parts.len() - j,
        {
            let part = &parts[j];
            let ghost before_part = buf.view();
            proof {
                reveal_strlit("\n");
                assert("\n"@ =~= seq!['\n']);
            }
            if crate::theme::str_is(part.as_str(), "\n") {
                buf.finish_line(&p);
                proof {
                    lemma_new_line_text(before_part, pv, fpv, cpv);
                }
            } else {
                let gs = graphemes(part.as_str());
                let ghost gsv = gs@.map_values(|x: String| x@);
                let mut k: usize = 0;
                while k < gs.len()
                    invariant
                        k <= gs.len(),
                        pv == p.view(),
                        gsv == gs@.map_values(|x: String| x@),
                        buf.view() == add_graphemes(
                            before_part,
                            pv,
                            gsv.take(k as int),
                            style,
                            link,
                        ),
                        pv.next == cpv,
                        state_prefixed(before_part, fpv, cpv),
                    decreases gs.len() - k,
                {
                    buf.add_grapheme(&p, &gs[k], style, link);
                    proof {
                        assert(gsv.take(k + 1).drop_last() =~= gsv.take(k as int));
                    }
                    k += 1;
                }
                proof {
                    assert(gsv.take(gs.len() as int) =~= gsv);
                    lemma_add_graphemes_text(before_part, pv, gsv, style, link, fpv, cpv);
                    assert(part@ != seq!['\n']);
                }
            }
            proof {
                assert(partsv.take(j + 1).drop_last() =~= partsv.take(j as int));
                assert(partsv[j as int] == part@);
                assert(buf.view() == add_part(before_part, pv, part@, style, link));
                assert(state_text(base, fpv, cpv) + parts_text(partsv.take(j + 1)) =~= state_text(
                    before_part,
                    fpv,
                    cpv,
                ) + (if part@ == seq!['\n'] {
                    Seq::<char>::empty()
                } else {
                    part@
                }));
            }
            j += 1;
        }
        proof {
            assert(partsv.take(parts.len() as int) =~= partsv);
            assert(sv.take(i + 1).drop_last() =~= sv.take(i as int));
            lemma_split_newlines_text(text@);
            lemma_without_newlines_add(span_texts(sv.take(i as int)), sv[i as int].text);
            assert(sv[i as int].text == text@);
        }
        i += 1;
    }
    proof {
        assert(sv.take(spans.len() as int) =~= sv);
    }
    let ghost end = buf.view();
    let ghost tail: Seq<char> = Seq::empty();
    if buf.spans.len() > 1 || has_visible_text(&buf.plain) {
        buf.finish_line(&p);
        proof {
            lemma_new_line_text(end, pv, fpv, cpv);
            assert(cpv.skip(cpv.len() as int) =~= Seq::<char>::empty());
            assert(lines_text(lines_view(buf.lines@), fpv.len(), cpv.len()) + tail =~= state_text(
                end,
                fpv,
                cpv,
            ));
        }
    } else {
        proof {
            let cur = line_prefix(end.lines.len() as int, fpv, cpv);
            tail = end.plain.skip(cur.len() as int);
            assert(!has_visible(tail)) by {
                if has_visible(tail) {
                    let q = choose|q: int| 0 <= q < tail.len() && !is_white_space(#[trigger] tail[q]);
                    assert(tail[q] == end.plain[q + cur.len()]);
                }
            }
        }
    }
    let mut lines = buf.lines;
    if lines.len() == 0 {
        let line = LayoutLine {
            spans: vec![styled(first_full.clone(), SpanStyle::plain(), None)],
            plain_text: first_full,
            link_indices: Vec::new(),
        };
        lines.push(line);
        proof {
            assert(spans_view(line.spans@) =~= seq![
                span(first_full@, SpanStyle::spec_plain(), None),
            ]);
            assert(lines_view(lines@) =~= seq![line@]);
            assert(fpv.take(fpv.len() as int) =~= fpv);
            assert(lines_view(lines@).drop_last() =~= Seq::<LineV>::empty());
            assert(fpv.skip(fpv.len() as int) =~= Seq::<char>::empty());
            assert(lines_text(lines_view(lines@), fpv.len(), cpv.len()) =~= Seq::<char>::empty());
        }
    }
    proof {
        assert(fpv == repeat_char(' ', indent as nat) + first_prefix@);
        assert(cpv == repeat_char(' ', indent as nat) + continuation_prefix@);
        assert(lines_prefixed(lines_view(lines@), fpv, cpv));
        assert(lines_text(lines_view(lines@), fpv.len(), cpv.len()) + tail == without_newlines(
            span_texts(sv),
        ));
        assert(!has_visible(tail));
    }
    lines
}

// ---------------------------------------------------------------------
// How wide the wrapped lines are
// ---------------------------------------------------------------------

/// A measured line is within its limit, or at most one of its graphemes has
/// a width.
pub open spec fn measure_ok(m: (nat, nat, nat)) -> bool {
    m.0 <= m.1 || m.2 <= 1
}

/// What the wrap keeps of its measures: each finished line and the line
/// being filled are within their limits or hold at most one grapheme with a
/// width; a line with such a grapheme has a width; the first line's limit
/// is `first` and every later one's the continuation limit; and one measure
/// stands beside each finished line.
pub open spec fn measures_ok(ws: WrapState, first: nat, p: WrapPrefix) -> bool {
    &&& ws.measured.len() == ws.lines.len()
    &&& forall|i: int| 0 <= i < ws.measured.len() ==> measure_ok(#[trigger] ws.measured[i])
    &&& forall|i: int|
        0 <= i < ws.measured.len() ==> (#[trigger] ws.measured[i]).1 == if i == 0 {
            first
        } else {
            p.next_limit
        }
    &&& measure_ok((ws.width, ws.limit, ws.wide))
    &&& ws.wide > 0 ==> ws.width > 0
    &&& ws.limit == if ws.measured.len() == 0 {
        first
    } else {
        p.next_limit
    }
}

proof fn lemma_new_line_measures(ws: WrapState, first: nat, p: WrapPrefix)
    requires
        measures_ok(ws, first, p),
    ensures
        measures_ok(new_line(ws, p), first, p),
{
    let w = new_line(ws, p);
    assert forall|i: int| 0 <= i < w.measured.len() implies measure_ok(#[trigger] w.measured[i])
        && w.measured[i].1 == (if i == 0 { first } else { p.next_limit }) by {
        if i < ws.measured.len() {
            assert(w.measured[i] == ws.measured[i]);
        }
    }
}

proof fn lemma_add_grapheme_measures(
    ws: WrapState,
    first: nat,
    p: WrapPrefix,
    g: Seq<char>,
    style: SpanStyle,
    link: Option<usize>,
)
    requires
        measures_ok(ws, first, p),
    ensures
        measures_ok(add_grapheme(ws, p, g, style, link), first, p),
{
    let gw = display_width(g);
    if ws.width + gw > ws.limit && ws.width > 0 {
        lemma_new_line_measures(ws, first, p);
    }
}

proof fn lemma_add_graphemes_measures(
    ws: WrapState,
    first: nat,
    p: WrapPrefix,
    gs: Seq<Seq<char>>,
    style: SpanStyle,
    link: Option<usize>,
)
    requires
        measures_ok(ws, first, p),
    ensures
        measures_ok(add_graphemes(ws, p, gs, style, link), first, p),
    decreases gs.len(),
{
    if gs.len() > 0 {
        lemma_add_graphemes_measures(ws, first, p, gs.drop_last(), style, link);
        lemma_add_grapheme_measures(
            add_graphemes(ws, p, gs.drop_last(), style, link),
            first,
            p,
            gs.last(),
            style,
            link,
        );
    }
}

proof fn lemma_add_parts_measures(
    ws: WrapState,
    first: nat,
    p: WrapPrefix,
    parts: Seq<Seq<char>>,
    style: SpanStyle,
    link: Option<usize>,
)
    requires
        measures_ok(ws, first, p),
    ensures
        measures_ok(add_parts(ws, p, parts, style, link), first, p),
    decreases parts.len(),
{
    if parts.len() > 0 {
        lemma_add_parts_measures(ws, first, p, parts.drop_last(), style, link);
        let w = add_parts(ws, p, parts.drop_last(), style, link);
        if parts.last() == seq!['\n'] {
            lemma_new_line_measures(w, first, p);
        } else {
            lemma_add_graphemes_measures(w, first, p, grapheme_clusters(parts.last()), style, link);
        }
    }
}

proof fn lemma_add_spans_measures(ws: WrapState, first: nat, p: WrapPrefix, spans: Seq<SpanV>)
    requires
        measures_ok(ws, first, p),
    ensures
        measures_ok(add_spans(ws, p, spans), first, p),
    decreases spans.len(),
{
    if spans.len() > 0 {
        lemma_add_spans_measures(ws, first, p, spans.drop_last());
        let s = spans.last();
        lemma_add_parts_measures(
            add_spans(ws, p, spans.drop_last()),
            first,
            p,
            split_newlines(s.text),
            s.style,
            s.link,
        );
    }
}

/// How the wrap measures each of its lines, in order: the line's width (the
/// display width of its prefix plus the display widths of its graphemes,
/// saturating at `usize::MAX`), its limit, and how many of its graphemes
/// have a width.
pub open spec fn wrap_measures(
    spans: Seq<SpanV>,
    indent: nat,
    first_prefix: Seq<char>,
    continuation_prefix: Seq<char>,
    width: nat,
) -> Seq<(nat, nat, nat)> {
    let ind = repeat_char(' ', indent);
    let fp = ind + first_prefix;
    let cp = ind + continuation_prefix;
    let fw = display_width(fp);
    let cw = display_width(cp);
    let p = WrapPrefix { next: cp, next_width: cw, next_limit: max_nat(width, sat_add(cw, 1)) };
    let init = WrapState {
        lines: seq![],
        spans: seq![span(fp, SpanStyle::spec_plain(), None)],
        plain: fp,
        width: fw,
        links: seq![],
        limit: max_nat(width, sat_add(fw, 1)),
        measured: seq![],
        wide: 0,
    };
    let end = add_spans(init, p, spans);
    let measured = if end.spans.len() > 1 || has_visible(end.plain) {
        end.measured.push((end.width, end.limit, end.wide))
    } else {
        end.measured
    };
    if measured.len() == 0 {
        seq![(fw, init.limit, 0nat)]
    } else {
        measured
    }
}

/// No wrapped line is wider than its limit, unless at most one of its
/// graphemes has a width (a grapheme wider than the room on a line of its
/// own), as the wrap measures the lines.  The limit is the given width, or
/// one column more than the line's prefix where the prefix alone reaches
/// the width: the first line's prefix is the indent and the first prefix,
/// every later line's the indent and the continuation prefix.
pub proof fn lemma_wrap_width(
    spans: Seq<SpanV>,
    indent: nat,
    first_prefix: Seq<char>,
    continuation_prefix: Seq<char>,
    width: nat,
)
    ensures
        ({
            let ms = wrap_measures(spans, indent, first_prefix, continuation_prefix, width);
            let fw = display_width(repeat_char(' ', indent) + first_prefix);
            let cw = display_width(repeat_char(' ', indent) + continuation_prefix);
            &&& ms.len() == wrap(spans, indent, first_prefix, continuation_prefix, width).len()
            &&& forall|i: int| 0 <= i < ms.len() ==> measure_ok(#[trigger] ms[i])
            &&& forall|i: int|
                0 <= i < ms.len() ==> (#[trigger] ms[i]).1 == if i == 0 {
                    max_nat(width, sat_add(fw, 1))
                } else {
                    max_nat(width, sat_add(cw, 1))
                }
        }),
{
    let ind = repeat_char(' ', indent);
    let fp = ind + first_prefix;
    let cp = ind + continuation_prefix;
    let fw = display_width(fp);
    let cw = display_width(cp);
    let first = max_nat(width, sat_add(fw, 1));
    let p = WrapPrefix { next: cp, next_width: cw, next_limit: max_nat(width, sat_add(cw, 1)) };
    let init = WrapState {
        lines: seq![],
        spans: seq![span(fp, SpanStyle::spec_plain(), None)],
        plain: fp,
        width: fw,
        links: seq![],
        limit: first,
        measured: seq![],
        wide: 0,
    };
    lemma_add_spans_measures(init, first, p, spans);
    let end = add_spans(init, p, spans);
    if end.spans.len() > 1 || has_visible(end.plain) {
        lemma_new_line_measures(end, first, p);
    }
    let ms = wrap_measures(spans, indent, first_prefix, continuation_prefix, width);
    assert forall|i: int| 0 <= i < ms.len() implies measure_ok(#[trigger] ms[i]) && ms[i].1 == (
    if i == 0 {
        first
    } else {
        p.next_limit
    }) by {
        if end.spans.len() > 1 || has_visible(end.plain) {
            let w = new_line(end, p);
            assert(ms[i] == w.measured[i]);
        } else if end.measured.len() > 0 {
            assert(ms[i] == end.measured[i]);
        }
    }
}

/// Wrapping always gives at least one line, even for no text at all.
pub proof fn lemma_wrap_nonempty(
    spans: Seq<SpanV>,
    indent: nat,
    first_prefix: Seq<char>,
    continuation_prefix: Seq<char>,
    width: nat,
)
    ensures
        wrap(spans, indent, first_prefix, continuation_prefix, width).len() >= 1,
{
}

} // verus!
