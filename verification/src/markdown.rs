//! Rendering markdown into preview lines: a state machine over the events a
//! markdown parser reports. Headings, lists and task items, block quotes,
//! code blocks, tables, links and bare web addresses each become lines or
//! spans; [`Md`] is the state as plain values and `md_*` say what each
//! event does to it.
use crate::links::{bare_url_spans, bare_url_spans_of, is_trailing_punct, punct_start, span_view, span_views, split_bare_url_trailing_punctuation, SpanView};
use crate::preview::{
    dwidth, PreviewLine, PreviewSourceRange, PreviewSpan, PreviewTextStyle, TableAlignment,
};
use crate::table::{
    cell_view, row_view, rows_view, table_line_view, CellView, TableCell, TableLineView,
};
use crate::text::{append, chars_of, decimal, find_char_from, lemma_find_char_from, push_str, starts_with, string_of, trim_start};
use vstd::utf8::encode_utf8;
use pulldown_cmark::{Alignment, CodeBlockKind, Event, HeadingLevel, Options, Parser, Tag, TagEnd};
use vstd::prelude::*;

verus! {

// ---------------------------------------------------------------------------
// Lines and state as plain values
// ---------------------------------------------------------------------------
/// A preview line as plain values.
pub enum PLine {
    Quote(usize, Seq<char>, Box<PLine>),
    Heading(u8, Seq<char>),
    Checkbox(Seq<char>, bool, Seq<char>),
    ListItem(Seq<char>, Seq<SpanView>),
    Code(Seq<char>),
    CodeSpans(Seq<SpanView>),
    Styled(Seq<SpanView>),
    Table(TableLineView),
    Boundary(Seq<char>, Seq<char>, Seq<char>),
    Plain(Seq<char>),
}

pub open spec fn pline(l: PreviewLine) -> PLine
    decreases l,
{
    match l {
        PreviewLine::BlockQuote { depth, prefix, line } => PLine::Quote(
            depth,
            prefix@,
            Box::new(pline(*line)),
        ),
        PreviewLine::Heading { level, text } => PLine::Heading(level, text@),
        PreviewLine::Checkbox { marker, checked, text } => PLine::Checkbox(marker@, checked, text@),
        PreviewLine::ListItem { marker, spans } => PLine::ListItem(marker@, span_views(spans@)),
        PreviewLine::Code(t) => PLine::Code(t@),
        PreviewLine::CodeSpans(s) => PLine::CodeSpans(span_views(s@)),
        PreviewLine::Styled(s) => PLine::Styled(span_views(s@)),
        PreviewLine::SourceBoundary { phase, gate, source } => PLine::Boundary(
            phase@,
            gate@,
            source@,
        ),
        PreviewLine::Plain(t) => PLine::Plain(t@),
        _ => PLine::Table(table_line_view(l)),
    }
}

pub open spec fn plines(v: Seq<PreviewLine>) -> Seq<PLine> {
    Seq::new(v.len(), |i: int| pline(v[i]))
}

/// A list item being collected.
#[verifier::ext_equal]
pub struct ItemM {
    pub marker: Seq<char>,
    pub spans: Seq<SpanView>,
    pub checkbox: Option<bool>,
    pub emitted: bool,
}

/// An open block quote: the prefix of its first line and of the others.
#[verifier::ext_equal]
pub struct FrameM {
    pub prefix: Seq<char>,
    pub continuation: Seq<char>,
    pub first_line: bool,
}

/// An open link.
#[verifier::ext_equal]
pub struct LinkM {
    pub destination: Seq<char>,
    pub range: PreviewSourceRange,
    pub local_display: Option<Seq<char>>,
}

/// A table being collected.
#[verifier::ext_equal]
pub struct TableM {
    pub alignments: Seq<TableAlignment>,
    pub rows: Seq<Seq<CellView>>,
    pub pipes: Seq<bool>,
    pub row: Option<Seq<CellView>>,
    pub cell: Option<CellView>,
    pub row_pipe: bool,
}

/// The renderer's state as plain values.
#[verifier::ext_equal]
pub struct Md {
    pub output: Seq<PLine>,
    pub inline: Seq<SpanView>,
    pub heading: Option<(u8, Seq<char>)>,
    pub strong: int,
    pub emphasis: int,
    pub strike: int,
    pub code_block: bool,
    pub language: Option<Seq<char>>,
    pub buffer: Seq<char>,
    pub code_prefix: Seq<char>,
    pub depth: int,
    pub frames: Seq<FrameM>,
    pub link: Option<LinkM>,
    pub ends_local: bool,
    pub pending_break: bool,
    pub lists: Seq<Option<u64>>,
    pub items: Seq<ItemM>,
    pub table: Option<TableM>,
}

pub open spec fn md_initial() -> Md {
    Md {
        output: Seq::empty(),
        inline: Seq::empty(),
        heading: None,
        strong: 0,
        emphasis: 0,
        strike: 0,
        code_block: false,
        language: None,
        buffer: Seq::empty(),
        code_prefix: Seq::empty(),
        depth: 0,
        frames: Seq::empty(),
        link: None,
        ends_local: false,
        pending_break: false,
        lists: Seq::empty(),
        items: Seq::empty(),
        table: None,
    }
}

// ---------------------------------------------------------------------------
// The executable state
// ---------------------------------------------------------------------------
pub struct ItemState {
    pub marker: String,
    pub spans: Vec<PreviewSpan>,
    pub checkbox: Option<bool>,
    pub emitted: bool,
}

pub struct BlockQuoteFrame {
    pub prefix: String,
    pub continuation_prefix: String,
    pub first_line: bool,
}

pub struct LinkState {
    pub destination: String,
    pub source_range: PreviewSourceRange,
    pub local_target_display: Option<String>,
}

pub struct TableParseState {
    pub alignments: Vec<TableAlignment>,
    pub rows: Vec<Vec<TableCell>>,
    pub row_has_pipe_syntax: Vec<bool>,
    pub current_row: Option<Vec<TableCell>>,
    pub current_cell: Option<TableCell>,
    pub current_row_has_pipe_syntax: bool,
}

pub struct MarkdownState {
    pub output: Vec<PreviewLine>,
    pub inline_spans: Vec<PreviewSpan>,
    pub heading: Option<(u8, String)>,
    pub strong: usize,
    pub emphasis: usize,
    pub strikethrough: usize,
    pub code_block: bool,
    pub code_block_language: Option<String>,
    pub code_block_buffer: String,
    pub code_block_prefix: String,
    pub blockquote_depth: usize,
    pub blockquote_frames: Vec<BlockQuoteFrame>,
    pub link: Option<LinkState>,
    pub line_ends_with_local_link_target: bool,
    pub pending_local_link_soft_break: bool,
    pub list_stack: Vec<Option<u64>>,
    pub item_stack: Vec<ItemState>,
    pub table: Option<TableParseState>,
}

pub open spec fn item_m(i: ItemState) -> ItemM {
    ItemM { marker: i.marker@, spans: span_views(i.spans@), checkbox: i.checkbox, emitted: i.emitted }
}

pub open spec fn frame_m(f: BlockQuoteFrame) -> FrameM {
    FrameM { prefix: f.prefix@, continuation: f.continuation_prefix@, first_line: f.first_line }
}

pub open spec fn link_m(l: LinkState) -> LinkM {
    LinkM {
        destination: l.destination@,
        range: l.source_range,
        local_display: match l.local_target_display {
            Some(d) => Some(d@),
            None => None,
        },
    }
}

pub open spec fn table_m(t: TableParseState) -> TableM {
    TableM {
        alignments: t.alignments@,
        rows: rows_view(t.rows@),
        pipes: t.row_has_pipe_syntax@,
        row: match t.current_row {
            Some(r) => Some(row_view(r@)),
            None => None,
        },
        cell: match t.current_cell {
            Some(c) => Some(cell_view(c)),
            None => None,
        },
        row_pipe: t.current_row_has_pipe_syntax,
    }
}

impl MarkdownState {
    pub open spec fn model(&self) -> Md {
        Md {
            output: plines(self.output@),
            inline: span_views(self.inline_spans@),
            heading: match self.heading {
                Some((l, t)) => Some((l, t@)),
                None => None,
            },
            strong: self.strong as int,
            emphasis: self.emphasis as int,
            strike: self.strikethrough as int,
            code_block: self.code_block,
            language: match self.code_block_language {
                Some(l) => Some(l@),
                None => None,
            },
            buffer: self.code_block_buffer@,
            code_prefix: self.code_block_prefix@,
            depth: self.blockquote_depth as int,
            frames: Seq::new(
                self.blockquote_frames@.len(),
                |i: int| frame_m(self.blockquote_frames@[i]),
            ),
            link: match self.link {
                Some(l) => Some(link_m(l)),
                None => None,
            },
            ends_local: self.line_ends_with_local_link_target,
            pending_break: self.pending_local_link_soft_break,
            lists: self.list_stack@,
            items: Seq::new(self.item_stack@.len(), |i: int| item_m(self.item_stack@[i])),
            table: match self.table {
                Some(t) => Some(table_m(t)),
                None => None,
            },
        }
    }

    pub fn new() -> (s: Self)
        ensures
            s.model() == md_initial(),
    {
        let s = MarkdownState {
            output: Vec::new(),
            inline_spans: Vec::new(),
            heading: None,
            strong: 0,
            emphasis: 0,
            strikethrough: 0,
            code_block: false,
            code_block_language: None,
            code_block_buffer: String::new(),
            code_block_prefix: String::new(),
            blockquote_depth: 0,
            blockquote_frames: Vec::new(),
            link: None,
            line_ends_with_local_link_target: false,
            pending_local_link_soft_break: false,
            list_stack: Vec::new(),
            item_stack: Vec::new(),
            table: None,
        };
        assert(s.model() =~= md_initial());
        s
    }
}

// ---------------------------------------------------------------------------
// Output
// ---------------------------------------------------------------------------
/// `s` repeated `n` times.
pub open spec fn repeated(s: Seq<char>, n: nat) -> Seq<char>
    decreases n,
{
    if n == 0 {
        Seq::empty()
    } else {
        repeated(s, (n - 1) as nat) + s
    }
}

pub fn repeat_str(s: &str, n: usize) -> (r: Vec<char>)
    ensures
        r@ == repeated(s@, n as nat),
{
    let mut out: Vec<char> = Vec::new();
    let mut i: usize = 0;
    while i < n
        invariant
            i <= n,
            out@ == repeated(s@, i as nat),
        decreases n - i,
    {
        push_str(&mut out, s);
        i = i + 1;
    }
    out
}

pub open spec fn current_prefix(f: FrameM) -> Seq<char> {
    if f.first_line {
        f.prefix
    } else {
        f.continuation
    }
}

/// A line goes out as it is outside block quotes; inside one it is wrapped
/// with the innermost quote's prefix, and that quote's first line is done.
pub open spec fn md_push_output(m: Md, line: PLine) -> Md {
    if m.depth == 0 {
        Md { output: m.output.push(line), ..m }
    } else {
        let prefix = if m.frames.len() > 0 {
            current_prefix(m.frames.last())
        } else {
            repeated("> "@, m.depth as nat)
        };
        let frames = if m.frames.len() > 0 {
            m.frames.drop_last().push(FrameM { first_line: false, ..m.frames.last() })
        } else {
            m.frames
        };
        Md {
            output: m.output.push(PLine::Quote(m.depth as usize, prefix, Box::new(line))),
            frames,
            ..m
        }
    }
}

pub open spec fn md_push_lines(m: Md, lines: Seq<PLine>) -> Md
    decreases lines.len(),
{
    if lines.len() == 0 {
        m
    } else {
        md_push_output(md_push_lines(m, lines.drop_last()), lines.last())
    }
}

impl MarkdownState {
    fn push_output(&mut self, line: PreviewLine)
        ensures
            final(self).model() == md_push_output(old(self).model(), pline(line)),
    {
        let ghost m = self.model();
        if self.blockquote_depth == 0 {
            self.output.push(line);
            assert(self.model() =~= md_push_output(m, pline(line)));
        } else {
            let prefix: Vec<char> = if self.blockquote_frames.len() > 0 {
                let f = &self.blockquote_frames[self.blockquote_frames.len() - 1];
                if f.first_line {
                    chars_of(f.prefix.as_str())
                } else {
                    chars_of(f.continuation_prefix.as_str())
                }
            } else {
                repeat_str("> ", self.blockquote_depth)
            };
            let ghost lv = pline(line);
            self.output.push(
                PreviewLine::BlockQuote {
                    depth: self.blockquote_depth,
                    prefix: string_of(prefix.as_slice()),
                    line: Box::new(line),
                },
            );
            if self.blockquote_frames.len() > 0 {
                let mut f = self.blockquote_frames.pop().unwrap();
                f.first_line = false;
                self.blockquote_frames.push(f);
            }
            assert(self.model().frames =~= md_push_output(m, lv).frames);
            assert(self.model().output =~= md_push_output(m, lv).output);
            assert(self.model() =~= md_push_output(m, lv));
        }
    }
}

// ---------------------------------------------------------------------------
// Spans
// ---------------------------------------------------------------------------
pub open spec fn sv_text(sp: SpanView) -> Seq<char> {
    match sp {
        SpanView::Plain(t) => t,
        SpanView::Bold(t) => t,
        SpanView::Styled(t, _) => t,
        SpanView::Code(t) => t,
        SpanView::Link(t, _, _, _) => t,
        SpanView::Syntax(t, _) => t,
    }
}

pub open spec fn svs_text(v: Seq<SpanView>) -> Seq<char>
    decreases v.len(),
{
    if v.len() == 0 {
        Seq::empty()
    } else {
        svs_text(v.drop_last()) + sv_text(v.last())
    }
}

pub proof fn lemma_spans_text(v: Seq<PreviewSpan>)
    ensures
        crate::preview::spans_text(v) == svs_text(span_views(v)),
    decreases v.len(),
{
    if v.len() > 0 {
        assert(span_views(v).drop_last() =~= span_views(v.drop_last()));
        lemma_spans_text(v.drop_last());
    }
}

pub fn copy_span(sp: &PreviewSpan) -> (r: PreviewSpan)
    ensures
        span_view(r) == span_view(*sp),
{
    match sp {
        PreviewSpan::Plain(t) => PreviewSpan::Plain(string_of(chars_of(t.as_str()).as_slice())),
        PreviewSpan::Bold(t) => PreviewSpan::Bold(string_of(chars_of(t.as_str()).as_slice())),
        PreviewSpan::StyledText { text, style } => PreviewSpan::StyledText {
            text: string_of(chars_of(text.as_str()).as_slice()),
            style: *style,
        },
        PreviewSpan::Code(t) => PreviewSpan::Code(string_of(chars_of(t.as_str()).as_slice())),
        PreviewSpan::Link { text, target, source_range, local } => PreviewSpan::Link {
            text: string_of(chars_of(text.as_str()).as_slice()),
            target: string_of(chars_of(target.as_str()).as_slice()),
            source_range: *source_range,
            local: *local,
        },
        PreviewSpan::Syntax { text, style } => PreviewSpan::Syntax {
            text: string_of(chars_of(text.as_str()).as_slice()),
            style: *style,
        },
    }
}

pub fn copy_spans(v: &Vec<PreviewSpan>) -> (r: Vec<PreviewSpan>)
    ensures
        span_views(r@) == span_views(v@),
{
    let mut out: Vec<PreviewSpan> = Vec::new();
    let mut i: usize = 0;
    while i < v.len()
        invariant
            i <= v.len(),
            span_views(out@) == span_views(v@).take(i as int),
        decreases v.len() - i,
    {
        let x = copy_span(&v[i]);
        let ghost before = span_views(out@);
        out.push(x);
        assert(span_views(out@) =~= before.push(span_view(x)));
        assert(span_views(out@) =~= span_views(v@).take(i + 1));
        i = i + 1;
    }
    assert(span_views(v@).take(v.len() as int) =~= span_views(v@));
    out
}

/// The style of text at the current emphasis nesting.
pub open spec fn md_style(m: Md) -> PreviewTextStyle {
    PreviewTextStyle {
        bold: m.strong > 0,
        italic: m.emphasis > 0,
        underline: false,
        strikethrough: m.strike > 0,
    }
}

/// Text inside a link is part of it; other text is plain, bold, or styled.
pub open spec fn md_text_span(m: Md, text: Seq<char>) -> SpanView {
    match m.link {
        Some(l) => SpanView::Link(text, l.destination, l.range, false),
        None => {
            let st = md_style(m);
            if !st.bold && !st.italic && !st.strikethrough {
                SpanView::Plain(text)
            } else if st.bold && !st.italic && !st.strikethrough {
                SpanView::Bold(text)
            } else {
                SpanView::Styled(text, st)
            }
        },
    }
}

/// Indentation that lines up with a list item's text.
pub open spec fn cont_prefix(marker: Seq<char>) -> Seq<char> {
    repeated(seq![' '], (marker.len() + 1) as nat)
}

pub fn continuation_prefix(marker: &str) -> (r: String)
    ensures
        r@ == cont_prefix(marker@),
{
    let n = chars_of(marker).len();
    let mut v = repeat_str(" ", n);
    v.push(' ');
    proof {
        reveal_strlit(" ");
        assert(" "@ =~= seq![' ']);
        assert(v@ =~= repeated(seq![' '], n as nat) + seq![' ']);
    }
    string_of(v.as_slice())
}

/// The line a list item shows as: a checkbox with its text, or the marker
/// and its spans.
pub open spec fn item_line(it: ItemM) -> PLine {
    match it.checkbox {
        Some(c) => PLine::Checkbox(it.marker, c, svs_text(it.spans)),
        None => PLine::ListItem(it.marker, it.spans),
    }
}

pub fn item_preview_line(it: &ItemState) -> (r: PreviewLine)
    ensures
        pline(r) == item_line(item_m(*it)),
{
    let marker = string_of(chars_of(it.marker.as_str()).as_slice());
    match it.checkbox {
        Some(c) => {
            proof {
                lemma_spans_text(it.spans@);
            }
            PreviewLine::Checkbox { marker, checked: c, text: crate::preview::span_text(it.spans.as_slice()) }
        },
        None => PreviewLine::ListItem { marker, spans: copy_spans(&it.spans) },
    }
}

pub open spec fn md_set_item(m: Md, it: ItemM) -> Md {
    Md { items: m.items.drop_last().push(it), ..m }
}

pub open spec fn md_push_item_span(m: Md, sp: SpanView) -> Md {
    md_set_item(m, ItemM { spans: m.items.last().spans.push(sp), ..m.items.last() })
}

/// A span after an item's first line: on a continuation line, indented
/// under the item's text when it starts one outside block quotes.
pub open spec fn md_push_continuation(m: Md, sp: SpanView) -> Md {
    let m1 = if m.inline.len() == 0 && m.depth == 0 && m.items.len() > 0 {
        Md { inline: m.inline.push(SpanView::Plain(cont_prefix(m.items.last().marker))), ..m }
    } else {
        m
    };
    Md { inline: m1.inline.push(sp), ..m1 }
}

pub open spec fn in_cell(m: Md) -> bool {
    m.table is Some && m.table.unwrap().cell is Some
}

pub open spec fn cell_push_span(c: CellView, sp: SpanView) -> CellView {
    (
        c.0 + sv_text(sp),
        c.1 + match sp {
            SpanView::Link(t, tg, r, l) => seq![
                (t, dwidth(c.0) as int, dwidth(c.0) + dwidth(t) as int, tg, r, l),
            ],
            _ => Seq::empty(),
        },
    )
}

pub open spec fn md_set_cell(m: Md, c: CellView) -> Md {
    Md { table: Some(TableM { cell: Some(c), ..m.table.unwrap() }), ..m }
}

/// Where a span goes: into the open table cell, the open list item (or
/// its continuation line), or the paragraph being collected.
pub open spec fn md_push_span(m: Md, sp: SpanView) -> Md {
    if in_cell(m) {
        md_set_cell(m, cell_push_span(m.table.unwrap().cell.unwrap(), sp))
    } else if m.items.len() > 0 {
        if m.items.last().emitted {
            md_push_continuation(m, sp)
        } else {
            md_push_item_span(m, sp)
        }
    } else {
        Md { inline: m.inline.push(sp), ..m }
    }
}

/// The open cell can take `extra` more characters and still be measured.
pub open spec fn cell_room(m: Md, extra: int) -> bool {
    in_cell(m) ==> (m.table.unwrap().cell.unwrap().0.len() + extra) * 2 <= usize::MAX
}

impl MarkdownState {
    fn text_span(&self, text: String) -> (r: PreviewSpan)
        ensures
            span_view(r) == md_text_span(self.model(), text@),
    {
        match &self.link {
            Some(l) => PreviewSpan::Link {
                text,
                target: string_of(chars_of(l.destination.as_str()).as_slice()),
                source_range: l.source_range,
                local: false,
            },
            None => {
                let st = PreviewTextStyle {
                    bold: self.strong > 0,
                    italic: self.emphasis > 0,
                    underline: false,
                    strikethrough: self.strikethrough > 0,
                };
                if !st.bold && !st.italic && !st.strikethrough {
                    PreviewSpan::Plain(text)
                } else if st.bold && !st.italic && !st.strikethrough {
                    PreviewSpan::Bold(text)
                } else {
                    PreviewSpan::StyledText { text, style: st }
                }
            },
        }
    }

    fn push_item_span(&mut self, sp: PreviewSpan)
        requires
            old(self).item_stack.len() > 0,
        ensures
            final(self).model() == md_push_item_span(old(self).model(), span_view(sp)),
    {
        let ghost m = self.model();
        let mut it = self.item_stack.pop().unwrap();
        it.spans.push(sp);
        self.item_stack.push(it);
        assert(span_views(it.spans@) =~= m.items.last().spans.push(span_view(sp)));
        assert(self.model().items =~= md_push_item_span(m, span_view(sp)).items);
        assert(self.model() =~= md_push_item_span(m, span_view(sp)));
    }

    fn push_continuation_span(&mut self, sp: PreviewSpan)
        ensures
            final(self).model() == md_push_continuation(old(self).model(), span_view(sp)),
    {
        let ghost m = self.model();
        if self.inline_spans.len() == 0 && self.blockquote_depth == 0 && self.item_stack.len() > 0 {
            let p = continuation_prefix(self.item_stack[self.item_stack.len() - 1].marker.as_str());
            self.inline_spans.push(PreviewSpan::Plain(p));
        }
        self.inline_spans.push(sp);
        assert(self.model().inline =~= md_push_continuation(m, span_view(sp)).inline);
        assert(self.model() =~= md_push_continuation(m, span_view(sp)));
    }

    fn push_span_to_context(&mut self, sp: PreviewSpan)
        requires
            cell_room(old(self).model(), crate::preview::span_text_of(sp).len() as int),
        ensures
            final(self).model() == md_push_span(old(self).model(), span_view(sp)),
    {
        let ghost m = self.model();
        let in_cell = match &self.table {
            Some(t) => t.current_cell.is_some(),
            None => false,
        };
        if in_cell {
            let mut t = self.table.take().unwrap();
            let mut c = t.current_cell.take().unwrap();
            c.push_span(&sp);
            t.current_cell = Some(c);
            self.table = Some(t);
            assert(link_views_of(c) =~= m.table.unwrap().cell.unwrap().1 + match span_view(sp) {
                SpanView::Link(tx, tg, r, l) => seq![
                    (tx, dwidth(m.table.unwrap().cell.unwrap().0) as int, dwidth(m.table.unwrap().cell.unwrap().0) + dwidth(tx) as int, tg, r, l),
                ],
                _ => Seq::empty(),
            });
            assert(self.model() =~= md_push_span(m, span_view(sp)));
            return;
        }
        if self.item_stack.len() > 0 {
            if self.item_stack[self.item_stack.len() - 1].emitted {
                self.push_continuation_span(sp);
            } else {
                self.push_item_span(sp);
            }
        } else {
            self.inline_spans.push(sp);
            assert(self.model() =~= md_push_span(m, span_view(sp)));
        }
    }
}

pub open spec fn link_views_of(c: TableCell) -> Seq<crate::table::LinkView> {
    cell_view(c).1
}

// ---------------------------------------------------------------------------
// Paragraphs and items
// ---------------------------------------------------------------------------
/// The collected paragraph goes out as one line (plain when it is a single
/// plain span), unless an item still waits for its first line.
pub open spec fn md_flush(m: Md) -> Md {
    if m.inline.len() == 0 || (m.items.len() > 0 && !m.items.last().emitted) {
        m
    } else {
        let spans = m.inline;
        let m1 = Md { inline: Seq::empty(), ..m };
        if spans.len() == 1 && spans[0] is Plain {
            md_push_output(m1, PLine::Plain(spans[0]->Plain_0))
        } else {
            md_push_output(m1, PLine::Styled(spans))
        }
    }
}

/// The open item's first line goes out once it has text.
pub open spec fn md_emit_current(m: Md) -> Md {
    if m.items.len() == 0 {
        m
    } else {
        let it = m.items.last();
        if it.emitted || it.spans.len() == 0 {
            m
        } else {
            md_push_output(md_set_item(m, ItemM { emitted: true, ..it }), item_line(it))
        }
    }
}

impl MarkdownState {
    fn flush_inline_spans(&mut self)
        ensures
            final(self).model() == md_flush(old(self).model()),
    {
        let ghost m = self.model();
        if self.inline_spans.len() == 0 || (self.item_stack.len() > 0
            && !self.item_stack[self.item_stack.len() - 1].emitted) {
            return;
        }
        let mut spans: Vec<PreviewSpan> = Vec::new();
        std::mem::swap(&mut spans, &mut self.inline_spans);
        let ghost m1 = self.model();
        assert(m1 =~= Md { inline: Seq::empty(), ..m });
        if spans.len() == 1 {
            match &spans[0] {
                PreviewSpan::Plain(t) => {
                    let line = PreviewLine::Plain(string_of(chars_of(t.as_str()).as_slice()));
                    self.push_output(line);
                    return;
                },
                _ => {},
            }
        }
        self.push_output(PreviewLine::Styled(spans));
    }

    fn emit_current_item_if_needed(&mut self)
        ensures
            final(self).model() == md_emit_current(old(self).model()),
    {
        let ghost m = self.model();
        if self.item_stack.len() == 0 {
            return;
        }
        let k = self.item_stack.len() - 1;
        if self.item_stack[k].emitted || self.item_stack[k].spans.len() == 0 {
            return;
        }
        let line = item_preview_line(&self.item_stack[k]);
        let mut it = self.item_stack.pop().unwrap();
        it.emitted = true;
        self.item_stack.push(it);
        assert(self.model() =~= md_set_item(m, ItemM { emitted: true, ..m.items.last() }));
        self.push_output(line);
    }
}

// ---------------------------------------------------------------------------
// Text
// ---------------------------------------------------------------------------
pub open spec fn suppressing(m: Md) -> bool {
    m.link is Some && m.link.unwrap().local_display is Some
}

/// A soft break held back after a local link target becomes a space before
/// the next text, unless that text starts with `:`.
pub open spec fn md_resolve_pending(m: Md, next: Seq<char>) -> Md {
    if !m.pending_break {
        m
    } else {
        let m1 = Md { pending_break: false, ..m };
        if starts_with(trim_start(next), seq![':']) {
            m1
        } else {
            md_push_span(m1, SpanView::Plain(seq![' ']))
        }
    }
}

/// The spans text would extend: the open item's while it waits for its
/// first line, the paragraph's otherwise.
pub open spec fn target_spans(m: Md) -> Seq<SpanView> {
    if m.items.len() > 0 && !m.items.last().emitted {
        m.items.last().spans
    } else {
        m.inline
    }
}

pub open spec fn md_set_target_spans(m: Md, v: Seq<SpanView>) -> Md {
    if m.items.len() > 0 && !m.items.last().emitted {
        md_set_item(m, ItemM { spans: v, ..m.items.last() })
    } else {
        Md { inline: v, ..m }
    }
}

pub open spec fn is_web_link_span(sp: SpanView) -> bool {
    sp is Link && !sp->Link_3 && (starts_with(sp->Link_1, "https://"@) || starts_with(
        sp->Link_1,
        "http://"@,
    ))
}

/// A word right after a bare web address continues it (the parser splits
/// addresses at some characters).
pub open spec fn extends_bare_url(m: Md, text: Seq<char>) -> bool {
    text.len() > 0 && !crate::links::has_ws(text) && target_spans(m).len() > 0 && is_web_link_span(
        target_spans(m).last(),
    )
}

pub open spec fn md_extend_bare_url(m: Md, text: Seq<char>, start: int) -> Md {
    let v = target_spans(m);
    let k = punct_start(text);
    let suffix = text.take(k);
    let trailing = text.skip(k);
    let last = v.last();
    let v2 = if suffix.len() == 0 {
        v.push(SpanView::Plain(trailing))
    } else {
        let v1 = v.drop_last().push(
            SpanView::Link(
                last->Link_0 + suffix,
                last->Link_1 + suffix,
                PreviewSourceRange {
                    start: last->Link_2.start,
                    end: (start + encode_utf8(suffix).len()) as usize,
                },
                false,
            ),
        );
        if trailing.len() > 0 {
            v1.push(SpanView::Plain(trailing))
        } else {
            v1
        }
    };
    md_set_target_spans(m, v2)
}

pub open spec fn md_push_spans(m: Md, spans: Seq<SpanView>) -> Md
    decreases spans.len(),
{
    if spans.len() == 0 {
        m
    } else {
        md_push_span(md_push_spans(m, spans.drop_last()), spans.last())
    }
}

/// `s` split at every `c` (`str::split`).
pub open spec fn split_pieces(s: Seq<char>, c: char) -> Seq<Seq<char>>
    decreases s.len(),
{
    let k = find_char_from(s, c, 0);
    proof {
        lemma_find_char_from(s, c, 0);
    }
    if k < s.len() {
        seq![s.take(k)] + split_pieces(s.skip(k + 1), c)
    } else {
        seq![s]
    }
}

pub open spec fn code_lines(prefix: Seq<char>, pieces: Seq<Seq<char>>) -> Seq<PLine> {
    Seq::new(pieces.len(), |i: int| PLine::Code(prefix + pieces[i]))
}

/// Text in a code block: kept for highlighting when the block has a
/// language, otherwise one code line per piece between newlines.
pub open spec fn md_push_code_text(m: Md, text: Seq<char>) -> Md {
    if m.language is Some {
        Md { buffer: m.buffer + text, ..m }
    } else {
        md_push_lines(m, code_lines(m.code_prefix, split_pieces(text, '\n')))
    }
}

/// What a piece of text does.
pub open spec fn md_text(m0: Md, text: Seq<char>, start: int) -> Md {
    let m = md_resolve_pending(m0, text);
    let sup = suppressing(m);
    if in_cell(m) {
        if !sup {
            md_set_cell(m, cell_push_span(m.table.unwrap().cell.unwrap(), md_text_span(m, text)))
        } else {
            m
        }
    } else if m.code_block {
        md_push_code_text(m, text)
    } else if m.heading is Some {
        if !sup {
            Md { heading: Some((m.heading.unwrap().0, m.heading.unwrap().1 + text)), ..m }
        } else {
            m
        }
    } else if sup {
        m
    } else if m.link is None && extends_bare_url(m, text) {
        Md { ends_local: false, ..md_extend_bare_url(m, text, start) }
    } else if m.link is None && bare_url_spans_of(text, start) is Some {
        Md { ends_local: false, ..md_push_spans(m, bare_url_spans_of(text, start).unwrap()) }
    } else if m.items.len() > 0 {
        if m.items.last().emitted {
            md_push_continuation(m, md_text_span(m, text))
        } else {
            md_push_item_span(m, md_text_span(m, text))
        }
    } else {
        Md { inline: m.inline.push(md_text_span(m, text)), ends_local: false, ..m }
    }
}

pub proof fn lemma_find_skip(s: Seq<char>, c: char, pos: int, i: int)
    requires
        0 <= pos <= s.len(),
        0 <= i <= s.len() - pos,
    ensures
        find_char_from(s.skip(pos), c, i) == find_char_from(s, c, pos + i) - pos,
    decreases s.len() - pos - i,
{
    if i < s.len() - pos && s[pos + i] != c {
        lemma_find_skip(s, c, pos, i + 1);
    }
}

pub fn split_on(s: &[char], c: char) -> (r: Vec<Vec<char>>)
    ensures
        crate::text::seqs(r@) == split_pieces(s@, c),
{
    let mut out: Vec<Vec<char>> = Vec::new();
    let mut pos: usize = 0;
    assert(s@.skip(0) =~= s@);
    loop
        invariant
            pos <= s.len(),
            crate::text::seqs(out@) + split_pieces(s@.skip(pos as int), c) == split_pieces(s@, c),
        decreases s.len() - pos,
    {
        let k = crate::text::find_char(s, c, pos);
        proof {
            lemma_find_skip(s@, c, pos as int, 0);
            lemma_find_char_from(s@, c, pos as int);
        }
        let ghost rest = s@.skip(pos as int);
        let ghost before = crate::text::seqs(out@);
        if k < s.len() {
            let piece = crate::text::slice_vec(s, pos, k);
            out.push(piece);
            assert(rest.take(k - pos) =~= piece@);
            assert(rest.skip(k - pos + 1) =~= s@.skip(k + 1));
            assert(crate::text::seqs(out@) =~= before.push(piece@));
            assert(before + split_pieces(rest, c) =~= crate::text::seqs(out@) + split_pieces(
                s@.skip(k + 1),
                c,
            ));
            pos = k + 1;
        } else {
            let piece = crate::text::slice_vec(s, pos, s.len());
            out.push(piece);
            assert(piece@ =~= rest);
            assert(crate::text::seqs(out@) =~= before.push(piece@));
            assert(before + split_pieces(rest, c) =~= crate::text::seqs(out@));
            return out;
        }
    }
}

pub proof fn lemma_push_lines_step(m: Md, lines: Seq<PLine>, i: int)
    requires
        0 <= i < lines.len(),
    ensures
        md_push_lines(m, lines.take(i + 1)) == md_push_output(md_push_lines(m, lines.take(i)), lines[i]),
{
    assert(lines.take(i + 1).drop_last() =~= lines.take(i));
}

impl MarkdownState {
    fn resolve_pending_local_link_soft_break(&mut self, next: &str)
        requires
            cell_room(old(self).model(), 1),
        ensures
            final(self).model() == md_resolve_pending(old(self).model(), next@),
    {
        let ghost m = self.model();
        if !self.pending_local_link_soft_break {
            return;
        }
        self.pending_local_link_soft_break = false;
        assert(self.model() =~= Md { pending_break: false, ..m });
        let n = chars_of(next);
        let t = crate::text::trim_start_chars(n.as_slice());
        proof {
            crate::links::lemma_starts_with_one(trim_start(next@), ':');
        }
        if t.len() > 0 && t[0] == ':' {
            return;
        }
        proof {
            reveal_strlit(" ");
            assert(" "@ =~= seq![' ']);
        }
        self.push_span_to_context(PreviewSpan::Plain(" ".to_owned()));
    }

    fn push_code_lines(&mut self, text: &str)
        ensures
            final(self).model() == md_push_lines(
                old(self).model(),
                code_lines(old(self).model().code_prefix, split_pieces(text@, '\n')),
            ),
    {
        let ghost m = self.model();
        let t = chars_of(text);
        let pieces = split_on(t.as_slice(), '\n');
        let prefix = chars_of(self.code_block_prefix.as_str());
        let ghost lines = code_lines(m.code_prefix, split_pieces(text@, '\n'));
        let mut i: usize = 0;
        assert(lines.take(0) =~= Seq::<PLine>::empty());
        while i < pieces.len()
            invariant
                i <= pieces.len(),
                prefix@ == m.code_prefix,
                crate::text::seqs(pieces@) == split_pieces(text@, '\n'),
                lines == code_lines(m.code_prefix, split_pieces(text@, '\n')),
                self.model() == md_push_lines(m, lines.take(i as int)),
                self.model().code_prefix == m.code_prefix,
            decreases pieces.len() - i,
        {
            let mut v = crate::text::slice_vec(prefix.as_slice(), 0, prefix.len());
            append(&mut v, pieces[i].as_slice());
            proof {
                lemma_push_lines_step(m, lines, i as int);
                assert(v@ =~= m.code_prefix + crate::text::seqs(pieces@)[i as int]);
            }
            self.push_output(PreviewLine::Code(string_of(v.as_slice())));
            i = i + 1;
        }
        assert(lines.take(pieces.len() as int) =~= lines);
    }

    fn push_code_text(&mut self, text: &str)
        ensures
            final(self).model() == md_push_code_text(old(self).model(), text@),
    {
        let ghost m = self.model();
        if self.code_block_language.is_some() {
            let mut b = chars_of(self.code_block_buffer.as_str());
            push_str(&mut b, text);
            self.code_block_buffer = string_of(b.as_slice());
            assert(self.model() =~= md_push_code_text(m, text@));
            return;
        }
        self.push_code_lines(text);
    }
}

impl MarkdownState {
    /// Takes out the spans text would extend, leaving them empty.
    fn take_target_spans(&mut self) -> (r: (bool, Vec<PreviewSpan>))
        ensures
            r.0 == (old(self).model().items.len() > 0 && !old(self).model().items.last().emitted),
            span_views(r.1@) == target_spans(old(self).model()),
            final(self).model() == md_set_target_spans(old(self).model(), Seq::empty()),
    {
        let ghost m = self.model();
        let mut v: Vec<PreviewSpan> = Vec::new();
        if self.item_stack.len() > 0 && !self.item_stack[self.item_stack.len() - 1].emitted {
            let mut it = self.item_stack.pop().unwrap();
            std::mem::swap(&mut v, &mut it.spans);
            assert(item_m(it) =~= ItemM { spans: Seq::empty(), ..m.items.last() });
            self.item_stack.push(it);
            assert(self.model().items =~= m.items.drop_last().push(
                ItemM { spans: Seq::empty(), ..m.items.last() },
            ));
            assert(self.model() =~= md_set_target_spans(m, Seq::empty()));
            (true, v)
        } else {
            std::mem::swap(&mut v, &mut self.inline_spans);
            assert(self.model() =~= md_set_target_spans(m, Seq::empty()));
            (false, v)
        }
    }

    fn put_target_spans(&mut self, in_item: bool, v: Vec<PreviewSpan>)
        requires
            in_item == (old(self).model().items.len() > 0 && !old(self).model().items.last().emitted),
        ensures
            final(self).model() == md_set_target_spans(old(self).model(), span_views(v@)),
    {
        let ghost m = self.model();
        let ghost nv = span_views(v@);
        let mut v = v;
        if in_item {
            let mut it = self.item_stack.pop().unwrap();
            std::mem::swap(&mut v, &mut it.spans);
            assert(item_m(it) =~= ItemM { spans: nv, ..m.items.last() });
            self.item_stack.push(it);
            assert(self.model().items =~= m.items.drop_last().push(
                ItemM { spans: nv, ..m.items.last() },
            ));
        } else {
            std::mem::swap(&mut v, &mut self.inline_spans);
        }
        assert(self.model() =~= md_set_target_spans(m, nv));
    }
}

pub proof fn lemma_set_target_twice(m: Md, a: Seq<SpanView>, b: Seq<SpanView>)
    ensures
        md_set_target_spans(md_set_target_spans(m, a), b) == md_set_target_spans(m, b),
{
    let m1 = md_set_target_spans(m, a);
    if m.items.len() > 0 && !m.items.last().emitted {
        assert(m1.items.len() == m.items.len() && !m1.items.last().emitted);
        assert(md_set_target_spans(m1, b).items =~= md_set_target_spans(m, b).items);
    }
    assert(md_set_target_spans(m1, b) =~= md_set_target_spans(m, b));
}

impl MarkdownState {
    fn extend_trailing_bare_url_span(&mut self, text: &str, start: usize) -> (b: bool)
        requires
            start + encode_utf8(text@).len() <= usize::MAX,
        ensures
            b == extends_bare_url(old(self).model(), text@),
            b ==> final(self).model() == md_extend_bare_url(old(self).model(), text@, start as int),
            !b ==> final(self).model() == old(self).model(),
    {
        let ghost m = self.model();
        let t = chars_of(text);
        if t.len() == 0 || crate::links::any_whitespace(t.as_slice()) {
            return false;
        }
        let (in_item, mut v) = self.take_target_spans();
        let ghost tv = span_views(v@);
        let ok = if v.len() > 0 {
            match &v[v.len() - 1] {
                PreviewSpan::Link { target, local, .. } => {
                    let tg = chars_of(target.as_str());
                    let https = chars_of("https://");
                    let http = chars_of("http://");
                    !*local && (crate::text::has_prefix(tg.as_slice(), https.as_slice())
                        || crate::text::has_prefix(tg.as_slice(), http.as_slice()))
                },
                _ => false,
            }
        } else {
            false
        };
        assert(ok == extends_bare_url(m, text@)) by {
            if v.len() > 0 {
                assert(tv.last() == span_view(v@[v.len() - 1]));
            }
        }
        if !ok {
            self.put_target_spans(in_item, v);
            proof {
                lemma_set_target_twice(m, Seq::empty(), tv);
                assert(md_set_target_spans(m, target_spans(m)) =~= m) by {
                    if m.items.len() > 0 && !m.items.last().emitted {
                        assert(md_set_target_spans(m, target_spans(m)).items =~= m.items);
                    }
                }
            }
            return false;
        }
        let (suffix, trailing) = split_bare_url_trailing_punctuation(t.as_slice());
        if suffix.len() == 0 {
            v.push(PreviewSpan::Plain(string_of(trailing.as_slice())));
        } else {
            let last = v.pop().unwrap();
            match last {
                PreviewSpan::Link { text: lt, target, source_range, local } => {
                    let suffix_text = string_of(suffix.as_slice());
                    proof {
                        crate::links::lemma_encode_prefix_len(text@, punct_start(text@));
                    }
                    let end = start + suffix_text.as_str().len();
                    let mut a = chars_of(lt.as_str());
                    append(&mut a, suffix.as_slice());
                    let mut b = chars_of(target.as_str());
                    append(&mut b, suffix.as_slice());
                    v.push(
                        PreviewSpan::Link {
                            text: string_of(a.as_slice()),
                            target: string_of(b.as_slice()),
                            source_range: PreviewSourceRange { start: source_range.start, end },
                            local: false,
                        },
                    );
                },
                _ => {},
            }
            if trailing.len() > 0 {
                v.push(PreviewSpan::Plain(string_of(trailing.as_slice())));
            }
        }
        proof {
            let k = punct_start(text@);
            let last = tv.last();
            let v2 = if text@.take(k).len() == 0 {
                tv.push(SpanView::Plain(text@.skip(k)))
            } else {
                let v1 = tv.drop_last().push(
                    SpanView::Link(
                        last->Link_0 + text@.take(k),
                        last->Link_1 + text@.take(k),
                        PreviewSourceRange {
                            start: last->Link_2.start,
                            end: (start + encode_utf8(text@.take(k)).len()) as usize,
                        },
                        false,
                    ),
                );
                if text@.skip(k).len() > 0 {
                    v1.push(SpanView::Plain(text@.skip(k)))
                } else {
                    v1
                }
            };
            assert(span_views(v@) =~= v2);
        }
        self.put_target_spans(in_item, v);
        proof {
            lemma_set_target_twice(m, Seq::empty(), span_views(v@));
        }
        true
    }
}

/// Whether the renderer can take a piece of text at this point: the open
/// cell has room for it (and a space before it), and its source offset
/// plus its UTF-8 length fits.
pub open spec fn text_ok(m: Md, text: Seq<char>, start: int) -> bool {
    cell_room(m, text.len() as int + 1) && start + encode_utf8(text).len() <= usize::MAX
}

impl MarkdownState {
    fn in_cell(&self) -> (b: bool)
        ensures
            b == in_cell(self.model()),
    {
        match &self.table {
            Some(t) => t.current_cell.is_some(),
            None => false,
        }
    }

    fn suppressing_local_link_label(&self) -> (b: bool)
        ensures
            b == suppressing(self.model()),
    {
        match &self.link {
            Some(l) => l.local_target_display.is_some(),
            None => false,
        }
    }

    fn push_spans_to_context(&mut self, spans: Vec<PreviewSpan>)
        requires
            !in_cell(old(self).model()),
        ensures
            final(self).model() == md_push_spans(old(self).model(), span_views(spans@)),
    {
        let ghost m = self.model();
        let mut i: usize = 0;
        assert(span_views(spans@).take(0) =~= Seq::<SpanView>::empty());
        while i < spans.len()
            invariant
                i <= spans.len(),
                !in_cell(self.model()),
                self.model() == md_push_spans(m, span_views(spans@).take(i as int)),
            decreases spans.len() - i,
        {
            assert(span_views(spans@).take(i + 1).drop_last() =~= span_views(spans@).take(i as int));
            self.push_span_to_context(copy_span(&spans[i]));
            i = i + 1;
        }
        assert(span_views(spans@).take(spans.len() as int) =~= span_views(spans@));
    }

    fn text_with_range(&mut self, text: &str, start: usize)
        requires
            text_ok(old(self).model(), text@, start as int),
        ensures
            final(self).model() == md_text(old(self).model(), text@, start as int),
    {
        let ghost m0 = self.model();
        self.resolve_pending_local_link_soft_break(text);
        let ghost m = self.model();
        let sup = self.suppressing_local_link_label();
        if self.in_cell() {
            if !sup {
                let span = self.text_span(text.to_owned());
                let mut t = self.table.take().unwrap();
                let mut c = t.current_cell.take().unwrap();
                proof {
                    assert(crate::preview::span_text_of(span) == text@);
                }
                c.push_span(&span);
                t.current_cell = Some(c);
                self.table = Some(t);
                assert(self.model() =~= md_text(m0, text@, start as int));
            }
            return;
        }
        if self.code_block {
            self.push_code_text(text);
            return;
        }
        if self.heading.is_some() {
            if !sup {
                let (level, h) = self.heading.take().unwrap();
                let mut v = chars_of(h.as_str());
                push_str(&mut v, text);
                self.heading = Some((level, string_of(v.as_slice())));
                assert(self.model() =~= md_text(m0, text@, start as int));
            }
            return;
        }
        if sup {
            return;
        }
        if self.link.is_none() && self.extend_trailing_bare_url_span(text, start) {
            self.line_ends_with_local_link_target = false;
            assert(self.model() =~= md_text(m0, text@, start as int));
            return;
        }
        if self.link.is_none() {
            if let Some(spans) = bare_url_spans(text, start) {
                self.push_spans_to_context(spans);
                self.line_ends_with_local_link_target = false;
                assert(self.model() =~= md_text(m0, text@, start as int));
                return;
            }
        }
        let span = self.text_span(text.to_owned());
        if self.item_stack.len() > 0 {
            if self.item_stack[self.item_stack.len() - 1].emitted {
                self.push_continuation_span(span);
            } else {
                self.push_item_span(span);
            }
            return;
        }
        self.inline_spans.push(span);
        self.line_ends_with_local_link_target = false;
        assert(self.model() =~= md_text(m0, text@, start as int));
    }
}

/// What an inline code span does.
pub open spec fn md_code(m0: Md, code: Seq<char>) -> Md {
    let m = md_resolve_pending(m0, code);
    let sup = suppressing(m);
    if in_cell(m) {
        if !sup {
            md_set_cell(m, cell_push_span(m.table.unwrap().cell.unwrap(), SpanView::Code(code)))
        } else {
            m
        }
    } else if m.heading is Some {
        if !sup {
            Md { heading: Some((m.heading.unwrap().0, m.heading.unwrap().1 + code)), ..m }
        } else {
            m
        }
    } else if sup {
        m
    } else {
        let m1 = if m.items.len() > 0 {
            if m.items.last().emitted {
                md_push_continuation(m, SpanView::Code(code))
            } else {
                md_push_item_span(m, SpanView::Code(code))
            }
        } else {
            Md { inline: m.inline.push(SpanView::Code(code)), ..m }
        };
        Md { ends_local: false, ..m1 }
    }
}

pub open spec fn plain_lines(ls: Seq<Seq<char>>) -> Seq<PLine> {
    Seq::new(ls.len(), |i: int| PLine::Plain(ls[i]))
}

/// Raw HTML: one line of it is text; a block of several lines goes out
/// line by line, unless it sits in a code block, heading, cell, or an item
/// waiting for its first line.
pub open spec fn md_html(m: Md, html: Seq<char>) -> Md {
    if !crate::text::contains_char(html, '\n') {
        md_text(m, html, 0)
    } else if m.code_block || m.heading is Some || in_cell(m) || (m.items.len() > 0
        && !m.items.last().emitted) {
        md_text(m, html, 0)
    } else {
        md_push_lines(md_flush(m), plain_lines(crate::text::lines(html)))
    }
}

/// A soft or hard line break.
pub open spec fn md_break(m: Md) -> Md {
    let sup = suppressing(m);
    if m.code_block {
        md_push_output(m, PLine::Code(Seq::empty()))
    } else if m.ends_local {
        Md { pending_break: true, ends_local: false, ..m }
    } else if in_cell(m) {
        if !sup {
            md_set_cell(m, (m.table.unwrap().cell.unwrap().0 + seq![' '], m.table.unwrap().cell.unwrap().1))
        } else {
            m
        }
    } else if m.items.len() > 0 {
        if m.items.last().emitted && m.depth > 0 {
            md_flush(m)
        } else if m.items.last().emitted {
            Md { inline: m.inline.push(SpanView::Plain(seq![' '])), ..m }
        } else {
            md_push_item_span(m, SpanView::Plain(seq![' ']))
        }
    } else {
        md_flush(m)
    }
}

impl MarkdownState {
    fn code(&mut self, code: &str)
        requires
            cell_room(old(self).model(), code@.len() as int + 1),
        ensures
            final(self).model() == md_code(old(self).model(), code@),
    {
        let ghost m0 = self.model();
        self.resolve_pending_local_link_soft_break(code);
        let sup = self.suppressing_local_link_label();
        if self.in_cell() {
            if !sup {
                let span = PreviewSpan::Code(code.to_owned());
                let mut t = self.table.take().unwrap();
                let mut c = t.current_cell.take().unwrap();
                c.push_span(&span);
                t.current_cell = Some(c);
                self.table = Some(t);
                assert(self.model() =~= md_code(m0, code@));
            }
            return;
        }
        if self.heading.is_some() {
            if !sup {
                let (level, h) = self.heading.take().unwrap();
                let mut v = chars_of(h.as_str());
                push_str(&mut v, code);
                self.heading = Some((level, string_of(v.as_slice())));
                assert(self.model() =~= md_code(m0, code@));
            }
            return;
        }
        if sup {
            return;
        }
        let span = PreviewSpan::Code(code.to_owned());
        if self.item_stack.len() > 0 {
            if self.item_stack[self.item_stack.len() - 1].emitted {
                self.push_continuation_span(span);
            } else {
                self.push_item_span(span);
            }
        } else {
            self.inline_spans.push(span);
        }
        self.line_ends_with_local_link_target = false;
        assert(self.model() =~= md_code(m0, code@));
    }

    fn push_plain_lines(&mut self, ls: Vec<Vec<char>>)
        ensures
            final(self).model() == md_push_lines(old(self).model(), plain_lines(crate::text::seqs(ls@))),
    {
        let ghost m = self.model();
        let ghost lines = plain_lines(crate::text::seqs(ls@));
        let mut i: usize = 0;
        assert(lines.take(0) =~= Seq::<PLine>::empty());
        while i < ls.len()
            invariant
                i <= ls.len(),
                lines == plain_lines(crate::text::seqs(ls@)),
                self.model() == md_push_lines(m, lines.take(i as int)),
            decreases ls.len() - i,
        {
            proof {
                lemma_push_lines_step(m, lines, i as int);
            }
            self.push_output(PreviewLine::Plain(string_of(ls[i].as_slice())));
            i = i + 1;
        }
        assert(lines.take(ls.len() as int) =~= lines);
    }

    fn html(&mut self, html: &str)
        requires
            text_ok(old(self).model(), html@, 0),
        ensures
            final(self).model() == md_html(old(self).model(), html@),
    {
        let h = chars_of(html);
        let k = crate::text::find_char(h.as_slice(), '\n', 0);
        if k == h.len() {
            self.text_with_range(html, 0);
            return;
        }
        let waiting = self.item_stack.len() > 0 && !self.item_stack[self.item_stack.len() - 1].emitted;
        if self.code_block || self.heading.is_some() || self.in_cell() || waiting {
            self.text_with_range(html, 0);
            return;
        }
        self.flush_inline_spans();
        let ls = crate::text::lines_of(h.as_slice());
        self.push_plain_lines(ls);
    }

    fn soft_break(&mut self)
        requires
            cell_room(old(self).model(), 1),
        ensures
            final(self).model() == md_break(old(self).model()),
    {
        let ghost m = self.model();
        let sup = self.suppressing_local_link_label();
        if self.code_block {
            self.push_output(PreviewLine::Code(String::new()));
            return;
        }
        if self.line_ends_with_local_link_target {
            self.pending_local_link_soft_break = true;
            self.line_ends_with_local_link_target = false;
            assert(self.model() =~= md_break(m));
            return;
        }
        if self.in_cell() {
            if !sup {
                let mut t = self.table.take().unwrap();
                let mut c = t.current_cell.take().unwrap();
                c.push_text(" ");
                proof {
                    reveal_strlit(" ");
                    assert(" "@ =~= seq![' ']);
                }
                t.current_cell = Some(c);
                self.table = Some(t);
                assert(self.model() =~= md_break(m));
            }
            return;
        }
        proof {
            reveal_strlit(" ");
            assert(" "@ =~= seq![' ']);
        }
        if self.item_stack.len() > 0 {
            let emitted = self.item_stack[self.item_stack.len() - 1].emitted;
            if emitted && self.blockquote_depth > 0 {
                self.flush_inline_spans();
            } else if emitted {
                self.inline_spans.push(PreviewSpan::Plain(" ".to_owned()));
                assert(self.model() =~= md_break(m));
            } else {
                self.push_item_span(PreviewSpan::Plain(" ".to_owned()));
            }
        } else {
            self.flush_inline_spans();
        }
    }
}

// ---------------------------------------------------------------------------
// Lists, paragraphs, block quotes
// ---------------------------------------------------------------------------
/// The marker of a new item, indented by the list nesting: the next number
/// of a numbered list (which then counts on), or a bullet.
pub open spec fn item_marker(m: Md) -> (Seq<char>, Seq<Option<u64>>) {
    let depth = if m.lists.len() > 0 {
        m.lists.len() - 1
    } else {
        0
    };
    let indent = repeated("  "@, depth as nat);
    if m.lists.len() > 0 && m.lists.last() is Some {
        let n = m.lists.last().unwrap();
        (indent + decimal(n as nat) + "."@, m.lists.drop_last().push(Some((n + 1) as u64)))
    } else {
        (indent + "\u{2022}"@, m.lists)
    }
}

pub open spec fn md_start_item(m: Md) -> Md {
    let (marker, lists) = item_marker(m);
    Md {
        lists,
        items: m.items.push(ItemM { marker, spans: Seq::empty(), checkbox: None, emitted: false }),
        ..m
    }
}

pub open spec fn md_end_item(m: Md) -> Md {
    if m.items.len() == 0 {
        m
    } else {
        let it = m.items.last();
        let m1 = Md { items: m.items.drop_last(), ..m };
        if it.emitted {
            m1
        } else {
            md_push_output(m1, item_line(it))
        }
    }
}

/// A nested list first sends out its parent item's line.
pub open spec fn md_start_list(m: Md, start: Option<u64>) -> Md {
    let m1 = if m.lists.len() > 0 {
        md_emit_current(m)
    } else {
        m
    };
    Md { lists: m1.lists.push(start), ..m1 }
}

pub open spec fn md_end_list(m: Md) -> Md {
    Md {
        lists: if m.lists.len() > 0 {
            m.lists.drop_last()
        } else {
            m.lists
        },
        ..m
    }
}

/// A paragraph that continues a block quote or an item after its first line
/// is set off by an empty line.
pub open spec fn md_start_paragraph(m: Md) -> Md {
    if m.inline.len() > 0 {
        m
    } else {
        let in_quote = m.depth > 0 && m.frames.len() > 0 && !m.frames.last().first_line;
        let in_item = m.depth == 0 && m.items.len() > 0 && m.items.last().emitted;
        if in_quote || in_item {
            md_push_output(m, PLine::Plain(Seq::empty()))
        } else {
            m
        }
    }
}

pub open spec fn md_end_paragraph(m: Md) -> Md {
    if m.items.len() > 0 && !m.items.last().emitted && m.items.last().spans.len() > 0 {
        md_emit_current(m)
    } else {
        md_flush(m)
    }
}

/// What a block quote inside a list item starts with: the item's marker on
/// its first line when the item has no text yet (its line is then done),
/// otherwise the item's indentation; the item's pending line goes out first.
pub open spec fn quote_item_prefix(m: Md) -> (Seq<char>, Seq<char>, Md) {
    if m.items.len() == 0 {
        (Seq::empty(), Seq::empty(), m)
    } else {
        let it = m.items.last();
        let p = cont_prefix(it.marker);
        if !it.emitted && it.spans.len() == 0 {
            (it.marker + seq![' '], p, md_set_item(m, ItemM { emitted: true, ..it }))
        } else if !it.emitted {
            (p, p, md_push_output(md_set_item(m, ItemM { emitted: true, ..it }), item_line(it)))
        } else {
            (p, p, m)
        }
    }
}

pub open spec fn md_start_quote(m: Md) -> Md {
    let parent = if m.frames.len() > 0 {
        current_prefix(m.frames.last())
    } else {
        Seq::empty()
    };
    let (first, cont, m1) = quote_item_prefix(m);
    Md {
        depth: m1.depth + 1,
        frames: m1.frames.push(
            FrameM {
                prefix: parent + first + "> "@,
                continuation: parent + cont + "> "@,
                first_line: true,
            },
        ),
        ..m1
    }
}

pub open spec fn md_end_quote(m: Md) -> Md {
    Md {
        depth: if m.depth > 0 {
            m.depth - 1
        } else {
            0
        },
        frames: if m.frames.len() > 0 {
            m.frames.drop_last()
        } else {
            m.frames
        },
        ..m
    }
}

impl MarkdownState {
    fn start_item(&mut self)
        requires
            old(self).model().lists.len() > 0 && old(self).model().lists.last() is Some
                ==> old(self).model().lists.last().unwrap() < u64::MAX,
        ensures
            final(self).model() == md_start_item(old(self).model()),
    {
        let ghost m = self.model();
        let depth = if self.list_stack.len() > 0 {
            self.list_stack.len() - 1
        } else {
            0
        };
        let mut marker = repeat_str("  ", depth);
        let numbered = self.list_stack.len() > 0 && self.list_stack[self.list_stack.len() - 1].is_some();
        if numbered {
            let n = self.list_stack.pop().unwrap().unwrap();
            let digits = crate::text::decimal_chars(n);
            append(&mut marker, digits.as_slice());
            push_str(&mut marker, ".");
            self.list_stack.push(Some(n + 1));
        } else {
            push_str(&mut marker, "\u{2022}");
        }
        assert(marker@ == item_marker(m).0);
        assert(self.list_stack@ == item_marker(m).1);
        let it = ItemState { marker: string_of(marker.as_slice()), spans: Vec::new(), checkbox: None, emitted: false };
        assert(item_m(it) =~= ItemM { marker: item_marker(m).0, spans: Seq::empty(), checkbox: None, emitted: false });
        self.item_stack.push(it);
        assert(self.model().items =~= md_start_item(m).items);
        assert(self.model() =~= md_start_item(m));
    }

    fn end_item(&mut self)
        ensures
            final(self).model() == md_end_item(old(self).model()),
    {
        let ghost m = self.model();
        if self.item_stack.len() == 0 {
            return;
        }
        let it = self.item_stack.pop().unwrap();
        assert(self.model() =~= Md { items: m.items.drop_last(), ..m });
        if it.emitted {
            return;
        }
        let line = item_preview_line(&it);
        self.push_output(line);
    }

    fn start_list(&mut self, start: Option<u64>)
        ensures
            final(self).model() == md_start_list(old(self).model(), start),
    {
        let ghost m = self.model();
        if self.list_stack.len() > 0 {
            self.emit_current_item_if_needed();
        }
        let ghost m1 = self.model();
        self.list_stack.push(start);
        assert(self.model() =~= Md { lists: m1.lists.push(start), ..m1 });
    }

    fn end_list(&mut self)
        ensures
            final(self).model() == md_end_list(old(self).model()),
    {
        let ghost m = self.model();
        if self.list_stack.len() > 0 {
            self.list_stack.pop();
        }
        assert(self.model() =~= md_end_list(m));
    }

    fn start_paragraph(&mut self)
        ensures
            final(self).model() == md_start_paragraph(old(self).model()),
    {
        if self.inline_spans.len() > 0 {
            return;
        }
        let in_quote = self.blockquote_depth > 0 && self.blockquote_frames.len() > 0
            && !self.blockquote_frames[self.blockquote_frames.len() - 1].first_line;
        let in_item = self.blockquote_depth == 0 && self.item_stack.len() > 0
            && self.item_stack[self.item_stack.len() - 1].emitted;
        if in_quote || in_item {
            self.push_output(PreviewLine::Plain(String::new()));
        }
    }

    fn end_paragraph(&mut self)
        ensures
            final(self).model() == md_end_paragraph(old(self).model()),
    {
        if self.item_stack.len() > 0 && !self.item_stack[self.item_stack.len() - 1].emitted
            && self.item_stack[self.item_stack.len() - 1].spans.len() > 0 {
            self.emit_current_item_if_needed();
        } else {
            self.flush_inline_spans();
        }
    }

    fn blockquote_item_prefix(&mut self) -> (r: (String, String))
        ensures
            ({
                let (f, c, m1) = quote_item_prefix(old(self).model());
                r.0@ == f && r.1@ == c && final(self).model() == m1
            }),
    {
        let ghost m = self.model();
        if self.item_stack.len() == 0 {
            return (String::new(), String::new());
        }
        let k = self.item_stack.len() - 1;
        let p = continuation_prefix(self.item_stack[k].marker.as_str());
        if !self.item_stack[k].emitted && self.item_stack[k].spans.len() == 0 {
            let mut first = chars_of(self.item_stack[k].marker.as_str());
            first.push(' ');
            let mut it = self.item_stack.pop().unwrap();
            it.emitted = true;
            self.item_stack.push(it);
            assert(self.model() =~= md_set_item(m, ItemM { emitted: true, ..m.items.last() }));
            return (string_of(first.as_slice()), p);
        }
        if !self.item_stack[k].emitted {
            let line = item_preview_line(&self.item_stack[k]);
            let mut it = self.item_stack.pop().unwrap();
            it.emitted = true;
            self.item_stack.push(it);
            assert(self.model() =~= md_set_item(m, ItemM { emitted: true, ..m.items.last() }));
            self.push_output(line);
            let q = string_of(chars_of(p.as_str()).as_slice());
            return (p, q);
        }
        let q = string_of(chars_of(p.as_str()).as_slice());
        (p, q)
    }

    fn start_blockquote(&mut self)
        requires
            old(self).blockquote_depth < usize::MAX,
        ensures
            final(self).model() == md_start_quote(old(self).model()),
    {
        let ghost m = self.model();
        let parent: Vec<char> = if self.blockquote_frames.len() > 0 {
            let f = &self.blockquote_frames[self.blockquote_frames.len() - 1];
            if f.first_line {
                chars_of(f.prefix.as_str())
            } else {
                chars_of(f.continuation_prefix.as_str())
            }
        } else {
            Vec::new()
        };
        let (first, cont) = self.blockquote_item_prefix();
        let ghost m1 = self.model();
        let mut prefix = crate::text::slice_vec(parent.as_slice(), 0, parent.len());
        push_str(&mut prefix, first.as_str());
        push_str(&mut prefix, "> ");
        let mut continuation = parent;
        push_str(&mut continuation, cont.as_str());
        push_str(&mut continuation, "> ");
        self.blockquote_depth = self.blockquote_depth + 1;
        self.blockquote_frames.push(
            BlockQuoteFrame {
                prefix: string_of(prefix.as_slice()),
                continuation_prefix: string_of(continuation.as_slice()),
                first_line: true,
            },
        );
        assert(parent@.take(parent@.len() as int) =~= parent@);
        assert(self.model().frames =~= md_start_quote(m).frames);
        assert(self.model() =~= md_start_quote(m));
    }

    fn end_blockquote(&mut self)
        ensures
            final(self).model() == md_end_quote(old(self).model()),
    {
        let ghost m = self.model();
        if self.blockquote_depth > 0 {
            self.blockquote_depth = self.blockquote_depth - 1;
        }
        if self.blockquote_frames.len() > 0 {
            self.blockquote_frames.pop();
        }
        assert(self.model().frames =~= md_end_quote(m).frames);
        assert(self.model() =~= md_end_quote(m));
    }
}

// ---------------------------------------------------------------------------
// Code blocks, headings, links
// ---------------------------------------------------------------------------
pub open spec fn md_start_code(m0: Md, info: Option<Seq<char>>) -> Md {
    let m = if m0.items.len() > 0 {
        md_emit_current(m0)
    } else {
        m0
    };
    Md {
        code_block: true,
        language: match info {
            Some(i) => crate::syntax::info_language(i),
            None => None,
        },
        code_prefix: if m.lists.len() == 0 {
            Seq::empty()
        } else {
            repeated("  "@, m.lists.len())
        },
        buffer: Seq::empty(),
        ..m
    }
}

pub open spec fn prefixed_spans(prefix: Seq<char>, spans: Seq<SpanView>) -> Seq<SpanView> {
    if prefix.len() == 0 {
        spans
    } else {
        seq![SpanView::Plain(prefix)] + spans
    }
}

pub open spec fn span_lines(prefix: Seq<char>, ls: Seq<Seq<SpanView>>) -> Seq<PLine> {
    Seq::new(ls.len(), |i: int| PLine::CodeSpans(prefixed_spans(prefix, ls[i])))
}

/// The collected code of a block with a language, line by line (one line
/// when it is empty).
pub open spec fn plain_code_lines(prefix: Seq<char>, code: Seq<char>) -> Seq<PLine> {
    let ls = crate::text::lines(code);
    if ls.len() == 0 {
        seq![PLine::Code(prefix)]
    } else {
        code_lines(prefix, ls)
    }
}

/// The end of a code block. A block with a language goes out now: as the
/// highlighter's lines when it gave some, as plain code lines otherwise.
pub open spec fn md_end_code(m0: Md, highlighted: Option<Seq<Seq<SpanView>>>) -> Md {
    let m = if m0.language is Some {
        let m1 = Md { language: None, buffer: Seq::empty(), ..m0 };
        match highlighted {
            Some(ls) => md_push_lines(m1, span_lines(m0.code_prefix, ls)),
            None => md_push_lines(m1, plain_code_lines(m0.code_prefix, m0.buffer)),
        }
    } else {
        m0
    };
    Md { code_block: false, buffer: Seq::empty(), code_prefix: Seq::empty(), ..m }
}

pub open spec fn md_end_heading(m: Md) -> Md {
    match m.heading {
        Some((level, text)) => md_push_output(Md { heading: None, ..m }, PLine::Heading(level, text)),
        None => m,
    }
}

/// The end of a link: a local file link shows its target in place of its
/// label; any other link's address follows its label in parentheses.
pub open spec fn md_end_link(m: Md) -> Md {
    match m.link {
        None => m,
        Some(l) => {
            let m1 = Md { link: None, ..m };
            match l.local_display {
                Some(d) => Md {
                    ends_local: true,
                    ..md_push_span(m1, SpanView::Link(d, l.destination, l.range, true))
                },
                None => Md {
                    ends_local: false,
                    ..md_push_span(
                        md_push_span(
                            md_push_span(m1, SpanView::Plain(" ("@)),
                            SpanView::Link(l.destination, l.destination, l.range, false),
                        ),
                        SpanView::Plain(")"@),
                    )
                },
            }
        },
    }
}

/// The characters a link's end adds to the open cell.
pub open spec fn link_end_len(m: Md) -> int {
    match m.link {
        Some(l) => match l.local_display {
            Some(d) => d.len() as int,
            None => l.destination.len() as int + 3,
        },
        None => 0,
    }
}

pub open spec fn span_lines_of(ls: Seq<Vec<PreviewSpan>>) -> Seq<Seq<SpanView>> {
    Seq::new(ls.len(), |i: int| span_views(ls[i]@))
}

impl MarkdownState {
    fn start_code_block(&mut self, info: Option<String>)
        ensures
            final(self).model() == md_start_code(
                old(self).model(),
                match info {
                    Some(i) => Some(i@),
                    None => None,
                },
            ),
    {
        let ghost m0 = self.model();
        if self.item_stack.len() > 0 {
            self.emit_current_item_if_needed();
        }
        let ghost m = self.model();
        self.code_block = true;
        self.code_block_language = match &info {
            Some(i) => crate::syntax::language_from_info_string(i.as_str()),
            None => None,
        };
        self.code_block_prefix = if self.list_stack.len() == 0 {
            String::new()
        } else {
            string_of(repeat_str("  ", self.list_stack.len()).as_slice())
        };
        self.code_block_buffer = String::new();
        assert(self.model().language == md_start_code(
            m0,
            match info {
                Some(i) => Some(i@),
                None => None,
            },
        ).language);
        assert(self.model() =~= md_start_code(
            m0,
            match info {
                Some(i) => Some(i@),
                None => None,
            },
        ));
    }

    fn push_code_plain(&mut self, code: &str)
        ensures
            final(self).model() == md_push_lines(
                old(self).model(),
                plain_code_lines(old(self).model().code_prefix, code@),
            ),
    {
        let ghost m = self.model();
        let c = chars_of(code);
        let ls = crate::text::lines_of(c.as_slice());
        let prefix = chars_of(self.code_block_prefix.as_str());
        if ls.len() == 0 {
            proof {
                assert(crate::text::seqs(ls@).len() == 0);
                assert(plain_code_lines(m.code_prefix, code@) =~= seq![PLine::Code(m.code_prefix)]);
                assert(seq![PLine::Code(m.code_prefix)].drop_last() =~= Seq::<PLine>::empty());
                assert(md_push_lines(m, Seq::<PLine>::empty()) == m);
            }
            self.push_output(PreviewLine::Code(string_of(prefix.as_slice())));
            proof {
                let one = seq![PLine::Code(m.code_prefix)];
                assert(md_push_lines(m, one) == md_push_output(md_push_lines(m, one.drop_last()), one.last()));
            }
            return;
        }
        let ghost lines = code_lines(m.code_prefix, crate::text::seqs(ls@));
        let mut i: usize = 0;
        assert(lines.take(0) =~= Seq::<PLine>::empty());
        while i < ls.len()
            invariant
                i <= ls.len(),
                prefix@ == m.code_prefix,
                lines == code_lines(m.code_prefix, crate::text::seqs(ls@)),
                self.model() == md_push_lines(m, lines.take(i as int)),
            decreases ls.len() - i,
        {
            let mut v = crate::text::slice_vec(prefix.as_slice(), 0, prefix.len());
            append(&mut v, ls[i].as_slice());
            proof {
                lemma_push_lines_step(m, lines, i as int);
                assert(v@ =~= m.code_prefix + crate::text::seqs(ls@)[i as int]);
            }
            self.push_output(PreviewLine::Code(string_of(v.as_slice())));
            i = i + 1;
        }
        assert(lines.take(ls.len() as int) =~= lines);
    }

    fn push_span_lines(&mut self, ls: Vec<Vec<PreviewSpan>>, prefix: &str)
        ensures
            final(self).model() == md_push_lines(old(self).model(), span_lines(prefix@, span_lines_of(ls@))),
    {
        let ghost m = self.model();
        let ghost lines = span_lines(prefix@, span_lines_of(ls@));
        let p = chars_of(prefix);
        let mut i: usize = 0;
        assert(lines.take(0) =~= Seq::<PLine>::empty());
        while i < ls.len()
            invariant
                i <= ls.len(),
                p@ == prefix@,
                lines == span_lines(prefix@, span_lines_of(ls@)),
                self.model() == md_push_lines(m, lines.take(i as int)),
            decreases ls.len() - i,
        {
            let mut spans: Vec<PreviewSpan> = Vec::new();
            if p.len() > 0 {
                spans.push(PreviewSpan::Plain(string_of(p.as_slice())));
            }
            let rest = copy_spans(&ls[i]);
            let ghost head = span_views(spans@);
            let mut rest = rest;
            spans.append(&mut rest);
            proof {
                lemma_push_lines_step(m, lines, i as int);
                assert(span_views(spans@) =~= prefixed_spans(prefix@, span_views(ls@[i as int]@)));
            }
            self.push_output(PreviewLine::CodeSpans(spans));
            i = i + 1;
        }
        assert(lines.take(ls.len() as int) =~= lines);
    }

    fn end_code_block(&mut self, highlighted: Option<Vec<Vec<PreviewSpan>>>)
        ensures
            final(self).model() == md_end_code(
                old(self).model(),
                match highlighted {
                    Some(ls) => Some(span_lines_of(ls@)),
                    None => None,
                },
            ),
    {
        let ghost m0 = self.model();
        let ghost hl = match &highlighted {
            Some(ls) => Some(span_lines_of(ls@)),
            None => None,
        };
        if self.code_block_language.is_some() {
            self.code_block_language = None;
            let mut code = String::new();
            std::mem::swap(&mut code, &mut self.code_block_buffer);
            let prefix = string_of(chars_of(self.code_block_prefix.as_str()).as_slice());
            assert(self.model() =~= Md { language: None, buffer: Seq::empty(), ..m0 });
            match highlighted {
                Some(ls) => self.push_span_lines(ls, prefix.as_str()),
                None => self.push_code_plain(code.as_str()),
            }
        }
        let ghost m = self.model();
        self.code_block = false;
        self.code_block_buffer = String::new();
        self.code_block_prefix = String::new();
        assert(self.model() =~= Md { code_block: false, buffer: Seq::empty(), code_prefix: Seq::empty(), ..m });
    }

    fn start_heading(&mut self, level: u8)
        ensures
            final(self).model() == (Md { heading: Some((level, Seq::<char>::empty())), ..old(self).model() }),
    {
        let ghost m = self.model();
        self.heading = Some((level, String::new()));
        assert(self.model() =~= Md { heading: Some((level, Seq::<char>::empty())), ..m });
    }

    fn end_heading(&mut self)
        ensures
            final(self).model() == md_end_heading(old(self).model()),
    {
        let ghost m = self.model();
        match self.heading.take() {
            Some((level, text)) => {
                assert(self.model() =~= Md { heading: None, ..m });
                self.push_output(PreviewLine::Heading { level, text });
            },
            None => {},
        }
    }

    fn start_link(&mut self, destination: String, range: PreviewSourceRange, local_display: Option<String>)
        ensures
            final(self).model() == (Md {
                link: Some(
                    LinkM {
                        destination: destination@,
                        range,
                        local_display: match local_display {
                            Some(d) => Some(d@),
                            None => None,
                        },
                    },
                ),
                ..old(self).model()
            }),
    {
        let ghost m = self.model();
        let ghost ld = match &local_display {
            Some(d) => Some(d@),
            None => None,
        };
        self.link = Some(LinkState { destination, source_range: range, local_target_display: local_display });
        assert(self.model() =~= Md {
            link: Some(LinkM { destination: destination@, range, local_display: ld }),
            ..m
        });
    }

    fn end_link(&mut self)
        requires
            cell_room(old(self).model(), link_end_len(old(self).model())),
        ensures
            final(self).model() == md_end_link(old(self).model()),
    {
        let ghost m = self.model();
        let l = match self.link.take() {
            Some(l) => l,
            None => {
                return;
            },
        };
        assert(self.model() =~= Md { link: None, ..m });
        match l.local_target_display {
            Some(d) => {
                self.push_span_to_context(
                    PreviewSpan::Link { text: d, target: l.destination, source_range: l.source_range, local: true },
                );
                self.line_ends_with_local_link_target = true;
                let ghost m2 = self.model();
                assert(m2 =~= Md { ends_local: true, ..m2 });
            },
            None => {
                proof {
                    reveal_strlit(" (");
                    reveal_strlit(")");
                }
                self.push_span_to_context(PreviewSpan::Plain(" (".to_owned()));
                let target = string_of(chars_of(l.destination.as_str()).as_slice());
                self.push_span_to_context(
                    PreviewSpan::Link {
                        text: target,
                        target: l.destination,
                        source_range: l.source_range,
                        local: false,
                    },
                );
                self.push_span_to_context(PreviewSpan::Plain(")".to_owned()));
                self.line_ends_with_local_link_target = false;
            },
        }
    }
}

// ---------------------------------------------------------------------------
// Tables
// ---------------------------------------------------------------------------
pub open spec fn md_start_table(m: Md, alignments: Seq<TableAlignment>) -> Md {
    Md {
        table: Some(
            TableM {
                alignments,
                rows: Seq::empty(),
                pipes: Seq::empty(),
                row: None,
                cell: None,
                row_pipe: false,
            },
        ),
        ..m
    }
}

pub open spec fn md_start_row(m: Md, pipe: bool) -> Md {
    match m.table {
        Some(t) => Md { table: Some(TableM { row: Some(Seq::empty()), row_pipe: pipe, ..t }), ..m },
        None => m,
    }
}

pub open spec fn md_start_cell(m: Md) -> Md {
    match m.table {
        Some(t) => Md { table: Some(TableM { cell: Some((Seq::empty(), Seq::empty())), ..t }), ..m },
        None => m,
    }
}

pub open spec fn md_end_row(m: Md) -> Md {
    match m.table {
        Some(t) => match t.row {
            Some(r) => Md {
                table: Some(
                    TableM {
                        rows: t.rows.push(r),
                        pipes: t.pipes.push(t.row_pipe),
                        row: None,
                        row_pipe: false,
                        ..t
                    },
                ),
                ..m
            },
            None => m,
        },
        None => m,
    }
}

/// The end of a cell: trimmed, it joins the open row (and is dropped when
/// there is none).
pub open spec fn md_end_cell(m: Md) -> Md {
    match m.table {
        Some(t) => match t.cell {
            Some(c) => {
                let t1 = TableM { cell: None, ..t };
                let t2 = match t1.row {
                    Some(r) => TableM {
                        row: Some(r.push(crate::table::trimmed_cell(c.0, c.1))),
                        ..t1
                    },
                    None => t1,
                };
                Md { table: Some(t2), ..m }
            },
            None => m,
        },
        None => m,
    }
}

pub open spec fn table_plines(v: Seq<TableLineView>) -> Seq<PLine> {
    Seq::new(v.len(), |i: int| PLine::Table(v[i]))
}

/// The end of a table: its lines, then the text that spilled out of it.
pub open spec fn md_end_table(m: Md) -> Md {
    match m.table {
        None => m,
        Some(t) => {
            let n = t.rows.len() as int;
            md_push_lines(
                md_push_lines(
                    Md { table: None, ..m },
                    table_plines(
                        crate::table::rendered_table(
                            crate::table::kept_rows(t.rows, t.pipes, n),
                            t.alignments,
                        ),
                    ),
                ),
                plain_lines(crate::table::spilled_texts(t.rows, t.pipes, n)),
            )
        },
    }
}

/// The open cell can be trimmed (it is not all whitespace) and measured.
pub open spec fn cell_end_ok(m: Md) -> bool {
    in_cell(m) ==> {
        let c = m.table.unwrap().cell.unwrap();
        crate::table::trimmable(c.0) && c.0.len() * 2 <= usize::MAX
    }
}

/// Every cell that stays in the table can be measured.
pub open spec fn table_end_ok(m: Md) -> bool {
    m.table is Some ==> {
        let t = m.table.unwrap();
        crate::table::cells_fit(crate::table::kept_rows(t.rows, t.pipes, t.rows.len() as int))
    }
}

pub proof fn lemma_body_lines_are_table(
    rows: Seq<Seq<CellView>>,
    i: int,
    headers: Seq<Seq<char>>,
    widths: Seq<usize>,
    aligns: Seq<TableAlignment>,
    metrics: Seq<crate::preview::TableColumnMetric>,
)
    ensures
        forall|k: int|
            0 <= k < crate::table::body_lines(rows, i, headers, widths, aligns, metrics).len() ==> {
                let v = #[trigger] crate::table::body_lines(rows, i, headers, widths, aligns, metrics)[k];
                v is Row || v is Divider
            },
    decreases rows.len() - i,
{
    if !(i < 1 || i >= rows.len()) {
        lemma_body_lines_are_table(rows, i + 1, headers, widths, aligns, metrics);
        let b = crate::table::body_lines(rows, i + 1, headers, widths, aligns, metrics);
        let head = seq![
            TableLineView::Row(
                headers,
                crate::table::row_texts_of(rows[i]),
                crate::table::row_links_of(rows[i]),
                widths,
                aligns,
                metrics,
            ),
        ] + (if i + 1 < rows.len() {
            seq![TableLineView::Divider(widths, crate::preview::TableDividerKind::Body, metrics)]
        } else {
            Seq::empty()
        });
        assert forall|k: int|
            0 <= k < crate::table::body_lines(rows, i, headers, widths, aligns, metrics).len() implies {
                let v = #[trigger] crate::table::body_lines(rows, i, headers, widths, aligns, metrics)[k];
                v is Row || v is Divider
            } by {
            if k >= head.len() {
                assert(crate::table::body_lines(rows, i, headers, widths, aligns, metrics)[k] == b[k
                    - head.len()]);
            }
        }
    }
}

pub proof fn lemma_rendered_table_lines(rows: Seq<Seq<CellView>>, alignments: Seq<TableAlignment>)
    ensures
        forall|k: int|
            0 <= k < crate::table::rendered_table(rows, alignments).len() ==> {
                let v = #[trigger] crate::table::rendered_table(rows, alignments)[k];
                v is Header || v is Row || v is Divider
            },
{
    let cc = crate::table::column_count(rows, rows.len() as int);
    if cc != 0 {
        let widths = Seq::new(cc, |c: int| crate::table::column_width(rows, c) as usize);
        let aligns = Seq::new(
            cc,
            |c: int|
                if c < alignments.len() {
                    alignments[c]
                } else {
                    TableAlignment::Unaligned
                },
        );
        let metrics = crate::table::table_metrics(rows, widths);
        let headers = crate::table::row_texts_of(rows[0]);
        lemma_body_lines_are_table(rows, 1, headers, widths, aligns, metrics);
        let b = crate::table::body_lines(rows, 1, headers, widths, aligns, metrics);
        assert forall|k: int| 0 <= k < crate::table::rendered_table(rows, alignments).len() implies {
            let v = #[trigger] crate::table::rendered_table(rows, alignments)[k];
            v is Header || v is Row || v is Divider
        } by {
            if k >= 2 {
                assert(crate::table::rendered_table(rows, alignments)[k] == b[k - 2]);
            }
        }
    }
}

impl MarkdownState {
    fn start_table(&mut self, alignments: Vec<TableAlignment>)
        ensures
            final(self).model() == md_start_table(old(self).model(), alignments@),
    {
        let ghost m = self.model();
        let ghost a = alignments@;
        self.table = Some(
            TableParseState {
                alignments,
                rows: Vec::new(),
                row_has_pipe_syntax: Vec::new(),
                current_row: None,
                current_cell: None,
                current_row_has_pipe_syntax: false,
            },
        );
        assert(self.model().table.unwrap().rows =~= Seq::<Seq<CellView>>::empty());
        assert(self.model() =~= md_start_table(m, a));
    }

    fn start_row(&mut self, pipe: bool)
        ensures
            final(self).model() == md_start_row(old(self).model(), pipe),
    {
        let ghost m = self.model();
        if self.table.is_some() {
            let mut t = self.table.take().unwrap();
            t.current_row = Some(Vec::new());
            t.current_row_has_pipe_syntax = pipe;
            self.table = Some(t);
            assert(self.model().table.unwrap().row.unwrap() =~= Seq::<CellView>::empty());
            assert(self.model() =~= md_start_row(m, pipe));
        }
    }

    fn start_cell(&mut self)
        ensures
            final(self).model() == md_start_cell(old(self).model()),
    {
        let ghost m = self.model();
        if self.table.is_some() {
            let mut t = self.table.take().unwrap();
            t.current_cell = Some(TableCell::new());
            self.table = Some(t);
            assert(self.model().table.unwrap().cell.unwrap().1 =~= Seq::<crate::table::LinkView>::empty());
            assert(self.model() =~= md_start_cell(m));
        }
    }

    fn end_row(&mut self)
        ensures
            final(self).model() == md_end_row(old(self).model()),
    {
        let ghost m = self.model();
        if self.table.is_some() {
            let mut t = self.table.take().unwrap();
            if t.current_row.is_some() {
                let r = t.current_row.take().unwrap();
                let ghost rv = row_view(r@);
                t.rows.push(r);
                let p = t.current_row_has_pipe_syntax;
                t.row_has_pipe_syntax.push(p);
                t.current_row_has_pipe_syntax = false;
                self.table = Some(t);
                assert(self.model().table.unwrap().rows =~= m.table.unwrap().rows.push(rv));
                assert(self.model() =~= md_end_row(m));
            } else {
                self.table = Some(t);
                assert(self.model() =~= m);
            }
        }
    }

    fn end_cell(&mut self)
        requires
            cell_end_ok(old(self).model()),
        ensures
            final(self).model() == md_end_cell(old(self).model()),
    {
        let ghost m = self.model();
        if self.table.is_none() {
            return;
        }
        let mut t = self.table.take().unwrap();
        if t.current_cell.is_none() {
            self.table = Some(t);
            assert(self.model() =~= m);
            return;
        }
        let c = t.current_cell.take().unwrap();
        if t.current_row.is_some() {
            let mut r = t.current_row.take().unwrap();
            let ghost rv = row_view(r@);
            let trimmed = c.trimmed();
            r.push(trimmed);
            assert(row_view(r@) =~= rv.push(cell_view(trimmed)));
            t.current_row = Some(r);
        }
        self.table = Some(t);
        assert(self.model() =~= md_end_cell(m));
    }

    fn push_table_lines(&mut self, lines: Vec<PreviewLine>)
        requires
            forall|k: int|
                0 <= k < lines@.len() ==> {
                    let v = #[trigger] table_line_view(lines@[k]);
                    v is Header || v is Row || v is Divider
                },
        ensures
            final(self).model() == md_push_lines(
                old(self).model(),
                table_plines(crate::table::table_line_views(lines@)),
            ),
    {
        broadcast use vstd::std_specs::vec::axiom_spec_into_iter;

        let ghost m = self.model();
        let ghost all = lines@;
        let ghost pl = table_plines(crate::table::table_line_views(lines@));
        assert(pl.take(0) =~= Seq::<PLine>::empty());
        for line in it: lines.into_iter()
            invariant
                it.seq() == all,
                pl == table_plines(crate::table::table_line_views(all)),
                forall|k: int|
                    0 <= k < all.len() ==> {
                        let v = #[trigger] table_line_view(all[k]);
                        v is Header || v is Row || v is Divider
                    },
                self.model() == md_push_lines(m, pl.take(it.index() as int)),
        {
            let ghost k = it.index() as int;
            assert(line == all[k]);
            assert(pline(line) == pl[k]);
            proof {
                lemma_push_lines_step(m, pl, k);
            }
            self.push_output(line);
        }
        assert(pl.take(all.len() as int) =~= pl);
    }

    fn end_table(&mut self)
        requires
            table_end_ok(old(self).model()),
        ensures
            final(self).model() == md_end_table(old(self).model()),
    {
        let ghost m = self.model();
        if self.table.is_none() {
            return;
        }
        let t = self.table.take().unwrap();
        let ghost tm = table_m(t);
        assert(self.model() =~= Md { table: None, ..m });
        let (rows, spill) = crate::table::split_table_rows_and_spillover(t.rows, t.row_has_pipe_syntax.as_slice());
        let lines = crate::table::render_table_lines(rows.as_slice(), t.alignments.as_slice());
        proof {
            lemma_rendered_table_lines(rows_view(rows@), t.alignments@);
            assert forall|k: int| 0 <= k < lines@.len() implies {
                let v = #[trigger] table_line_view(lines@[k]);
                v is Header || v is Row || v is Divider
            } by {
                assert(crate::table::table_line_views(lines@)[k] == table_line_view(lines@[k]));
            }
        }
        self.push_table_lines(lines);
        let mut texts: Vec<Vec<char>> = Vec::new();
        let mut i: usize = 0;
        while i < spill.len()
            invariant
                i <= spill.len(),
                texts@.len() == i,
                forall|k: int| 0 <= k < i ==> #[trigger] texts@[k]@ == spill.deep_view()[k],
            decreases spill.len() - i,
        {
            texts.push(chars_of(spill[i].as_str()));
            i = i + 1;
        }
        assert(crate::text::seqs(texts@) =~= spill.deep_view());
        self.push_plain_lines(texts);
    }

    fn task_list_marker(&mut self, checked: bool)
        ensures
            final(self).model() == (if old(self).model().items.len() > 0 {
                md_set_item(old(self).model(), ItemM { checkbox: Some(checked), ..old(self).model().items.last() })
            } else {
                old(self).model()
            }),
    {
        let ghost m = self.model();
        if self.item_stack.len() > 0 {
            let mut it = self.item_stack.pop().unwrap();
            it.checkbox = Some(checked);
            self.item_stack.push(it);
            assert(self.model() =~= md_set_item(m, ItemM { checkbox: Some(checked), ..m.items.last() }));
        }
    }
}

// ---------------------------------------------------------------------------
// Events
// ---------------------------------------------------------------------------
/// The start of a markdown element, as the renderer reads it.
pub enum MdTag {
    Heading(u8),
    /// A code block: the info string of a fenced one, `None` for an
    /// indented one.
    CodeBlock(Option<String>),
    /// A list: the number of its first item when it is numbered.
    List(Option<u64>),
    Item,
    Strong,
    Emphasis,
    Strikethrough,
    Table(Vec<TableAlignment>),
    /// A table's head or body row, and whether its source line starts or
    /// ends with `|`.
    TableRow(bool),
    TableCell,
    BlockQuote,
    /// A link: its destination, and how it is shown when it names a local
    /// file (see [`local_target_display`]).
    Link(String, Option<String>),
    Paragraph,
    Other,
}

/// The end of a markdown element.
pub enum MdTagEnd {
    Heading,
    /// The end of a code block, with the highlighter's lines for its code
    /// when it has a language the highlighter knows.
    CodeBlock(Option<Vec<Vec<PreviewSpan>>>),
    List,
    Item,
    Paragraph,
    Strong,
    Emphasis,
    Strikethrough,
    Table,
    TableRow,
    TableCell,
    BlockQuote,
    Link,
    Other,
}

/// A markdown parser event with the source offsets the renderer uses.
pub enum MdEvent {
    /// An element starts; the source range it covers.
    Start(MdTag, PreviewSourceRange),
    End(MdTagEnd),
    /// Text and the source offset where it starts.
    Text(String, usize),
    Code(String),
    /// A soft or hard line break.
    Break,
    Rule,
    Html(String),
    InlineHtml(String),
    TaskListMarker(bool),
    Other,
}

pub enum TagV {
    Heading(u8),
    CodeBlock(Option<Seq<char>>),
    List(Option<u64>),
    Item,
    Strong,
    Emphasis,
    Strikethrough,
    Table(Seq<TableAlignment>),
    TableRow(bool),
    TableCell,
    BlockQuote,
    Link(Seq<char>, Option<Seq<char>>),
    Paragraph,
    Other,
}

pub enum EndV {
    Heading,
    CodeBlock(Option<Seq<Seq<SpanView>>>),
    List,
    Item,
    Paragraph,
    Strong,
    Emphasis,
    Strikethrough,
    Table,
    TableRow,
    TableCell,
    BlockQuote,
    Link,
    Other,
}

pub enum EvV {
    Start(TagV, PreviewSourceRange),
    End(EndV),
    Text(Seq<char>, int),
    Code(Seq<char>),
    Break,
    Rule,
    Html(Seq<char>),
    InlineHtml(Seq<char>),
    TaskListMarker(bool),
    Other,
}

pub open spec fn opt_chars(o: Option<String>) -> Option<Seq<char>> {
    match o {
        Some(s) => Some(s@),
        None => None,
    }
}

pub open spec fn tag_v(t: MdTag) -> TagV {
    match t {
        MdTag::Heading(l) => TagV::Heading(l),
        MdTag::CodeBlock(i) => TagV::CodeBlock(opt_chars(i)),
        MdTag::List(s) => TagV::List(s),
        MdTag::Item => TagV::Item,
        MdTag::Strong => TagV::Strong,
        MdTag::Emphasis => TagV::Emphasis,
        MdTag::Strikethrough => TagV::Strikethrough,
        MdTag::Table(a) => TagV::Table(a@),
        MdTag::TableRow(p) => TagV::TableRow(p),
        MdTag::TableCell => TagV::TableCell,
        MdTag::BlockQuote => TagV::BlockQuote,
        MdTag::Link(d, l) => TagV::Link(d@, opt_chars(l)),
        MdTag::Paragraph => TagV::Paragraph,
        MdTag::Other => TagV::Other,
    }
}

pub open spec fn end_v(t: MdTagEnd) -> EndV {
    match t {
        MdTagEnd::Heading => EndV::Heading,
        MdTagEnd::CodeBlock(h) => EndV::CodeBlock(
            match h {
                Some(ls) => Some(span_lines_of(ls@)),
                None => None,
            },
        ),
        MdTagEnd::List => EndV::List,
        MdTagEnd::Item => EndV::Item,
        MdTagEnd::Paragraph => EndV::Paragraph,
        MdTagEnd::Strong => EndV::Strong,
        MdTagEnd::Emphasis => EndV::Emphasis,
        MdTagEnd::Strikethrough => EndV::Strikethrough,
        MdTagEnd::Table => EndV::Table,
        MdTagEnd::TableRow => EndV::TableRow,
        MdTagEnd::TableCell => EndV::TableCell,
        MdTagEnd::BlockQuote => EndV::BlockQuote,
        MdTagEnd::Link => EndV::Link,
        MdTagEnd::Other => EndV::Other,
    }
}

pub open spec fn ev_v(e: MdEvent) -> EvV {
    match e {
        MdEvent::Start(t, r) => EvV::Start(tag_v(t), r),
        MdEvent::End(t) => EvV::End(end_v(t)),
        MdEvent::Text(t, s) => EvV::Text(t@, s as int),
        MdEvent::Code(c) => EvV::Code(c@),
        MdEvent::Break => EvV::Break,
        MdEvent::Rule => EvV::Rule,
        MdEvent::Html(h) => EvV::Html(h@),
        MdEvent::InlineHtml(h) => EvV::InlineHtml(h@),
        MdEvent::TaskListMarker(c) => EvV::TaskListMarker(c),
        MdEvent::Other => EvV::Other,
    }
}

pub open spec fn ev_vs(v: Seq<MdEvent>) -> Seq<EvV> {
    Seq::new(v.len(), |i: int| ev_v(v[i]))
}

pub open spec fn md_start(m: Md, t: TagV, r: PreviewSourceRange) -> Md {
    match t {
        TagV::Heading(l) => Md { heading: Some((l, Seq::empty())), ..m },
        TagV::CodeBlock(i) => md_start_code(m, i),
        TagV::List(s) => md_start_list(m, s),
        TagV::Item => md_start_item(m),
        TagV::Strong => Md { strong: m.strong + 1, ..m },
        TagV::Emphasis => Md { emphasis: m.emphasis + 1, ..m },
        TagV::Strikethrough => Md { strike: m.strike + 1, ..m },
        TagV::Table(a) => md_start_table(m, a),
        TagV::TableRow(p) => md_start_row(m, p),
        TagV::TableCell => md_start_cell(m),
        TagV::BlockQuote => md_start_quote(m),
        TagV::Link(d, l) => Md { link: Some(LinkM { destination: d, range: r, local_display: l }), ..m },
        TagV::Paragraph => md_start_paragraph(m),
        TagV::Other => m,
    }
}

pub open spec fn dec(n: int) -> int {
    if n > 0 {
        n - 1
    } else {
        0
    }
}

pub open spec fn md_end(m: Md, t: EndV) -> Md {
    match t {
        EndV::Heading => md_end_heading(m),
        EndV::CodeBlock(h) => md_end_code(m, h),
        EndV::List => md_end_list(m),
        EndV::Item => md_end_item(m),
        EndV::Paragraph => md_end_paragraph(m),
        EndV::Strong => Md { strong: dec(m.strong), ..m },
        EndV::Emphasis => Md { emphasis: dec(m.emphasis), ..m },
        EndV::Strikethrough => Md { strike: dec(m.strike), ..m },
        EndV::Table => md_end_table(m),
        EndV::TableRow => md_end_row(m),
        EndV::TableCell => md_end_cell(m),
        EndV::BlockQuote => md_end_quote(m),
        EndV::Link => md_end_link(m),
        EndV::Other => m,
    }
}

/// A thematic break: a rule of 24 box-drawing characters.
pub open spec fn rule_text() -> Seq<char> {
    repeated("\u{2500}"@, 24)
}

/// What one event does to the state.
pub open spec fn md_event(m: Md, e: EvV) -> Md {
    match e {
        EvV::Start(t, r) => md_start(m, t, r),
        EvV::End(t) => md_end(m, t),
        EvV::Text(t, s) => md_text(m, t, s),
        EvV::Code(c) => md_code(m, c),
        EvV::Break => md_break(m),
        EvV::Rule => md_push_output(m, PLine::Plain(rule_text())),
        EvV::Html(h) => md_html(m, h),
        EvV::InlineHtml(h) => md_text(m, h, 0),
        EvV::TaskListMarker(c) => if m.items.len() > 0 {
            md_set_item(m, ItemM { checkbox: Some(c), ..m.items.last() })
        } else {
            m
        },
        EvV::Other => m,
    }
}

/// Whether the renderer can take an event in a state: counters and list
/// numbers do not overflow, a cell that ends is not all whitespace, and
/// every text stays measurable.
pub open spec fn event_ok(m: Md, e: EvV) -> bool {
    match e {
        EvV::Start(t, _) => match t {
            TagV::Item => m.lists.len() > 0 && m.lists.last() is Some ==> m.lists.last().unwrap()
                < u64::MAX,
            TagV::Strong => m.strong < usize::MAX,
            TagV::Emphasis => m.emphasis < usize::MAX,
            TagV::Strikethrough => m.strike < usize::MAX,
            TagV::BlockQuote => m.depth < usize::MAX,
            _ => true,
        },
        EvV::End(t) => match t {
            EndV::Link => cell_room(m, link_end_len(m)),
            EndV::TableCell => cell_end_ok(m),
            EndV::Table => table_end_ok(m),
            _ => true,
        },
        EvV::Text(t, s) => text_ok(m, t, s),
        EvV::Code(c) => cell_room(m, c.len() as int + 1),
        EvV::Break => cell_room(m, 1),
        EvV::Html(h) => text_ok(m, h, 0),
        EvV::InlineHtml(h) => text_ok(m, h, 0),
        _ => true,
    }
}

/// The state after a run of events.
pub open spec fn md_run(m: Md, evs: Seq<EvV>) -> Md
    decreases evs.len(),
{
    if evs.len() == 0 {
        m
    } else {
        md_event(md_run(m, evs.drop_last()), evs.last())
    }
}

/// Every event of the run can be taken where it comes.
pub open spec fn run_ok(m: Md, evs: Seq<EvV>) -> bool
    decreases evs.len(),
{
    evs.len() == 0 || (run_ok(m, evs.drop_last()) && event_ok(md_run(m, evs.drop_last()), evs.last()))
}

/// The lines a run of events renders as: its output once the last
/// paragraph is flushed.
pub open spec fn md_rendered(evs: Seq<EvV>) -> Seq<PLine> {
    md_flush(md_run(md_initial(), evs)).output
}

impl MarkdownState {
    fn start_tag(&mut self, tag: MdTag, range: PreviewSourceRange)
        requires
            event_ok(old(self).model(), EvV::Start(tag_v(tag), range)),
        ensures
            final(self).model() == md_start(old(self).model(), tag_v(tag), range),
    {
        let ghost m = self.model();
        match tag {
            MdTag::Heading(l) => self.start_heading(l),
            MdTag::CodeBlock(i) => self.start_code_block(i),
            MdTag::List(s) => self.start_list(s),
            MdTag::Item => self.start_item(),
            MdTag::Strong => {
                self.strong = self.strong + 1;
                assert(self.model() =~= md_start(m, tag_v(tag), range));
            },
            MdTag::Emphasis => {
                self.emphasis = self.emphasis + 1;
                assert(self.model() =~= md_start(m, tag_v(tag), range));
            },
            MdTag::Strikethrough => {
                self.strikethrough = self.strikethrough + 1;
                assert(self.model() =~= md_start(m, tag_v(tag), range));
            },
            MdTag::Table(a) => self.start_table(a),
            MdTag::TableRow(p) => self.start_row(p),
            MdTag::TableCell => self.start_cell(),
            MdTag::BlockQuote => self.start_blockquote(),
            MdTag::Link(d, l) => self.start_link(d, range, l),
            MdTag::Paragraph => self.start_paragraph(),
            MdTag::Other => {},
        }
    }

    fn end_tag(&mut self, tag: MdTagEnd)
        requires
            event_ok(old(self).model(), EvV::End(end_v(tag))),
        ensures
            final(self).model() == md_end(old(self).model(), end_v(tag)),
    {
        let ghost m = self.model();
        match tag {
            MdTagEnd::Heading => self.end_heading(),
            MdTagEnd::CodeBlock(h) => self.end_code_block(h),
            MdTagEnd::List => self.end_list(),
            MdTagEnd::Item => self.end_item(),
            MdTagEnd::Paragraph => self.end_paragraph(),
            MdTagEnd::Strong => {
                self.strong = if self.strong > 0 {
                    self.strong - 1
                } else {
                    0
                };
                assert(self.model() =~= md_end(m, end_v(tag)));
            },
            MdTagEnd::Emphasis => {
                self.emphasis = if self.emphasis > 0 {
                    self.emphasis - 1
                } else {
                    0
                };
                assert(self.model() =~= md_end(m, end_v(tag)));
            },
            MdTagEnd::Strikethrough => {
                self.strikethrough = if self.strikethrough > 0 {
                    self.strikethrough - 1
                } else {
                    0
                };
                assert(self.model() =~= md_end(m, end_v(tag)));
            },
            MdTagEnd::Table => self.end_table(),
            MdTagEnd::TableRow => self.end_row(),
            MdTagEnd::TableCell => self.end_cell(),
            MdTagEnd::BlockQuote => self.end_blockquote(),
            MdTagEnd::Link => self.end_link(),
            MdTagEnd::Other => {},
        }
    }

    /// Takes one event.
    pub fn event(&mut self, e: MdEvent)
        requires
            event_ok(old(self).model(), ev_v(e)),
        ensures
            final(self).model() == md_event(old(self).model(), ev_v(e)),
    {
        match e {
            MdEvent::Start(t, r) => self.start_tag(t, r),
            MdEvent::End(t) => self.end_tag(t),
            MdEvent::Text(t, s) => self.text_with_range(t.as_str(), s),
            MdEvent::Code(c) => self.code(c.as_str()),
            MdEvent::Break => self.soft_break(),
            MdEvent::Rule => {
                let r = repeat_str("\u{2500}", 24);
                self.push_output(PreviewLine::Plain(string_of(r.as_slice())));
            },
            MdEvent::Html(h) => self.html(h.as_str()),
            MdEvent::InlineHtml(h) => self.text_with_range(h.as_str(), 0),
            MdEvent::TaskListMarker(c) => self.task_list_marker(c),
            MdEvent::Other => {},
        }
    }

    /// Whether `cell_room` holds with `extra` more characters.
    fn cell_room_for(&self, extra: u128) -> (b: bool)
        ensures
            b == cell_room(self.model(), extra as int),
    {
        match &self.table {
            Some(t) => match &t.current_cell {
                Some(c) => {
                    let n = chars_of(c.text.as_str()).len() as u128;
                    let half = usize::MAX as u128 / 2;
                    n <= half && extra <= half - n
                },
                None => true,
            },
            None => true,
        }
    }

    fn link_end_len_now(&self) -> (n: u128)
        ensures
            n == link_end_len(self.model()),
    {
        match &self.link {
            Some(l) => match &l.local_target_display {
                Some(d) => chars_of(d.as_str()).len() as u128,
                None => chars_of(l.destination.as_str()).len() as u128 + 3,
            },
            None => 0,
        }
    }

    fn text_ok_now(&self, text: &str, start: usize) -> (b: bool)
        ensures
            b == text_ok(self.model(), text@, start as int),
    {
        let cs = chars_of(text);
        let bytes = crate::graph::utf8_len_of(cs.as_slice());
        self.cell_room_for(cs.len() as u128 + 1) && (start as u128) + (bytes as u128)
            <= usize::MAX as u128
    }

    fn cell_end_ok_now(&self) -> (b: bool)
        ensures
            b == cell_end_ok(self.model()),
    {
        match &self.table {
            Some(t) => match &t.current_cell {
                Some(c) => {
                    let cs = chars_of(c.text.as_str());
                    crate::text::first_non_ws(cs.as_slice()) <= crate::text::end_non_ws(cs.as_slice())
                        && cs.len() <= usize::MAX / 2
                },
                None => true,
            },
            None => true,
        }
    }

    /// Whether the renderer can take `e` now (see [`event_ok`]).
    pub fn can_take(&self, e: &MdEvent) -> (b: bool)
        ensures
            b == event_ok(self.model(), ev_v(*e)),
    {
        match e {
            MdEvent::Start(t, _) => match t {
                MdTag::Item => match self.list_stack.last() {
                    Some(Some(n)) => *n < u64::MAX,
                    _ => true,
                },
                MdTag::Strong => self.strong < usize::MAX,
                MdTag::Emphasis => self.emphasis < usize::MAX,
                MdTag::Strikethrough => self.strikethrough < usize::MAX,
                MdTag::BlockQuote => self.blockquote_depth < usize::MAX,
                _ => true,
            },
            MdEvent::End(t) => match t {
                MdTagEnd::Link => {
                    let n = self.link_end_len_now();
                    self.cell_room_for(n)
                },
                MdTagEnd::TableCell => self.cell_end_ok_now(),
                MdTagEnd::Table => match &self.table {
                    Some(t) => crate::table::kept_rows_fit(&t.rows, t.row_has_pipe_syntax.as_slice()),
                    None => true,
                },
                _ => true,
            },
            MdEvent::Text(t, st) => self.text_ok_now(t.as_str(), *st),
            MdEvent::Code(c) => self.cell_room_for(chars_of(c.as_str()).len() as u128 + 1),
            MdEvent::Break => self.cell_room_for(1),
            MdEvent::Html(h) => self.text_ok_now(h.as_str(), 0),
            MdEvent::InlineHtml(h) => self.text_ok_now(h.as_str(), 0),
            _ => true,
        }
    }

    /// The rendered lines, once the last paragraph is flushed.
    pub fn finish(self) -> (r: Vec<PreviewLine>)
        ensures
            plines(r@) == md_flush(self.model()).output,
    {
        let mut s = self;
        s.flush_inline_spans();
        s.output
    }
}

/// Renders a document from its parser events.
pub fn render_markdown_events(events: Vec<MdEvent>) -> (r: Vec<PreviewLine>)
    requires
        run_ok(md_initial(), ev_vs(events@)),
    ensures
        plines(r@) == md_rendered(ev_vs(events@)),
{
    broadcast use vstd::std_specs::vec::axiom_spec_into_iter;

    let ghost all = events@;
    let ghost evs = ev_vs(all);
    let mut state = MarkdownState::new();
    assert(evs.take(0) =~= Seq::<EvV>::empty());
    for e in it: events.into_iter()
        invariant
            it.seq() == all,
            evs == ev_vs(all),
            run_ok(md_initial(), evs),
            state.model() == md_run(md_initial(), evs.take(it.index() as int)),
    {
        let ghost k = it.index() as int;
        assert(e == all[k]);
        proof {
            assert(evs.take(k + 1).drop_last() =~= evs.take(k));
            lemma_run_ok_prefix(md_initial(), evs, k + 1);
        }
        state.event(e);
    }
    assert(evs.take(all.len() as int) =~= evs);
    state.finish()
}

/// Renders a document from its parser events, or gives `None` when some
/// event cannot be taken where it comes (see [`event_ok`]): exactly the runs
/// [`render_markdown_events`] refuses.
pub fn render_events_checked(events: Vec<MdEvent>) -> (r: Option<Vec<PreviewLine>>)
    ensures
        r is Some <==> run_ok(md_initial(), ev_vs(events@)),
        r matches Some(lines) ==> plines(lines@) == md_rendered(ev_vs(events@)),
{
    let ghost all = events@;
    let ghost evs = ev_vs(all);
    let mut state = MarkdownState::new();
    broadcast use vstd::std_specs::vec::axiom_spec_into_iter;

    assert(evs.take(0) =~= Seq::<EvV>::empty());
    for e in it: events.into_iter()
        invariant
            it.seq() == all,
            evs == ev_vs(all),
            run_ok(md_initial(), evs.take(it.index() as int)),
            state.model() == md_run(md_initial(), evs.take(it.index() as int)),
    {
        let ghost k = it.index() as int;
        assert(e == all[k]);
        proof {
            assert(evs.take(k + 1).drop_last() =~= evs.take(k));
            assert(evs.take(k + 1).last() == ev_v(e));
        }
        if !state.can_take(&e) {
            proof {
                if run_ok(md_initial(), evs) {
                    lemma_run_ok_prefix(md_initial(), evs, k + 1);
                }
            }
            return None;
        }
        state.event(e);
    }
    let ghost k = all.len() as int;
    assert(evs.take(k) =~= evs);
    Some(state.finish())
}

pub proof fn lemma_run_ok_prefix(m: Md, evs: Seq<EvV>, n: int)
    requires
        run_ok(m, evs),
        0 <= n <= evs.len(),
    ensures
        run_ok(m, evs.take(n)),
    decreases evs.len() - n,
{
    if n < evs.len() {
        lemma_run_ok_prefix(m, evs, n + 1);
        assert(evs.take(n + 1).drop_last() =~= evs.take(n));
    } else {
        assert(evs.take(n) =~= evs);
    }
}

// ---------------------------------------------------------------------------
// What the events carry
// ---------------------------------------------------------------------------
/// How a link is shown when it names a local file: its rendered target, or
/// `None` for other links.
pub fn local_target_display(dest: &str, cwd: Option<&str>, home: Option<&str>) -> (r: Option<String>)
    ensures
        !crate::links::is_local_path_like(dest@) ==> r is None,
        crate::links::is_local_path_like(dest@) ==> crate::links::shows_local_target(
            dest@,
            crate::links::opt_str(cwd),
            crate::links::opt_str(home),
            opt_chars(r),
        ),
{
    if crate::links::is_local_path_like_link(dest) {
        crate::links::render_local_link_target(dest, cwd, home)
    } else {
        None
    }
}

/// Calls `str::get` with a byte range. Claimed, as its documentation says:
/// it gives the text between the two offsets when both lie on character
/// boundaries of the text (the first not after the second), and nothing
/// otherwise.
#[verifier::external_body]
fn str_get(s: &str, start: usize, end: usize) -> (r: Option<String>)
    ensures
        r is Some <==> (start <= end && vstd::utf8::is_char_boundary(encode_utf8(s@), start as int)
            && vstd::utf8::is_char_boundary(encode_utf8(s@), end as int)),
        r matches Some(t) ==> encode_utf8(t@) == encode_utf8(s@).subrange(start as int, end as int),
{
    s.get(start..end).map(str::to_owned)
}

/// The source text between two byte offsets, when they are character
/// boundaries.
pub open spec fn source_slice(source: Seq<char>, start: int, end: int) -> Option<Seq<char>> {
    let b = encode_utf8(source);
    if start <= end && vstd::utf8::is_char_boundary(b, start) && vstd::utf8::is_char_boundary(b, end) {
        Some(vstd::utf8::decode_utf8(b.subrange(start, end)))
    } else {
        None
    }
}

/// A table row whose source line, trimmed, starts or ends with `|`.
pub open spec fn has_boundary_pipe(row: Option<Seq<char>>) -> bool {
    match row {
        Some(r) => starts_with(crate::text::trim(r), seq!['|']) || crate::text::ends_with(
            crate::text::trim(r),
            seq!['|'],
        ),
        None => false,
    }
}

pub fn row_has_boundary_pipe(source: &str, start: usize, end: usize) -> (b: bool)
    ensures
        b == has_boundary_pipe(source_slice(source@, start as int, end as int)),
{
    broadcast use vstd::utf8::encode_utf8_decode_utf8;

    match str_get(source, start, end) {
        None => false,
        Some(row) => {
            proof {
                assert(vstd::utf8::decode_utf8(encode_utf8(row@)) == row@);
            }
            let c = chars_of(row.as_str());
            let t = crate::text::trim_chars(c.as_slice());
            proof {
                crate::links::lemma_starts_with_one(t@, '|');
                if t@.len() > 0 {
                    assert(t@.skip(t@.len() - 1) =~= seq![t@[t@.len() - 1]]);
                }
                if crate::text::ends_with(t@, seq!['|']) {
                    assert(t@.skip(t@.len() - 1)[0] == t@[t@.len() - 1]);
                }
            }
            (t.len() > 0 && t[0] == '|') || (t.len() > 0 && t[t.len() - 1] == '|')
        },
    }
}


// ---------------------------------------------------------------------------
// Reading markdown
// ---------------------------------------------------------------------------
/// An opening tag as the parser reports it.
#[derive(Debug)]
pub enum RawTag {
    Heading(u8),
    FencedCode(String),
    IndentedCode,
    List(Option<u64>),
    Item,
    Strong,
    Emphasis,
    Strikethrough,
    Table(Vec<TableAlignment>),
    TableHead,
    TableRow,
    TableCell,
    BlockQuote,
    Link(String),
    Paragraph,
    Other,
}

/// A closing tag as the parser reports it.
#[derive(Debug)]
pub enum RawTagEnd {
    Heading,
    CodeBlock,
    List,
    Item,
    Paragraph,
    Strong,
    Emphasis,
    Strikethrough,
    Table,
    TableHead,
    TableRow,
    TableCell,
    BlockQuote,
    Link,
    Other,
}

/// A parser event with the byte range of the source it covers (for text,
/// where it starts).
#[derive(Debug)]
pub enum RawMdEvent {
    Start(RawTag, usize, usize),
    End(RawTagEnd),
    Text(String, usize),
    Code(String),
    SoftBreak,
    HardBreak,
    Rule,
    Html(String),
    InlineHtml(String),
    TaskListMarker(bool),
    Other,
}

pub enum RawTagV {
    Heading(u8),
    FencedCode(Seq<char>),
    IndentedCode,
    List(Option<u64>),
    Item,
    Strong,
    Emphasis,
    Strikethrough,
    Table(Seq<TableAlignment>),
    TableHead,
    TableRow,
    TableCell,
    BlockQuote,
    Link(Seq<char>),
    Paragraph,
    Other,
}

pub enum RawEvV {
    Start(RawTagV, int, int),
    End(RawTagEnd),
    Text(Seq<char>, int),
    Code(Seq<char>),
    SoftBreak,
    HardBreak,
    Rule,
    Html(Seq<char>),
    InlineHtml(Seq<char>),
    TaskListMarker(bool),
    Other,
}

pub open spec fn raw_tag_v(t: RawTag) -> RawTagV {
    match t {
        RawTag::Heading(l) => RawTagV::Heading(l),
        RawTag::FencedCode(i) => RawTagV::FencedCode(i@),
        RawTag::IndentedCode => RawTagV::IndentedCode,
        RawTag::List(n) => RawTagV::List(n),
        RawTag::Item => RawTagV::Item,
        RawTag::Strong => RawTagV::Strong,
        RawTag::Emphasis => RawTagV::Emphasis,
        RawTag::Strikethrough => RawTagV::Strikethrough,
        RawTag::Table(a) => RawTagV::Table(a@),
        RawTag::TableHead => RawTagV::TableHead,
        RawTag::TableRow => RawTagV::TableRow,
        RawTag::TableCell => RawTagV::TableCell,
        RawTag::BlockQuote => RawTagV::BlockQuote,
        RawTag::Link(d) => RawTagV::Link(d@),
        RawTag::Paragraph => RawTagV::Paragraph,
        RawTag::Other => RawTagV::Other,
    }
}

pub open spec fn raw_ev_v(e: RawMdEvent) -> RawEvV {
    match e {
        RawMdEvent::Start(t, s, e) => RawEvV::Start(raw_tag_v(t), s as int, e as int),
        RawMdEvent::End(t) => RawEvV::End(t),
        RawMdEvent::Text(t, s) => RawEvV::Text(t@, s as int),
        RawMdEvent::Code(c) => RawEvV::Code(c@),
        RawMdEvent::SoftBreak => RawEvV::SoftBreak,
        RawMdEvent::HardBreak => RawEvV::HardBreak,
        RawMdEvent::Rule => RawEvV::Rule,
        RawMdEvent::Html(h) => RawEvV::Html(h@),
        RawMdEvent::InlineHtml(h) => RawEvV::InlineHtml(h@),
        RawMdEvent::TaskListMarker(c) => RawEvV::TaskListMarker(c),
        RawMdEvent::Other => RawEvV::Other,
    }
}

pub open spec fn raw_ev_vs(v: Seq<RawMdEvent>) -> Seq<RawEvV> {
    Seq::new(v.len(), |i: int| raw_ev_v(v[i]))
}

/// The events pulldown-cmark's parser gives for `content` with tables, task
/// lists and strikethrough enabled, each with its source range.
pub uninterp spec fn markdown_events(content: Seq<char>) -> Seq<RawEvV>;

#[verifier::external_type_specification]
#[verifier::external_body]
pub struct ExMdParserEvent<'a>(Event<'a>);

#[verifier::external_type_specification]
#[verifier::external_body]
pub struct ExMdParserTag<'a>(Tag<'a>);

#[verifier::external_type_specification]
#[verifier::external_body]
pub struct ExMdParserTagEnd(TagEnd);

#[verifier::external_type_specification]
#[verifier::external_body]
pub struct ExMdHeadingLevel(HeadingLevel);

#[verifier::external_type_specification]
#[verifier::external_body]
pub struct ExMdAlignment(Alignment);

/// Converts a pulldown-cmark heading level to its number.
#[verifier::external_body]
fn heading_number(level: HeadingLevel) -> u8 {
    match level {
        HeadingLevel::H1 => 1,
        HeadingLevel::H2 => 2,
        HeadingLevel::H3 => 3,
        HeadingLevel::H4 => 4,
        HeadingLevel::H5 => 5,
        HeadingLevel::H6 => 6,
    }
}

/// Converts pulldown-cmark column alignments, one for one.
#[verifier::external_body]
fn raw_alignments(aligns: &Vec<Alignment>) -> Vec<TableAlignment> {
    let mut out = Vec::new();
    for a in aligns.iter() {
        out.push(match a {
            Alignment::None => TableAlignment::Unaligned,
            Alignment::Left => TableAlignment::Left,
            Alignment::Center => TableAlignment::Center,
            Alignment::Right => TableAlignment::Right,
        });
    }
    out
}

/// Converts the pulldown-cmark tags without fields of their own.
#[verifier::external_body]
fn raw_plain_tag(tag: Tag<'_>) -> RawTag {
    match tag {
        Tag::Item => RawTag::Item,
        Tag::Strong => RawTag::Strong,
        Tag::Emphasis => RawTag::Emphasis,
        Tag::Strikethrough => RawTag::Strikethrough,
        Tag::TableHead => RawTag::TableHead,
        Tag::TableRow => RawTag::TableRow,
        Tag::TableCell => RawTag::TableCell,
        Tag::BlockQuote(_) => RawTag::BlockQuote,
        Tag::Paragraph => RawTag::Paragraph,
        _ => RawTag::Other,
    }
}

/// Converts a pulldown-cmark opening tag.
#[verifier::external_body]
fn raw_tag(tag: Tag<'_>) -> RawTag {
    match tag {
        Tag::Heading { level, .. } => RawTag::Heading(heading_number(level)),
        Tag::CodeBlock(CodeBlockKind::Fenced(info)) => RawTag::FencedCode(info.to_string()),
        Tag::CodeBlock(CodeBlockKind::Indented) => RawTag::IndentedCode,
        Tag::List(first) => RawTag::List(first),
        Tag::Table(aligns) => RawTag::Table(raw_alignments(&aligns)),
        Tag::Link { dest_url, .. } => RawTag::Link(dest_url.to_string()),
        other => raw_plain_tag(other),
    }
}

/// Converts the pulldown-cmark inline closing tags.
#[verifier::external_body]
fn raw_inline_end(tag: TagEnd) -> RawTagEnd {
    match tag {
        TagEnd::Strong => RawTagEnd::Strong,
        TagEnd::Emphasis => RawTagEnd::Emphasis,
        TagEnd::Strikethrough => RawTagEnd::Strikethrough,
        TagEnd::Link => RawTagEnd::Link,
        _ => RawTagEnd::Other,
    }
}

/// Converts a pulldown-cmark closing tag.
#[verifier::external_body]
fn raw_tag_end(tag: TagEnd) -> RawTagEnd {
    match tag {
        TagEnd::Heading(_) => RawTagEnd::Heading,
        TagEnd::CodeBlock => RawTagEnd::CodeBlock,
        TagEnd::List(_) => RawTagEnd::List,
        TagEnd::Item => RawTagEnd::Item,
        TagEnd::Paragraph => RawTagEnd::Paragraph,
        TagEnd::Table => RawTagEnd::Table,
        TagEnd::TableHead => RawTagEnd::TableHead,
        TagEnd::TableRow => RawTagEnd::TableRow,
        TagEnd::TableCell => RawTagEnd::TableCell,
        TagEnd::BlockQuote(_) => RawTagEnd::BlockQuote,
        other => raw_inline_end(other),
    }
}

/// Converts a pulldown-cmark event with its source range.
#[verifier::external_body]
fn raw_event(event: Event<'_>, start: usize, end: usize) -> RawMdEvent {
    match event {
        Event::Start(tag) => RawMdEvent::Start(raw_tag(tag), start, end),
        Event::End(tag) => RawMdEvent::End(raw_tag_end(tag)),
        Event::Text(text) => RawMdEvent::Text(text.to_string(), start),
        Event::Code(code) => RawMdEvent::Code(code.to_string()),
        Event::SoftBreak => RawMdEvent::SoftBreak,
        Event::HardBreak => RawMdEvent::HardBreak,
        Event::Rule => RawMdEvent::Rule,
        Event::Html(html) => RawMdEvent::Html(html.to_string()),
        Event::InlineHtml(html) => RawMdEvent::InlineHtml(html.to_string()),
        Event::TaskListMarker(checked) => RawMdEvent::TaskListMarker(checked),
        _ => RawMdEvent::Other,
    }
}

/// Runs pulldown-cmark's `Parser::new_ext` over `content` (tables, task
/// lists and strikethrough on) with `into_offset_iter`; the events are named
/// by [`markdown_events`].
#[verifier::external_body]
fn parse_markdown(content: &str) -> (r: Vec<RawMdEvent>)
    ensures
        raw_ev_vs(r@) == markdown_events(content@),
{
    let mut options = Options::empty();
    options.insert(Options::ENABLE_TABLES);
    options.insert(Options::ENABLE_TASKLISTS);
    options.insert(Options::ENABLE_STRIKETHROUGH);
    let mut out = Vec::new();
    for (event, range) in Parser::new_ext(content, options).into_offset_iter() {
        out.push(raw_event(event, range.start, range.end));
    }
    out
}

/// How a link may be shown: as [`local_target_display`] promises.
pub open spec fn shown_link(dest: Seq<char>, cwd: Option<Seq<char>>, home: Option<Seq<char>>, shown: Option<Seq<char>>) -> bool {
    &&& !crate::links::is_local_path_like(dest) ==> shown is None
    &&& crate::links::is_local_path_like(dest) ==> crate::links::shows_local_target(dest, cwd, home, shown)
}

pub open spec fn end_of_raw(t: RawTagEnd) -> EndV {
    match t {
        RawTagEnd::Heading => EndV::Heading,
        RawTagEnd::CodeBlock => EndV::CodeBlock(None),
        RawTagEnd::List => EndV::List,
        RawTagEnd::Item => EndV::Item,
        RawTagEnd::Paragraph => EndV::Paragraph,
        RawTagEnd::Strong => EndV::Strong,
        RawTagEnd::Emphasis => EndV::Emphasis,
        RawTagEnd::Strikethrough => EndV::Strikethrough,
        RawTagEnd::Table => EndV::Table,
        RawTagEnd::TableHead => EndV::TableRow,
        RawTagEnd::TableRow => EndV::TableRow,
        RawTagEnd::TableCell => EndV::TableCell,
        RawTagEnd::BlockQuote => EndV::BlockQuote,
        RawTagEnd::Link => EndV::Link,
        RawTagEnd::Other => EndV::Other,
    }
}

/// The opening tag the renderer takes for a parser tag of `content` (links
/// are handled in [`converts`]): a table row records whether its source
/// line starts or ends with `|`.
pub open spec fn tag_of_raw(content: Seq<char>, t: RawTagV, s: int, e: int) -> TagV {
    match t {
        RawTagV::Heading(l) => TagV::Heading(l),
        RawTagV::FencedCode(i) => TagV::CodeBlock(Some(i)),
        RawTagV::IndentedCode => TagV::CodeBlock(None),
        RawTagV::List(n) => TagV::List(n),
        RawTagV::Item => TagV::Item,
        RawTagV::Strong => TagV::Strong,
        RawTagV::Emphasis => TagV::Emphasis,
        RawTagV::Strikethrough => TagV::Strikethrough,
        RawTagV::Table(a) => TagV::Table(a),
        RawTagV::TableHead => TagV::TableRow(has_boundary_pipe(source_slice(content, s, e))),
        RawTagV::TableRow => TagV::TableRow(has_boundary_pipe(source_slice(content, s, e))),
        RawTagV::TableCell => TagV::TableCell,
        RawTagV::BlockQuote => TagV::BlockQuote,
        RawTagV::Link(d) => TagV::Link(d, None),
        RawTagV::Paragraph => TagV::Paragraph,
        RawTagV::Other => TagV::Other,
    }
}

/// Whether `ev` is the renderer event for parser event `raw` of `content`:
/// code blocks carry no highlighting, both breaks are one break, and a
/// link carries how it is shown (see [`shown_link`]).
pub open spec fn converts(content: Seq<char>, cwd: Option<Seq<char>>, home: Option<Seq<char>>, raw: RawEvV, ev: EvV) -> bool {
    match raw {
        RawEvV::Start(RawTagV::Link(d), s, e) => exists|shown: Option<Seq<char>>|
            #[trigger] shown_link(d, cwd, home, shown)
                && ev == EvV::Start(TagV::Link(d, shown), PreviewSourceRange { start: s as usize, end: e as usize }),
        RawEvV::Start(t, s, e) => ev == EvV::Start(
            tag_of_raw(content, t, s, e),
            PreviewSourceRange { start: s as usize, end: e as usize },
        ),
        RawEvV::End(t) => ev == EvV::End(end_of_raw(t)),
        RawEvV::Text(t, s) => ev == EvV::Text(t, s),
        RawEvV::Code(c) => ev == EvV::Code(c),
        RawEvV::SoftBreak => ev == EvV::Break,
        RawEvV::HardBreak => ev == EvV::Break,
        RawEvV::Rule => ev == EvV::Rule,
        RawEvV::Html(h) => ev == EvV::Html(h),
        RawEvV::InlineHtml(h) => ev == EvV::InlineHtml(h),
        RawEvV::TaskListMarker(c) => ev == EvV::TaskListMarker(c),
        RawEvV::Other => ev == EvV::Other,
    }
}

fn end_event(t: RawTagEnd) -> (r: MdTagEnd)
    ensures
        end_v(r) == end_of_raw(t),
{
    match t {
        RawTagEnd::Heading => MdTagEnd::Heading,
        RawTagEnd::CodeBlock => MdTagEnd::CodeBlock(None),
        RawTagEnd::List => MdTagEnd::List,
        RawTagEnd::Item => MdTagEnd::Item,
        RawTagEnd::Paragraph => MdTagEnd::Paragraph,
        RawTagEnd::Strong => MdTagEnd::Strong,
        RawTagEnd::Emphasis => MdTagEnd::Emphasis,
        RawTagEnd::Strikethrough => MdTagEnd::Strikethrough,
        RawTagEnd::Table => MdTagEnd::Table,
        RawTagEnd::TableHead => MdTagEnd::TableRow,
        RawTagEnd::TableRow => MdTagEnd::TableRow,
        RawTagEnd::TableCell => MdTagEnd::TableCell,
        RawTagEnd::BlockQuote => MdTagEnd::BlockQuote,
        RawTagEnd::Link => MdTagEnd::Link,
        RawTagEnd::Other => MdTagEnd::Other,
    }
}

fn start_event(content: &str, cwd: Option<&str>, home: Option<&str>, t: RawTag, s: usize, e: usize) -> (r: MdEvent)
    ensures
        converts(content@, crate::links::opt_str(cwd), crate::links::opt_str(home), RawEvV::Start(raw_tag_v(t), s as int, e as int), ev_v(r)),
{
    let range = PreviewSourceRange { start: s, end: e };
    let tag = match t {
        RawTag::Heading(l) => MdTag::Heading(l),
        RawTag::FencedCode(i) => MdTag::CodeBlock(Some(i)),
        RawTag::IndentedCode => MdTag::CodeBlock(None),
        RawTag::List(n) => MdTag::List(n),
        RawTag::Item => MdTag::Item,
        RawTag::Strong => MdTag::Strong,
        RawTag::Emphasis => MdTag::Emphasis,
        RawTag::Strikethrough => MdTag::Strikethrough,
        RawTag::Table(a) => MdTag::Table(a),
        RawTag::TableHead => MdTag::TableRow(row_has_boundary_pipe(content, s, e)),
        RawTag::TableRow => MdTag::TableRow(row_has_boundary_pipe(content, s, e)),
        RawTag::TableCell => MdTag::TableCell,
        RawTag::BlockQuote => MdTag::BlockQuote,
        RawTag::Link(d) => {
            let shown = local_target_display(d.as_str(), cwd, home);
            let ghost sv = opt_chars(shown);
            assert(shown_link(d@, crate::links::opt_str(cwd), crate::links::opt_str(home), sv));
            MdTag::Link(d, shown)
        },
        RawTag::Paragraph => MdTag::Paragraph,
        RawTag::Other => MdTag::Other,
    };
    MdEvent::Start(tag, range)
}

/// The renderer event for one parser event of `content`.
pub fn convert_event(content: &str, cwd: Option<&str>, home: Option<&str>, raw: RawMdEvent) -> (r: MdEvent)
    ensures
        converts(content@, crate::links::opt_str(cwd), crate::links::opt_str(home), raw_ev_v(raw), ev_v(r)),
{
    match raw {
        RawMdEvent::Start(t, s, e) => start_event(content, cwd, home, t, s, e),
        RawMdEvent::End(t) => MdEvent::End(end_event(t)),
        RawMdEvent::Text(t, s) => MdEvent::Text(t, s),
        RawMdEvent::Code(c) => MdEvent::Code(c),
        RawMdEvent::SoftBreak => MdEvent::Break,
        RawMdEvent::HardBreak => MdEvent::Break,
        RawMdEvent::Rule => MdEvent::Rule,
        RawMdEvent::Html(h) => MdEvent::Html(h),
        RawMdEvent::InlineHtml(h) => MdEvent::InlineHtml(h),
        RawMdEvent::TaskListMarker(c) => MdEvent::TaskListMarker(c),
        RawMdEvent::Other => MdEvent::Other,
    }
}

/// Whether `evs` are the renderer events for the parser events `raws`.
pub open spec fn converts_all(content: Seq<char>, cwd: Option<Seq<char>>, home: Option<Seq<char>>, raws: Seq<RawEvV>, evs: Seq<EvV>) -> bool {
    &&& raws.len() == evs.len()
    &&& forall|i: int| 0 <= i < raws.len() ==> #[trigger] converts(content, cwd, home, raws[i], evs[i])
}

/// The renderer events for the parser events of a document.
pub fn convert_events(content: &str, cwd: Option<&str>, home: Option<&str>, raws: Vec<RawMdEvent>) -> (r: Vec<MdEvent>)
    ensures
        converts_all(content@, crate::links::opt_str(cwd), crate::links::opt_str(home), raw_ev_vs(raws@), ev_vs(r@)),
{
    broadcast use vstd::std_specs::vec::axiom_spec_into_iter;

    let ghost all = raws@;
    let mut out: Vec<MdEvent> = Vec::new();
    for raw in it: raws.into_iter()
        invariant
            it.seq() == all,
            out@.len() == it.index(),
            forall|i: int| 0 <= i < out@.len() ==> #[trigger] converts(
                content@,
                crate::links::opt_str(cwd),
                crate::links::opt_str(home),
                raw_ev_v(all[i]),
                ev_v(out@[i]),
            ),
    {
        let ghost k = it.index() as int;
        assert(raw == all[k]);
        let ev = convert_event(content, cwd, home, raw);
        out.push(ev);
    }
    proof {
        let rv = raw_ev_vs(all);
        let ev = ev_vs(out@);
        assert forall|i: int| 0 <= i < rv.len() implies #[trigger] converts(content@, crate::links::opt_str(cwd), crate::links::opt_str(home), rv[i], ev[i]) by {
            assert(rv[i] == raw_ev_v(all[i]));
            assert(ev[i] == ev_v(out@[i]));
        }
    }
    out
}

/// Renders markdown text into preview lines; local links are shown relative
/// to `cwd`, with `~` standing for `home`. `None` when the renderer cannot
/// take the document's events (see [`render_events_checked`]).
pub fn render_markdown_with_cwd(content: &str, cwd: Option<&str>, home: Option<&str>) -> (r: Option<Vec<PreviewLine>>)
    ensures
        exists|evs: Seq<EvV>|
            #[trigger] converts_all(content@, crate::links::opt_str(cwd), crate::links::opt_str(home), markdown_events(content@), evs)
            && (r is Some <==> run_ok(md_initial(), evs))
            && (r matches Some(lines) ==> plines(lines@) == md_rendered(evs)),
{
    let raws = parse_markdown(content);
    let events = convert_events(content, cwd, home, raws);
    let ghost evs = ev_vs(events@);
    let r = render_events_checked(events);
    assert(converts_all(content@, crate::links::opt_str(cwd), crate::links::opt_str(home), markdown_events(content@), evs));
    r
}

} // verus!
