//! Preview lines of markdown sources, and the layout of markdown tables in a
//! terminal of a given width: column fitting, cell wrapping, and the record
//! layout used when columns would be too cramped.
use crate::text::{
    append, chars_of, find_from, find_seq, has_prefix, is_digit, is_ws, join, join_chars,
    lemma_find_from, lemma_words_from_len, push_str, seqs, slice_vec, starts_with, string_of, trim,
    trim_chars, trim_end, trim_end_chars, trim_start, trim_start_chars, words, words_of,
};
use vstd::prelude::*;

verus! {

/// Columns between two table cells.
pub const TABLE_COLUMN_GAP: usize = 4;

/// Below this width a table that does not fit is shown as records.
pub const MIN_TABLE_COLUMN_MODE_WIDTH: usize = 72;

#[derive(Debug, Clone, Copy, PartialEq, Eq, Structural)]
pub enum TableDividerKind {
    Header,
    Body,
}

#[derive(Debug, Clone, Copy, PartialEq, Eq, Structural)]
pub enum TableAlignment {
    Unaligned,
    Left,
    Center,
    Right,
}

#[derive(Debug, Clone, Copy, PartialEq, Eq, Structural)]
pub enum TableColumnKind {
    TokenHeavy,
    Narrative,
    Compact,
}

/// What the fitting of one column goes by.
#[derive(Debug, Clone, Copy, PartialEq, Eq, Structural)]
pub struct TableColumnMetric {
    pub max_width: usize,
    pub header_token_width: usize,
    pub body_token_width: usize,
    pub kind: TableColumnKind,
}

#[derive(Debug, Clone, Copy, PartialEq, Eq, Structural)]
pub struct PreviewSourceRange {
    pub start: usize,
    pub end: usize,
}

#[derive(Debug, Clone, Copy, PartialEq, Eq, Structural)]
pub struct PreviewTextStyle {
    pub bold: bool,
    pub italic: bool,
    pub underline: bool,
    pub strikethrough: bool,
}

#[derive(Debug, Clone, Copy, PartialEq, Eq, Structural)]
pub enum PreviewColor {
    Rgb(u8, u8, u8),
    Ansi(u8),
}

#[derive(Debug, Clone, Copy, PartialEq, Eq, Structural)]
pub struct PreviewStyle {
    pub fg: Option<PreviewColor>,
    pub bg: Option<PreviewColor>,
    pub text_style: PreviewTextStyle,
}

/// A piece of a rendered line.
#[derive(Debug, Clone)]
pub enum PreviewSpan {
    Plain(String),
    Bold(String),
    StyledText { text: String, style: PreviewTextStyle },
    Code(String),
    Link { text: String, target: String, source_range: PreviewSourceRange, local: bool },
    Syntax { text: String, style: PreviewStyle },
}

/// The columns `start..end` a link covers in its cell.
#[derive(Debug, Clone, Copy, PartialEq, Eq, Structural)]
pub struct ColumnRange {
    pub start: usize,
    pub end: usize,
}

/// A link inside a table cell, with the columns it covers in the cell.
#[derive(Debug, Clone)]
pub struct PreviewTableLink {
    pub cell: usize,
    pub text: String,
    pub columns: ColumnRange,
    pub target: String,
    pub source_range: PreviewSourceRange,
    pub local: bool,
}

/// One line of a preview.
#[derive(Debug)]
pub enum PreviewLine {
    BlockQuote { depth: usize, prefix: String, line: Box<PreviewLine> },
    Heading { level: u8, text: String },
    Checkbox { marker: String, checked: bool, text: String },
    ListItem { marker: String, spans: Vec<PreviewSpan> },
    Code(String),
    CodeSpans(Vec<PreviewSpan>),
    Styled(Vec<PreviewSpan>),
    SourceBoundary { phase: String, gate: String, source: String },
    TableHeader {
        cells: Vec<String>,
        links: Vec<PreviewTableLink>,
        widths: Vec<usize>,
        alignments: Vec<TableAlignment>,
        metrics: Vec<TableColumnMetric>,
    },
    TableDivider { widths: Vec<usize>, kind: TableDividerKind, metrics: Vec<TableColumnMetric> },
    TableRow {
        headers: Vec<String>,
        cells: Vec<String>,
        links: Vec<PreviewTableLink>,
        widths: Vec<usize>,
        alignments: Vec<TableAlignment>,
        metrics: Vec<TableColumnMetric>,
    },
    Plain(String),
}

// ---------------------------------------------------------------------------
// Display width
// ---------------------------------------------------------------------------
/// Terminal columns of a character: one for ASCII, two otherwise.
pub open spec fn char_width(c: char) -> nat {
    if (c as u32) < 128 {
        1
    } else {
        2
    }
}

/// Terminal columns of a text.
pub open spec fn dwidth(s: Seq<char>) -> nat
    decreases s.len(),
{
    if s.len() == 0 {
        0
    } else {
        dwidth(s.drop_last()) + char_width(s.last())
    }
}

pub fn display_width_char(c: char) -> (w: usize)
    ensures
        w == char_width(c),
{
    if (c as u32) < 128 {
        1
    } else {
        2
    }
}

pub proof fn lemma_dwidth_bound(s: Seq<char>)
    ensures
        s.len() <= dwidth(s) <= 2 * s.len(),
    decreases s.len(),
{
    if s.len() > 0 {
        lemma_dwidth_bound(s.drop_last());
    }
}

pub fn display_width_chars(s: &[char]) -> (w: usize)
    requires
        s@.len() * 2 <= usize::MAX,
    ensures
        w == dwidth(s@),
{
    let mut w: usize = 0;
    let mut i: usize = 0;
    while i < s.len()
        invariant
            0 <= i <= s@.len(),
            s@.len() * 2 <= usize::MAX,
            w == dwidth(s@.take(i as int)),
        decreases s@.len() - i,
    {
        proof {
            assert(s@.take(i + 1).drop_last() =~= s@.take(i as int));
            lemma_dwidth_bound(s@.take(i as int));
        }
        w = w + display_width_char(s[i]);
        i = i + 1;
    }
    assert(s@.take(i as int) =~= s@);
    w
}

/// Terminal columns of `text` (ASCII one column, anything else two).
pub fn display_width(text: &str) -> (w: usize)
    requires
        text@.len() * 2 <= usize::MAX,
    ensures
        w == dwidth(text@),
{
    let c = chars_of(text);
    display_width_chars(c.as_slice())
}

/// The display width, computed wide enough that it never overflows.
fn dwidth_wide(s: &[char]) -> (w: u128)
    ensures
        w == dwidth(s@),
        w <= 2 * s@.len(),
{
    let mut w: u128 = 0;
    let mut i: usize = 0;
    while i < s.len()
        invariant
            0 <= i <= s@.len(),
            w == dwidth(s@.take(i as int)),
            w <= 2 * i,
        decreases s@.len() - i,
    {
        proof {
            assert(s@.take(i + 1).drop_last() =~= s@.take(i as int));
        }
        w = w + display_width_char(s[i]) as u128;
        i = i + 1;
    }
    assert(s@.take(i as int) =~= s@);
    w
}

// ---------------------------------------------------------------------------
// Padding and wrapping
// ---------------------------------------------------------------------------
pub open spec fn spaces(n: nat) -> Seq<char> {
    Seq::new(n, |i: int| ' ')
}

pub open spec fn sat_sub(a: int, b: int) -> nat {
    if a >= b {
        (a - b) as nat
    } else {
        0
    }
}

/// `text` padded with spaces to `width` columns on the side its alignment asks.
pub open spec fn padded(text: Seq<char>, width: nat, alignment: TableAlignment) -> Seq<char> {
    let padding = sat_sub(width as int, dwidth(text) as int);
    match alignment {
        TableAlignment::Right => spaces(padding) + text,
        TableAlignment::Center => spaces(padding / 2) + text + spaces(sat_sub(padding as int, (padding / 2) as int)),
        _ => text + spaces(padding),
    }
}

fn push_spaces(out: &mut Vec<char>, n: usize)
    ensures
        final(out)@ == old(out)@ + spaces(n as nat),
{
    let ghost o = out@;
    let mut i: usize = 0;
    while i < n
        invariant
            0 <= i <= n,
            out@ == o + spaces(i as nat),
        decreases n - i,
    {
        out.push(' ');
        assert(out@ =~= o + spaces((i + 1) as nat));
        i = i + 1;
    }
}

pub fn pad_aligned(text: &[char], width: usize, alignment: TableAlignment) -> (r: Vec<char>)
    ensures
        r@ == padded(text@, width as nat, alignment),
{
    let w = dwidth_wide(text);
    let padding: usize = if w >= width as u128 {
        0
    } else {
        (width as u128 - w) as usize
    };
    let mut out: Vec<char> = Vec::new();
    match alignment {
        TableAlignment::Right => {
            push_spaces(&mut out, padding);
            append(&mut out, text);
        },
        TableAlignment::Center => {
            let left = padding / 2;
            let right = padding.saturating_sub(left);
            push_spaces(&mut out, left);
            append(&mut out, text);
            push_spaces(&mut out, right);
        },
        _ => {
            append(&mut out, text);
            push_spaces(&mut out, padding);
        },
    }
    assert(out@ =~= padded(text@, width as nat, alignment));
    out
}

/// Splitting a token into chunks of at most `w` columns, character by
/// character: the chunks done, the chunk being filled and its width.
pub open spec fn split_fold(s: Seq<char>, w: nat) -> (Seq<Seq<char>>, Seq<char>, nat)
    decreases s.len(),
{
    if s.len() == 0 {
        (Seq::empty(), Seq::empty(), 0)
    } else {
        let (chunks, cur, cw) = split_fold(s.drop_last(), w);
        let c = s.last();
        if cw > 0 && cw + char_width(c) > w {
            (chunks.push(cur), seq![c], char_width(c))
        } else {
            (chunks, cur.push(c), cw + char_width(c))
        }
    }
}

pub open spec fn max1(w: int) -> nat {
    if w < 1 {
        1
    } else {
        w as nat
    }
}

/// A token cut into chunks of at most `width` columns (a wider character
/// stands alone).
pub open spec fn split_token(s: Seq<char>, width: int) -> Seq<Seq<char>> {
    let (chunks, cur, cw) = split_fold(s, max1(width));
    if cur.len() > 0 {
        chunks.push(cur)
    } else {
        chunks
    }
}

proof fn lemma_split_fold(s: Seq<char>, w: nat)
    ensures
        split_fold(s, w).2 == dwidth(split_fold(s, w).1),
        (split_fold(s, w).1.len() == 0) == (s.len() == 0),
    decreases s.len(),
{
    if s.len() > 0 {
        lemma_split_fold(s.drop_last(), w);
        let (chunks, cur, cw) = split_fold(s.drop_last(), w);
        let c = s.last();
        if cw > 0 && cw + char_width(c) > w {
            assert(seq![c].drop_last() =~= Seq::<char>::empty());
            assert(dwidth(seq![c]) == dwidth(Seq::<char>::empty()) + char_width(c));
        } else {
            assert(cur.push(c).drop_last() =~= cur);
            assert(dwidth(cur.push(c)) == dwidth(cur) + char_width(c));
        }
    }
}

pub fn split_long_token(text: &[char], width: usize) -> (r: Vec<Vec<char>>)
    requires
        text@.len() * 2 <= usize::MAX,
    ensures
        crate::text::seqs(r@) == split_token(text@, width as int),
{
    let w: usize = if width < 1 {
        1
    } else {
        width
    };
    let mut chunks: Vec<Vec<char>> = Vec::new();
    let mut current: Vec<char> = Vec::new();
    let mut current_width: usize = 0;
    let mut i: usize = 0;
    while i < text.len()
        invariant
            0 <= i <= text@.len(),
            text@.len() * 2 <= usize::MAX,
            w == max1(width as int),
            current_width <= 2 * i,
            split_fold(text@.take(i as int), w as nat) == (crate::text::seqs(chunks@), current@, current_width as nat),
        decreases text@.len() - i,
    {
        let c = text[i];
        let cw = display_width_char(c);
        assert(text@.take(i + 1).drop_last() =~= text@.take(i as int));
        assert(text@.take(i + 1).last() == c);
        if current_width > 0 && current_width + cw > w {
            let ghost before = crate::text::seqs(chunks@);
            let ghost cv = current@;
            chunks.push(current);
            assert(crate::text::seqs(chunks@) =~= before.push(cv));
            current = Vec::new();
            current_width = 0;
        }
        current.push(c);
        current_width = current_width + cw;
        i = i + 1;
    }
    assert(text@.take(i as int) =~= text@);
    if current.len() > 0 {
        let ghost before = crate::text::seqs(chunks@);
        let ghost cv = current@;
        chunks.push(current);
        assert(crate::text::seqs(chunks@) =~= before.push(cv));
    }
    chunks
}

/// One word added to a wrapped cell: onto the current line when it fits,
/// else on a new line, cut into chunks when it is wider than a line.
pub open spec fn wrap_word(lines: Seq<Seq<char>>, cur: Seq<char>, word: Seq<char>, w: nat) -> (Seq<Seq<char>>, Seq<char>) {
    let ww = dwidth(word);
    if cur.len() == 0 && ww <= w {
        (lines, word)
    } else if cur.len() != 0 && dwidth(cur) + 1 + ww <= w {
        (lines, cur + seq![' '] + word)
    } else {
        let lines1 = if cur.len() != 0 {
            lines.push(cur)
        } else {
            lines
        };
        if ww <= w {
            (lines1, word)
        } else {
            let chunks = split_token(word, w as int);
            if chunks.len() == 0 {
                (lines1, Seq::empty())
            } else {
                (lines1 + chunks.drop_last(), chunks.last())
            }
        }
    }
}

pub open spec fn wrap_words(ws: Seq<Seq<char>>, w: nat) -> (Seq<Seq<char>>, Seq<char>)
    decreases ws.len(),
{
    if ws.len() == 0 {
        (Seq::empty(), Seq::empty())
    } else {
        let (lines, cur) = wrap_words(ws.drop_last(), w);
        wrap_word(lines, cur, ws.last(), w)
    }
}

/// `text` wrapped at word boundaries into lines of at most `width` columns
/// (at least one line; an over-wide word is cut).
pub open spec fn wrapped_text(text: Seq<char>, width: int) -> Seq<Seq<char>> {
    let w = max1(width);
    if text.len() == 0 {
        seq![Seq::empty()]
    } else {
        let (lines, cur) = wrap_words(words(text), w);
        let lines1 = if cur.len() != 0 {
            lines.push(cur)
        } else {
            lines
        };
        if lines1.len() == 0 {
            seq![Seq::empty()]
        } else {
            lines1
        }
    }
}


pub fn append_wrapped_word(lines: &mut Vec<Vec<char>>, current: &mut Vec<char>, word: &[char], width: usize)
    requires
        width >= 1,
        word@.len() * 2 <= usize::MAX,
    ensures
        (seqs(final(lines)@), final(current)@) == wrap_word(seqs(old(lines)@), old(current)@, word@, width as nat),
{
    let ghost l0 = seqs(lines@);
    let ghost c0 = current@;
    let current_width = dwidth_wide(current.as_slice());
    let word_width = dwidth_wide(word);
    if current.len() == 0 && word_width <= width as u128 {
        append(current, word);
        assert(current@ =~= word@);
        return;
    }
    if current.len() != 0 && current_width + 1 + word_width <= width as u128 {
        current.push(' ');
        append(current, word);
        assert(current@ =~= c0 + seq![' '] + word@);
        return;
    }
    if current.len() != 0 {
        let mut taken: Vec<char> = Vec::new();
        std::mem::swap(current, &mut taken);
        lines.push(taken);
        assert(seqs(lines@) =~= l0.push(c0));
    }
    let ghost l1 = seqs(lines@);
    assert(current@.len() == 0);
    if word_width <= width as u128 {
        append(current, word);
        assert(current@ =~= word@);
        return;
    }
    let chunks = split_long_token(word, width);
    let ghost cs = seqs(chunks@);
    if chunks.len() == 0 {
        assert(current@ =~= Seq::<char>::empty());
        assert(l1 + cs.drop_last() =~= l1);
        return;
    }
    let last = chunks.len() - 1;
    let mut i: usize = 0;
    while i < last
        invariant
            0 <= i <= last,
            last + 1 == chunks@.len(),
            cs == seqs(chunks@),
            current@.len() == 0,
            seqs(lines@) == l1 + cs.take(i as int),
        decreases last - i,
    {
        let ghost before = seqs(lines@);
        let piece = crate::text::slice_vec(chunks[i].as_slice(), 0, chunks[i].len());
        assert(piece@ =~= cs[i as int]);
        lines.push(piece);
        assert(seqs(lines@) =~= before.push(cs[i as int]));
        assert(l1 + cs.take(i + 1) =~= (l1 + cs.take(i as int)).push(cs[i as int]));
        i = i + 1;
    }
    append(current, chunks[last].as_slice());
    assert(current@ =~= cs.last());
    assert(cs.take(last as int) =~= cs.drop_last());
}

/// Wrap `text` into lines of at most `width` columns (see [`wrapped_text`]).
pub fn wrap_text_to_width(text: &[char], width: usize) -> (r: Vec<Vec<char>>)
    requires
        text@.len() * 2 <= usize::MAX,
    ensures
        seqs(r@) == wrapped_text(text@, width as int),
{
    let w: usize = if width < 1 {
        1
    } else {
        width
    };
    if text.len() == 0 {
        let r: Vec<Vec<char>> = vec![Vec::new()];
        assert(seqs(r@) =~= seq![Seq::<char>::empty()]);
        return r;
    }
    let ws = words_of(text);
    let ghost wv = seqs(ws@);
    proof {
        lemma_words_from_len(text@, 0);
    }
    let mut lines: Vec<Vec<char>> = Vec::new();
    let mut current: Vec<char> = Vec::new();
    let mut i: usize = 0;
    assert(seqs(lines@) =~= Seq::<Seq<char>>::empty());
    while i < ws.len()
        invariant
            0 <= i <= ws@.len(),
            wv == seqs(ws@),
            wv == words(text@),
            w == max1(width as int),
            text@.len() * 2 <= usize::MAX,
            forall|k: int| 0 <= k < wv.len() ==> #[trigger] wv[k].len() <= text@.len(),
            wrap_words(wv.take(i as int), w as nat) == (seqs(lines@), current@),
        decreases ws@.len() - i,
    {
        assert(wv.take(i + 1).drop_last() =~= wv.take(i as int));
        assert(wv.take(i + 1).last() == ws@[i as int]@);
        assert(ws@[i as int]@.len() <= text@.len());
        append_wrapped_word(&mut lines, &mut current, ws[i].as_slice(), w);
        i = i + 1;
    }
    assert(wv.take(i as int) =~= wv);
    if current.len() != 0 {
        let ghost before = seqs(lines@);
        let ghost cv = current@;
        lines.push(current);
        assert(seqs(lines@) =~= before.push(cv));
    }
    if lines.len() == 0 {
        lines.push(Vec::new());
        assert(seqs(lines@) =~= seq![Seq::<char>::empty()]);
    }
    lines
}


// ---------------------------------------------------------------------------
// Column metrics and fitting
// ---------------------------------------------------------------------------
/// The widest of `ws`, or 0.
pub open spec fn longest(ws: Seq<Seq<char>>) -> nat
    decreases ws.len(),
{
    if ws.len() == 0 {
        0
    } else {
        let rest = longest(ws.drop_last());
        if dwidth(ws.last()) > rest {
            dwidth(ws.last())
        } else {
            rest
        }
    }
}

/// How many of `ws` are at least 20 columns wide.
pub open spec fn long_tokens(ws: Seq<Seq<char>>) -> nat
    decreases ws.len(),
{
    if ws.len() == 0 {
        0
    } else {
        long_tokens(ws.drop_last()) + if dwidth(ws.last()) >= 20 {
            1nat
        } else {
            0nat
        }
    }
}

/// The metric of a column whose widest cell is `cell`.
pub open spec fn metric_of(header: Seq<char>, cell: Seq<char>, width: nat) -> TableColumnMetric {
    let ws = words(cell);
    let long = long_tokens(ws);
    let kind = if long > 0 && long >= sat_sub(ws.len() as int, long as int) {
        TableColumnKind::TokenHeavy
    } else if ws.len() >= 4 || dwidth(cell) >= 28 {
        TableColumnKind::Narrative
    } else {
        TableColumnKind::Compact
    };
    TableColumnMetric {
        max_width: max1(width as int) as usize,
        header_token_width: longest(words(header)) as usize,
        body_token_width: longest(ws) as usize,
        kind,
    }
}

fn token_stats(text: &[char]) -> (r: (usize, usize, usize))
    requires
        text@.len() * 2 <= usize::MAX,
    ensures
        r.0 == words(text@).len(),
        r.1 == longest(words(text@)),
        r.2 == long_tokens(words(text@)),
{
    let ws = words_of(text);
    let ghost wv = seqs(ws@);
    proof {
        lemma_words_from_len(text@, 0);
    }
    let mut best: usize = 0;
    let mut long: usize = 0;
    let mut i: usize = 0;
    while i < ws.len()
        invariant
            0 <= i <= ws@.len(),
            wv == seqs(ws@),
            wv == words(text@),
            text@.len() * 2 <= usize::MAX,
            forall|k: int| 0 <= k < wv.len() ==> #[trigger] wv[k].len() <= text@.len(),
            best == longest(wv.take(i as int)),
            long == long_tokens(wv.take(i as int)),
            long <= i,
        decreases ws@.len() - i,
    {
        assert(wv.take(i + 1).drop_last() =~= wv.take(i as int));
        assert(wv.take(i + 1).last() == ws@[i as int]@);
        assert(ws@[i as int]@.len() <= text@.len());
        let d = display_width_chars(ws[i].as_slice());
        if d > best {
            best = d;
        }
        if d >= 20 {
            long = long + 1;
        }
        i = i + 1;
    }
    assert(wv.take(i as int) =~= wv);
    (ws.len(), best, long)
}

/// Classify one column from a single representative cell.
pub fn column_metric(header: &[char], cell: &[char], width: usize) -> (m: TableColumnMetric)
    requires
        header@.len() * 2 <= usize::MAX,
        cell@.len() * 2 <= usize::MAX,
    ensures
        m == metric_of(header@, cell@, width as nat),
{
    let (word_count, token_width, long_token_count) = token_stats(cell);
    let cell_width = display_width_chars(cell);
    let kind = if long_token_count > 0 && long_token_count >= word_count.saturating_sub(long_token_count) {
        TableColumnKind::TokenHeavy
    } else if word_count >= 4 || cell_width >= 28 {
        TableColumnKind::Narrative
    } else {
        TableColumnKind::Compact
    };
    let (_, header_token_width, _) = token_stats(header);
    TableColumnMetric {
        max_width: if width < 1 {
            1
        } else {
            width
        },
        header_token_width,
        body_token_width: token_width,
        kind,
    }
}

pub open spec fn min_n(a: int, b: int) -> int {
    if a < b {
        a
    } else {
        b
    }
}

pub open spec fn max_n(a: int, b: int) -> int {
    if a > b {
        a
    } else {
        b
    }
}

/// The narrowest a column is shrunk to before the hard floor: 16 columns for
/// prose and long tokens, else its longest header or (capped) body token.
pub open spec fn floor_of(m: TableColumnMetric, min_column_width: int) -> int {
    let token_target = match m.kind {
        TableColumnKind::Compact => max_n(m.header_token_width as int, min_n(m.body_token_width as int, 16)),
        _ => 16,
    };
    min_n(max_n(token_target, min_column_width), m.max_width as int)
}

pub fn preferred_column_floor(metric: &TableColumnMetric, min_column_width: usize) -> (r: usize)
    ensures
        r == floor_of(*metric, min_column_width as int),
{
    let token_target: usize = match metric.kind {
        TableColumnKind::Compact => {
            let b = if metric.body_token_width < 16 {
                metric.body_token_width
            } else {
                16
            };
            if metric.header_token_width > b {
                metric.header_token_width
            } else {
                b
            }
        },
        _ => 16,
    };
    let t = if token_target > min_column_width {
        token_target
    } else {
        min_column_width
    };
    if t < metric.max_width {
        t
    } else {
        metric.max_width
    }
}

/// Which columns give up width first: long tokens, then prose, then compact.
pub open spec fn shrink_priority(kind: TableColumnKind) -> nat {
    match kind {
        TableColumnKind::TokenHeavy => 0,
        TableColumnKind::Narrative => 1,
        TableColumnKind::Compact => 2,
    }
}

pub fn column_shrink_priority(kind: TableColumnKind) -> (r: usize)
    ensures
        r == shrink_priority(kind),
{
    match kind {
        TableColumnKind::TokenHeavy => 0,
        TableColumnKind::Narrative => 1,
        TableColumnKind::Compact => 2,
    }
}

pub open spec fn sum(s: Seq<usize>) -> int
    decreases s.len(),
{
    if s.len() == 0 {
        0
    } else {
        sum(s.drop_last()) + s.last()
    }
}

pub open spec fn prio_at(metrics: Option<Seq<TableColumnMetric>>, i: int) -> nat {
    match metrics {
        Some(ms) => if 0 <= i < ms.len() {
            shrink_priority(ms[i].kind)
        } else {
            0
        },
        None => 0,
    }
}

/// Whether column `i` comes before column `j` in the shrinking order: lower
/// priority first, then more slack above its floor.
pub open spec fn shrinks_before(
    widths: Seq<usize>,
    floors: Seq<usize>,
    metrics: Option<Seq<TableColumnMetric>>,
    i: int,
    j: int,
) -> bool {
    ||| prio_at(metrics, i) < prio_at(metrics, j)
    ||| prio_at(metrics, i) == prio_at(metrics, j) && widths[i] - floors[i] > widths[j] - floors[j]
}

/// The first column among `0..k` above its floor that shrinks before all others.
pub open spec fn pick(
    widths: Seq<usize>,
    floors: Seq<usize>,
    metrics: Option<Seq<TableColumnMetric>>,
    k: nat,
) -> Option<int>
    decreases k,
{
    if k == 0 {
        None
    } else {
        let i = k - 1;
        let prev = pick(widths, floors, metrics, (k - 1) as nat);
        if !(widths[i] > floors[i]) {
            prev
        } else {
            match prev {
                None => Some(i),
                Some(j) => if shrinks_before(widths, floors, metrics, i, j) {
                    Some(i)
                } else {
                    Some(j)
                },
            }
        }
    }
}

pub proof fn lemma_pick(widths: Seq<usize>, floors: Seq<usize>, metrics: Option<Seq<TableColumnMetric>>, k: nat)
    requires
        k <= widths.len(),
        k <= floors.len(),
    ensures
        pick(widths, floors, metrics, k) matches Some(i) ==> 0 <= i < k && widths[i] > floors[i],
    decreases k,
{
    if k > 0 {
        lemma_pick(widths, floors, metrics, (k - 1) as nat);
    }
}

pub proof fn lemma_sum_dec(s: Seq<usize>, i: int)
    requires
        0 <= i < s.len(),
        s[i] > 0,
    ensures
        sum(s.update(i, (s[i] - 1) as usize)) == sum(s) - 1,
    decreases s.len(),
{
    let t = s.update(i, (s[i] - 1) as usize);
    if i == s.len() - 1 {
        assert(t.drop_last() =~= s.drop_last());
    } else {
        lemma_sum_dec(s.drop_last(), i);
        assert(t.drop_last() =~= s.drop_last().update(i, (s[i] - 1) as usize));
    }
}

pub proof fn lemma_sum_nonneg(s: Seq<usize>)
    ensures
        sum(s) >= 0,
    decreases s.len(),
{
    if s.len() > 0 {
        lemma_sum_nonneg(s.drop_last());
    }
}

/// Shrink one column at a time (the one [`pick`] names) until the widths
/// fit `target` or no column is above its floor.
pub open spec fn shrunk(
    widths: Seq<usize>,
    floors: Seq<usize>,
    target: int,
    metrics: Option<Seq<TableColumnMetric>>,
) -> Seq<usize>
    decreases sum(widths),
{
    if sum(widths) <= target || widths.len() > floors.len() {
        widths
    } else {
        match pick(widths, floors, metrics, widths.len()) {
            None => widths,
            Some(i) => {
                proof {
                    lemma_pick(widths, floors, metrics, widths.len());
                    lemma_sum_dec(widths, i);
                    lemma_sum_nonneg(widths.update(i, (widths[i] - 1) as usize));
                }
                shrunk(widths.update(i, (widths[i] - 1) as usize), floors, target, metrics)
            }
        }
    }
}

fn sum_wide(s: &[usize]) -> (r: u128)
    ensures
        r == sum(s@),
        r <= s@.len() * 0x1_0000_0000_0000_0000,
{
    let mut t: u128 = 0;
    let mut i: usize = 0;
    while i < s.len()
        invariant
            0 <= i <= s@.len(),
            t == sum(s@.take(i as int)),
            t <= i * 0x1_0000_0000_0000_0000,
        decreases s@.len() - i,
    {
        assert(s@.take(i + 1).drop_last() =~= s@.take(i as int));
        proof {
            assert(t + s[i as int] <= (i + 1) * 0x1_0000_0000_0000_0000) by (nonlinear_arith)
                requires
                    t <= i * 0x1_0000_0000_0000_0000,
                    s[i as int] < 0x1_0000_0000_0000_0000,
            ;
            assert((i + 1) * 0x1_0000_0000_0000_0000 <= 0x1_0000_0000_0000_0000 * 0x1_0000_0000_0000_0000) by (nonlinear_arith)
                requires
                    i + 1 <= 0x1_0000_0000_0000_0000,
            ;
        }
        t = t + s[i] as u128;
        i = i + 1;
    }
    assert(s@.take(i as int) =~= s@);
    t
}

fn prio_of(metrics: Option<&[TableColumnMetric]>, i: usize) -> (r: usize)
    ensures
        r == prio_at(
            match metrics {
                Some(m) => Some(m@),
                None => None,
            },
            i as int,
        ),
{
    match metrics {
        Some(m) => if i < m.len() {
            column_shrink_priority(m[i].kind)
        } else {
            0
        },
        None => 0,
    }
}

/// Shrink the widths, one column at a time, to `target` (see [`shrunk`]).
pub fn shrink_widths_to_target(
    widths: &mut Vec<usize>,
    floors: &[usize],
    target: usize,
    metrics: Option<&[TableColumnMetric]>,
)
    requires
        old(widths)@.len() <= floors@.len(),
    ensures
        final(widths)@ == shrunk(
            old(widths)@,
            floors@,
            target as int,
            match metrics {
                Some(m) => Some(m@),
                None => None,
            },
        ),
{
    let ghost ms = match metrics {
        Some(m) => Some(m@),
        None => None,
    };
    let ghost goal = shrunk(widths@, floors@, target as int, ms);
    loop
        invariant
            widths@.len() <= floors@.len(),
            shrunk(widths@, floors@, target as int, ms) == goal,
            goal == shrunk(old(widths)@, floors@, target as int, ms),
            ms == match metrics {
                Some(m) => Some(m@),
                None => None,
            },
        decreases sum(widths@),
    {
        proof {
            lemma_sum_nonneg(widths@);
        }
        let total = sum_wide(widths.as_slice());
        if total <= target as u128 {
            assert(shrunk(widths@, floors@, target as int, ms) == widths@);
            return;
        }
        let mut best: Option<usize> = None;
        let mut k: usize = 0;
        while k < widths.len()
            invariant
                0 <= k <= widths@.len(),
                widths@.len() <= floors@.len(),
                ms == match metrics {
                    Some(m) => Some(m@),
                    None => None,
                },
                (match best {
                    Some(b) => Some(b as int),
                    None => None,
                }) == pick(widths@, floors@, ms, k as nat),
            decreases widths@.len() - k,
        {
            if widths[k] > floors[k] {
                match best {
                    None => {
                        best = Some(k);
                    },
                    Some(j) => {
                        let pk = prio_of(metrics, k);
                        let pj = prio_of(metrics, j);
                        proof {
                            lemma_pick(widths@, floors@, ms, k as nat);
                        }
                        if pk < pj || (pk == pj && widths[k] - floors[k] > widths[j] - floors[j]) {
                            best = Some(k);
                        }
                    },
                }
            }
            k = k + 1;
        }
        match best {
            None => {
                assert(shrunk(widths@, floors@, target as int, ms) == widths@);
                return;
            },
            Some(i) => {
                proof {
                    lemma_pick(widths@, floors@, ms, widths@.len());
                    lemma_sum_dec(widths@, i as int);
                }
                let v = widths[i] - 1;
                widths.set(i, v);
            },
        }
    }
}


/// Every width raised to at least one column.
pub open spec fn at_least_one(widths: Seq<usize>) -> Seq<usize> {
    widths.map_values(|w: usize| if w < 1 {
        1usize
    } else {
        w
    })
}

/// Columns taken by the gaps between `n` columns (saturating).
pub open spec fn gaps(n: nat) -> int {
    if n == 0 {
        0
    } else {
        min_n(4 * (n - 1), usize::MAX as int)
    }
}

/// The total cell width a table of `n` columns may use in `max_width`.
pub open spec fn fit_target(n: nat, max_width: int) -> int {
    max_n(sat_sub(max1(max_width) as int, gaps(n)) as int, n as int)
}

pub open spec fn min_column(target: int, n: nat) -> int {
    if target >= n * 3 {
        3
    } else {
        1
    }
}

/// Each column's soft floor: its preferred floor, at most its current width.
pub open spec fn soft_floors(metrics: Seq<TableColumnMetric>, fitted: Seq<usize>, mc: int) -> Seq<usize> {
    Seq::new(
        metrics.len(),
        |i: int|
            min_n(
                floor_of(metrics[i], mc),
                if i < fitted.len() {
                    fitted[i] as int
                } else {
                    metrics[i].max_width as int
                },
            ) as usize,
    )
}

/// Column widths that fit `max_width`: unchanged when they fit, else shrunk
/// toward each column's soft floor and, if still too wide, to the hard floor.
pub open spec fn fitted(widths: Seq<usize>, max_width: int, metrics: Seq<TableColumnMetric>) -> Seq<usize> {
    if widths.len() == 0 {
        Seq::empty()
    } else {
        let n = widths.len();
        let target = fit_target(n, max_width);
        let f0 = at_least_one(widths);
        if sum(f0) <= target {
            f0
        } else {
            let mc = min_column(target, n);
            let f1 = shrunk(f0, soft_floors(metrics, f0, mc), target, Some(metrics));
            if sum(f1) > target {
                shrunk(f1, Seq::new(f1.len(), |i: int| mc as usize), target, Some(metrics))
            } else {
                f1
            }
        }
    }
}

pub proof fn lemma_shrunk_len(widths: Seq<usize>, floors: Seq<usize>, target: int, metrics: Option<Seq<TableColumnMetric>>)
    ensures
        shrunk(widths, floors, target, metrics).len() == widths.len(),
    decreases sum(widths),
{
    if !(sum(widths) <= target || widths.len() > floors.len()) {
        match pick(widths, floors, metrics, widths.len()) {
            None => {},
            Some(i) => {
                lemma_pick(widths, floors, metrics, widths.len());
                lemma_sum_dec(widths, i);
                lemma_sum_nonneg(widths.update(i, (widths[i] - 1) as usize));
                lemma_shrunk_len(widths.update(i, (widths[i] - 1) as usize), floors, target, metrics);
            },
        }
    }
}

/// Fit column widths to `max_width` (see [`fitted`]).
pub fn fitted_table_widths_with_metrics(widths: &[usize], max_width: usize, metrics: &[TableColumnMetric]) -> (r: Vec<usize>)
    requires
        metrics@.len() >= widths@.len(),
        widths@.len() * 3 <= usize::MAX,
    ensures
        r@ == fitted(widths@, max_width as int, metrics@),
{
    let n = widths.len();
    if n == 0 {
        return Vec::new();
    }
    let gap_width: usize = if n - 1 > usize::MAX / TABLE_COLUMN_GAP {
        usize::MAX
    } else {
        TABLE_COLUMN_GAP * (n - 1)
    };
    let m1 = if max_width < 1 {
        1
    } else {
        max_width
    };
    let t0 = m1.saturating_sub(gap_width);
    let target = if t0 > n {
        t0
    } else {
        n
    };
    assert(target == fit_target(n as nat, max_width as int));
    let mut fitted_w: Vec<usize> = Vec::new();
    let mut i: usize = 0;
    while i < n
        invariant
            0 <= i <= n,
            n == widths@.len(),
            fitted_w@ == at_least_one(widths@).take(i as int),
        decreases n - i,
    {
        let w = widths[i];
        fitted_w.push(if w < 1 {
            1
        } else {
            w
        });
        assert(fitted_w@ =~= at_least_one(widths@).take(i + 1));
        i = i + 1;
    }
    assert(fitted_w@ =~= at_least_one(widths@));
    let ghost f0 = fitted_w@;
    if sum_wide(fitted_w.as_slice()) <= target as u128 {
        return fitted_w;
    }
    let min_column_width: usize = if target >= n * 3 {
        3
    } else {
        1
    };
    let mut floors: Vec<usize> = Vec::new();
    let mut k: usize = 0;
    while k < metrics.len()
        invariant
            0 <= k <= metrics@.len(),
            fitted_w@ == f0,
            floors@ == soft_floors(metrics@, f0, min_column_width as int).take(k as int),
        decreases metrics@.len() - k,
    {
        let p = preferred_column_floor(&metrics[k], min_column_width);
        let cap = if k < fitted_w.len() {
            fitted_w[k]
        } else {
            metrics[k].max_width
        };
        floors.push(if p < cap {
            p
        } else {
            cap
        });
        assert(floors@ =~= soft_floors(metrics@, f0, min_column_width as int).take(k + 1));
        k = k + 1;
    }
    assert(floors@ =~= soft_floors(metrics@, f0, min_column_width as int));
    shrink_widths_to_target(&mut fitted_w, floors.as_slice(), target, Some(metrics));
    let ghost f1 = fitted_w@;
    proof {
        lemma_shrunk_len(f0, floors@, target as int, Some(metrics@));
    }
    if sum_wide(fitted_w.as_slice()) > target as u128 {
        let mut hard: Vec<usize> = Vec::new();
        let mut j: usize = 0;
        while j < fitted_w.len()
            invariant
                0 <= j <= fitted_w@.len(),
                hard@ == Seq::new(j as nat, |q: int| min_column_width),
            decreases fitted_w@.len() - j,
        {
            hard.push(min_column_width);
            assert(hard@ =~= Seq::new((j + 1) as nat, |q: int| min_column_width));
            j = j + 1;
        }
        assert(hard@ =~= Seq::new(f1.len(), |q: int| min_column_width as usize));
        shrink_widths_to_target(&mut fitted_w, hard.as_slice(), target, Some(metrics));
    }
    fitted_w
}


// ---------------------------------------------------------------------------
// Table rows
// ---------------------------------------------------------------------------
/// The gap between two cells.
pub open spec fn gap() -> Seq<char> {
    seq![' ', ' ', ' ', ' ']
}

pub open spec fn align_at(alignments: Seq<TableAlignment>, i: int) -> TableAlignment {
    if 0 <= i < alignments.len() {
        alignments[i]
    } else {
        TableAlignment::Unaligned
    }
}

pub open spec fn text_at(v: Seq<Seq<char>>, i: int) -> Seq<char> {
    if 0 <= i < v.len() {
        v[i]
    } else {
        Seq::empty()
    }
}

/// A row's cells padded to the column widths and joined by the gap.
pub open spec fn padded_row(row: Seq<Seq<char>>, widths: Seq<usize>, alignments: Seq<TableAlignment>) -> Seq<char> {
    join(
        Seq::new(widths.len(), |i: int| padded(text_at(row, i), widths[i] as nat, align_at(alignments, i))),
        gap(),
    )
}

/// Texts whose character counts (doubled) fit a `usize`.
pub open spec fn texts_fit(v: Seq<Seq<char>>) -> bool {
    forall|i: int| 0 <= i < v.len() ==> #[trigger] v[i].len() * 2 <= usize::MAX
}

pub open spec fn strs(v: Seq<String>) -> Seq<Seq<char>> {
    v.map_values(|s: String| s@)
}

fn gap_chars() -> (g: Vec<char>)
    ensures
        g@ == gap(),
{
    let g = vec![' ', ' ', ' ', ' '];
    assert(g@ =~= gap());
    g
}

fn text_of(v: &[String], i: usize) -> (r: Vec<char>)
    ensures
        r@ == text_at(strs(v@), i as int),
{
    if i < v.len() {
        chars_of(v[i].as_str())
    } else {
        Vec::new()
    }
}

fn alignment_of(alignments: &[TableAlignment], i: usize) -> (a: TableAlignment)
    ensures
        a == align_at(alignments@, i as int),
{
    if i < alignments.len() {
        alignments[i]
    } else {
        TableAlignment::Unaligned
    }
}

/// A row padded to the column widths (the cells' text, no wrapping).
pub fn padded_table_row(row: &[String], widths: &[usize], alignments: &[TableAlignment]) -> (r: Vec<char>)
    ensures
        r@ == padded_row(strs(row@), widths@, alignments@),
{
    let ghost cells = Seq::new(
        widths@.len(),
        |i: int| padded(text_at(strs(row@), i), widths@[i] as nat, align_at(alignments@, i)),
    );
    let mut pieces: Vec<Vec<char>> = Vec::new();
    let mut i: usize = 0;
    while i < widths.len()
        invariant
            0 <= i <= widths@.len(),
            cells == Seq::new(
                widths@.len(),
                |i: int| padded(text_at(strs(row@), i), widths@[i] as nat, align_at(alignments@, i)),
            ),
            seqs(pieces@) == cells.take(i as int),
        decreases widths@.len() - i,
    {
        let t = text_of(row, i);
        let p = pad_aligned(t.as_slice(), widths[i], alignment_of(alignments, i));
        let ghost before = seqs(pieces@);
        pieces.push(p);
        assert(seqs(pieces@) =~= before.push(cells[i as int]));
        assert(cells.take(i + 1) =~= cells.take(i as int).push(cells[i as int]));
        i = i + 1;
    }
    assert(cells.take(i as int) =~= cells);
    join_chars(&pieces, gap_chars().as_slice())
}

/// `n` copies of `c`.
pub open spec fn repeat_char(c: char, n: nat) -> Seq<char> {
    Seq::new(n, |i: int| c)
}

pub open spec fn divider_char(kind: TableDividerKind) -> char {
    match kind {
        TableDividerKind::Header => '━',
        TableDividerKind::Body => '─',
    }
}

/// A divider: each column drawn with at least three rule characters.
pub open spec fn divider_text(widths: Seq<usize>, kind: TableDividerKind) -> Seq<char> {
    join(
        Seq::new(widths.len(), |i: int| repeat_char(divider_char(kind), max_n(widths[i] as int, 3) as nat)),
        gap(),
    )
}

fn repeated(c: char, n: usize) -> (r: Vec<char>)
    ensures
        r@ == repeat_char(c, n as nat),
{
    let mut r: Vec<char> = Vec::new();
    let mut i: usize = 0;
    while i < n
        invariant
            0 <= i <= n,
            r@ == repeat_char(c, i as nat),
        decreases n - i,
    {
        r.push(c);
        assert(r@ =~= repeat_char(c, (i + 1) as nat));
        i = i + 1;
    }
    r
}

pub fn table_divider(widths: &[usize], kind: TableDividerKind) -> (r: Vec<char>)
    ensures
        r@ == divider_text(widths@, kind),
{
    let c = match kind {
        TableDividerKind::Header => '━',
        TableDividerKind::Body => '─',
    };
    let ghost cells = Seq::new(
        widths@.len(),
        |i: int| repeat_char(divider_char(kind), max_n(widths@[i] as int, 3) as nat),
    );
    let mut pieces: Vec<Vec<char>> = Vec::new();
    let mut i: usize = 0;
    while i < widths.len()
        invariant
            0 <= i <= widths@.len(),
            c == divider_char(kind),
            cells == Seq::new(
                widths@.len(),
                |i: int| repeat_char(divider_char(kind), max_n(widths@[i] as int, 3) as nat),
            ),
            seqs(pieces@) == cells.take(i as int),
        decreases widths@.len() - i,
    {
        let n = if widths[i] > 3 {
            widths[i]
        } else {
            3
        };
        let p = repeated(c, n);
        let ghost before = seqs(pieces@);
        pieces.push(p);
        assert(seqs(pieces@) =~= before.push(cells[i as int]));
        assert(cells.take(i + 1) =~= cells.take(i as int).push(cells[i as int]));
        i = i + 1;
    }
    assert(cells.take(i as int) =~= cells);
    join_chars(&pieces, gap_chars().as_slice())
}

/// The tallest of the wrapped cells (at least one line).
pub open spec fn height_of(cells: Seq<Seq<Seq<char>>>) -> nat
    decreases cells.len(),
{
    if cells.len() == 0 {
        1
    } else if cells.len() == 1 {
        cells[0].len()
    } else {
        let rest = height_of(cells.drop_last());
        if cells.last().len() > rest {
            cells.last().len()
        } else {
            rest
        }
    }
}

pub open spec fn line_at(lines: Seq<Seq<char>>, k: int) -> Seq<char> {
    if 0 <= k < lines.len() {
        lines[k]
    } else {
        Seq::empty()
    }
}

/// A table row laid out in the fitted widths: each cell wrapped to its
/// column, then one line per wrapped line, padded and joined, trailing
/// blanks trimmed.
pub open spec fn wrapped_row(
    cells: Seq<Seq<char>>,
    widths: Seq<usize>,
    alignments: Seq<TableAlignment>,
    metrics: Seq<TableColumnMetric>,
    max_width: int,
) -> Seq<Seq<char>> {
    let fw = fitted(widths, max_width, metrics);
    let wc = Seq::new(fw.len(), |i: int| wrapped_text(text_at(cells, i), fw[i] as int));
    Seq::new(
        height_of(wc),
        |k: int|
            trim_end(
                join(
                    Seq::new(fw.len(), |i: int| padded(line_at(wc[i], k), fw[i] as nat, align_at(alignments, i))),
                    gap(),
                ),
            ),
    )
}


pub open spec fn nested(v: Seq<Vec<Vec<char>>>) -> Seq<Seq<Seq<char>>> {
    v.map_values(|x: Vec<Vec<char>>| seqs(x@))
}

/// Lay a table row out in `max_width` columns (see [`wrapped_row`]).
pub fn wrapped_table_row_texts(
    cells: &[String],
    widths: &[usize],
    alignments: &[TableAlignment],
    metrics: &[TableColumnMetric],
    max_width: usize,
) -> (r: Vec<String>)
    requires
        metrics@.len() >= widths@.len(),
        widths@.len() * 3 <= usize::MAX,
        texts_fit(strs(cells@)),
    ensures
        strs(r@) == wrapped_row(strs(cells@), widths@, alignments@, metrics@, max_width as int),
{
    let fw = fitted_table_widths_with_metrics(widths, max_width, metrics);
    let ghost wcs = Seq::new(fw@.len(), |i: int| wrapped_text(text_at(strs(cells@), i), fw@[i] as int));
    let mut wc: Vec<Vec<Vec<char>>> = Vec::new();
    let mut i: usize = 0;
    while i < fw.len()
        invariant
            0 <= i <= fw@.len(),
            texts_fit(strs(cells@)),
            wcs == Seq::new(fw@.len(), |i: int| wrapped_text(text_at(strs(cells@), i), fw@[i] as int)),
            nested(wc@) == wcs.take(i as int),
        decreases fw@.len() - i,
    {
        let t = text_of(cells, i);
        proof {
            if (i as int) < strs(cells@).len() {
                assert(strs(cells@)[i as int].len() * 2 <= usize::MAX);
            }
        }
        let lines = wrap_text_to_width(t.as_slice(), fw[i]);
        let ghost before = nested(wc@);
        let ghost lv = seqs(lines@);
        wc.push(lines);
        assert(nested(wc@) =~= before.push(lv));
        assert(wcs.take(i + 1) =~= wcs.take(i as int).push(wcs[i as int]));
        i = i + 1;
    }
    assert(wcs.take(i as int) =~= wcs);
    let mut height: usize = 1;
    if wc.len() > 0 {
        height = wc[0].len();
        assert(height == height_of(wcs.take(1)));
        let mut j: usize = 1;
        while j < wc.len()
            invariant
                1 <= j <= wc@.len(),
                nested(wc@) == wcs,
                height == height_of(wcs.take(j as int)),
            decreases wc@.len() - j,
        {
            assert(wcs.take(j + 1).drop_last() =~= wcs.take(j as int));
            assert(wcs.take(j + 1).last() == seqs(wc@[j as int]@));
            if wc[j].len() > height {
                height = wc[j].len();
            }
            j = j + 1;
        }
        assert(wcs.take(j as int) =~= wcs);
    }
    let ghost rows = wrapped_row(strs(cells@), widths@, alignments@, metrics@, max_width as int);
    assert(rows.len() == height);
    let mut out: Vec<String> = Vec::new();
    let mut k: usize = 0;
    while k < height
        invariant
            0 <= k <= height,
            height == rows.len(),
            nested(wc@) == wcs,
            wcs.len() == fw@.len(),
            rows == wrapped_row(strs(cells@), widths@, alignments@, metrics@, max_width as int),
            fw@ == fitted(widths@, max_width as int, metrics@),
            wcs == Seq::new(fw@.len(), |i: int| wrapped_text(text_at(strs(cells@), i), fw@[i] as int)),
            strs(out@) == rows.take(k as int),
        decreases height - k,
    {
        let ghost row_cells = Seq::new(fw@.len(), |i: int| padded(line_at(wcs[i], k as int), fw@[i] as nat, align_at(alignments@, i)));
        let mut pieces: Vec<Vec<char>> = Vec::new();
        let mut i: usize = 0;
        while i < fw.len()
            invariant
                0 <= i <= fw@.len(),
                nested(wc@) == wcs,
                wcs.len() == fw@.len(),
                row_cells == Seq::new(fw@.len(), |i: int| padded(line_at(wcs[i], k as int), fw@[i] as nat, align_at(alignments@, i))),
                seqs(pieces@) == row_cells.take(i as int),
            decreases fw@.len() - i,
        {
            let line: Vec<char> = if k < wc[i].len() {
                crate::text::slice_vec(wc[i][k].as_slice(), 0, wc[i][k].len())
            } else {
                Vec::new()
            };
            assert(seqs(wc@[i as int]@) == wcs[i as int]);
            assert(line@ =~= line_at(wcs[i as int], k as int));
            let p = pad_aligned(line.as_slice(), fw[i], alignment_of(alignments, i));
            let ghost before = seqs(pieces@);
            pieces.push(p);
            assert(seqs(pieces@) =~= before.push(row_cells[i as int]));
            assert(row_cells.take(i + 1) =~= row_cells.take(i as int).push(row_cells[i as int]));
            i = i + 1;
        }
        assert(row_cells.take(i as int) =~= row_cells);
        let joined = join_chars(&pieces, gap_chars().as_slice());
        let t = trim_end_chars(joined.as_slice());
        let ghost before = strs(out@);
        out.push(string_of(t.as_slice()));
        assert(strs(out@) =~= before.push(rows[k as int]));
        assert(rows.take(k + 1) =~= rows.take(k as int).push(rows[k as int]));
        k = k + 1;
    }
    assert(rows.take(k as int) =~= rows);
    out
}


// ---------------------------------------------------------------------------
// Records
// ---------------------------------------------------------------------------
/// One cell as a record entry: the header label, then the value wrapped
/// beside it when there is room for a 12-column value, else under it.
pub open spec fn record_entry(h: Seq<char>, c: Seq<char>, lw: nat, aligned: bool, max_width: int) -> Seq<Seq<char>> {
    if aligned {
        let indent = 1 + lw + 2;
        let vls = wrapped_text(c, max1(sat_sub(max_width, indent as int) as int) as int);
        Seq::new(
            vls.len(),
            |i: int|
                if i == 0 {
                    seq![' '] + h + spaces(sat_sub(lw as int, dwidth(h) as int)) + seq![' ', ' '] + vls[0]
                } else {
                    spaces(indent) + vls[i]
                },
        )
    } else {
        let vls = wrapped_text(c, max1(sat_sub(max_width, 2) as int) as int);
        seq![seq![' '] + h] + vls.map_values(|l: Seq<char>| seq![' ', ' '] + l)
    }
}

/// The widest of the texts, in display columns.
pub open spec fn widest(v: Seq<Seq<char>>) -> nat {
    longest(v)
}

pub open spec fn records_upto(headers: Seq<Seq<char>>, cells: Seq<Seq<char>>, lw: nat, aligned: bool, max_width: int, k: nat) -> Seq<Seq<char>>
    decreases k,
{
    if k == 0 {
        Seq::empty()
    } else {
        records_upto(headers, cells, lw, aligned, max_width, (k - 1) as nat) + record_entry(
            headers[k - 1],
            cells[k - 1],
            lw,
            aligned,
            max_width,
        )
    }
}

/// A table row as records: one entry per header/cell pair.
pub open spec fn record_lines(headers: Seq<Seq<char>>, cells: Seq<Seq<char>>, max_width: int) -> Seq<Seq<char>> {
    let lw = widest(headers);
    let aligned = 1 + lw + 2 + 12 <= max_width;
    let n = min_n(headers.len() as int, cells.len() as int);
    records_upto(headers, cells, lw, aligned, max_width, n as nat)
}

fn widest_wide(v: &[String]) -> (r: u128)
    ensures
        r == widest(strs(v@)),
        r <= 0x2_0000_0000_0000_0000,
{
    let ghost sv = strs(v@);
    let mut best: u128 = 0;
    let mut i: usize = 0;
    while i < v.len()
        invariant
            0 <= i <= v@.len(),
            sv == strs(v@),
            best == longest(sv.take(i as int)),
            best <= 0x2_0000_0000_0000_0000,
        decreases v@.len() - i,
    {
        assert(sv.take(i + 1).drop_last() =~= sv.take(i as int));
        assert(sv.take(i + 1).last() == v@[i as int]@);
        let c = chars_of(v[i].as_str());
        let d = dwidth_wide(c.as_slice());
        let cl = c.len();
        assert(cl == c@.len());
        if d > best {
            best = d;
        }
        i = i + 1;
    }
    assert(sv.take(i as int) =~= sv);
    best
}

fn push_record_entry(
    lines: &mut Vec<String>,
    h: &[char],
    c: &[char],
    lw: usize,
    aligned: bool,
    max_width: usize,
)
    requires
        c@.len() * 2 <= usize::MAX,
        aligned ==> 1 + lw + 2 + 12 <= max_width,
    ensures
        strs(final(lines)@) == strs(old(lines)@) + record_entry(h@, c@, lw as nat, aligned, max_width as int),
{
    let ghost l0 = strs(lines@);
    let ghost entry = record_entry(h@, c@, lw as nat, aligned, max_width as int);
    if aligned {
        let indent = 1 + lw + 2;
        let vw = if max_width - indent < 1 {
            1
        } else {
            max_width - indent
        };
        let vls = wrap_text_to_width(c, vw);
        let hw = dwidth_wide(h);
        let pad: usize = if hw >= lw as u128 {
            0
        } else {
            (lw as u128 - hw) as usize
        };
        let mut i: usize = 0;
        while i < vls.len()
            invariant
                0 <= i <= vls@.len(),
                aligned,
                indent == 1 + lw + 2,
                seqs(vls@) == wrapped_text(c@, max1(sat_sub(max_width as int, indent as int) as int) as int),
                pad == sat_sub(lw as int, dwidth(h@) as int),
                entry == record_entry(h@, c@, lw as nat, aligned, max_width as int),
                entry.len() == vls@.len(),
                strs(lines@) == l0 + entry.take(i as int),
            decreases vls@.len() - i,
        {
            let mut line: Vec<char> = Vec::new();
            if i == 0 {
                line.push(' ');
                append(&mut line, h);
                push_spaces(&mut line, pad);
                line.push(' ');
                line.push(' ');
                append(&mut line, vls[0].as_slice());
            } else {
                push_spaces(&mut line, indent);
                append(&mut line, vls[i].as_slice());
            }
            assert(line@ =~= entry[i as int]);
            let ghost before = strs(lines@);
            lines.push(string_of(line.as_slice()));
            assert(strs(lines@) =~= before.push(entry[i as int]));
            assert(entry.take(i + 1) =~= entry.take(i as int).push(entry[i as int]));
            i = i + 1;
        }
        assert(entry.take(i as int) =~= entry);
    } else {
        let vw = if max_width < 3 {
            1
        } else {
            max_width - 2
        };
        let vls = wrap_text_to_width(c, vw);
        let mut first: Vec<char> = vec![' '];
        append(&mut first, h);
        assert(first@ =~= seq![' '] + h@);
        let fs = string_of(first.as_slice());
        lines.push(fs);
        let ghost l1 = strs(lines@);
        assert(l1 =~= l0.push(seq![' '] + h@));
        assert(l1 =~= l0 + seq![seq![' '] + h@]);
        let ghost tail = seqs(vls@).map_values(|l: Seq<char>| seq![' ', ' '] + l);
        let mut i: usize = 0;
        while i < vls.len()
            invariant
                0 <= i <= vls@.len(),
                tail == seqs(vls@).map_values(|l: Seq<char>| seq![' ', ' '] + l),
                strs(lines@) == l1 + tail.take(i as int),
            decreases vls@.len() - i,
        {
            let mut line: Vec<char> = vec![' ', ' '];
            append(&mut line, vls[i].as_slice());
            assert(line@ =~= tail[i as int]);
            let ghost before = strs(lines@);
            lines.push(string_of(line.as_slice()));
            assert(strs(lines@) =~= before.push(tail[i as int]));
            assert(tail.take(i + 1) =~= tail.take(i as int).push(tail[i as int]));
            i = i + 1;
        }
        assert(tail.take(i as int) =~= tail);
        assert(l1 + tail =~= l0 + entry);
    }
}

/// A table row as records (see [`record_lines`]).
pub fn record_table_row_texts(headers: &[String], cells: &[String], max_width: usize) -> (r: Vec<String>)
    requires
        texts_fit(strs(cells@)),
    ensures
        strs(r@) == record_lines(strs(headers@), strs(cells@), max_width as int),
{
    let lw128 = widest_wide(headers);
    let aligned = 1 + lw128 + 2 + 12 <= max_width as u128;
    let lw: usize = if aligned {
        lw128 as usize
    } else {
        0
    };
    let ghost hv = strs(headers@);
    let ghost cv = strs(cells@);
    let n = if headers.len() < cells.len() {
        headers.len()
    } else {
        cells.len()
    };
    let mut lines: Vec<String> = Vec::new();
    let mut k: usize = 0;
    while k < n
        invariant
            0 <= k <= n,
            n == min_n(hv.len() as int, cv.len() as int),
            hv == strs(headers@),
            cv == strs(cells@),
            texts_fit(cv),
            aligned == (1 + widest(hv) + 2 + 12 <= max_width),
            aligned ==> lw == widest(hv),
            aligned ==> 1 + lw + 2 + 12 <= max_width,
            strs(lines@) == records_upto(hv, cv, widest(hv), aligned, max_width as int, k as nat),
        decreases n - k,
    {
        let h = chars_of(headers[k].as_str());
        let c = chars_of(cells[k].as_str());
        assert(cv[k as int].len() * 2 <= usize::MAX);
        if aligned {
            push_record_entry(&mut lines, h.as_slice(), c.as_slice(), lw, true, max_width);
        } else {
            push_record_entry(&mut lines, h.as_slice(), c.as_slice(), 0, false, max_width);
            proof {
                assert(record_entry(h@, c@, 0, false, max_width as int) == record_entry(h@, c@, widest(hv), false, max_width as int));
            }
        }
        k = k + 1;
    }
    lines
}


// ---------------------------------------------------------------------------
// Choosing the layout of a table line
// ---------------------------------------------------------------------------
/// Whether a table is shown as records in `max_width`: it has two or more
/// columns, does not fit, and either the width is under 72 or fitting would
/// leave some column after the first under 32 columns.
pub open spec fn records_mode(widths: Seq<usize>, metrics: Seq<TableColumnMetric>, max_width: int) -> bool {
    if widths.len() < 2 {
        false
    } else if sum(widths) + 4 * (widths.len() - 1) <= max_width {
        false
    } else if max_width < 72 {
        true
    } else {
        let fw = fitted(widths, max_width, metrics);
        exists|i: int| 1 <= i < fw.len() && #[trigger] fw[i] < 32
    }
}

pub fn should_render_table_records(widths: &[usize], metrics: &[TableColumnMetric], max_width: usize) -> (b: bool)
    requires
        metrics@.len() >= widths@.len(),
        widths@.len() * 3 <= usize::MAX,
    ensures
        b == records_mode(widths@, metrics@, max_width as int),
{
    if widths.len() < 2 {
        return false;
    }
    let total = sum_wide(widths);
    proof {
        assert(total + 4 * widths@.len() <= 0xffff_ffff_ffff_ffff_ffff_ffff_ffff_ffff) by (nonlinear_arith)
            requires
                total <= widths@.len() * 0x1_0000_0000_0000_0000,
                widths@.len() * 3 <= 0xffff_ffff_ffff_ffff,
        ;
    }
    let original = total + 4 * (widths.len() - 1) as u128;
    if original <= max_width as u128 {
        return false;
    }
    if max_width < MIN_TABLE_COLUMN_MODE_WIDTH {
        return true;
    }
    let fw = fitted_table_widths_with_metrics(widths, max_width, metrics);
    let mut i: usize = 1;
    while i < fw.len()
        invariant
            1 <= i <= fw@.len() || fw@.len() == 0,
            fw@ == fitted(widths@, max_width as int, metrics@),
            widths@.len() >= 2,
            sum(widths@) + 4 * (widths@.len() - 1) > max_width,
            max_width >= 72,
            forall|j: int| 1 <= j < i && j < fw@.len() ==> fw@[j] >= 32,
        decreases fw@.len() - i,
    {
        if fw[i] < 32 {
            assert(1 <= i < fw@.len() && fw@[i as int] < 32);
            assert(records_mode(widths@, metrics@, max_width as int));
            return true;
        }
        i = i + 1;
    }
    false
}

/// Plain prose metrics for each width: used when a line carries none.
pub open spec fn uniform_metrics(widths: Seq<usize>) -> Seq<TableColumnMetric> {
    widths.map_values(
        |w: usize|
            TableColumnMetric {
                max_width: max1(w as int) as usize,
                header_token_width: 0,
                body_token_width: 0,
                kind: TableColumnKind::Narrative,
            },
    )
}

pub open spec fn resolved_metrics(metrics: Seq<TableColumnMetric>, widths: Seq<usize>) -> Seq<TableColumnMetric> {
    if metrics.len() == widths.len() {
        metrics
    } else {
        uniform_metrics(widths)
    }
}

pub fn uniform_table_column_metrics(widths: &[usize]) -> (r: Vec<TableColumnMetric>)
    ensures
        r@ == uniform_metrics(widths@),
{
    let mut out: Vec<TableColumnMetric> = Vec::new();
    let mut i: usize = 0;
    while i < widths.len()
        invariant
            0 <= i <= widths@.len(),
            out@ == uniform_metrics(widths@).take(i as int),
        decreases widths@.len() - i,
    {
        let w = widths[i];
        out.push(
            TableColumnMetric {
                max_width: if w < 1 {
                    1
                } else {
                    w
                },
                header_token_width: 0,
                body_token_width: 0,
                kind: TableColumnKind::Narrative,
            },
        );
        assert(out@ =~= uniform_metrics(widths@).take(i + 1));
        i = i + 1;
    }
    assert(out@ =~= uniform_metrics(widths@));
    out
}

pub fn resolve_table_metrics(metrics: &[TableColumnMetric], widths: &[usize]) -> (r: Vec<TableColumnMetric>)
    ensures
        r@ == resolved_metrics(metrics@, widths@),
{
    if metrics.len() == widths.len() {
        let mut out: Vec<TableColumnMetric> = Vec::new();
        let mut i: usize = 0;
        while i < metrics.len()
            invariant
                0 <= i <= metrics@.len(),
                out@ == metrics@.take(i as int),
            decreases metrics@.len() - i,
        {
            out.push(metrics[i]);
            assert(out@ =~= metrics@.take(i + 1));
            i = i + 1;
        }
        assert(out@ =~= metrics@);
        out
    } else {
        uniform_table_column_metrics(widths)
    }
}

/// One metric per width, from the header and cell of that column.
pub open spec fn cell_metrics(headers: Seq<Seq<char>>, cells: Seq<Seq<char>>, widths: Seq<usize>) -> Seq<TableColumnMetric> {
    Seq::new(widths.len(), |i: int| metric_of(text_at(headers, i), text_at(cells, i), widths[i] as nat))
}

pub fn collect_table_column_metrics(headers: &[String], cells: &[String], widths: &[usize]) -> (r: Vec<TableColumnMetric>)
    requires
        texts_fit(strs(headers@)),
        texts_fit(strs(cells@)),
    ensures
        r@ == cell_metrics(strs(headers@), strs(cells@), widths@),
{
    let mut out: Vec<TableColumnMetric> = Vec::new();
    let mut i: usize = 0;
    while i < widths.len()
        invariant
            0 <= i <= widths@.len(),
            texts_fit(strs(headers@)),
            texts_fit(strs(cells@)),
            out@ == cell_metrics(strs(headers@), strs(cells@), widths@).take(i as int),
        decreases widths@.len() - i,
    {
        let h = text_of(headers, i);
        let c = text_of(cells, i);
        proof {
            if (i as int) < strs(headers@).len() {
                assert(strs(headers@)[i as int].len() * 2 <= usize::MAX);
            }
            if (i as int) < strs(cells@).len() {
                assert(strs(cells@)[i as int].len() * 2 <= usize::MAX);
            }
        }
        let m = column_metric(h.as_slice(), c.as_slice(), widths[i]);
        out.push(m);
        assert(out@ =~= cell_metrics(strs(headers@), strs(cells@), widths@).take(i + 1));
        i = i + 1;
    }
    assert(out@ =~= cell_metrics(strs(headers@), strs(cells@), widths@));
    out
}

/// Fit widths with metrics taken from one header row and one body row.
pub fn fitted_table_widths_for_cells(headers: &[String], cells: &[String], widths: &[usize], max_width: usize) -> (r: Vec<usize>)
    requires
        texts_fit(strs(headers@)),
        texts_fit(strs(cells@)),
        widths@.len() * 3 <= usize::MAX,
    ensures
        r@ == fitted(widths@, max_width as int, cell_metrics(strs(headers@), strs(cells@), widths@)),
{
    let metrics = collect_table_column_metrics(headers, cells, widths);
    fitted_table_widths_with_metrics(widths, max_width, metrics.as_slice())
}

/// The text of a table line at its natural widths (a quoted line keeps its
/// prefix), or `None` for other lines.
pub open spec fn table_text_of(line: PreviewLine) -> Option<Seq<char>>
    decreases line,
{
    match line {
        PreviewLine::BlockQuote { prefix, line: inner, .. } => match table_text_of(*inner) {
            Some(t) => Some(prefix@ + t),
            None => None,
        },
        PreviewLine::TableHeader { cells, widths, alignments, .. } => Some(
            trim_end(padded_row(strs(cells@), widths@, alignments@)),
        ),
        PreviewLine::TableRow { cells, widths, alignments, .. } => Some(
            trim_end(padded_row(strs(cells@), widths@, alignments@)),
        ),
        PreviewLine::TableDivider { widths, kind, .. } => Some(divider_text(widths@, kind)),
        _ => None,
    }
}

pub fn table_line_text(line: &PreviewLine) -> (r: Option<String>)
    ensures
        match (r, table_text_of(*line)) {
            (Some(a), Some(b)) => a@ == b,
            (None, None) => true,
            _ => false,
        },
    decreases line,
{
    match line {
        PreviewLine::BlockQuote { prefix, line: inner, .. } => match table_line_text(inner) {
            Some(t) => {
                let mut v = chars_of(prefix.as_str());
                push_str(&mut v, t.as_str());
                Some(string_of(v.as_slice()))
            },
            None => None,
        },
        PreviewLine::TableHeader { cells, widths, alignments, .. } => {
            let p = padded_table_row(cells.as_slice(), widths.as_slice(), alignments.as_slice());
            Some(string_of(trim_end_chars(p.as_slice()).as_slice()))
        },
        PreviewLine::TableRow { cells, widths, alignments, .. } => {
            let p = padded_table_row(cells.as_slice(), widths.as_slice(), alignments.as_slice());
            Some(string_of(trim_end_chars(p.as_slice()).as_slice()))
        },
        PreviewLine::TableDivider { widths, kind, .. } => {
            let d = table_divider(widths.as_slice(), *kind);
            Some(string_of(d.as_slice()))
        },
        _ => None,
    }
}


/// Table lines whose texts and column counts stay within machine limits.
pub open spec fn line_fits(line: PreviewLine) -> bool
    decreases line,
{
    match line {
        PreviewLine::BlockQuote { line: inner, .. } => line_fits(*inner),
        PreviewLine::TableHeader { cells, widths, .. } => texts_fit(strs(cells@)) && widths@.len() * 3 <= usize::MAX,
        PreviewLine::TableRow { cells, widths, .. } => texts_fit(strs(cells@)) && widths@.len() * 3 <= usize::MAX,
        PreviewLine::TableDivider { widths, .. } => widths@.len() * 3 <= usize::MAX,
        _ => true,
    }
}

/// The lines a table line takes in `max_width` columns: records or fitted
/// columns as [`records_mode`] decides (a record table drops its header and
/// header divider and rules off each record), a quoted line keeps its prefix
/// in the width left; `None` for other lines.
pub open spec fn wrapped_line_texts(line: PreviewLine, max_width: int) -> Option<Seq<Seq<char>>>
    decreases line,
{
    match line {
        PreviewLine::BlockQuote { prefix, line: inner, .. } => {
            let iw = max1(sat_sub(max_width, crate::graph::utf8_len(prefix@) as int) as int);
            match wrapped_line_texts(*inner, iw as int) {
                Some(ls) => Some(ls.map_values(|l: Seq<char>| prefix@ + l)),
                None => None,
            }
        },
        PreviewLine::TableHeader { cells, widths, alignments, metrics, .. } => {
            let m = resolved_metrics(metrics@, widths@);
            if records_mode(widths@, m, max_width) {
                Some(Seq::empty())
            } else {
                Some(wrapped_row(strs(cells@), widths@, alignments@, m, max_width))
            }
        },
        PreviewLine::TableRow { headers, cells, widths, alignments, metrics, .. } => {
            let m = resolved_metrics(metrics@, widths@);
            if records_mode(widths@, m, max_width) {
                Some(record_lines(strs(headers@), strs(cells@), max_width))
            } else {
                Some(wrapped_row(strs(cells@), widths@, alignments@, m, max_width))
            }
        },
        PreviewLine::TableDivider { widths, kind, metrics } => {
            let m = resolved_metrics(metrics@, widths@);
            if records_mode(widths@, m, max_width) {
                match kind {
                    TableDividerKind::Header => Some(Seq::empty()),
                    TableDividerKind::Body => Some(seq![repeat_char('─', max1(max_width))]),
                }
            } else {
                Some(seq![divider_text(fitted(widths@, max_width, m), kind)])
            }
        },
        _ => None,
    }
}

fn prefixed_all(prefix: &String, lines: Vec<String>) -> (r: Vec<String>)
    ensures
        strs(r@) == strs(lines@).map_values(|l: Seq<char>| prefix@ + l),
{
    let ghost goal = strs(lines@).map_values(|l: Seq<char>| prefix@ + l);
    let mut out: Vec<String> = Vec::new();
    let mut i: usize = 0;
    while i < lines.len()
        invariant
            0 <= i <= lines@.len(),
            goal == strs(lines@).map_values(|l: Seq<char>| prefix@ + l),
            strs(out@) == goal.take(i as int),
        decreases lines@.len() - i,
    {
        let mut v = chars_of(prefix.as_str());
        push_str(&mut v, lines[i].as_str());
        let ghost before = strs(out@);
        out.push(string_of(v.as_slice()));
        assert(strs(out@) =~= before.push(goal[i as int]));
        assert(goal.take(i + 1) =~= goal.take(i as int).push(goal[i as int]));
        i = i + 1;
    }
    assert(goal.take(i as int) =~= goal);
    out
}

/// Lay out one table line in `max_width` columns (see [`wrapped_line_texts`]).
pub fn wrapped_table_line_texts(line: &PreviewLine, max_width: usize) -> (r: Option<Vec<String>>)
    requires
        line_fits(*line),
    ensures
        match (r, wrapped_line_texts(*line, max_width as int)) {
            (Some(a), Some(b)) => strs(a@) == b,
            (None, None) => true,
            _ => false,
        },
    decreases line,
{
    match line {
        PreviewLine::BlockQuote { prefix, line: inner, .. } => {
            let pc = chars_of(prefix.as_str());
            let pl = crate::graph::utf8_len_of(pc.as_slice());
            let iw0 = max_width.saturating_sub(pl);
            let iw = if iw0 < 1 {
                1
            } else {
                iw0
            };
            match wrapped_table_line_texts(inner, iw) {
                Some(ls) => Some(prefixed_all(prefix, ls)),
                None => None,
            }
        },
        PreviewLine::TableHeader { cells, widths, alignments, metrics, .. } => {
            let m = resolve_table_metrics(metrics.as_slice(), widths.as_slice());
            if should_render_table_records(widths.as_slice(), m.as_slice(), max_width) {
                Some(Vec::new())
            } else {
                Some(wrapped_table_row_texts(cells.as_slice(), widths.as_slice(), alignments.as_slice(), m.as_slice(), max_width))
            }
        },
        PreviewLine::TableRow { headers, cells, widths, alignments, metrics, .. } => {
            let m = resolve_table_metrics(metrics.as_slice(), widths.as_slice());
            if should_render_table_records(widths.as_slice(), m.as_slice(), max_width) {
                Some(record_table_row_texts(headers.as_slice(), cells.as_slice(), max_width))
            } else {
                Some(wrapped_table_row_texts(cells.as_slice(), widths.as_slice(), alignments.as_slice(), m.as_slice(), max_width))
            }
        },
        PreviewLine::TableDivider { widths, kind, metrics } => {
            let m = resolve_table_metrics(metrics.as_slice(), widths.as_slice());
            if should_render_table_records(widths.as_slice(), m.as_slice(), max_width) {
                match kind {
                    TableDividerKind::Header => Some(Vec::new()),
                    TableDividerKind::Body => {
                        let n = if max_width < 1 {
                            1
                        } else {
                            max_width
                        };
                        let rule = repeated('─', n);
                        let out = vec![string_of(rule.as_slice())];
                        assert(strs(out@) =~= seq![repeat_char('─', max1(max_width as int))]);
                        Some(out)
                    },
                }
            } else {
                let fw = fitted_table_widths_with_metrics(widths.as_slice(), max_width, m.as_slice());
                let d = table_divider(fw.as_slice(), *kind);
                let out = vec![string_of(d.as_slice())];
                assert(strs(out@) =~= seq![divider_text(fitted(widths@, max_width as int, m@), *kind)]);
                Some(out)
            }
        },
        _ => None,
    }
}


// ---------------------------------------------------------------------------
// Visible text
// ---------------------------------------------------------------------------
pub open spec fn span_text_of(sp: PreviewSpan) -> Seq<char> {
    match sp {
        PreviewSpan::Plain(t) => t@,
        PreviewSpan::Bold(t) => t@,
        PreviewSpan::StyledText { text, .. } => text@,
        PreviewSpan::Code(t) => t@,
        PreviewSpan::Link { text, .. } => text@,
        PreviewSpan::Syntax { text, .. } => text@,
    }
}

pub open spec fn spans_text(v: Seq<PreviewSpan>) -> Seq<char>
    decreases v.len(),
{
    if v.len() == 0 {
        Seq::empty()
    } else {
        spans_text(v.drop_last()) + span_text_of(v.last())
    }
}

impl PreviewSpan {
    /// The text a span shows.
    pub fn text(&self) -> (r: &str)
        ensures
            r@ == span_text_of(*self),
    {
        match self {
            PreviewSpan::Plain(t) => t.as_str(),
            PreviewSpan::Bold(t) => t.as_str(),
            PreviewSpan::StyledText { text, .. } => text.as_str(),
            PreviewSpan::Code(t) => t.as_str(),
            PreviewSpan::Link { text, .. } => text.as_str(),
            PreviewSpan::Syntax { text, .. } => text.as_str(),
        }
    }
}

/// The concatenated text of spans.
pub fn span_text(spans: &[PreviewSpan]) -> (r: String)
    ensures
        r@ == spans_text(spans@),
{
    let mut out: Vec<char> = Vec::new();
    let mut i: usize = 0;
    while i < spans.len()
        invariant
            0 <= i <= spans@.len(),
            out@ == spans_text(spans@.take(i as int)),
        decreases spans@.len() - i,
    {
        assert(spans@.take(i + 1).drop_last() =~= spans@.take(i as int));
        push_str(&mut out, spans[i].text());
        i = i + 1;
    }
    assert(spans@.take(i as int) =~= spans@);
    string_of(out.as_slice())
}

/// The text a preview line shows, markers included.
pub open spec fn visible_of(line: PreviewLine) -> Seq<char>
    decreases line,
{
    match line {
        PreviewLine::BlockQuote { prefix, line: inner, .. } => prefix@ + visible_of(*inner),
        PreviewLine::Heading { text, .. } => text@,
        PreviewLine::Code(t) => t@,
        PreviewLine::Plain(t) => t@,
        PreviewLine::CodeSpans(v) => spans_text(v@),
        PreviewLine::Styled(v) => spans_text(v@),
        PreviewLine::Checkbox { marker, checked, text } => marker@ + seq![' '] + (if checked {
            "[x]"@
        } else {
            "[ ]"@
        }) + seq![' '] + text@,
        PreviewLine::ListItem { marker, spans } => marker@ + seq![' '] + spans_text(spans@),
        PreviewLine::SourceBoundary { phase, gate, source } => phase@ + " / "@ + gate@ + seq![' '] + source@,
        _ => match table_text_of(line) {
            Some(t) => t,
            None => Seq::empty(),
        },
    }
}

pub fn preview_visible_text(line: &PreviewLine) -> (r: String)
    ensures
        r@ == visible_of(*line),
    decreases line,
{
    match line {
        PreviewLine::BlockQuote { prefix, line: inner, .. } => {
            let mut v = chars_of(prefix.as_str());
            let t = preview_visible_text(inner);
            push_str(&mut v, t.as_str());
            string_of(v.as_slice())
        },
        PreviewLine::Heading { text, .. } => text.clone(),
        PreviewLine::Code(t) => t.clone(),
        PreviewLine::Plain(t) => t.clone(),
        PreviewLine::CodeSpans(v) => span_text(v.as_slice()),
        PreviewLine::Styled(v) => span_text(v.as_slice()),
        PreviewLine::Checkbox { marker, checked, text } => {
            let mut v = chars_of(marker.as_str());
            v.push(' ');
            if *checked {
                push_str(&mut v, "[x]");
            } else {
                push_str(&mut v, "[ ]");
            }
            v.push(' ');
            push_str(&mut v, text.as_str());
            string_of(v.as_slice())
        },
        PreviewLine::ListItem { marker, spans } => {
            let mut v = chars_of(marker.as_str());
            v.push(' ');
            let t = span_text(spans.as_slice());
            push_str(&mut v, t.as_str());
            string_of(v.as_slice())
        },
        PreviewLine::SourceBoundary { phase, gate, source } => {
            let mut v = chars_of(phase.as_str());
            push_str(&mut v, " / ");
            push_str(&mut v, gate.as_str());
            v.push(' ');
            push_str(&mut v, source.as_str());
            string_of(v.as_slice())
        },
        _ => match table_line_text(line) {
            Some(t) => t,
            None => String::new(),
        },
    }
}


// ---------------------------------------------------------------------------
// Line markup (a line-at-a-time view of markdown)
// ---------------------------------------------------------------------------
/// The leading `#`s of `s` from `i`.
pub open spec fn hashes_from(s: Seq<char>, i: int) -> int
    decreases s.len() - i,
{
    if 0 <= i < s.len() && s[i] == '#' {
        hashes_from(s, i + 1)
    } else {
        i
    }
}

/// The text of an ATX heading line: one to six `#`s, whitespace, and a
/// non-empty trimmed title.
pub open spec fn heading_of(line: Seq<char>) -> Option<Seq<char>> {
    let t = trim_start(line);
    let n = hashes_from(t, 0);
    if n == 0 || n > 6 {
        None
    } else {
        let after = t.skip(n);
        if !(after.len() > 0 && is_ws(after[0])) {
            None
        } else if trim(after).len() == 0 {
            None
        } else {
            Some(trim(after))
        }
    }
}

proof fn lemma_hashes_bounds(s: Seq<char>, i: int)
    requires
        0 <= i <= s.len(),
    ensures
        i <= hashes_from(s, i) <= s.len(),
    decreases s.len() - i,
{
    if i < s.len() && s[i] == '#' {
        lemma_hashes_bounds(s, i + 1);
    }
}

pub fn heading_text(line: &str) -> (r: Option<String>)
    ensures
        match r {
            Some(h) => heading_of(line@) == Some(h@),
            None => heading_of(line@) is None,
        },
{
    let l = chars_of(line);
    let t = trim_start_chars(l.as_slice());
    let mut n: usize = 0;
    while n < t.len() && t[n] == '#'
        invariant
            n <= t@.len(),
            hashes_from(t@, 0) == hashes_from(t@, n as int),
        decreases t@.len() - n,
    {
        n = n + 1;
    }
    proof {
        lemma_hashes_bounds(t@, n as int);
    }
    if n == 0 || n > 6 {
        return None;
    }
    let after = slice_vec(t.as_slice(), n, t.len());
    assert(after@ =~= t@.skip(n as int));
    if !(after.len() > 0 && crate::text::char_is_ws(after[0])) {
        return None;
    }
    let h = trim_chars(after.as_slice());
    if h.len() == 0 {
        return None;
    }
    Some(string_of(h.as_slice()))
}

/// A task-list line: `- [ ]`, `- [x]` or `- [X]`, then its text.
pub open spec fn checkbox_of(line: Seq<char>) -> Option<(bool, Seq<char>)> {
    let t = trim_start(line);
    if starts_with(t, "- [ ]"@) {
        Some((false, trim_start(t.skip(5))))
    } else if starts_with(t, "- [x]"@) {
        Some((true, trim_start(t.skip(5))))
    } else if starts_with(t, "- [X]"@) {
        Some((true, trim_start(t.skip(5))))
    } else {
        None
    }
}

pub fn checkbox_text(line: &str) -> (r: Option<(bool, String)>)
    ensures
        match r {
            Some((c, t)) => checkbox_of(line@) == Some((c, t@)),
            None => checkbox_of(line@) is None,
        },
{
    let l = chars_of(line);
    let t = trim_start_chars(l.as_slice());
    proof {
        reveal_strlit("- [ ]");
        reveal_strlit("- [x]");
        reveal_strlit("- [X]");
    }
    let open = chars_of("- [ ]");
    let done = chars_of("- [x]");
    let done_upper = chars_of("- [X]");
    let checked = if has_prefix(t.as_slice(), open.as_slice()) {
        false
    } else if has_prefix(t.as_slice(), done.as_slice()) || has_prefix(t.as_slice(), done_upper.as_slice()) {
        true
    } else {
        return None;
    };
    let rest = slice_vec(t.as_slice(), 5, t.len());
    assert(rest@ =~= t@.skip(5));
    let text = trim_start_chars(rest.as_slice());
    Some((checked, string_of(text.as_slice())))
}

pub open spec fn all_digits_seq(s: Seq<char>) -> bool {
    forall|i: int| 0 <= i < s.len() ==> is_digit(#[trigger] s[i])
}

/// A list item line: a `-`, `*` or `+` bullet (shown as `•`), or a number
/// and a dot, then its text.
pub open spec fn list_item_of(line: Seq<char>) -> Option<(Seq<char>, Seq<char>)> {
    let t = trim_start(line);
    if starts_with(t, "- "@) || starts_with(t, "* "@) || starts_with(t, "+ "@) {
        Some(("•"@, t.skip(2)))
    } else {
        match find_from(t, ". "@, 0) {
            None => None,
            Some(d) => if d == 0 || !all_digits_seq(t.take(d)) {
                None
            } else {
                Some((t.take(d + 1), t.skip(d + 2)))
            },
        }
    }
}

pub fn list_item_text(line: &str) -> (r: Option<(String, String)>)
    ensures
        match r {
            Some((m, t)) => list_item_of(line@) == Some((m@, t@)),
            None => list_item_of(line@) is None,
        },
{
    let l = chars_of(line);
    let t = trim_start_chars(l.as_slice());
    proof {
        reveal_strlit("- ");
        reveal_strlit("* ");
        reveal_strlit("+ ");
        reveal_strlit(". ");
    }
    if has_prefix(t.as_slice(), chars_of("- ").as_slice()) || has_prefix(t.as_slice(), chars_of("* ").as_slice())
        || has_prefix(t.as_slice(), chars_of("+ ").as_slice()) {
        let rest = slice_vec(t.as_slice(), 2, t.len());
        assert(rest@ =~= t@.skip(2));
        return Some(("•".to_owned(), string_of(rest.as_slice())));
    }
    let dot = chars_of(". ");
    proof {
        lemma_find_from(t@, ". "@, 0);
    }
    let d = match find_seq(t.as_slice(), dot.as_slice(), 0) {
        None => {
            return None;
        },
        Some(d) => d,
    };
    assert(dot@ == ". "@);
    assert(find_from(t@, ". "@, 0) == Some(d as int));
    assert(d + 2 <= t@.len());
    if d == 0 {
        return None;
    }
    let tl = t.len();
    let mut k: usize = 0;
    while k < d
        invariant
            0 <= k <= d,
            d + 2 <= t@.len(),
            tl == t@.len(),
            t@ == trim_start(line@),
            find_from(t@, ". "@, 0) == Some(d as int),
            !(starts_with(t@, "- "@) || starts_with(t@, "* "@) || starts_with(t@, "+ "@)),
            d != 0,
            forall|j: int| 0 <= j < k ==> is_digit(#[trigger] t@[j]),
        decreases d - k,
    {
        if !crate::text::char_is_digit(t[k]) {
            assert(!is_digit(t@.take(d as int)[k as int]));
            assert(!all_digits_seq(t@.take(d as int)));
            return None;
        }
        k = k + 1;
    }
    assert(all_digits_seq(t@.take(d as int)));
    let marker = slice_vec(t.as_slice(), 0, d + 1);
    let rest = slice_vec(t.as_slice(), d + 2, t.len());
    assert(marker@ =~= t@.take(d + 1));
    assert(rest@ =~= t@.skip(d + 2));
    Some((string_of(marker.as_slice()), string_of(rest.as_slice())))
}


/// A span as the line markup sees it.
pub enum InlineSpan {
    Plain(Seq<char>),
    Bold(Seq<char>),
    Code(Seq<char>),
    Other,
}

pub open spec fn inline_view(sp: PreviewSpan) -> InlineSpan {
    match sp {
        PreviewSpan::Plain(t) => InlineSpan::Plain(t@),
        PreviewSpan::Bold(t) => InlineSpan::Bold(t@),
        PreviewSpan::Code(t) => InlineSpan::Code(t@),
        _ => InlineSpan::Other,
    }
}

pub open spec fn inline_views(v: Seq<PreviewSpan>) -> Seq<InlineSpan> {
    v.map_values(|sp: PreviewSpan| inline_view(sp))
}

/// Plain text added to spans: merged into a trailing plain span, nothing
/// when empty.
pub open spec fn with_plain(spans: Seq<InlineSpan>, text: Seq<char>) -> Seq<InlineSpan> {
    if text.len() == 0 {
        spans
    } else if spans.len() > 0 && spans.last() is Plain {
        spans.drop_last().push(InlineSpan::Plain(spans.last()->Plain_0 + text))
    } else {
        spans.push(InlineSpan::Plain(text))
    }
}

/// The next marker at or after `i`: a `**` or a backtick, whichever comes
/// first (with `true` for a backtick).
pub open spec fn next_marker(s: Seq<char>, i: int) -> Option<(int, bool)> {
    match (find_from(s, "**"@, i), find_from(s, "`"@, i)) {
        (Some(b), Some(c)) => if c < b {
            Some((c, true))
        } else {
            Some((b, false))
        },
        (Some(b), None) => Some((b, false)),
        (None, Some(c)) => Some((c, true)),
        (None, None) => None,
    }
}

/// Inline `**bold**` and `` `code` `` spans of `s` from `i`, with whether any
/// markup was found; an unclosed marker stays plain text.
pub open spec fn inline_fold(s: Seq<char>, i: int, spans: Seq<InlineSpan>, found: bool) -> (Seq<InlineSpan>, bool)
    decreases s.len() - i,
{
    if i < 0 || i >= s.len() {
        (spans, found)
    } else {
        match next_marker(s, i) {
            None => (with_plain(spans, s.skip(i)), found),
            Some((p, code)) => {
                proof {
                    reveal_strlit("**");
                    reveal_strlit("`");
                    lemma_find_from(s, "**"@, i);
                    lemma_find_from(s, "`"@, i);
                }
                let spans1 = if p > i {
                    with_plain(spans, s.subrange(i, p))
                } else {
                    spans
                };
                let w: int = if code {
                    1
                } else {
                    2
                };
                let marker = if code {
                    "`"@
                } else {
                    "**"@
                };
                match find_from(s, marker, p + w) {
                    None => (with_plain(spans1, s.skip(p)), found),
                    Some(c) => {
                        proof {
                            reveal_strlit("**");
                            reveal_strlit("`");
                            lemma_find_from(s, marker, p + w);
                        }
                        let inner = s.subrange(p + w, c);
                        inline_fold(
                            s,
                            c + w,
                            spans1.push(if code {
                                InlineSpan::Code(inner)
                            } else {
                                InlineSpan::Bold(inner)
                            }),
                            true,
                        )
                    },
                }
            },
        }
    }
}

fn push_plain(spans: &mut Vec<PreviewSpan>, text: &[char])
    ensures
        inline_views(final(spans)@) == with_plain(inline_views(old(spans)@), text@),
{
    if text.len() == 0 {
        return;
    }
    let ghost before = inline_views(spans@);
    let n = spans.len();
    if n > 0 {
        let last = spans.pop().unwrap();
        let ghost rest = inline_views(spans@);
        assert(rest =~= before.drop_last());
        match last {
            PreviewSpan::Plain(existing) => {
                let mut v = chars_of(existing.as_str());
                append(&mut v, text);
                spans.push(PreviewSpan::Plain(string_of(v.as_slice())));
                assert(inline_views(spans@) =~= rest.push(InlineSpan::Plain(existing@ + text@)));
            },
            other => {
                let ghost ov = inline_view(other);
                spans.push(other);
                spans.push(PreviewSpan::Plain(string_of(text)));
                assert(inline_views(spans@) =~= before.push(InlineSpan::Plain(text@)));
            },
        }
    } else {
        spans.push(PreviewSpan::Plain(string_of(text)));
        assert(inline_views(spans@) =~= before.push(InlineSpan::Plain(text@)));
    }
}

/// The inline bold and code spans of a line, or `None` when it has none.
pub fn inline_spans(line: &str) -> (r: Option<Vec<PreviewSpan>>)
    ensures
        match r {
            Some(v) => inline_fold(line@, 0, Seq::empty(), false) == (inline_views(v@), true),
            None => inline_fold(line@, 0, Seq::empty(), false).1 == false,
        },
{
    let s = chars_of(line);
    let bold = chars_of("**");
    let tick = chars_of("`");
    let mut spans: Vec<PreviewSpan> = Vec::new();
    let mut found = false;
    let mut index: usize = 0;
    assert(inline_views(spans@) =~= Seq::<InlineSpan>::empty());
    while index < s.len()
        invariant
            s@ == line@,
            bold@ == "**"@,
            tick@ == "`"@,
            index <= s@.len(),
            inline_fold(line@, 0, Seq::empty(), false) == inline_fold(line@, index as int, inline_views(spans@), found),
        decreases s@.len() - index,
    {
        proof {
            reveal_strlit("**");
            reveal_strlit("`");
            lemma_find_from(s@, "**"@, index as int);
            lemma_find_from(s@, "`"@, index as int);
        }
        let nb = find_seq(s.as_slice(), bold.as_slice(), index);
        let nc = find_seq(s.as_slice(), tick.as_slice(), index);
        let pick: Option<(usize, bool)> = match (nb, nc) {
            (Some(b), Some(c)) => if c < b {
                Some((c, true))
            } else {
                Some((b, false))
            },
            (Some(b), None) => Some((b, false)),
            (None, Some(c)) => Some((c, true)),
            (None, None) => None,
        };
        match pick {
            None => {
                let rest = slice_vec(s.as_slice(), index, s.len());
                assert(rest@ =~= s@.skip(index as int));
                push_plain(&mut spans, rest.as_slice());
                return if found {
                    Some(spans)
                } else {
                    None
                };
            },
            Some((p, code)) => {
                if p > index {
                    let pre = slice_vec(s.as_slice(), index, p);
                    push_plain(&mut spans, pre.as_slice());
                }
                let w: usize = if code {
                    1
                } else {
                    2
                };
                let marker = if code {
                    tick.as_slice()
                } else {
                    bold.as_slice()
                };
                proof {
                    lemma_find_from(s@, marker@, (p + w) as int);
                }
                match find_seq(s.as_slice(), marker, p + w) {
                    None => {
                        let rest = slice_vec(s.as_slice(), p, s.len());
                        assert(rest@ =~= s@.skip(p as int));
                        push_plain(&mut spans, rest.as_slice());
                        return if found {
                            Some(spans)
                        } else {
                            None
                        };
                    },
                    Some(c) => {
                        let inner = slice_vec(s.as_slice(), p + w, c);
                        let t = string_of(inner.as_slice());
                        let ghost before = inline_views(spans@);
                        if code {
                            spans.push(PreviewSpan::Code(t));
                        } else {
                            spans.push(PreviewSpan::Bold(t));
                        }
                        assert(inline_views(spans@) =~= before.push(if code {
                            InlineSpan::Code(inner@)
                        } else {
                            InlineSpan::Bold(inner@)
                        }));
                        found = true;
                        index = c + w;
                    },
                }
            },
        }
    }
    if found {
        Some(spans)
    } else {
        None
    }
}


/// A line's inline spans, or the whole line as one plain span.
pub open spec fn inline_or_plain(text: Seq<char>) -> Seq<InlineSpan> {
    let (spans, found) = inline_fold(text, 0, Seq::empty(), false);
    if found {
        spans
    } else {
        seq![InlineSpan::Plain(text)]
    }
}

pub fn inline_or_plain_spans(text: &str) -> (r: Vec<PreviewSpan>)
    ensures
        inline_views(r@) == inline_or_plain(text@),
{
    match inline_spans(text) {
        Some(v) => v,
        None => {
            let v = vec![PreviewSpan::Plain(text.to_owned())];
            assert(inline_views(v@) =~= seq![InlineSpan::Plain(text@)]);
            v
        },
    }
}

/// A markup line as its kind and texts.
pub enum MarkupView {
    Code(Seq<char>),
    Heading(u8, Seq<char>),
    Checkbox(Seq<char>, bool, Seq<char>),
    ListItem(Seq<char>, Seq<InlineSpan>),
    Styled(Seq<InlineSpan>),
    Plain(Seq<char>),
    Other,
}

pub open spec fn markup_view(l: PreviewLine) -> MarkupView {
    match l {
        PreviewLine::Code(t) => MarkupView::Code(t@),
        PreviewLine::Heading { level, text } => MarkupView::Heading(level, text@),
        PreviewLine::Checkbox { marker, checked, text } => MarkupView::Checkbox(marker@, checked, text@),
        PreviewLine::ListItem { marker, spans } => MarkupView::ListItem(marker@, inline_views(spans@)),
        PreviewLine::Styled(v) => MarkupView::Styled(inline_views(v@)),
        PreviewLine::Plain(t) => MarkupView::Plain(t@),
        _ => MarkupView::Other,
    }
}

/// One line marked up on its own, and whether a code fence is open after it:
/// a fence line toggles the fence, lines inside it are code; else a
/// heading, a task, a list item, inline markup, or plain text.
pub open spec fn markup_of(line: Seq<char>, in_code: bool) -> (MarkupView, bool) {
    if starts_with(trim_start(line), "```"@) {
        (MarkupView::Code(line), !in_code)
    } else if in_code {
        (MarkupView::Code(line), in_code)
    } else if heading_of(line) is Some {
        (MarkupView::Heading(1, heading_of(line)->Some_0), in_code)
    } else if checkbox_of(line) is Some {
        (MarkupView::Checkbox("•"@, checkbox_of(line)->Some_0.0, checkbox_of(line)->Some_0.1), in_code)
    } else if list_item_of(line) is Some {
        (MarkupView::ListItem(list_item_of(line)->Some_0.0, inline_or_plain(list_item_of(line)->Some_0.1)), in_code)
    } else if inline_fold(line, 0, Seq::empty(), false).1 {
        (MarkupView::Styled(inline_fold(line, 0, Seq::empty(), false).0), in_code)
    } else {
        (MarkupView::Plain(line), in_code)
    }
}

pub fn markup_line(line: &str, in_code_block: &mut bool) -> (r: PreviewLine)
    ensures
        (markup_view(r), *final(in_code_block)) == markup_of(line@, *old(in_code_block)),
{
    let l = chars_of(line);
    let t = trim_start_chars(l.as_slice());
    proof {
        reveal_strlit("```");
    }
    if has_prefix(t.as_slice(), chars_of("```").as_slice()) {
        *in_code_block = !*in_code_block;
        return PreviewLine::Code(line.to_owned());
    }
    if *in_code_block {
        return PreviewLine::Code(line.to_owned());
    }
    match heading_text(line) {
        Some(h) => {
            return PreviewLine::Heading { level: 1, text: h };
        },
        None => {},
    }
    match checkbox_text(line) {
        Some((checked, text)) => {
            return PreviewLine::Checkbox { marker: "•".to_owned(), checked, text };
        },
        None => {},
    }
    match list_item_text(line) {
        Some((marker, text)) => {
            let spans = inline_or_plain_spans(text.as_str());
            return PreviewLine::ListItem { marker, spans };
        },
        None => {},
    }
    match inline_spans(line) {
        Some(spans) => PreviewLine::Styled(spans),
        None => PreviewLine::Plain(line.to_owned()),
    }
}


// ---------------------------------------------------------------------------
// Preview excerpts
// ---------------------------------------------------------------------------
/// The non-blank lines of `ls`, trimmed.
pub open spec fn nonblank_trimmed(ls: Seq<Seq<char>>) -> Seq<Seq<char>>
    decreases ls.len(),
{
    if ls.len() == 0 {
        Seq::empty()
    } else {
        nonblank_trimmed(ls.drop_last()) + if trim(ls.last()).len() == 0 {
            Seq::<Seq<char>>::empty()
        } else {
            seq![trim(ls.last())]
        }
    }
}

pub open spec fn first_n(v: Seq<Seq<char>>, n: int) -> Seq<Seq<char>> {
    if n < v.len() {
        v.take(n)
    } else {
        v
    }
}

/// The first `limit` non-blank lines of `content`, trimmed.
pub fn useful_lines(content: &str, limit: usize) -> (r: Vec<String>)
    ensures
        strs(r@) == first_n(nonblank_trimmed(crate::text::lines(content@)), limit as int),
{
    let c = chars_of(content);
    let ls = crate::text::lines_of(c.as_slice());
    let ghost lv = seqs(ls@);
    let mut all: Vec<String> = Vec::new();
    let mut i: usize = 0;
    while i < ls.len()
        invariant
            0 <= i <= ls@.len(),
            lv == seqs(ls@),
            strs(all@) == nonblank_trimmed(lv.take(i as int)),
        decreases ls@.len() - i,
    {
        assert(lv.take(i + 1).drop_last() =~= lv.take(i as int));
        assert(lv.take(i + 1).last() == ls@[i as int]@);
        let t = trim_chars(ls[i].as_slice());
        if t.len() != 0 {
            let ghost before = strs(all@);
            all.push(string_of(t.as_slice()));
            assert(strs(all@) =~= before + seq![t@]);
        } else {
            assert(strs(all@) =~= strs(all@) + Seq::<Seq<char>>::empty());
        }
        i = i + 1;
    }
    assert(lv.take(i as int) =~= lv);
    let ghost allv = strs(all@);
    if limit < all.len() {
        all.truncate(limit);
        assert(strs(all@) =~= allv.take(limit as int));
    }
    all
}

/// The first line from `i` that is a heading (and, with `summary`, whose
/// lowercased title contains "summary").
pub open spec fn first_heading_line(ls: Seq<Seq<char>>, i: int, summary: bool) -> Option<int>
    decreases ls.len() - i,
{
    if i < 0 || i >= ls.len() {
        None
    } else {
        match heading_of(ls[i]) {
            Some(h) => if !summary || crate::text::contains(crate::text::unicode_lower(h), "summary"@) {
                Some(i)
            } else {
                first_heading_line(ls, i + 1, summary)
            },
            None => first_heading_line(ls, i + 1, summary),
        }
    }
}

/// The first block of non-blank lines from `i` (trimmed), stopping at a blank
/// line or heading after it began, or after `limit` lines.
pub open spec fn block_from(ls: Seq<Seq<char>>, i: int, started: bool, acc: Seq<Seq<char>>, limit: int) -> Seq<Seq<char>>
    decreases ls.len() - i,
{
    if i < 0 || i >= ls.len() {
        acc
    } else {
        let t = trim(ls[i]);
        if t.len() == 0 {
            if started {
                acc
            } else {
                block_from(ls, i + 1, started, acc, limit)
            }
        } else if started && heading_of(t) is Some {
            acc
        } else if acc.len() + 1 >= limit {
            acc.push(t)
        } else {
            block_from(ls, i + 1, true, acc.push(t), limit)
        }
    }
}

pub fn first_block_after(ls: &Vec<Vec<char>>, start: usize, limit: usize) -> (r: Vec<String>)
    requires
        start <= ls@.len(),
    ensures
        strs(r@) == block_from(seqs(ls@), start as int, false, Seq::empty(), limit as int),
{
    let ghost lv = seqs(ls@);
    let mut selected: Vec<String> = Vec::new();
    let mut started = false;
    let mut i = start;
    assert(strs(selected@) =~= Seq::<Seq<char>>::empty());
    while i < ls.len()
        invariant
            start <= i <= ls@.len(),
            lv == seqs(ls@),
            block_from(lv, start as int, false, Seq::empty(), limit as int) == block_from(lv, i as int, started, strs(selected@), limit as int),
        decreases ls@.len() - i,
    {
        assert(lv[i as int] == ls@[i as int]@);
        let t = trim_chars(ls[i].as_slice());
        if t.len() == 0 {
            if started {
                return selected;
            }
            i = i + 1;
            continue;
        }
        let ts = string_of(t.as_slice());
        if started && heading_text(ts.as_str()).is_some() {
            return selected;
        }
        let ghost before = strs(selected@);
        selected.push(ts);
        assert(strs(selected@) =~= before.push(t@));
        started = true;
        if selected.len() >= limit {
            return selected;
        }
        i = i + 1;
    }
    selected
}

/// The digest excerpt of a pressed digest: its title heading, then its
/// summary heading and the block after it, or else the block after the title.
pub open spec fn digest_excerpt(content: Seq<char>) -> Seq<Seq<char>> {
    let ls = crate::text::lines(content);
    let title = first_heading_line(ls, 0, false);
    let summary = first_heading_line(ls, 0, true);
    let head = match title {
        Some(t) => seq![trim(ls[t])],
        None => Seq::empty(),
    };
    match summary {
        Some(si) => head.push(trim(ls[si])) + block_from(ls, si + 1, false, Seq::empty(), 8),
        None => {
            let start = match title {
                Some(t) => t + 1,
                None => 0,
            };
            head + block_from(ls, start, false, Seq::empty(), 8)
        },
    }
}

proof fn lemma_first_heading_bounds(ls: Seq<Seq<char>>, i: int, summary: bool)
    requires
        0 <= i,
    ensures
        first_heading_line(ls, i, summary) matches Some(k) ==> i <= k < ls.len() && heading_of(ls[k]) is Some,
    decreases ls.len() - i,
{
    if i < ls.len() {
        lemma_first_heading_bounds(ls, i + 1, summary);
    }
}

fn find_heading_line(ls: &Vec<Vec<char>>, summary: bool) -> (r: Option<usize>)
    ensures
        match r {
            Some(k) => first_heading_line(seqs(ls@), 0, summary) == Some(k as int),
            None => first_heading_line(seqs(ls@), 0, summary) is None,
        },
{
    let ghost lv = seqs(ls@);
    let word = chars_of("summary");
    let mut i: usize = 0;
    while i < ls.len()
        invariant
            0 <= i <= ls@.len(),
            lv == seqs(ls@),
            word@ == "summary"@,
            first_heading_line(lv, 0, summary) == first_heading_line(lv, i as int, summary),
        decreases ls@.len() - i,
    {
        assert(lv[i as int] == ls@[i as int]@);
        let line = string_of(ls[i].as_slice());
        match heading_text(line.as_str()) {
            Some(h) => {
                if !summary {
                    return Some(i);
                }
                let hc = chars_of(h.as_str());
                let low = crate::text::to_lowercase(hc.as_slice());
                if crate::text::has_seq(low.as_slice(), word.as_slice()) {
                    return Some(i);
                }
            },
            None => {},
        }
        i = i + 1;
    }
    None
}

/// The excerpt of a pressed digest shown in a preview (see [`digest_excerpt`]).
pub fn digest_lines(content: &str) -> (r: Vec<String>)
    ensures
        strs(r@) == digest_excerpt(content@),
{
    let c = chars_of(content);
    let ls = crate::text::lines_of(c.as_slice());
    let ghost lv = seqs(ls@);
    let nls = ls.len();
    let title = find_heading_line(&ls, false);
    let summary = find_heading_line(&ls, true);
    proof {
        lemma_first_heading_bounds(lv, 0, false);
        lemma_first_heading_bounds(lv, 0, true);
        assert(lv.len() == ls@.len());
    }
    let mut selected: Vec<String> = Vec::new();
    match title {
        Some(t) => {
            let tt = trim_chars(ls[t].as_slice());
            selected.push(string_of(tt.as_slice()));
            assert(strs(selected@) =~= seq![trim(lv[t as int])]);
        },
        None => {
            assert(strs(selected@) =~= Seq::<Seq<char>>::empty());
        },
    }
    let ghost head = strs(selected@);
    match summary {
        Some(si) => {
            let st = trim_chars(ls[si].as_slice());
            selected.push(string_of(st.as_slice()));
            let ghost h2 = strs(selected@);
            assert(h2 =~= head.push(trim(lv[si as int])));
            let block = first_block_after(&ls, si + 1, 8);
            let ghost bv = strs(block@);
            selected.append(&mut block.clone());
            assert(strs(selected@) =~= h2 + bv);
        },
        None => {
            let start = match title {
                Some(t) => t + 1,
                None => 0,
            };
            let block = first_block_after(&ls, start, 8);
            let ghost bv = strs(block@);
            selected.append(&mut block.clone());
            assert(strs(selected@) =~= head + bv);
        },
    }
    selected
}

/// The first heading of a document, if any.
pub fn first_heading(content: &str) -> (r: Option<String>)
    ensures
        match r {
            Some(h) => first_heading_line(crate::text::lines(content@), 0, false) matches Some(k)
                && heading_of(crate::text::lines(content@)[k]) == Some(h@),
            None => first_heading_line(crate::text::lines(content@), 0, false) is None,
        },
{
    let c = chars_of(content);
    let ls = crate::text::lines_of(c.as_slice());
    proof {
        lemma_first_heading_bounds(seqs(ls@), 0, false);
    }
    match find_heading_line(&ls, false) {
        Some(k) => {
            assert(seqs(ls@)[k as int] == ls@[k as int]@);
            let line = string_of(ls[k].as_slice());
            heading_text(line.as_str())
        },
        None => None,
    }
}

/// A preview that would be empty says so.
pub fn fallback_if_empty(lines: Vec<PreviewLine>) -> (r: Vec<PreviewLine>)
    ensures
        lines@.len() > 0 ==> r@ == lines@,
        lines@.len() == 0 ==> r@.len() == 1 && (r@[0] matches PreviewLine::Plain(t) && t@ == "No preview available."@),
{
    if lines.len() == 0 {
        vec![PreviewLine::Plain("No preview available.".to_owned())]
    } else {
        lines
    }
}

} // verus!
