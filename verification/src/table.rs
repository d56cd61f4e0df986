//! Markdown tables: the cells collected while reading one, the rows that
//! spill out of it, and the header, divider and row lines it renders as.
use crate::links::{span_view, SpanView};
use crate::preview::{
    column_metric, display_width_chars, dwidth, lemma_dwidth_bound, metric_of, text_at, ColumnRange,
    PreviewLine, PreviewSourceRange, PreviewSpan, PreviewTableLink, TableAlignment, TableColumnMetric,
    TableDividerKind,
};
use crate::text::{append, chars_of, join, join_chars, seqs, trim, trim_chars, end_non_ws, first_non_ws, is_ws, push_str, skip_ws_from, slice_vec, string_of, ws_end_before};
use vstd::prelude::*;

verus! {

/// A link inside a cell being collected, with the columns it covers.
#[derive(Debug, Clone)]
pub struct TableCellLink {
    pub text: String,
    pub columns: ColumnRange,
    pub target: String,
    pub source_range: PreviewSourceRange,
    pub local: bool,
}

/// A cell being collected: its text and the links in it.
#[derive(Debug, Clone)]
pub struct TableCell {
    pub text: String,
    pub links: Vec<TableCellLink>,
}

/// A cell link as plain values: text, first and end column, target, source
/// range, whether it is local.
pub type LinkView = (Seq<char>, int, int, Seq<char>, PreviewSourceRange, bool);

pub open spec fn link_view(l: TableCellLink) -> LinkView {
    (l.text@, l.columns.start as int, l.columns.end as int, l.target@, l.source_range, l.local)
}

pub open spec fn link_views(v: Seq<TableCellLink>) -> Seq<LinkView> {
    Seq::new(v.len(), |i: int| link_view(v[i]))
}

pub proof fn lemma_dwidth_concat(a: Seq<char>, b: Seq<char>)
    ensures
        dwidth(a + b) == dwidth(a) + dwidth(b),
    decreases b.len(),
{
    if b.len() == 0 {
        assert(a + b =~= a);
    } else {
        assert((a + b).drop_last() =~= a + b.drop_last());
        lemma_dwidth_concat(a, b.drop_last());
    }
}

impl TableCell {
    pub fn new() -> (c: Self)
        ensures
            c.text@ == Seq::<char>::empty(),
            c.links@.len() == 0,
    {
        TableCell { text: String::new(), links: Vec::new() }
    }

    /// Appends plain text.
    pub fn push_text(&mut self, text: &str)
        ensures
            final(self).text@ == old(self).text@ + text@,
            final(self).links@ == old(self).links@,
    {
        let mut v = chars_of(self.text.as_str());
        push_str(&mut v, text);
        self.text = string_of(v.as_slice());
    }

    /// Appends a span's text; a link also records the columns it covers.
    pub fn push_span(&mut self, span: &PreviewSpan)
        requires
            (old(self).text@.len() + crate::preview::span_text_of(*span).len()) * 2 <= usize::MAX,
        ensures
            final(self).text@ == old(self).text@ + crate::preview::span_text_of(*span),
            link_views(final(self).links@) == link_views(old(self).links@) + match span_view(*span) {
                SpanView::Link(text, target, range, local) => seq![
                    (
                        text,
                        dwidth(old(self).text@) as int,
                        dwidth(old(self).text@) + dwidth(text) as int,
                        target,
                        range,
                        local,
                    ),
                ],
                _ => Seq::empty(),
            },
    {
        let before = chars_of(self.text.as_str());
        proof {
            lemma_dwidth_bound(before@);
        }
        let start = display_width_chars(before.as_slice());
        let piece = span.text();
        let mut v = before;
        push_str(&mut v, piece);
        self.text = string_of(v.as_slice());
        let ghost old_links = link_views(self.links@);
        match span {
            PreviewSpan::Link { text, target, source_range, local } => {
                let tc = chars_of(text.as_str());
                proof {
                    lemma_dwidth_bound(tc@);
                }
                let w = display_width_chars(tc.as_slice());
                self.links.push(
                    TableCellLink {
                        text: text.clone(),
                        columns: ColumnRange { start, end: start + w },
                        target: target.clone(),
                        source_range: *source_range,
                        local: *local,
                    },
                );
                assert(link_views(self.links@) =~= old_links + seq![
                    (text@, start as int, start + w, target@, *source_range, *local),
                ]);
            },
            _ => {
                assert(link_views(self.links@) =~= old_links + Seq::<LinkView>::empty());
            },
        }
    }
}

/// A link moved into a cell trimmed of `lead` leading columns and
/// `width` wide: dropped when it lies outside, otherwise shifted and cut.
pub open spec fn shifted_link(l: LinkView, lead: int, width: int) -> Option<LinkView> {
    if l.2 <= lead || l.1 >= lead + width {
        None
    } else {
        let start = if l.1 >= lead {
            l.1 - lead
        } else {
            0
        };
        let end0 = if l.2 >= lead {
            l.2 - lead
        } else {
            0
        };
        let end = if end0 <= width {
            end0
        } else {
            width
        };
        if start < end {
            Some((l.0, start, end, l.3, l.4, l.5))
        } else {
            None
        }
    }
}

pub open spec fn shifted_links(ls: Seq<LinkView>, lead: int, width: int) -> Seq<LinkView>
    decreases ls.len(),
{
    if ls.len() == 0 {
        Seq::empty()
    } else {
        shifted_links(ls.drop_last(), lead, width) + match shifted_link(ls.last(), lead, width) {
            Some(l) => seq![l],
            None => Seq::empty(),
        }
    }
}

/// A cell's text holds something besides whitespace, or nothing at all.
pub open spec fn trimmable(text: Seq<char>) -> bool {
    skip_ws_from(text, 0) <= ws_end_before(text, text.len() as int)
}

/// A cell without surrounding whitespace, its links moved along.
pub open spec fn trimmed_cell(text: Seq<char>, links: Seq<LinkView>) -> (Seq<char>, Seq<LinkView>) {
    let i = skip_ws_from(text, 0);
    let j = ws_end_before(text, text.len() as int);
    if i == 0 && j == text.len() {
        (text, links)
    } else {
        (
            text.subrange(i, j),
            shifted_links(links, dwidth(text.take(i)) as int, dwidth(text.subrange(i, j)) as int),
        )
    }
}

fn shift_link(l: &TableCellLink, lead: usize, width: usize) -> (r: Option<TableCellLink>)
    requires
        lead + width <= usize::MAX,
    ensures
        match r {
            Some(x) => shifted_link(link_view(*l), lead as int, width as int) == Some(link_view(x)),
            None => shifted_link(link_view(*l), lead as int, width as int) is None,
        },
{
    if l.columns.end <= lead || l.columns.start >= lead + width {
        return None;
    }
    let start = if l.columns.start >= lead {
        l.columns.start - lead
    } else {
        0
    };
    let end0 = if l.columns.end >= lead {
        l.columns.end - lead
    } else {
        0
    };
    let end = if end0 <= width {
        end0
    } else {
        width
    };
    if start < end {
        Some(
            TableCellLink {
                text: l.text.clone(),
                columns: ColumnRange { start, end },
                target: l.target.clone(),
                source_range: l.source_range,
                local: l.local,
            },
        )
    } else {
        None
    }
}

impl TableCell {
    /// The cell without surrounding whitespace; its links move with the
    /// text, and those left outside it are dropped.
    pub fn trimmed(self) -> (r: Self)
        requires
            trimmable(self.text@),
            self.text@.len() * 2 <= usize::MAX,
        ensures
            (r.text@, link_views(r.links@)) == trimmed_cell(self.text@, link_views(self.links@)),
    {
        let t = chars_of(self.text.as_str());
        let i = first_non_ws(t.as_slice());
        let j = end_non_ws(t.as_slice());
        if i == 0 && j == t.len() {
            return self;
        }
        let lead_part = slice_vec(t.as_slice(), 0, i);
        let body = slice_vec(t.as_slice(), i, j);
        proof {
            lemma_dwidth_bound(lead_part@);
            lemma_dwidth_bound(body@);
            lemma_dwidth_concat(lead_part@, body@);
            assert(lead_part@ + body@ =~= t@.take(j as int));
            lemma_dwidth_bound(t@.take(j as int));
        }
        let lead = display_width_chars(lead_part.as_slice());
        let width = display_width_chars(body.as_slice());
        let mut links: Vec<TableCellLink> = Vec::new();
        let mut k: usize = 0;
        while k < self.links.len()
            invariant
                k <= self.links.len(),
                lead + width <= usize::MAX,
                link_views(links@) == shifted_links(
                    link_views(self.links@.take(k as int)),
                    lead as int,
                    width as int,
                ),
            decreases self.links.len() - k,
        {
            assert(link_views(self.links@.take(k + 1)).drop_last() =~= link_views(
                self.links@.take(k as int),
            ));
            assert(link_views(self.links@.take(k + 1)).last() == link_view(self.links@[k as int]));
            let ghost before = link_views(links@);
            match shift_link(&self.links[k], lead, width) {
                Some(x) => {
                    links.push(x);
                    assert(link_views(links@) =~= before + seq![link_view(x)]);
                },
                None => {
                    assert(link_views(links@) =~= before + Seq::<LinkView>::empty());
                },
            }
            k = k + 1;
        }
        assert(self.links@.take(self.links.len() as int) =~= self.links@);
        assert(lead_part@ =~= self.text@.take(i as int));
        assert(body@ =~= self.text@.subrange(i as int, j as int));
        TableCell { text: string_of(body.as_slice()), links }
    }
}

// ---------------------------------------------------------------------------
// Rows
// ---------------------------------------------------------------------------
/// A cell as plain values: its text and its links.
pub type CellView = (Seq<char>, Seq<LinkView>);

pub open spec fn cell_view(c: TableCell) -> CellView {
    (c.text@, link_views(c.links@))
}

pub open spec fn row_view(row: Seq<TableCell>) -> Seq<CellView> {
    Seq::new(row.len(), |i: int| cell_view(row[i]))
}

pub open spec fn rows_view(rows: Seq<Vec<TableCell>>) -> Seq<Seq<CellView>> {
    Seq::new(rows.len(), |i: int| row_view(rows[i]@))
}

pub open spec fn row_texts_of(row: Seq<CellView>) -> Seq<Seq<char>> {
    Seq::new(row.len(), |i: int| row[i].0)
}

pub fn row_texts(row: &[TableCell]) -> (r: Vec<String>)
    ensures
        r.deep_view() == row_texts_of(row_view(row@)),
{
    let mut out: Vec<String> = Vec::new();
    let mut i: usize = 0;
    while i < row.len()
        invariant
            i <= row.len(),
            out.deep_view() == row_texts_of(row_view(row@)).take(i as int),
        decreases row.len() - i,
    {
        let c = chars_of(row[i].text.as_str());
        let st = string_of(c.as_slice());
        let ghost before = out.deep_view();
        out.push(st);
        assert(out.deep_view() =~= before.push(row@[i as int].text@));
        assert(out.deep_view() =~= row_texts_of(row_view(row@)).take(i + 1));
        i = i + 1;
    }
    assert(row_texts_of(row_view(row@)).take(row.len() as int) =~= row_texts_of(row_view(row@)));
    out
}

/// How many cells of a row hold more than whitespace.
pub open spec fn filled_cells(row: Seq<CellView>) -> nat
    decreases row.len(),
{
    if row.len() == 0 {
        0
    } else {
        filled_cells(row.drop_last()) + if trim(row.last().0).len() > 0 {
            1nat
        } else {
            0nat
        }
    }
}

/// A row written without `|` at either end that fills a single cell is
/// text that ran on after the table, not a row of it.
pub open spec fn is_spillover_row(row: Seq<CellView>, has_pipe_syntax: bool) -> bool {
    !has_pipe_syntax && filled_cells(row) == 1
}

pub fn is_table_spillover_row(row: &[TableCell], has_pipe_syntax: bool) -> (b: bool)
    ensures
        b == is_spillover_row(row_view(row@), has_pipe_syntax),
{
    if has_pipe_syntax {
        return false;
    }
    let mut n: usize = 0;
    let mut i: usize = 0;
    while i < row.len()
        invariant
            i <= row.len(),
            n == filled_cells(row_view(row@).take(i as int)),
            n <= i,
        decreases row.len() - i,
    {
        assert(row_view(row@).take(i + 1).drop_last() =~= row_view(row@).take(i as int));
        let t = chars_of(row[i].text.as_str());
        let tt = trim_chars(t.as_slice());
        if tt.len() > 0 {
            n = n + 1;
        }
        i = i + 1;
    }
    assert(row_view(row@).take(row.len() as int) =~= row_view(row@));
    n == 1
}

/// Whether row `i` was written with a boundary pipe (rows without a record
/// count as written with one).
pub open spec fn pipe_at(pipes: Seq<bool>, i: int) -> bool {
    if 0 <= i < pipes.len() {
        pipes[i]
    } else {
        true
    }
}

pub open spec fn spills(rows: Seq<Seq<CellView>>, pipes: Seq<bool>, i: int) -> bool {
    i > 0 && is_spillover_row(rows[i], pipe_at(pipes, i))
}

/// The rows that stay in the table, of the first `n`.
pub open spec fn kept_rows(rows: Seq<Seq<CellView>>, pipes: Seq<bool>, n: int) -> Seq<Seq<CellView>>
    decreases n,
{
    if n <= 0 {
        Seq::empty()
    } else {
        kept_rows(rows, pipes, n - 1) + if spills(rows, pipes, n - 1) {
            Seq::empty()
        } else {
            seq![rows[n - 1]]
        }
    }
}

/// The text of the spilled rows of the first `n`: their cells joined by
/// spaces and trimmed, blank ones dropped.
pub open spec fn spilled_texts(rows: Seq<Seq<CellView>>, pipes: Seq<bool>, n: int) -> Seq<Seq<char>>
    decreases n,
{
    if n <= 0 {
        Seq::empty()
    } else {
        let t = trim(join(row_texts_of(rows[n - 1]), seq![' ']));
        spilled_texts(rows, pipes, n - 1) + if spills(rows, pipes, n - 1) && t.len() > 0 {
            seq![t]
        } else {
            Seq::empty()
        }
    }
}

/// Separates the table's rows from the text that spilled out of it.
pub fn split_table_rows_and_spillover(rows: Vec<Vec<TableCell>>, pipes: &[bool]) -> (r: (
    Vec<Vec<TableCell>>,
    Vec<String>,
))
    ensures
        rows_view(r.0@) == kept_rows(rows_view(rows@), pipes@, rows@.len() as int),
        r.1.deep_view() == spilled_texts(rows_view(rows@), pipes@, rows@.len() as int),
{
    broadcast use vstd::std_specs::vec::axiom_spec_into_iter;

    let ghost all = rows@;
    let n = rows.len();
    let mut kept: Vec<Vec<TableCell>> = Vec::new();
    let mut spill: Vec<String> = Vec::new();
    let mut index: usize = 0;
    for row in it: rows.into_iter()
        invariant
            it.seq() == all,
            all.len() == n,
            index == it.index(),
            index <= n,
            rows_view(kept@) == kept_rows(rows_view(all), pipes@, index as int),
            spill.deep_view() == spilled_texts(rows_view(all), pipes@, index as int),
    {
        assert(row == all[index as int]);
        assert(index < n);
        let pipe = if index < pipes.len() {
            pipes[index]
        } else {
            true
        };
        if index > 0 && is_table_spillover_row(row.as_slice(), pipe) {
            let texts = row_texts(row.as_slice());
            let mut pieces: Vec<Vec<char>> = Vec::new();
            let mut k: usize = 0;
            while k < texts.len()
                invariant
                    k <= texts.len(),
                    pieces@.len() == k,
                    forall|q: int| 0 <= q < k ==> #[trigger] pieces@[q]@ == texts.deep_view()[q],
                decreases texts.len() - k,
            {
                pieces.push(chars_of(texts[k].as_str()));
                k = k + 1;
            }
            assert(seqs(pieces@) =~= row_texts_of(row_view(row@)));
            let sep: Vec<char> = vec![' '];
            assert(sep@ =~= seq![' ']);
            let joined = join_chars(&pieces, sep.as_slice());
            let t = trim_chars(joined.as_slice());
            if t.len() > 0 {
                spill.push(string_of(t.as_slice()));
            }
        } else {
            let ghost kv = rows_view(kept@);
            kept.push(row);
            assert(rows_view(kept@) =~= kv + seq![row_view(all[index as int]@)]);
        }
        index = index + 1;
    }
    (kept, spill)
}

// ---------------------------------------------------------------------------
// Rendering
// ---------------------------------------------------------------------------
pub type TableLinkView = (int, LinkView);

pub open spec fn table_link_view(l: PreviewTableLink) -> TableLinkView {
    (
        l.cell as int,
        (l.text@, l.columns.start as int, l.columns.end as int, l.target@, l.source_range, l.local),
    )
}

pub open spec fn table_link_views(v: Seq<PreviewTableLink>) -> Seq<TableLinkView> {
    Seq::new(v.len(), |i: int| table_link_view(v[i]))
}

/// The links of a row, cell by cell, each with its cell's index.
pub open spec fn row_links_of(row: Seq<CellView>) -> Seq<TableLinkView>
    decreases row.len(),
{
    if row.len() == 0 {
        Seq::empty()
    } else {
        let c = row.len() - 1;
        row_links_of(row.drop_last()) + Seq::new(row.last().1.len(), |j: int| (c, row.last().1[j]))
    }
}

pub fn row_links(row: &[TableCell]) -> (r: Vec<PreviewTableLink>)
    ensures
        table_link_views(r@) == row_links_of(row_view(row@)),
{
    let mut out: Vec<PreviewTableLink> = Vec::new();
    let mut c: usize = 0;
    while c < row.len()
        invariant
            c <= row.len(),
            table_link_views(out@) == row_links_of(row_view(row@).take(c as int)),
        decreases row.len() - c,
    {
        assert(row_view(row@).take(c + 1).drop_last() =~= row_view(row@).take(c as int));
        let ghost base = table_link_views(out@);
        let cell = &row[c];
        let mut j: usize = 0;
        while j < cell.links.len()
            invariant
                j <= cell.links.len(),
                table_link_views(out@) == base + Seq::new(
                    j as nat,
                    |q: int| (c as int, link_view(cell.links@[q])),
                ),
            decreases cell.links.len() - j,
        {
            let l = &cell.links[j];
            let ghost before = table_link_views(out@);
            out.push(
                PreviewTableLink {
                    cell: c,
                    text: string_of(chars_of(l.text.as_str()).as_slice()),
                    columns: l.columns,
                    target: string_of(chars_of(l.target.as_str()).as_slice()),
                    source_range: l.source_range,
                    local: l.local,
                },
            );
            assert(table_link_views(out@) =~= before.push((c as int, link_view(*l))));
            assert(base + Seq::new((j + 1) as nat, |q: int| (c as int, link_view(cell.links@[q])))
                =~= (base + Seq::new(j as nat, |q: int| (c as int, link_view(cell.links@[q])))).push(
                (c as int, link_view(cell.links@[j as int])),
            ));
            j = j + 1;
        }
        assert(row_view(row@).take(c + 1).last() == cell_view(*cell));
        assert(Seq::new(cell.links@.len(), |q: int| (c as int, link_view(cell.links@[q]))) =~= Seq::new(
            cell_view(*cell).1.len(),
            |j: int| (c as int, cell_view(*cell).1[j]),
        ));
        c = c + 1;
    }
    assert(row_view(row@).take(row.len() as int) =~= row_view(row@));
    out
}

/// The widest text of column `c` in the first `n` rows (the later one of
/// equally wide texts), `None` when no row reaches that column.
pub open spec fn widest_in_column(rows: Seq<Seq<CellView>>, c: int, n: int) -> Option<Seq<char>>
    decreases n,
{
    if n <= 0 {
        None
    } else {
        let prev = widest_in_column(rows, c, n - 1);
        if c < rows[n - 1].len() {
            let t = rows[n - 1][c].0;
            match prev {
                Some(p) => if dwidth(t) >= dwidth(p) {
                    Some(t)
                } else {
                    Some(p)
                },
                None => Some(t),
            }
        } else {
            prev
        }
    }
}

pub open spec fn column_width(rows: Seq<Seq<CellView>>, c: int) -> nat {
    match widest_in_column(rows, c, rows.len() as int) {
        Some(t) => dwidth(t),
        None => 0,
    }
}

/// The number of columns: the length of the longest row.
pub open spec fn column_count(rows: Seq<Seq<CellView>>, n: int) -> nat
    decreases n,
{
    if n <= 0 {
        0
    } else {
        let prev = column_count(rows, n - 1);
        if rows[n - 1].len() > prev {
            rows[n - 1].len()
        } else {
            prev
        }
    }
}

/// Every cell text is short enough to measure.
pub open spec fn cells_fit(rows: Seq<Seq<CellView>>) -> bool {
    forall|i: int, c: int|
        0 <= i < rows.len() && 0 <= c < rows[i].len() ==> #[trigger] rows[i][c].0.len() * 2
            <= usize::MAX
}

/// Every cell text of one row is short enough to measure.
pub open spec fn row_fits(row: Seq<CellView>) -> bool {
    forall|c: int| 0 <= c < row.len() ==> #[trigger] row[c].0.len() * 2 <= usize::MAX
}

proof fn lemma_cells_fit_push(rows: Seq<Seq<CellView>>, row: Seq<CellView>)
    ensures
        cells_fit(rows.push(row)) == (cells_fit(rows) && row_fits(row)),
{
    let all = rows.push(row);
    if cells_fit(all) {
        assert forall|i: int, c: int| 0 <= i < rows.len() && 0 <= c < rows[i].len() implies #[trigger] rows[i][c].0.len() * 2 <= usize::MAX by {
            assert(all[i] == rows[i]);
            assert(all[i][c].0.len() * 2 <= usize::MAX);
        }
        assert forall|c: int| 0 <= c < row.len() implies #[trigger] row[c].0.len() * 2 <= usize::MAX by {
            assert(all[rows.len() as int] == row);
            assert(all[rows.len() as int][c].0.len() * 2 <= usize::MAX);
        }
    }
    if cells_fit(rows) && row_fits(row) {
        assert forall|i: int, c: int| 0 <= i < all.len() && 0 <= c < all[i].len() implies #[trigger] all[i][c].0.len() * 2 <= usize::MAX by {
            if i < rows.len() {
                assert(all[i] == rows[i]);
                assert(rows[i][c].0.len() * 2 <= usize::MAX);
            } else {
                assert(all[i] == row);
                assert(row[c].0.len() * 2 <= usize::MAX);
            }
        }
    }
}

fn row_fits_exec(row: &[TableCell]) -> (b: bool)
    ensures
        b == row_fits(row_view(row@)),
{
    let ghost rv = row_view(row@);
    let mut c: usize = 0;
    while c < row.len()
        invariant
            c <= row@.len(),
            rv == row_view(row@),
            forall|k: int| 0 <= k < c ==> #[trigger] rv[k].0.len() * 2 <= usize::MAX,
        decreases row@.len() - c,
    {
        let n = chars_of(row[c].text.as_str()).len();
        assert(rv[c as int].0 == row@[c as int].text@);
        if n > usize::MAX / 2 {
            return false;
        }
        c = c + 1;
    }
    true
}

/// Whether every cell of the rows that stay in the table (of all of
/// `rows`) can be measured.
pub fn kept_rows_fit(rows: &Vec<Vec<TableCell>>, pipes: &[bool]) -> (b: bool)
    ensures
        b == cells_fit(kept_rows(rows_view(rows@), pipes@, rows@.len() as int)),
{
    let ghost rv = rows_view(rows@);
    let mut ok = true;
    let mut i: usize = 0;
    while i < rows.len()
        invariant
            i <= rows@.len(),
            rv == rows_view(rows@),
            ok == cells_fit(kept_rows(rv, pipes@, i as int)),
        decreases rows@.len() - i,
    {
        let pipe = if i < pipes.len() { pipes[i] } else { true };
        let spill = i > 0 && is_table_spillover_row(rows[i].as_slice(), pipe);
        assert(rv[i as int] == row_view(rows@[i as int]@));
        assert(spill == spills(rv, pipes@, i as int));
        let ghost before = kept_rows(rv, pipes@, i as int);
        if !spill {
            let fits = row_fits_exec(rows[i].as_slice());
            proof {
                lemma_cells_fit_push(before, rv[i as int]);
                assert(kept_rows(rv, pipes@, i + 1) =~= before.push(rv[i as int]));
            }
            ok = ok && fits;
        } else {
            assert(kept_rows(rv, pipes@, i + 1) =~= before);
        }
        i = i + 1;
    }
    ok
}

/// Column `c`'s widest text (`""` when no row reaches it).
fn widest_text(rows: &[Vec<TableCell>], c: usize) -> (r: Vec<char>)
    requires
        cells_fit(rows_view(rows@)),
    ensures
        r@ == match widest_in_column(rows_view(rows@), c as int, rows@.len() as int) {
            Some(t) => t,
            None => Seq::empty(),
        },
        r@.len() * 2 <= usize::MAX,
{
    let mut best: Option<Vec<char>> = None;
    let mut best_w: usize = 0;
    let mut i: usize = 0;
    while i < rows.len()
        invariant
            i <= rows.len(),
            cells_fit(rows_view(rows@)),
            match best {
                Some(b) => widest_in_column(rows_view(rows@), c as int, i as int) == Some(b@) && best_w
                    == dwidth(b@) && b@.len() * 2 <= usize::MAX,
                None => widest_in_column(rows_view(rows@), c as int, i as int) is None,
            },
        decreases rows.len() - i,
    {
        if c < rows[i].len() {
            let t = chars_of(rows[i][c].text.as_str());
            assert(t@.len() * 2 <= usize::MAX) by {
                assert(rows_view(rows@)[i as int][c as int].0 == t@);
            }
            let w = display_width_chars(t.as_slice());
            let replace = match &best {
                Some(_) => w >= best_w,
                None => true,
            };
            if replace {
                best = Some(t);
                best_w = w;
            }
        }
        i = i + 1;
    }
    match best {
        Some(b) => b,
        None => Vec::new(),
    }
}

pub open spec fn table_metrics(rows: Seq<Seq<CellView>>, widths: Seq<usize>) -> Seq<
    TableColumnMetric,
> {
    let headers = if rows.len() > 0 {
        row_texts_of(rows[0])
    } else {
        Seq::empty()
    };
    Seq::new(
        widths.len(),
        |c: int|
            metric_of(
                text_at(headers, c),
                match widest_in_column(rows, c, rows.len() as int) {
                    Some(t) => t,
                    None => Seq::empty(),
                },
                widths[c] as nat,
            ),
    )
}

/// One metric per column, from the header and the column's widest cell, so
/// that every line of the table is fitted alike.
pub fn collect_table_column_metrics_for_table(rows: &[Vec<TableCell>], widths: &[usize]) -> (r: Vec<
    TableColumnMetric,
>)
    requires
        cells_fit(rows_view(rows@)),
    ensures
        r@ == table_metrics(rows_view(rows@), widths@),
{
    let headers: Vec<String> = if rows.len() > 0 {
        row_texts(rows[0].as_slice())
    } else {
        Vec::new()
    };
    let ghost hs = if rows@.len() > 0 {
        row_texts_of(rows_view(rows@)[0])
    } else {
        Seq::<Seq<char>>::empty()
    };
    assert(headers.deep_view() =~= hs);
    let mut out: Vec<TableColumnMetric> = Vec::new();
    let mut c: usize = 0;
    while c < widths.len()
        invariant
            c <= widths.len(),
            cells_fit(rows_view(rows@)),
            headers.deep_view() == hs,
            hs == (if rows@.len() > 0 {
                row_texts_of(rows_view(rows@)[0])
            } else {
                Seq::<Seq<char>>::empty()
            }),
            out@ == table_metrics(rows_view(rows@), widths@).take(c as int),
        decreases widths.len() - c,
    {
        let header: Vec<char> = if c < headers.len() {
            chars_of(headers[c].as_str())
        } else {
            Vec::new()
        };
        assert(header@ == text_at(hs, c as int)) by {
            if c < headers.len() {
                assert(headers.deep_view()[c as int] == headers@[c as int]@);
            }
        }
        assert(header@.len() * 2 <= usize::MAX) by {
            if c < headers.len() {
                assert(rows_view(rows@)[0][c as int].0 == hs[c as int]);
            }
        }
        let cell = widest_text(rows, c);
        let m = column_metric(header.as_slice(), cell.as_slice(), widths[c]);
        out.push(m);
        assert(out@ =~= table_metrics(rows_view(rows@), widths@).take(c + 1));
        c = c + 1;
    }
    assert(table_metrics(rows_view(rows@), widths@).take(widths.len() as int) =~= table_metrics(rows_view(rows@), widths@));
    out
}

/// A rendered table line as plain values.
pub enum TableLineView {
    Header(
        Seq<Seq<char>>,
        Seq<TableLinkView>,
        Seq<usize>,
        Seq<TableAlignment>,
        Seq<TableColumnMetric>,
    ),
    Divider(Seq<usize>, TableDividerKind, Seq<TableColumnMetric>),
    Row(
        Seq<Seq<char>>,
        Seq<Seq<char>>,
        Seq<TableLinkView>,
        Seq<usize>,
        Seq<TableAlignment>,
        Seq<TableColumnMetric>,
    ),
    Plain(Seq<char>),
    Other,
}

pub open spec fn table_line_view(l: PreviewLine) -> TableLineView {
    match l {
        PreviewLine::TableHeader { cells, links, widths, alignments, metrics } => TableLineView::Header(
            cells.deep_view(),
            table_link_views(links@),
            widths@,
            alignments@,
            metrics@,
        ),
        PreviewLine::TableDivider { widths, kind, metrics } => TableLineView::Divider(
            widths@,
            kind,
            metrics@,
        ),
        PreviewLine::TableRow { headers, cells, links, widths, alignments, metrics } =>
            TableLineView::Row(
            headers.deep_view(),
            cells.deep_view(),
            table_link_views(links@),
            widths@,
            alignments@,
            metrics@,
        ),
        PreviewLine::Plain(t) => TableLineView::Plain(t@),
        _ => TableLineView::Other,
    }
}

pub open spec fn table_line_views(v: Seq<PreviewLine>) -> Seq<TableLineView> {
    Seq::new(v.len(), |i: int| table_line_view(v[i]))
}

/// The lines of rows `i..` after the header: each row, and a body divider
/// between rows.
pub open spec fn body_lines(
    rows: Seq<Seq<CellView>>,
    i: int,
    headers: Seq<Seq<char>>,
    widths: Seq<usize>,
    aligns: Seq<TableAlignment>,
    metrics: Seq<TableColumnMetric>,
) -> Seq<TableLineView>
    decreases rows.len() - i,
{
    if i < 1 || i >= rows.len() {
        Seq::empty()
    } else {
        seq![
            TableLineView::Row(
                headers,
                row_texts_of(rows[i]),
                row_links_of(rows[i]),
                widths,
                aligns,
                metrics,
            ),
        ] + (if i + 1 < rows.len() {
            seq![TableLineView::Divider(widths, TableDividerKind::Body, metrics)]
        } else {
            Seq::empty()
        }) + body_lines(rows, i + 1, headers, widths, aligns, metrics)
    }
}

/// A table as lines: the header and its divider, then the rows with body
/// dividers between them. Every line carries the column widths (each the
/// widest cell), the alignments (missing ones unaligned) and the metrics of
/// the whole table.
pub open spec fn rendered_table(rows: Seq<Seq<CellView>>, alignments: Seq<TableAlignment>) -> Seq<
    TableLineView,
> {
    let cc = column_count(rows, rows.len() as int);
    if cc == 0 {
        Seq::empty()
    } else {
        let widths = Seq::new(cc, |c: int| column_width(rows, c) as usize);
        let aligns = Seq::new(
            cc,
            |c: int|
                if c < alignments.len() {
                    alignments[c]
                } else {
                    TableAlignment::Unaligned
                },
        );
        let metrics = table_metrics(rows, widths);
        let headers = row_texts_of(rows[0]);
        seq![
            TableLineView::Header(headers, row_links_of(rows[0]), widths, aligns, metrics),
            TableLineView::Divider(widths, TableDividerKind::Header, metrics),
        ] + body_lines(rows, 1, headers, widths, aligns, metrics)
    }
}

fn copy_widths(v: &Vec<usize>) -> (r: Vec<usize>)
    ensures
        r@ == v@,
{
    let mut out: Vec<usize> = Vec::new();
    let mut i: usize = 0;
    while i < v.len()
        invariant
            i <= v.len(),
            out@ == v@.take(i as int),
        decreases v.len() - i,
    {
        out.push(v[i]);
        assert(out@ =~= v@.take(i + 1));
        i = i + 1;
    }
    assert(v@.take(v.len() as int) =~= v@);
    out
}

fn copy_aligns(v: &Vec<TableAlignment>) -> (r: Vec<TableAlignment>)
    ensures
        r@ == v@,
{
    let mut out: Vec<TableAlignment> = Vec::new();
    let mut i: usize = 0;
    while i < v.len()
        invariant
            i <= v.len(),
            out@ == v@.take(i as int),
        decreases v.len() - i,
    {
        out.push(v[i]);
        assert(out@ =~= v@.take(i + 1));
        i = i + 1;
    }
    assert(v@.take(v.len() as int) =~= v@);
    out
}

fn copy_metrics(v: &Vec<TableColumnMetric>) -> (r: Vec<TableColumnMetric>)
    ensures
        r@ == v@,
{
    let mut out: Vec<TableColumnMetric> = Vec::new();
    let mut i: usize = 0;
    while i < v.len()
        invariant
            i <= v.len(),
            out@ == v@.take(i as int),
        decreases v.len() - i,
    {
        out.push(v[i]);
        assert(out@ =~= v@.take(i + 1));
        i = i + 1;
    }
    assert(v@.take(v.len() as int) =~= v@);
    out
}

fn copy_texts(v: &Vec<String>) -> (r: Vec<String>)
    ensures
        r.deep_view() == v.deep_view(),
{
    let mut out: Vec<String> = Vec::new();
    let mut i: usize = 0;
    while i < v.len()
        invariant
            i <= v.len(),
            out.deep_view() == v.deep_view().take(i as int),
        decreases v.len() - i,
    {
        let c = chars_of(v[i].as_str());
        let ghost before = out.deep_view();
        out.push(string_of(c.as_slice()));
        assert(out.deep_view() =~= before.push(v@[i as int]@));
        assert(out.deep_view() =~= v.deep_view().take(i + 1));
        i = i + 1;
    }
    assert(v.deep_view().take(v.len() as int) =~= v.deep_view());
    out
}

/// The lines a table renders as (none for a table without columns).
pub fn render_table_lines(rows: &[Vec<TableCell>], alignments: &[TableAlignment]) -> (r: Vec<
    PreviewLine,
>)
    requires
        cells_fit(rows_view(rows@)),
    ensures
        table_line_views(r@) == rendered_table(rows_view(rows@), alignments@),
{
    let mut cc: usize = 0;
    let mut i: usize = 0;
    while i < rows.len()
        invariant
            i <= rows.len(),
            cc == column_count(rows_view(rows@), i as int),
        decreases rows.len() - i,
    {
        if rows[i].len() > cc {
            cc = rows[i].len();
        }
        i = i + 1;
    }
    if cc == 0 {
        return Vec::new();
    }
    let ghost gw = Seq::new(cc as nat, |c: int| column_width(rows_view(rows@), c) as usize);
    let ghost ga = Seq::new(
        cc as nat,
        |c: int|
            if c < alignments@.len() {
                alignments@[c]
            } else {
                TableAlignment::Unaligned
            },
    );
    let mut widths: Vec<usize> = Vec::new();
    let mut aligns: Vec<TableAlignment> = Vec::new();
    let mut c: usize = 0;
    while c < cc
        invariant
            c <= cc,
            cells_fit(rows_view(rows@)),
            gw.len() == cc,
            ga.len() == cc,
            gw == Seq::new(cc as nat, |c: int| column_width(rows_view(rows@), c) as usize),
            ga == Seq::new(
                cc as nat,
                |c: int|
                    if c < alignments@.len() {
                        alignments@[c]
                    } else {
                        TableAlignment::Unaligned
                    },
            ),
            widths@ == gw.take(c as int),
            aligns@ == ga.take(c as int),
        decreases cc - c,
    {
        let t = widest_text(rows, c);
        let w = display_width_chars(t.as_slice());
        widths.push(w);
        assert(widths@ =~= gw.take(c + 1));
        aligns.push(
            if c < alignments.len() {
                alignments[c]
            } else {
                TableAlignment::Unaligned
            },
        );
        assert(aligns@ =~= ga.take(c + 1));
        c = c + 1;
    }
    assert(gw.take(cc as int) =~= gw);
    assert(ga.take(cc as int) =~= ga);
    let metrics = collect_table_column_metrics_for_table(rows, widths.as_slice());
    let headers = row_texts(rows[0].as_slice());
    let ghost hs = headers.deep_view();
    let mut out: Vec<PreviewLine> = Vec::new();
    out.push(
        PreviewLine::TableHeader {
            cells: row_texts(rows[0].as_slice()),
            links: row_links(rows[0].as_slice()),
            widths: copy_widths(&widths),
            alignments: copy_aligns(&aligns),
            metrics: copy_metrics(&metrics),
        },
    );
    out.push(
        PreviewLine::TableDivider {
            widths: copy_widths(&widths),
            kind: TableDividerKind::Header,
            metrics: copy_metrics(&metrics),
        },
    );
    let mut k: usize = 1;
    while k < rows.len()
        invariant
            1 <= k <= rows.len(),
            hs == headers.deep_view(),
            hs == row_texts_of(rows_view(rows@)[0]),
            table_line_views(out@) + body_lines(rows_view(rows@), k as int, hs, widths@, aligns@, metrics@)
                == rendered_table(rows_view(rows@), alignments@),
        decreases rows.len() - k,
    {
        let ghost before = table_line_views(out@);
        out.push(
            PreviewLine::TableRow {
                headers: copy_texts(&headers),
                cells: row_texts(rows[k].as_slice()),
                links: row_links(rows[k].as_slice()),
                widths: copy_widths(&widths),
                alignments: copy_aligns(&aligns),
                metrics: copy_metrics(&metrics),
            },
        );
        if k + 1 < rows.len() {
            out.push(
                PreviewLine::TableDivider {
                    widths: copy_widths(&widths),
                    kind: TableDividerKind::Body,
                    metrics: copy_metrics(&metrics),
                },
            );
        }
        assert(table_line_views(out@) =~= before + seq![
            TableLineView::Row(
                hs,
                row_texts_of(rows_view(rows@)[k as int]),
                row_links_of(rows_view(rows@)[k as int]),
                widths@,
                aligns@,
                metrics@,
            ),
        ] + (if k + 1 < rows.len() {
            seq![TableLineView::Divider(widths@, TableDividerKind::Body, metrics@)]
        } else {
            Seq::empty()
        }));
        k = k + 1;
    }
    assert(body_lines(rows_view(rows@), k as int, hs, widths@, aligns@, metrics@) =~= Seq::<TableLineView>::empty());
    assert(table_line_views(out@) =~= table_line_views(out@) + Seq::<TableLineView>::empty());
    out
}

} // verus!
