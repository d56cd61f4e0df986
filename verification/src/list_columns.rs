//! The columns of `leaf list`, and the Markdown and plain-text tables built
//! from them.
use crate::inventory::ParseState;
use crate::text::{append, chars_of, join, join_chars, push_str, seqs, string_of};
use vstd::prelude::*;

verus! {

#[derive(Debug, Clone, Copy, PartialEq, Eq, Structural)]
pub enum Bucket {
    Seeds,
    Leaves,
    Fallen,
    Pressed,
}

#[derive(Debug, Clone, Copy, PartialEq, Eq, Structural)]
pub enum ListColumn {
    Bucket,
    Phase,
    Gate,
    Slug,
    Status,
}

#[derive(Debug, Clone, Copy, PartialEq, Eq, Structural)]
pub enum ColumnWidth {
    Fixed(u16),
    Min(u16),
}

pub const LIST_COLUMNS: [ListColumn; 5] = [
    ListColumn::Bucket,
    ListColumn::Phase,
    ListColumn::Gate,
    ListColumn::Slug,
    ListColumn::Status,
];

/// What one row of the list shows, column by column.
#[derive(Debug, Clone)]
pub struct ListColumnRow {
    pub bucket_label: String,
    pub phase: String,
    pub gate: String,
    pub slug: String,
    pub parse_state: ParseState,
}

pub open spec fn header_of(c: ListColumn) -> Seq<char> {
    match c {
        ListColumn::Bucket => "BUCKET"@,
        ListColumn::Phase => "PHASE"@,
        ListColumn::Gate => "GATE"@,
        ListColumn::Slug => "SLUG"@,
        ListColumn::Status => "STATUS"@,
    }
}

pub open spec fn text_min_width_of(c: ListColumn) -> nat {
    match c {
        ListColumn::Bucket => 7,
        ListColumn::Phase => 10,
        ListColumn::Gate => 14,
        ListColumn::Slug => 8,
        ListColumn::Status => 8,
    }
}

pub open spec fn parse_state_text(s: ParseState) -> Seq<char> {
    match s {
        ParseState::Valid => "ok"@,
        ParseState::Partial => "partial"@,
        ParseState::Error => "error"@,
    }
}

/// The text a column shows for a row.
pub open spec fn column_value(c: ListColumn, row: ListColumnRow) -> Seq<char> {
    match c {
        ListColumn::Bucket => row.bucket_label@,
        ListColumn::Phase => row.phase@,
        ListColumn::Gate => row.gate@,
        ListColumn::Slug => row.slug@,
        ListColumn::Status => parse_state_text(row.parse_state),
    }
}

impl ListColumn {
    pub fn header(self) -> (r: &'static str)
        ensures
            r@ == header_of(self),
    {
        match self {
            ListColumn::Bucket => "BUCKET",
            ListColumn::Phase => "PHASE",
            ListColumn::Gate => "GATE",
            ListColumn::Slug => "SLUG",
            ListColumn::Status => "STATUS",
        }
    }

    pub fn tui_width(self) -> (r: ColumnWidth)
        ensures
            r == (match self {
                ListColumn::Bucket => ColumnWidth::Fixed(8),
                ListColumn::Phase => ColumnWidth::Fixed(14),
                ListColumn::Gate => ColumnWidth::Fixed(18),
                ListColumn::Slug => ColumnWidth::Min(18),
                ListColumn::Status => ColumnWidth::Fixed(8),
            }),
    {
        match self {
            ListColumn::Bucket => ColumnWidth::Fixed(8),
            ListColumn::Phase => ColumnWidth::Fixed(14),
            ListColumn::Gate => ColumnWidth::Fixed(18),
            ListColumn::Slug => ColumnWidth::Min(18),
            ListColumn::Status => ColumnWidth::Fixed(8),
        }
    }

    pub fn text_min_width(self) -> (r: usize)
        ensures
            r == text_min_width_of(self),
    {
        match self {
            ListColumn::Bucket => 7,
            ListColumn::Phase => 10,
            ListColumn::Gate => 14,
            ListColumn::Slug => 8,
            ListColumn::Status => 8,
        }
    }

    pub fn value(self, row: &ListColumnRow) -> (r: String)
        ensures
            r@ == column_value(self, *row),
    {
        match self {
            ListColumn::Bucket => row.bucket_label.clone(),
            ListColumn::Phase => row.phase.clone(),
            ListColumn::Gate => row.gate.clone(),
            ListColumn::Slug => row.slug.clone(),
            ListColumn::Status => parse_state_label(row.parse_state).to_string(),
        }
    }
}

pub fn bucket_label_singular(bucket: Bucket) -> (r: &'static str)
    ensures
        r@ == (match bucket {
            Bucket::Seeds => "seed"@,
            Bucket::Leaves => "leaf"@,
            Bucket::Fallen => "fallen"@,
            Bucket::Pressed => "pressed"@,
        }),
{
    match bucket {
        Bucket::Seeds => "seed",
        Bucket::Leaves => "leaf",
        Bucket::Fallen => "fallen",
        Bucket::Pressed => "pressed",
    }
}

pub fn bucket_label_plural(bucket: Bucket) -> (r: &'static str)
    ensures
        r@ == (match bucket {
            Bucket::Seeds => "seeds"@,
            Bucket::Leaves => "leaves"@,
            Bucket::Fallen => "fallen"@,
            Bucket::Pressed => "pressed"@,
        }),
{
    match bucket {
        Bucket::Seeds => "seeds",
        Bucket::Leaves => "leaves",
        Bucket::Fallen => "fallen",
        Bucket::Pressed => "pressed",
    }
}

pub fn parse_state_label(state: ParseState) -> (r: &'static str)
    ensures
        r@ == parse_state_text(state),
{
    match state {
        ParseState::Valid => "ok",
        ParseState::Partial => "partial",
        ParseState::Error => "error",
    }
}

// ---------------------------------------------------------------------------
// Markdown
// ---------------------------------------------------------------------------
/// One character of a Markdown cell: line breaks become spaces and `|` is
/// escaped.
pub open spec fn md_escape_char(c: char) -> Seq<char> {
    if c == '\r' || c == '\n' {
        seq![' ']
    } else if c == '|' {
        seq!['\\', '|']
    } else {
        seq![c]
    }
}

pub open spec fn md_escape(s: Seq<char>) -> Seq<char>
    decreases s.len(),
{
    if s.len() == 0 {
        Seq::empty()
    } else {
        md_escape(s.drop_last()) + md_escape_char(s.last())
    }
}

/// The text of each `String` in `v`.
pub open spec fn strs(v: Seq<String>) -> Seq<Seq<char>> {
    v.map_values(|s: String| s@)
}

/// `| a | b | c |`, each cell escaped.
pub open spec fn md_row(cells: Seq<Seq<char>>) -> Seq<char> {
    "| "@ + join(cells.map_values(|c: Seq<char>| md_escape(c)), " | "@) + " |"@
}

pub open spec fn headers(columns: Seq<ListColumn>) -> Seq<Seq<char>> {
    columns.map_values(|c: ListColumn| header_of(c))
}

pub open spec fn row_cells(columns: Seq<ListColumn>, row: ListColumnRow) -> Seq<Seq<char>> {
    columns.map_values(|c: ListColumn| column_value(c, row))
}

pub open spec fn dashes(n: nat) -> Seq<Seq<char>> {
    Seq::new(n, |i: int| "---"@)
}

/// The whole Markdown table: header, divider, then one line per row.
pub open spec fn md_table(columns: Seq<ListColumn>, rows: Seq<ListColumnRow>) -> Seq<char> {
    join(
        seq![md_row(headers(columns)), md_row(dashes(columns.len()))] + rows.map_values(
            |r: ListColumnRow| md_row(row_cells(columns, r)),
        ),
        "\n"@,
    )
}

fn escape_cell_chars(v: &[char]) -> (r: Vec<char>)
    ensures
        r@ == md_escape(v@),
{
    let mut out: Vec<char> = Vec::new();
    for i in 0..v.len()
        invariant
            out@ == md_escape(v@.take(i as int)),
    {
        let c = v[i];
        assert(v@.take(i + 1).drop_last() =~= v@.take(i as int));
        if c == '\r' || c == '\n' {
            out.push(' ');
        } else if c == '|' {
            out.push('\\');
            out.push('|');
        } else {
            out.push(c);
        }
        assert(out@ =~= md_escape(v@.take(i as int)) + md_escape_char(c));
    }
    assert(v@.take(v@.len() as int) =~= v@);
    out
}

pub fn markdown_table_cell(value: &str) -> (r: String)
    ensures
        r@ == md_escape(value@),
{
    let v = chars_of(value);
    let e = escape_cell_chars(v.as_slice());
    string_of(e.as_slice())
}

fn markdown_row_chars(cells: &Vec<String>) -> (r: Vec<char>)
    ensures
        r@ == md_row(strs(cells@)),
{
    let mut escaped: Vec<Vec<char>> = Vec::new();
    for i in 0..cells.len()
        invariant
            seqs(escaped@) == strs(cells@).take(i as int).map_values(
                |c: Seq<char>| md_escape(c),
            ),
    {
        let v = chars_of(cells[i].as_str());
        let e = escape_cell_chars(v.as_slice());
        let ghost before = seqs(escaped@);
        escaped.push(e);
        assert(seqs(escaped@) =~= before.push(md_escape(cells@[i as int]@)));
        assert(strs(cells@).take(i + 1) =~= strs(cells@).take(i as int).push(cells@[i as int]@));
        assert(seqs(escaped@) =~= strs(cells@).take(i + 1).map_values(
            |c: Seq<char>| md_escape(c),
        ));
    }
    assert(strs(cells@).take(cells.len() as int) =~= strs(cells@));
    let sep = chars_of(" | ");
    let body = join_chars(&escaped, sep.as_slice());
    let mut out: Vec<char> = Vec::new();
    push_str(&mut out, "| ");
    append(&mut out, body.as_slice());
    push_str(&mut out, " |");
    out
}

pub fn markdown_row(cells: Vec<String>) -> (r: String)
    ensures
        r@ == md_row(strs(cells@)),
{
    let v = markdown_row_chars(&cells);
    string_of(v.as_slice())
}

fn header_strings(columns: &[ListColumn]) -> (r: Vec<String>)
    ensures
        strs(r@) == headers(columns@),
{
    let mut out: Vec<String> = Vec::new();
    for i in 0..columns.len()
        invariant
            strs(out@) == headers(columns@.take(i as int)),
    {
        let ghost before = strs(out@);
        out.push(columns[i].header().to_string());
        assert(strs(out@) =~= before.push(header_of(columns@[i as int])));
        assert(columns@.take(i + 1) =~= columns@.take(i as int).push(columns@[i as int]));
        assert(strs(out@) =~= headers(columns@.take(i + 1)));
    }
    assert(columns@.take(columns.len() as int) =~= columns@);
    out
}

fn value_strings(columns: &[ListColumn], row: &ListColumnRow) -> (r: Vec<String>)
    ensures
        strs(r@) == row_cells(columns@, *row),
{
    let mut out: Vec<String> = Vec::new();
    for i in 0..columns.len()
        invariant
            strs(out@) == row_cells(columns@.take(i as int), *row),
    {
        let ghost before = strs(out@);
        out.push(columns[i].value(row));
        assert(strs(out@) =~= before.push(column_value(columns@[i as int], *row)));
        assert(columns@.take(i + 1) =~= columns@.take(i as int).push(columns@[i as int]));
        assert(strs(out@) =~= row_cells(columns@.take(i + 1), *row));
    }
    assert(columns@.take(columns.len() as int) =~= columns@);
    out
}

fn dash_strings(n: usize) -> (r: Vec<String>)
    ensures
        strs(r@) == dashes(n as nat),
{
    let mut out: Vec<String> = Vec::new();
    for i in 0..n
        invariant
            strs(out@) == dashes(i as nat),
    {
        let ghost before = strs(out@);
        out.push("---".to_string());
        assert(strs(out@) =~= before.push("---"@));
        assert(strs(out@) =~= dashes((i + 1) as nat));
    }
    out
}

/// The list as a Markdown table.
pub fn markdown_table(columns: &[ListColumn], rows: &[&ListColumnRow]) -> (r: String)
    ensures
        r@ == md_table(columns@, rows@.map_values(|r: &ListColumnRow| *r)),
{
    let ghost rs = rows@.map_values(|r: &ListColumnRow| *r);
    let mut lines: Vec<Vec<char>> = Vec::new();
    let h = header_strings(columns);
    lines.push(markdown_row_chars(&h));
    let d = dash_strings(columns.len());
    lines.push(markdown_row_chars(&d));
    let ghost first = seq![md_row(headers(columns@)), md_row(dashes(columns@.len()))];
    assert(seqs(lines@) =~= first);
    for i in 0..rows.len()
        invariant
            rs == rows@.map_values(|r: &ListColumnRow| *r),
            first == seq![md_row(headers(columns@)), md_row(dashes(columns@.len()))],
            seqs(lines@) == first + rs.take(i as int).map_values(
                |r: ListColumnRow| md_row(row_cells(columns@, r)),
            ),
    {
        let cells = value_strings(columns, rows[i]);
        let ghost before = seqs(lines@);
        lines.push(markdown_row_chars(&cells));
        assert(seqs(lines@) =~= before.push(md_row(row_cells(columns@, rs[i as int]))));
        assert(rs.take(i + 1) =~= rs.take(i as int).push(rs[i as int]));
        assert(seqs(lines@) =~= first + rs.take(i + 1).map_values(
            |r: ListColumnRow| md_row(row_cells(columns@, r)),
        ));
    }
    assert(rs.take(rows.len() as int) =~= rs);
    let nl = chars_of("\n");
    let out = join_chars(&lines, nl.as_slice());
    string_of(out.as_slice())
}

// ---------------------------------------------------------------------------
// Plain text
// ---------------------------------------------------------------------------
/// Characters shown, counted as `str::chars().count()`.
pub fn display_width(value: &str) -> (r: usize)
    ensures
        r == value@.len(),
{
    let v = chars_of(value);
    v.len()
}

pub open spec fn max_nat(a: nat, b: nat) -> nat {
    if a >= b {
        a
    } else {
        b
    }
}

/// The widest value a column shows over `rows`.
pub open spec fn widest_value(c: ListColumn, rows: Seq<ListColumnRow>) -> nat
    decreases rows.len(),
{
    if rows.len() == 0 {
        0
    } else {
        max_nat(widest_value(c, rows.drop_last()), column_value(c, rows.last()).len())
    }
}

/// A column's width: its minimum, its header, or its widest value.
pub open spec fn column_width(c: ListColumn, rows: Seq<ListColumnRow>) -> nat {
    max_nat(max_nat(text_min_width_of(c), header_of(c).len()), widest_value(c, rows))
}

pub fn text_widths(columns: &[ListColumn], rows: &[ListColumnRow]) -> (r: Vec<usize>)
    ensures
        r.len() == columns.len(),
        forall|i: int| 0 <= i < columns.len() ==> r[i] == column_width(columns[i], rows@),
{
    let mut out: Vec<usize> = Vec::new();
    for i in 0..columns.len()
        invariant
            out.len() == i,
            forall|j: int| 0 <= j < i ==> out[j] == column_width(columns[j], rows@),
    {
        let column = columns[i];
        let mut widest: usize = 0;
        for k in 0..rows.len()
            invariant
                widest == widest_value(column, rows@.take(k as int)),
        {
            assert(rows@.take(k + 1).drop_last() =~= rows@.take(k as int));
            let v = column.value(&rows[k]);
            let w = display_width(v.as_str());
            if w > widest {
                widest = w;
            }
        }
        assert(rows@.take(rows.len() as int) =~= rows@);
        let mut width = column.text_min_width();
        let hw = display_width(column.header());
        if hw > width {
            width = hw;
        }
        if widest > width {
            width = widest;
        }
        out.push(width);
    }
    out
}

/// `format!("{s:<w$}")`: `s` followed by spaces up to `w` characters.
pub open spec fn pad_right(s: Seq<char>, w: nat) -> Seq<char> {
    if s.len() < w {
        s + Seq::new((w - s.len()) as nat, |i: int| ' ')
    } else {
        s
    }
}

pub open spec fn min_nat(a: nat, b: nat) -> nat {
    if a <= b {
        a
    } else {
        b
    }
}

/// The cells padded to their widths (all but the last column), joined by
/// one space; cells and widths are paired up to the shorter of the two.
pub open spec fn text_row_text(cells: Seq<Seq<char>>, widths: Seq<usize>) -> Seq<char> {
    join(
        Seq::new(
            min_nat(cells.len(), widths.len()),
            |i: int|
                if i + 1 == widths.len() {
                    cells[i]
                } else {
                    pad_right(cells[i], widths[i] as nat)
                },
        ),
        " "@,
    )
}

fn padded_chars(s: &str, w: usize) -> (r: Vec<char>)
    ensures
        r@ == pad_right(s@, w as nat),
{
    let mut v = chars_of(s);
    let n = v.len();
    if n < w {
        let ghost base = v@;
        let mut k: usize = n;
        while k < w
            invariant
                n <= k <= w,
                base == s@,
                n == s@.len(),
                v@ == base + Seq::new((k - n) as nat, |i: int| ' '),
            decreases w - k,
        {
            v.push(' ');
            k = k + 1;
            assert(v@ =~= base + Seq::new((k - n) as nat, |i: int| ' '));
        }
    }
    v
}

fn text_row_chars(cells: &Vec<String>, widths: &[usize]) -> (r: Vec<char>)
    ensures
        r@ == text_row_text(strs(cells@), widths@),
{
    let n = if cells.len() <= widths.len() {
        cells.len()
    } else {
        widths.len()
    };
    let ghost target = Seq::new(
        min_nat(cells@.len(), widths@.len()),
        |i: int|
            if i + 1 == widths@.len() {
                strs(cells@)[i]
            } else {
                pad_right(strs(cells@)[i], widths@[i] as nat)
            },
    );
    let mut pieces: Vec<Vec<char>> = Vec::new();
    for i in 0..n
        invariant
            n == min_nat(cells@.len(), widths@.len()),
            n == target.len(),
            target == Seq::new(
                min_nat(cells@.len(), widths@.len()),
                |i: int|
                    if i + 1 == widths@.len() {
                        strs(cells@)[i]
                    } else {
                        pad_right(strs(cells@)[i], widths@[i] as nat)
                    },
            ),
            seqs(pieces@) == target.take(i as int),
    {
        let piece = if i + 1 == widths.len() {
            chars_of(cells[i].as_str())
        } else {
            padded_chars(cells[i].as_str(), widths[i])
        };
        let ghost before = seqs(pieces@);
        pieces.push(piece);
        assert(seqs(pieces@) =~= before.push(target[i as int]));
        assert(seqs(pieces@) =~= target.take(i + 1));
    }
    assert(target.take(n as int) =~= target);
    let sp = chars_of(" ");
    join_chars(&pieces, sp.as_slice())
}

pub fn text_row(cells: Vec<String>, widths: &[usize]) -> (r: String)
    ensures
        r@ == text_row_text(strs(cells@), widths@),
{
    let v = text_row_chars(&cells, widths);
    string_of(v.as_slice())
}

/// The whole plain-text table: a header line, then one line per row.
pub open spec fn text_table_text(columns: Seq<ListColumn>, rows: Seq<ListColumnRow>) -> Seq<char> {
    let widths = Seq::new(columns.len(), |i: int| column_width(columns[i], rows) as usize);
    join(
        seq![text_row_text(headers(columns), widths)] + rows.map_values(
            |r: ListColumnRow| text_row_text(row_cells(columns, r), widths),
        ),
        "\n"@,
    )
}

/// The list as an aligned plain-text table.
pub fn text_table(columns: &[ListColumn], rows: &[ListColumnRow]) -> (r: String)
    ensures
        r@ == text_table_text(columns@, rows@),
{
    let widths = text_widths(columns, rows);
    let ghost ws = Seq::new(
        columns@.len(),
        |i: int| column_width(columns@[i], rows@) as usize,
    );
    assert(widths@ =~= ws);
    let mut lines: Vec<Vec<char>> = Vec::new();
    let h = header_strings(columns);
    lines.push(text_row_chars(&h, widths.as_slice()));
    let ghost first = seq![text_row_text(headers(columns@), ws)];
    assert(seqs(lines@) =~= first);
    for i in 0..rows.len()
        invariant
            widths@ == ws,
            first == seq![text_row_text(headers(columns@), ws)],
            seqs(lines@) == first + rows@.take(i as int).map_values(
                |r: ListColumnRow| text_row_text(row_cells(columns@, r), ws),
            ),
    {
        let cells = value_strings(columns, &rows[i]);
        let ghost before = seqs(lines@);
        lines.push(text_row_chars(&cells, widths.as_slice()));
        assert(seqs(lines@) =~= before.push(text_row_text(row_cells(columns@, rows@[i as int]), ws)));
        assert(rows@.take(i + 1) =~= rows@.take(i as int).push(rows@[i as int]));
        assert(seqs(lines@) =~= first + rows@.take(i + 1).map_values(
            |r: ListColumnRow| text_row_text(row_cells(columns@, r), ws),
        ));
    }
    assert(rows@.take(rows.len() as int) =~= rows@);
    let nl = chars_of("\n");
    let out = join_chars(&lines, nl.as_slice());
    string_of(out.as_slice())
}

} // verus!
