//! The knowledge graph of pressed leaves: YAML frontmatter of `pressed.md`
//! and the `predicate -> target` rows of `linked.md`.
use crate::checkpoint::{trim_start_matches, trim_start_matching};
use crate::text::{
    append, chars_of, contains, decimal, decimal_chars, eq_chars, find_char, find_char_from,
    has_prefix, has_seq, has_suffix, join, lemma_find_char_from, lines, lines_of, push_str, seqs,
    slice_vec, split_once_at_char, split_once_at_seq, split_once_char, split_once_seq,
    starts_with, ends_with, string_of, trim, trim_chars, trim_start, trim_start_chars,
};
use vstd::prelude::*;
use vstd::string::StringSliceAdditionalSpecFns;
use vstd::utf8::{decode_utf8, encode_utf8, is_char_boundary};

verus! {

// ---------------------------------------------------------------------------
// Small text helpers shared by the frontmatter and link parsers
// ---------------------------------------------------------------------------
/// `s` without its first and last character when both are `q`.
pub open spec fn strip_pair(s: Seq<char>, q: char) -> Seq<char> {
    if s.len() >= 2 && s[0] == q && s.last() == q {
        s.subrange(1, s.len() - 1)
    } else {
        s
    }
}

/// A backquoted code span loses its backquotes.
pub open spec fn trim_code_text(s: Seq<char>) -> Seq<char> {
    strip_pair(s, '`')
}

/// A double- or single-quoted YAML scalar loses its quotes.
pub open spec fn unquote_text(s: Seq<char>) -> Seq<char> {
    if s.len() >= 2 && ((s[0] == '"' && s.last() == '"') || (s[0] == '\'' && s.last() == '\'')) {
        s.subrange(1, s.len() - 1)
    } else {
        s
    }
}

fn strip_pair_chars(s: &[char], q: char) -> (r: Vec<char>)
    ensures
        r@ == strip_pair(s@, q),
{
    if s.len() >= 2 && s[0] == q && s[s.len() - 1] == q {
        slice_vec(s, 1, s.len() - 1)
    } else {
        slice_vec(s, 0, s.len())
    }
}

fn unquote_chars(s: &[char]) -> (r: Vec<char>)
    ensures
        r@ == unquote_text(s@),
{
    if s.len() >= 2 && ((s[0] == '"' && s[s.len() - 1] == '"') || (s[0] == '\'' && s[s.len()
        - 1] == '\'')) {
        slice_vec(s, 1, s.len() - 1)
    } else {
        slice_vec(s, 0, s.len())
    }
}

/// Removes one pair of surrounding backquotes.
pub fn trim_code(value: &str) -> (r: String)
    ensures
        r@ == trim_code_text(value@),
{
    let v = chars_of(value);
    let t = strip_pair_chars(v.as_slice(), '`');
    string_of(t.as_slice())
}

/// Removes one pair of surrounding `"` or `'` quotes.
pub fn unquote_yaml_scalar(value: &str) -> (r: String)
    ensures
        r@ == unquote_text(value@),
{
    let v = chars_of(value);
    let t = unquote_chars(v.as_slice());
    string_of(t.as_slice())
}

/// `value.split_once(" - ")`: a link target and its optional note.
pub fn split_target_note(value: &str) -> (r: (String, Option<String>))
    ensures
        match split_once_seq(value@, " - "@) {
            Some((t, n)) => r.0@ == t && (r.1 matches Some(x) && x@ == n),
            None => r.0@ == value@ && r.1 is None,
        },
{
    let v = chars_of(value);
    let sep = chars_of(" - ");
    match split_once_at_seq(v.as_slice(), sep.as_slice()) {
        Some((t, n)) => (string_of(t.as_slice()), Some(string_of(n.as_slice()))),
        None => (value.to_string(), None),
    }
}

// ---------------------------------------------------------------------------
// Debug quoting
// ---------------------------------------------------------------------------
/// What `format!("{:?}", s)` prints for a string `s`: the text in double
/// quotes with Rust's escapes.
pub uninterp spec fn debug_quoted(s: Seq<char>) -> Seq<char>;

/// `format!("{:?}", s)` on a string. The result is named by
/// [`debug_quoted`]; nothing more is claimed of std's escaping rules.
#[verifier::external_body]
pub(crate) fn debug_str(s: &str) -> (r: String)
    ensures
        r@ == debug_quoted(s@),
{
    format!("{s:?}")
}

// ---------------------------------------------------------------------------
// Link rows
// ---------------------------------------------------------------------------
pub const RELATION_PREDICATES: [&'static str; 6] = [
    "cites",
    "refines",
    "supersedes",
    "depends_on",
    "derived_from",
    "related_to",
];

pub open spec fn relation_predicates() -> Seq<Seq<char>> {
    seq!["cites"@, "refines"@, "supersedes"@, "depends_on"@, "derived_from"@, "related_to"@]
}

#[derive(Debug, Clone, PartialEq, Eq)]
pub struct LinkEdge {
    pub predicate: String,
    pub target: String,
    pub note: Option<String>,
}

/// What a `linked.md` line is: not a link row, a link, or a broken link row.
pub enum LinkLine {
    Skip,
    Edge(Seq<char>, Seq<char>, Option<Seq<char>>),
    Invalid(Seq<char>),
}

/// The body of a `- ...` row: leading dashes and surrounding whitespace gone.
pub open spec fn link_body(line: Seq<char>) -> Seq<char> {
    trim(trim_start_matches(trim(line), "-"@))
}

pub open spec fn unknown_predicate_message(predicate: Seq<char>) -> Seq<char> {
    "unknown link predicate "@ + debug_quoted(predicate) + "; expected one of "@ + join(
        relation_predicates(),
        ", "@,
    )
}

/// How `parse_link_line` reads one line.
pub open spec fn link_line(line: Seq<char>) -> LinkLine {
    let t = trim(line);
    if t.len() == 0 || t[0] == '#' || t[0] != '-' {
        LinkLine::Skip
    } else {
        let body = link_body(line);
        match split_once_seq(body, "->"@) {
            None => LinkLine::Skip,
            Some((raw_predicate, rest)) => {
                let predicate = trim_code_text(trim(raw_predicate));
                if predicate.len() == 0 {
                    LinkLine::Invalid("link predicate is empty"@)
                } else if !relation_predicates().contains(predicate) {
                    LinkLine::Invalid(unknown_predicate_message(predicate))
                } else {
                    let (raw_target, raw_note) = match split_once_seq(trim(rest), " - "@) {
                        Some((a, b)) => (a, Some(b)),
                        None => (trim(rest), None),
                    };
                    let target = trim_code_text(trim(raw_target));
                    if target.len() == 0 {
                        LinkLine::Invalid("link target is empty"@)
                    } else {
                        let note = match raw_note {
                            Some(n) => if trim(n).len() > 0 {
                                Some(trim(n))
                            } else {
                                None
                            },
                            None => None,
                        };
                        LinkLine::Edge(predicate, target, note)
                    }
                }
            },
        }
    }
}

/// A link row gives an edge only with one of the six relation predicates
/// (`cites`, `refines`, `supersedes`, `depends_on`, `derived_from`,
/// `related_to`) and a non-empty target; a note, when there is one, is not
/// blank.
pub proof fn lemma_link_edges_use_known_predicates(line: Seq<char>)
    ensures
        link_line(line) matches LinkLine::Edge(p, t, n) ==> (p == "cites"@ || p == "refines"@
            || p == "supersedes"@ || p == "depends_on"@ || p == "derived_from"@ || p == "related_to"@)
            && t.len() > 0 && (n matches Some(x) ==> x.len() > 0),
{
    if let LinkLine::Edge(p, t, n) = link_line(line) {
        assert(relation_predicates().contains(p));
        let j = choose|j: int| 0 <= j < relation_predicates().len() && relation_predicates()[j] == p;
        assert(0 <= j < 6);
    }
}

pub open spec fn opt_view(o: Option<String>) -> Option<Seq<char>> {
    match o {
        Some(s) => Some(s@),
        None => None,
    }
}

fn is_relation_predicate(p: &[char]) -> (b: bool)
    ensures
        b == relation_predicates().contains(p@),
{
    let mut i: usize = 0;
    while i < 6
        invariant
            i <= 6,
            forall|j: int| 0 <= j < i ==> relation_predicates()[j] != p@,
        decreases 6 - i,
    {
        let name = chars_of(RELATION_PREDICATES[i]);
        assert(RELATION_PREDICATES[i as int]@ == relation_predicates()[i as int]);
        if eq_chars(p, name.as_slice()) {
            assert(relation_predicates()[i as int] == p@);
            return true;
        }
        i = i + 1;
    }
    proof {
        if relation_predicates().contains(p@) {
            let j = choose|j: int| 0 <= j < 6 && relation_predicates()[j] == p@;
            assert(false);
        }
    }
    false
}

fn predicates_joined() -> (r: Vec<char>)
    ensures
        r@ == join(relation_predicates(), ", "@),
{
    let mut pieces: Vec<Vec<char>> = Vec::new();
    let mut i: usize = 0;
    while i < 6
        invariant
            i <= 6,
            seqs(pieces@) == relation_predicates().take(i as int),
        decreases 6 - i,
    {
        let ghost before = seqs(pieces@);
        pieces.push(chars_of(RELATION_PREDICATES[i]));
        assert(RELATION_PREDICATES[i as int]@ == relation_predicates()[i as int]);
        assert(seqs(pieces@) =~= before.push(relation_predicates()[i as int]));
        assert(relation_predicates().take(i + 1) =~= relation_predicates().take(i as int).push(
            relation_predicates()[i as int],
        ));
        i = i + 1;
    }
    assert(relation_predicates().take(6) =~= relation_predicates());
    let sep = chars_of(", ");
    join_chars_local(&pieces, sep.as_slice())
}

fn join_chars_local(pieces: &Vec<Vec<char>>, sep: &[char]) -> (r: Vec<char>)
    ensures
        r@ == join(seqs(pieces@), sep@),
{
    crate::text::join_chars(pieces, sep)
}

/// Reads one `linked.md` line: `Ok(None)` for anything that is not a link
/// row, the edge for a valid row, and the reason for a broken one.
pub fn parse_link_line(line: &str) -> (r: Result<Option<LinkEdge>, String>)
    ensures
        match link_line(line@) {
            LinkLine::Skip => r matches Ok(None),
            LinkLine::Edge(p, t, n) => r matches Ok(Some(e)) && e.predicate@ == p && e.target@
                == t && opt_view(e.note) == n,
            LinkLine::Invalid(m) => r matches Err(msg) && msg@ == m,
        },
{
    let v = chars_of(line);
    let t = trim_chars(v.as_slice());
    if t.len() == 0 || t[0] == '#' || t[0] != '-' {
        return Ok(None);
    }
    let dash = chars_of("-");
    let stripped = trim_start_matching(t.as_slice(), dash.as_slice());
    let body = trim_chars(stripped.as_slice());
    assert(body@ == link_body(line@));
    let arrow = chars_of("->");
    let (raw_predicate, rest) = match split_once_at_seq(body.as_slice(), arrow.as_slice()) {
        Some(pair) => pair,
        None => {
            return Ok(None);
        },
    };
    let tp = trim_chars(raw_predicate.as_slice());
    let predicate = strip_pair_chars(tp.as_slice(), '`');
    if predicate.len() == 0 {
        return Err("link predicate is empty".to_string());
    }
    if !is_relation_predicate(predicate.as_slice()) {
        let mut msg: Vec<char> = Vec::new();
        push_str(&mut msg, "unknown link predicate ");
        let ps = string_of(predicate.as_slice());
        let q = debug_str(ps.as_str());
        push_str(&mut msg, q.as_str());
        push_str(&mut msg, "; expected one of ");
        let all = predicates_joined();
        append(&mut msg, all.as_slice());
        return Err(string_of(msg.as_slice()));
    }
    let tr = trim_chars(rest.as_slice());
    let sep = chars_of(" - ");
    let (raw_target, raw_note) = match split_once_at_seq(tr.as_slice(), sep.as_slice()) {
        Some((a, b)) => (a, Some(b)),
        None => (tr, None),
    };
    let tt = trim_chars(raw_target.as_slice());
    let target = strip_pair_chars(tt.as_slice(), '`');
    if target.len() == 0 {
        return Err("link target is empty".to_string());
    }
    let note = match raw_note {
        Some(n) => {
            let tn = trim_chars(n.as_slice());
            if tn.len() > 0 {
                Some(string_of(tn.as_slice()))
            } else {
                None
            }
        },
        None => None,
    };
    Ok(Some(LinkEdge { predicate: string_of(predicate.as_slice()), target: string_of(target.as_slice()), note }))
}

// ---------------------------------------------------------------------------
// YAML frontmatter
// ---------------------------------------------------------------------------
/// The value of `key` in the first non-comment `key: value` line that has
/// it, trimmed and unquoted.
pub open spec fn fm_value_in(ls: Seq<Seq<char>>, key: Seq<char>) -> Option<Seq<char>>
    decreases ls.len(),
{
    if ls.len() == 0 {
        None
    } else {
        let t = trim_start(ls[0]);
        let here = if t.len() == 0 || t[0] == '#' {
            None
        } else {
            match split_once_char(t, ':') {
                Some((k, v)) => if trim(k) == key {
                    Some(unquote_text(trim(v)))
                } else {
                    None
                },
                None => None,
            }
        };
        match here {
            Some(v) => Some(v),
            None => fm_value_in(ls.skip(1), key),
        }
    }
}

pub open spec fn fm_value(frontmatter: Seq<char>, key: Seq<char>) -> Option<Seq<char>> {
    fm_value_in(lines(frontmatter), key)
}

proof fn lemma_find_char_first(s: Seq<char>, c: char, i: int, j: int)
    requires
        0 <= i <= j < s.len(),
        s[j] == c,
        forall|k: int| i <= k < j ==> s[k] != c,
    ensures
        find_char_from(s, c, i) == j,
    decreases j - i,
{
    if i < j {
        lemma_find_char_first(s, c, i + 1, j);
    }
}

/// A quoted frontmatter value is read without its quotes: for a block whose
/// first line is `key: "value"` (or `key: 'value'`), the value read for
/// `key` is exactly `value`, whatever the lines after it hold.
pub proof fn lemma_quoted_frontmatter_value(key: Seq<char>, value: Seq<char>, q: char, rest: Seq<char>)
    requires
        q == '"' || q == '\'',
        key.len() > 0,
        key[0] != '#',
        forall|i: int| 0 <= i < key.len() ==> #[trigger] key[i] != ':' && !crate::text::is_ws(key[i]),
        forall|i: int| 0 <= i < value.len() ==> #[trigger] value[i] != '\n',
    ensures
        fm_value(key + ": "@ + seq![q] + value + seq![q] + seq!['\n'] + rest, key) == Some(value),
{
    reveal_strlit(": ");
    let kl = key.len() as int;
    let line = key + ": "@ + seq![q] + value + seq![q];
    let s = line + seq!['\n'] + rest;
    assert(s == key + ": "@ + seq![q] + value + seq![q] + seq!['\n'] + rest);
    assert forall|k: int| 0 <= k < line.len() implies s[k] != '\n' by {
        assert(s[k] == line[k]);
        if k < kl {
            assert(line[k] == key[k]);
            assert(!crate::text::is_ws(key[k]));
        } else if k == kl {
            assert(line[k] == ':');
        } else if k == kl + 1 {
            assert(line[k] == ' ');
        } else if k == kl + 2 {
            assert(line[k] == q);
        } else if k < kl + 3 + value.len() {
            assert(line[k] == value[k - kl - 3]);
        } else {
            assert(line[k] == q);
        }
    }
    assert(s[line.len() as int] == '\n');
    lemma_find_char_first(s, '\n', 0, line.len() as int);
    assert(s.subrange(0, line.len() as int) =~= line);
    assert(line.last() == q);
    assert(crate::text::strip_cr(line) == line);
    let ls = lines(s);
    assert(ls[0] == line);
    // The line's key part.
    assert(line[0] == key[0]);
    assert(crate::text::skip_ws_from(line, 0) == 0);
    assert(line.skip(0) =~= line);
    assert(trim_start(line) == line);
    assert forall|k: int| 0 <= k < kl implies line[k] != ':' by {
        assert(line[k] == key[k]);
    }
    assert(line[kl] == ':');
    lemma_find_char_first(line, ':', 0, kl);
    assert(line.take(kl) =~= key);
    let vp = line.skip(kl + 1);
    assert(vp =~= seq![' '] + seq![q] + value + seq![q]);
    // trim(key) == key
    assert(crate::text::skip_ws_from(key, 0) == 0);
    assert(key.skip(0) =~= key);
    assert(!crate::text::is_ws(key[kl - 1]));
    assert(crate::text::ws_end_before(key, kl) == kl);
    assert(key.take(kl) =~= key);
    assert(trim(key) == key);
    // trim of the value part
    assert(crate::text::is_ws(vp[0]));
    assert(!crate::text::is_ws(vp[1]));
    assert(crate::text::skip_ws_from(vp, 1) == 1);
    assert(crate::text::skip_ws_from(vp, 0) == 1);
    let w = vp.skip(1);
    assert(w =~= seq![q] + value + seq![q]);
    assert(w[w.len() - 1] == q);
    assert(crate::text::ws_end_before(w, w.len() as int) == w.len());
    assert(w.take(w.len() as int) =~= w);
    assert(trim(vp) == w);
    assert(w.subrange(1, w.len() - 1) =~= value);
    assert(crate::graph::unquote_text(w) == value);
}

/// The value of `key` in a frontmatter block.
pub fn frontmatter_value(frontmatter: &str, key: &str) -> (r: Option<String>)
    ensures
        opt_view(r) == fm_value(frontmatter@, key@),
{
    let f = chars_of(frontmatter);
    let k = chars_of(key);
    let ls = lines_of(f.as_slice());
    let ghost all = seqs(ls@);
    assert(all.skip(0) =~= all);
    let mut i: usize = 0;
    while i < ls.len()
        invariant
            i <= ls.len(),
            all == seqs(ls@),
            all == lines(frontmatter@),
            k@ == key@,
            fm_value_in(all, key@) == fm_value_in(all.skip(i as int), key@),
        decreases ls.len() - i,
    {
        let ghost cur = all.skip(i as int);
        assert(cur[0] == ls@[i as int]@);
        assert(cur.skip(1) =~= all.skip(i + 1));
        let t = trim_start_chars(ls[i].as_slice());
        if t.len() > 0 && t[0] != '#' {
            match split_once_at_char(t.as_slice(), ':') {
                Some((rk, rv)) => {
                    let tk = trim_chars(rk.as_slice());
                    if eq_chars(tk.as_slice(), k.as_slice()) {
                        let tv = trim_chars(rv.as_slice());
                        let u = unquote_chars(tv.as_slice());
                        return Some(string_of(u.as_slice()));
                    }
                },
                None => {},
            }
        }
        i = i + 1;
    }
    None
}

pub fn frontmatter_has_key(frontmatter: &str, key: &str) -> (b: bool)
    ensures
        b == fm_value(frontmatter@, key@) is Some,
{
    frontmatter_value(frontmatter, key).is_some()
}

/// `value.split(c)`: the pieces between the separators, always at least one.
pub open spec fn split_text(s: Seq<char>, c: char) -> Seq<Seq<char>>
    decreases s.len(),
{
    let i = find_char_from(s, c, 0);
    if 0 <= i < s.len() {
        seq![s.take(i)] + split_text(s.skip(i + 1), c)
    } else {
        seq![s]
    }
}

pub fn split_chars(s: &[char], c: char) -> (out: Vec<Vec<char>>)
    ensures
        seqs(out@) == split_text(s@, c),
{
    let mut out: Vec<Vec<char>> = Vec::new();
    let mut pos: usize = 0;
    let mut done = false;
    assert(s@.skip(0) =~= s@);
    while !done
        invariant
            pos <= s.len(),
            !done ==> seqs(out@) + split_text(s@.skip(pos as int), c) == split_text(s@, c),
            done ==> seqs(out@) == split_text(s@, c),
        decreases s.len() - pos, (if done {
            0int
        } else {
            1int
        }),
    {
        let rest = slice_vec(s, pos, s.len());
        assert(rest@ =~= s@.skip(pos as int));
        let e = find_char(rest.as_slice(), c, 0);
        proof {
            lemma_find_char_from(rest@, c, 0);
        }
        let ghost before = seqs(out@);
        if e < rest.len() {
            let piece = slice_vec(rest.as_slice(), 0, e);
            out.push(piece);
            assert(seqs(out@) =~= before.push(rest@.take(e as int)));
            assert(rest@.skip(e + 1) =~= s@.skip(pos + e + 1));
            assert(split_text(rest@, c) == seq![rest@.take(e as int)] + split_text(
                rest@.skip(e + 1),
                c,
            ));
            assert(before + split_text(rest@, c) =~= seqs(out@) + split_text(
                s@.skip(pos + e + 1),
                c,
            ));
            pos = pos + e + 1;
        } else {
            out.push(rest);
            assert(seqs(out@) =~= before.push(s@.skip(pos as int)));
            assert(split_text(rest@, c) == seq![rest@]);
            assert(before + split_text(rest@, c) =~= seqs(out@));
            done = true;
        }
    }
    out
}

/// The non-empty, trimmed, unquoted pieces of a list body.
pub open spec fn list_items(pieces: Seq<Seq<char>>) -> Seq<Seq<char>>
    decreases pieces.len(),
{
    if pieces.len() == 0 {
        Seq::empty()
    } else {
        let v = unquote_text(trim(pieces.last()));
        if v.len() > 0 {
            list_items(pieces.drop_last()).push(v)
        } else {
            list_items(pieces.drop_last())
        }
    }
}

/// The body of an inline YAML list: inside `[` `]` when both are there.
pub open spec fn inline_list_body(value: Seq<char>) -> Seq<char> {
    let t = trim(value);
    if t.len() >= 2 && t[0] == '[' && t.last() == ']' {
        t.subrange(1, t.len() - 1)
    } else {
        t
    }
}

pub open spec fn inline_list(value: Seq<char>) -> Seq<Seq<char>> {
    list_items(split_text(inline_list_body(value), ','))
}

pub open spec fn strs(v: Seq<String>) -> Seq<Seq<char>> {
    v.map_values(|s: String| s@)
}

/// `[a, "b", c]` (or `a, b`) as its items.
pub fn parse_yaml_inline_list(value: &str) -> (r: Vec<String>)
    ensures
        strs(r@) == inline_list(value@),
{
    let v = chars_of(value);
    let t = trim_chars(v.as_slice());
    let inner = if t.len() >= 2 && t[0] == '[' && t[t.len() - 1] == ']' {
        slice_vec(t.as_slice(), 1, t.len() - 1)
    } else {
        t
    };
    assert(inner@ == inline_list_body(value@));
    let pieces = split_chars(inner.as_slice(), ',');
    let ghost ps = seqs(pieces@);
    let mut out: Vec<String> = Vec::new();
    for i in 0..pieces.len()
        invariant
            ps == seqs(pieces@),
            strs(out@) == list_items(ps.take(i as int)),
    {
        assert(ps.take(i + 1).drop_last() =~= ps.take(i as int));
        assert(ps.take(i + 1).last() == pieces@[i as int]@);
        let tp = trim_chars(pieces[i].as_slice());
        let u = unquote_chars(tp.as_slice());
        if u.len() > 0 {
            let ghost before = strs(out@);
            out.push(string_of(u.as_slice()));
            assert(strs(out@) =~= before.push(u@));
        }
    }
    assert(ps.take(pieces.len() as int) =~= ps);
    out
}

/// Byte length of the UTF-8 encoding of a character sequence.
pub open spec fn utf8_len(s: Seq<char>) -> nat {
    encode_utf8(s).len()
}

/// The byte offset that scanning reaches after the lines `ls[1..j]`: each
/// line adds its length, and a `'\n'` found at the new offset is stepped over.
pub open spec fn fm_offset(bytes: Seq<u8>, ls: Seq<Seq<char>>, start: int, j: int) -> int
    decreases j,
{
    if j <= 1 {
        start
    } else {
        let prev = fm_offset(bytes, ls, start, j - 1) + utf8_len(ls[j - 1]);
        if 0 <= prev < bytes.len() && bytes[prev] == 10u8 {
            prev + 1
        } else {
            prev
        }
    }
}

/// Index of the first line after the first whose trim is `---`, at or after `j`.
pub open spec fn closing_line_from(ls: Seq<Seq<char>>, j: int) -> int
    decreases ls.len() - j,
{
    if j < 1 || j >= ls.len() {
        ls.len() as int
    } else if trim(ls[j]) == "---"@ {
        j
    } else {
        closing_line_from(ls, j + 1)
    }
}

/// Byte index just after the first `'\n'`, or the length when there is none.
pub open spec fn fm_start(content: Seq<char>) -> int {
    let i = find_char_from(content, '\n', 0);
    if i < content.len() {
        utf8_len(content.take(i)) + 1int
    } else {
        utf8_len(content) as int
    }
}

/// The frontmatter between an opening `---` line and the next `---` line,
/// by the byte offsets the scan computes; `None` when the first line is not
/// `---`, when no closing line follows, or when the byte range is not a
/// valid slice of the content (`str::get`).
pub open spec fn frontmatter_of(content: Seq<char>) -> Option<Seq<char>> {
    let ls = lines(content);
    let bytes = encode_utf8(content);
    if ls.len() == 0 || trim(ls[0]) != "---"@ {
        None
    } else {
        let j = closing_line_from(ls, 1);
        if j >= ls.len() {
            None
        } else {
            let start = fm_start(content);
            let end = fm_offset(bytes, ls, start, j);
            if start <= end <= bytes.len() && is_char_boundary(bytes, start) && is_char_boundary(
                bytes.subrange(start, bytes.len() as int),
                end - start,
            ) {
                Some(decode_utf8(bytes.subrange(start, end)))
            } else {
                None
            }
        }
    }
}

pub proof fn lemma_utf8_len_concat(a: Seq<char>, b: Seq<char>)
    ensures
        utf8_len(a + b) == utf8_len(a) + utf8_len(b),
    decreases a.len(),
{
    if a.len() > 0 {
        assert((a + b).drop_first() =~= a.drop_first() + b);
        lemma_utf8_len_concat(a.drop_first(), b);
    } else {
        assert(a + b =~= b);
    }
}

pub proof fn lemma_utf8_len_nonempty(a: Seq<char>)
    requires
        a.len() > 0,
    ensures
        utf8_len(a) >= 1,
{
    assert(encode_utf8(a) == vstd::utf8::encode_scalar(a[0] as u32) + encode_utf8(a.drop_first()));
}

proof fn lemma_closing_line_bounds(ls: Seq<Seq<char>>, j: int)
    requires
        1 <= j,
    ensures
        closing_line_from(ls, j) == ls.len() || j <= closing_line_from(ls, j) < ls.len(),
        closing_line_from(ls, j) < ls.len() ==> trim(ls[closing_line_from(ls, j)]) == "---"@,
    decreases ls.len() - j,
{
    if j < ls.len() && trim(ls[j]) != "---"@ {
        lemma_closing_line_bounds(ls, j + 1);
    }
}

proof fn lemma_fm_offset_mono(bytes: Seq<u8>, ls: Seq<Seq<char>>, start: int, a: int, b: int)
    requires
        1 <= a <= b,
    ensures
        fm_offset(bytes, ls, start, a) <= fm_offset(bytes, ls, start, b),
    decreases b - a,
{
    if a < b {
        lemma_fm_offset_mono(bytes, ls, start, a, b - 1);
    }
}

pub fn utf8_len_of(s: &[char]) -> (n: usize)
    ensures
        n == utf8_len(s@),
{
    let st = string_of(s);
    let r = st.as_str();
    let b = r.as_bytes();
    assert(r.spec_bytes() == encode_utf8(r@));
    b.len()
}

fn is_fence(line: &[char]) -> (b: bool)
    ensures
        b == (trim(line@) == "---"@),
{
    let t = trim_chars(line);
    let fence = chars_of("---");
    eq_chars(t.as_slice(), fence.as_slice())
}

/// The YAML frontmatter block of a Markdown document, without its fences.
pub fn parse_yaml_frontmatter(content: &str) -> (r: Option<String>)
    ensures
        opt_view(r) == frontmatter_of(content@),
{
    let c = chars_of(content);
    let ls = lines_of(c.as_slice());
    let ghost all = seqs(ls@);
    let bytes = content.as_bytes();
    assert(content.spec_bytes() == encode_utf8(content@));
    assert(bytes@ == encode_utf8(content@));
    let blen = bytes.len();
    if ls.len() == 0 || !is_fence(ls[0].as_slice()) {
        return None;
    }
    let i = find_char(c.as_slice(), '\n', 0);
    proof {
        lemma_find_char_from(content@, '\n', 0);
    }
    let start: usize = if i < c.len() {
        let pre = slice_vec(c.as_slice(), 0, i);
        let n = utf8_len_of(pre.as_slice());
        proof {
            lemma_utf8_len_concat(content@.take(i as int), content@.skip(i as int));
            assert(content@.take(i as int) + content@.skip(i as int) =~= content@);
            lemma_utf8_len_nonempty(content@.skip(i as int));
        }
        n + 1
    } else {
        utf8_len_of(c.as_slice())
    };
    assert(start == fm_start(content@));
    let mut offset: usize = start;
    let mut j: usize = 1;
    assert(all[0] == ls@[0]@);
    proof {
        lemma_closing_line_bounds(all, 1);
    }
    while j < ls.len()
        invariant
            1 <= j <= ls.len(),
            all == seqs(ls@),
            all == lines(content@),
            bytes@ == encode_utf8(content@),
            start == fm_start(content@),
            offset == fm_offset(bytes@, all, start as int, j as int),
            offset <= bytes@.len(),
            closing_line_from(all, 1) == closing_line_from(all, j as int),
            all.len() >= 1,
            trim(all[0]) == "---"@,
        decreases ls.len() - j,
    {
        assert(all[j as int] == ls@[j as int]@);
        if is_fence(ls[j].as_slice()) {
            assert(closing_line_from(all, j as int) == j);
            if offset >= start && content.is_char_boundary(start) {
                let (_, tail) = content.split_at(start);
                assert(tail.spec_bytes() == bytes@.subrange(start as int, bytes@.len() as int));
                if tail.is_char_boundary(offset - start) {
                    let (fm, _) = tail.split_at(offset - start);
                    assert(fm.spec_bytes() =~= bytes@.subrange(start as int, offset as int));
                    assert(fm.spec_bytes() == encode_utf8(fm@));
                    proof {
                        vstd::utf8::encode_utf8_decode_utf8(fm@);
                    }
                    let out = fm.to_string();
                    assert(out@ == fm@);
                    assert(decode_utf8(bytes@.subrange(start as int, offset as int)) == fm@);
                    assert(closing_line_from(all, 1) == j as int);
                    assert(trim(all[0]) == "---"@);
                    assert(start <= offset <= bytes@.len());
                    return Some(out);
                }
            }
            return None;
        }
        proof {
            lemma_closing_line_bounds(all, j as int);
            assert(closing_line_from(all, j as int) == closing_line_from(all, j + 1));
        }
        let n = utf8_len_of(ls[j].as_slice());
        if n > bytes.len() - offset {
            proof {
                lemma_closing_line_bounds(all, j + 1);
                let k = closing_line_from(all, j + 1);
                if k < all.len() {
                    lemma_fm_offset_mono(bytes@, all, start as int, j + 1, k);
                }
            }
            return None;
        }
        let prev = offset + n;
        offset = if prev < bytes.len() && bytes[prev] == 10u8 {
            prev + 1
        } else {
            prev
        };
        j = j + 1;
    }
    None
}

// ---------------------------------------------------------------------------
// The graph
// ---------------------------------------------------------------------------
#[derive(Debug, Clone)]
pub struct GraphNode {
    pub id: String,
    pub concept_type: String,
    pub slug: String,
    pub title: Option<String>,
    pub description: Option<String>,
    pub resource: Option<String>,
    pub tags: Vec<String>,
    pub path: String,
}

#[derive(Debug, Clone)]
pub struct GraphEdge {
    pub source: String,
    pub predicate: String,
    pub target: String,
    pub note: Option<String>,
    pub path: String,
}

#[derive(Debug, Clone)]
pub struct GraphWarning {
    pub path: String,
    pub message: String,
}

#[derive(Debug, Clone)]
pub struct KnowledgeGraph {
    pub leaf_root: String,
    pub nodes: Vec<GraphNode>,
    pub edges: Vec<GraphEdge>,
    pub warnings: Vec<GraphWarning>,
}

pub open spec fn edge_view(e: GraphEdge) -> (Seq<char>, Seq<char>, Seq<char>, Option<Seq<char>>, Seq<char>) {
    (e.source@, e.predicate@, e.target@, opt_view(e.note), e.path@)
}

pub open spec fn warning_view(w: GraphWarning) -> (Seq<char>, Seq<char>) {
    (w.path@, w.message@)
}

pub open spec fn edges_view(v: Seq<GraphEdge>) -> Seq<(Seq<char>, Seq<char>, Seq<char>, Option<Seq<char>>, Seq<char>)> {
    v.map_values(|e: GraphEdge| edge_view(e))
}

pub open spec fn warnings_view(v: Seq<GraphWarning>) -> Seq<(Seq<char>, Seq<char>)> {
    v.map_values(|w: GraphWarning| warning_view(w))
}

/// `path:line` for the 1-based line number `k + 1`.
pub open spec fn line_ref(path: Seq<char>, k: int) -> Seq<char> {
    path + seq![':'] + decimal((k + 1) as nat)
}

/// The edges the rows `ls[..n]` of a `linked.md` give, in order.
pub open spec fn link_edges(ls: Seq<Seq<char>>, n: int, source: Seq<char>, path: Seq<char>) -> Seq<(Seq<char>, Seq<char>, Seq<char>, Option<Seq<char>>, Seq<char>)>
    decreases n,
{
    if n <= 0 {
        Seq::empty()
    } else {
        let before = link_edges(ls, n - 1, source, path);
        match link_line(ls[n - 1]) {
            LinkLine::Edge(p, t, note) => before.push((source, p, t, note, line_ref(path, n - 1))),
            _ => before,
        }
    }
}

/// The warnings the broken rows among `ls[..n]` give, in order.
pub open spec fn link_warnings(ls: Seq<Seq<char>>, n: int, path: Seq<char>) -> Seq<(Seq<char>, Seq<char>)>
    decreases n,
{
    if n <= 0 {
        Seq::empty()
    } else {
        let before = link_warnings(ls, n - 1, path);
        match link_line(ls[n - 1]) {
            LinkLine::Invalid(m) => before.push((line_ref(path, n - 1), m)),
            _ => before,
        }
    }
}

pub open spec fn fm_field(fm: Option<Seq<char>>, key: Seq<char>) -> Option<Seq<char>> {
    match fm {
        Some(f) => fm_value(f, key),
        None => None,
    }
}

/// The node id of a pressed leaf: its `citation_handle`, else `leaf:<slug>`.
pub open spec fn node_id_of(content: Seq<char>, slug: Seq<char>) -> Seq<char> {
    match fm_field(frontmatter_of(content), "citation_handle"@) {
        Some(v) => v,
        None => "leaf:"@ + slug,
    }
}

/// A pressed digest without frontmatter (its first line is not `---`)
/// still becomes a node: id `leaf:<slug>`, type `Leaf Pressed Digest`, and
/// no title, description, resource or tags.
pub proof fn lemma_node_without_frontmatter(node: GraphNode, slug: Seq<char>, path: Seq<char>, content: Seq<char>)
    requires
        lines(content).len() == 0 || trim(lines(content)[0]) != "---"@,
        is_pressed_node(node, slug, path, content),
    ensures
        node.id@ == "leaf:"@ + slug,
        node.concept_type@ == "Leaf Pressed Digest"@,
        node.slug@ == slug,
        node.title is None && node.description is None && node.resource is None,
        node.tags@.len() == 0,
        node.path@ == path,
{
    assert(frontmatter_of(content) is None);
    assert(strs(node.tags@).len() == 0);
}

/// Whether `node` is what a `pressed.md` with `content` makes for `slug`.
pub open spec fn is_pressed_node(node: GraphNode, slug: Seq<char>, path: Seq<char>, content: Seq<char>) -> bool {
    let fm = frontmatter_of(content);
    &&& node.id@ == node_id_of(content, slug)
    &&& node.concept_type@ == (match fm_field(fm, "type"@) {
        Some(v) => v,
        None => "Leaf Pressed Digest"@,
    })
    &&& node.slug@ == slug
    &&& opt_view(node.title) == fm_field(fm, "title"@)
    &&& opt_view(node.description) == fm_field(fm, "description"@)
    &&& opt_view(node.resource) == fm_field(fm, "resource"@)
    &&& strs(node.tags@) == (match fm_field(fm, "tags"@) {
        Some(v) => inline_list(v),
        None => Seq::empty(),
    })
    &&& node.path@ == path
}

fn fm_field_of(fm: &Option<String>, key: &str) -> (r: Option<String>)
    ensures
        opt_view(r) == fm_field(opt_view(*fm), key@),
{
    match fm {
        Some(f) => frontmatter_value(f.as_str(), key),
        None => None,
    }
}

fn line_ref_string(path: &str, k: usize) -> (r: String)
    requires
        k < usize::MAX,
    ensures
        r@ == line_ref(path@, k as int),
{
    let mut v: Vec<char> = Vec::new();
    push_str(&mut v, path);
    v.push(':');
    let d = decimal_chars((k + 1) as u64);
    append(&mut v, d.as_slice());
    string_of(v.as_slice())
}

fn make_pressed_node(slug: &str, rel_pressed: &str, content: &str) -> (node: GraphNode)
    ensures
        is_pressed_node(node, slug@, rel_pressed@, content@),
{
    let fm = parse_yaml_frontmatter(content);
    let id = match fm_field_of(&fm, "citation_handle") {
        Some(v) => v,
        None => {
            let mut v: Vec<char> = Vec::new();
            push_str(&mut v, "leaf:");
            push_str(&mut v, slug);
            string_of(v.as_slice())
        },
    };
    let concept_type = match fm_field_of(&fm, "type") {
        Some(v) => v,
        None => "Leaf Pressed Digest".to_string(),
    };
    let tags = match fm_field_of(&fm, "tags") {
        Some(v) => parse_yaml_inline_list(v.as_str()),
        None => Vec::new(),
    };
    assert(strs(Seq::<String>::empty()) =~= Seq::<Seq<char>>::empty());
    GraphNode {
        id,
        concept_type,
        slug: slug.to_string(),
        title: fm_field_of(&fm, "title"),
        description: fm_field_of(&fm, "description"),
        resource: fm_field_of(&fm, "resource"),
        tags,
        path: rel_pressed.to_string(),
    }
}

fn prefixed(prefix: &str, err: &str) -> (r: String)
    ensures
        r@ == prefix@ + err@,
{
    let mut v: Vec<char> = Vec::new();
    push_str(&mut v, prefix);
    push_str(&mut v, err);
    string_of(v.as_slice())
}

/// Adds the node of one pressed leaf, with its link edges and warnings.
///
/// `pressed` is what reading `pressed.md` gave (the text, or the reason it
/// could not be read); `linked` is the repo-relative path of `linked.md` and
/// what reading it gave, when that file exists.
pub fn load_pressed_leaf(
    graph: &mut KnowledgeGraph,
    slug: &str,
    rel_pressed: &str,
    pressed: Result<String, String>,
    linked: Option<(String, Result<String, String>)>,
)
    ensures
        final(graph).leaf_root == old(graph).leaf_root,
        match pressed {
            Err(e) => {
                &&& final(graph).nodes@ == old(graph).nodes@
                &&& edges_view(final(graph).edges@) == edges_view(old(graph).edges@)
                &&& warnings_view(final(graph).warnings@) == warnings_view(old(graph).warnings@).push(
                    (rel_pressed@, "failed to read pressed.md: "@ + e@),
                )
            },
            Ok(content) => {
                &&& final(graph).nodes@.len() == old(graph).nodes@.len() + 1
                &&& final(graph).nodes@.drop_last() == old(graph).nodes@
                &&& is_pressed_node(final(graph).nodes@.last(), slug@, rel_pressed@, content@)
                &&& match linked {
                    None => {
                        &&& edges_view(final(graph).edges@) == edges_view(old(graph).edges@)
                        &&& warnings_view(final(graph).warnings@) == warnings_view(old(graph).warnings@)
                    },
                    Some((rel, Err(e))) => {
                        &&& edges_view(final(graph).edges@) == edges_view(old(graph).edges@)
                        &&& warnings_view(final(graph).warnings@) == warnings_view(old(graph).warnings@).push(
                            (rel@, "failed to read linked.md: "@ + e@),
                        )
                    },
                    Some((rel, Ok(text))) => {
                        let ls = lines(text@);
                        let id = node_id_of(content@, slug@);
                        &&& edges_view(final(graph).edges@) == edges_view(old(graph).edges@)
                            + link_edges(ls, ls.len() as int, id, rel@)
                        &&& warnings_view(final(graph).warnings@) == warnings_view(old(graph).warnings@)
                            + link_warnings(ls, ls.len() as int, rel@)
                    },
                }
            },
        },
{
    let content = match pressed {
        Ok(c) => c,
        Err(e) => {
            let message = prefixed("failed to read pressed.md: ", e.as_str());
            let ghost before = warnings_view(graph.warnings@);
            graph.warnings.push(GraphWarning { path: rel_pressed.to_string(), message });
            assert(warnings_view(graph.warnings@) =~= before.push(
                (rel_pressed@, "failed to read pressed.md: "@ + e@),
            ));
            return;
        },
    };
    let node = make_pressed_node(slug, rel_pressed, content.as_str());
    let id = node.id.clone();
    graph.nodes.push(node);
    assert(graph.nodes@.drop_last() =~= old(graph).nodes@);
    let (rel_linked, linked_text) = match linked {
        None => {
            return;
        },
        Some(pair) => pair,
    };
    let text = match linked_text {
        Ok(t) => t,
        Err(e) => {
            let message = prefixed("failed to read linked.md: ", e.as_str());
            let ghost before = warnings_view(graph.warnings@);
            graph.warnings.push(GraphWarning { path: rel_linked, message });
            assert(warnings_view(graph.warnings@) =~= before.push(
                (rel_linked@, "failed to read linked.md: "@ + e@),
            ));
            return;
        },
    };
    let tv = chars_of(text.as_str());
    let ls = lines_of(tv.as_slice());
    let ghost all = seqs(ls@);
    let ghost e0 = edges_view(graph.edges@);
    let ghost w0 = warnings_view(graph.warnings@);
    for k in 0..ls.len()
        invariant
            all == seqs(ls@),
            all == lines(text@),
            id@ == node_id_of(content@, slug@),
            graph.leaf_root == old(graph).leaf_root,
            graph.nodes@.len() == old(graph).nodes@.len() + 1,
            graph.nodes@.drop_last() == old(graph).nodes@,
            is_pressed_node(graph.nodes@.last(), slug@, rel_pressed@, content@),
            edges_view(graph.edges@) == e0 + link_edges(all, k as int, id@, rel_linked@),
            warnings_view(graph.warnings@) == w0 + link_warnings(all, k as int, rel_linked@),
    {
        assert(all[k as int] == ls@[k as int]@);
        let line = string_of(ls[k].as_slice());
        match parse_link_line(line.as_str()) {
            Ok(Some(edge)) => {
                let path = line_ref_string(rel_linked.as_str(), k);
                let ghost before = edges_view(graph.edges@);
                graph.edges.push(GraphEdge {
                    source: id.clone(),
                    predicate: edge.predicate,
                    target: edge.target,
                    note: edge.note,
                    path,
                });
                assert(edges_view(graph.edges@) =~= before.push(edge_view(graph.edges@.last())));
            },
            Ok(None) => {},
            Err(message) => {
                let path = line_ref_string(rel_linked.as_str(), k);
                let ghost before = warnings_view(graph.warnings@);
                graph.warnings.push(GraphWarning { path, message });
                assert(warnings_view(graph.warnings@) =~= before.push(
                    warning_view(graph.warnings@.last()),
                ));
            },
        }
    }
}

/// `leaf graph` as text: counts, then one line per node.
pub open spec fn node_line(n: GraphNode) -> Seq<char> {
    "- "@ + n.id@ + "  "@ + (match n.title {
        Some(t) => t@,
        None => n.slug@,
    }) + "\n"@
}

pub open spec fn node_lines(nodes: Seq<GraphNode>) -> Seq<char>
    decreases nodes.len(),
{
    if nodes.len() == 0 {
        Seq::empty()
    } else {
        node_lines(nodes.drop_last()) + node_line(nodes.last())
    }
}

pub open spec fn graph_text(g: KnowledgeGraph) -> Seq<char> {
    "leaf graph\n\nnodes    "@ + decimal(g.nodes@.len()) + "\nedges    "@ + decimal(
        g.edges@.len(),
    ) + "\n"@ + (if g.warnings@.len() > 0 {
        "warnings "@ + decimal(g.warnings@.len()) + "\n"@
    } else {
        Seq::empty()
    }) + node_lines(g.nodes@)
}

pub fn write_text(graph: &KnowledgeGraph) -> (r: String)
    ensures
        r@ == graph_text(*graph),
{
    let mut v: Vec<char> = Vec::new();
    push_str(&mut v, "leaf graph\n\nnodes    ");
    let a = decimal_chars(graph.nodes.len() as u64);
    append(&mut v, a.as_slice());
    push_str(&mut v, "\nedges    ");
    let b = decimal_chars(graph.edges.len() as u64);
    append(&mut v, b.as_slice());
    push_str(&mut v, "\n");
    if graph.warnings.len() > 0 {
        push_str(&mut v, "warnings ");
        let c = decimal_chars(graph.warnings.len() as u64);
        append(&mut v, c.as_slice());
        push_str(&mut v, "\n");
    }
    let ghost head = v@;
    assert(head == graph_text(*graph).take(head.len() as int)) by {
        assert(graph_text(*graph) =~= head + node_lines(graph.nodes@));
    }
    assert(graph_text(*graph) =~= head + node_lines(graph.nodes@));
    for i in 0..graph.nodes.len()
        invariant
            v@ == head + node_lines(graph.nodes@.take(i as int)),
    {
        let n = &graph.nodes[i];
        assert(graph.nodes@.take(i + 1).drop_last() =~= graph.nodes@.take(i as int));
        push_str(&mut v, "- ");
        push_str(&mut v, n.id.as_str());
        push_str(&mut v, "  ");
        match &n.title {
            Some(t) => push_str(&mut v, t.as_str()),
            None => push_str(&mut v, n.slug.as_str()),
        }
        push_str(&mut v, "\n");
        assert(v@ =~= head + node_lines(graph.nodes@.take(i as int)) + node_line(*n));
    }
    assert(graph.nodes@.take(graph.nodes@.len() as int) =~= graph.nodes@);
    string_of(v.as_slice())
}

} // verus!
