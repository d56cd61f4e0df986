//! Authoring SRP sidecars: column padding, the `last_verified` rewrite and
//! artifact path normalization.
use crate::doctor::srp_sidecar::{
    doc_get, get_entry, parse_toml, path_components, path_components_of, relative_path_text, toml_parsed,
    TomlItem, SUFFIX,
};
use crate::text::{text_lt, trim};
use crate::text::{
    append, chars_of, eq_chars, find_char, find_char_from, has_prefix, join, join_chars,
    lemma_find_char_from, push_str, seqs, slice_vec, starts_with, string_of, trim_start,
    trim_start_chars, decimal_chars,
};
use vstd::prelude::*;

verus! {

/// How many terminal columns `unicode-width` says a text takes.
pub uninterp spec fn display_columns(s: Seq<char>) -> nat;

/// Calls `UnicodeWidthStr::width`; the result is named by [`display_columns`].
#[verifier::external_body]
fn text_width(s: &str) -> (r: usize)
    ensures
        r == display_columns(s@),
{
    unicode_width::UnicodeWidthStr::width(s)
}

pub open spec fn spaces(n: nat) -> Seq<char> {
    Seq::new(n, |i: int| ' ')
}

/// `text` followed by spaces up to `width` terminal columns (none when it is
/// already that wide).
pub open spec fn padded_display(text: Seq<char>, width: nat) -> Seq<char> {
    text + spaces(if display_columns(text) < width {
        (width - display_columns(text)) as nat
    } else {
        0
    })
}

pub fn pad_display(text: &str, width: usize) -> (r: String)
    ensures
        r@ == padded_display(text@, width as nat),
{
    let w = text_width(text);
    let pad = if w < width { width - w } else { 0 };
    let mut v: Vec<char> = Vec::new();
    push_str(&mut v, text);
    let ghost base = v@;
    for i in 0..pad
        invariant
            v@ == base + spaces(i as nat),
    {
        v.push(' ');
        assert(v@ =~= base + spaces((i + 1) as nat));
    }
    string_of(v.as_slice())
}

// ---------------------------------------------------------------------------
// The `last_verified` line
// ---------------------------------------------------------------------------
pub open spec fn strip_prefix(s: Seq<char>, p: Seq<char>) -> Option<Seq<char>> {
    if starts_with(s, p) {
        Some(s.skip(p.len() as int))
    } else {
        None
    }
}

/// The line with its `last_verified` value set to `today`, keeping the
/// indentation and whatever follows the closing quote.
pub open spec fn rewritten_verified_line(line: Seq<char>, today: Seq<char>) -> Option<Seq<char>> {
    let trimmed = trim_start(line);
    let indent = line.take(line.len() - trimmed.len());
    match strip_prefix(trimmed, "last_verified"@) {
        None => None,
        Some(a) => match strip_prefix(trim_start(a), "="@) {
            None => None,
            Some(b) => match strip_prefix(trim_start(b), "\""@) {
                None => None,
                Some(c) => {
                    let close = find_char_from(c, '"', 0);
                    if close < c.len() {
                        Some(indent + "last_verified = \""@ + today + "\""@ + c.skip(close + 1))
                    } else {
                        None
                    }
                },
            },
        },
    }
}

fn strip_prefix_chars(s: &[char], p: &str) -> (r: Option<Vec<char>>)
    ensures
        match r {
            Some(x) => strip_prefix(s@, p@) == Some(x@),
            None => strip_prefix(s@, p@) is None,
        },
{
    let pc = chars_of(p);
    if has_prefix(s, pc.as_slice()) {
        Some(slice_vec(s, pc.len(), s.len()))
    } else {
        None
    }
}

pub fn rewrite_last_verified_line(line: &str, today: &str) -> (r: Option<String>)
    ensures
        match r {
            Some(x) => rewritten_verified_line(line@, today@) == Some(x@),
            None => rewritten_verified_line(line@, today@) is None,
        },
{
    let l = chars_of(line);
    let trimmed = trim_start_chars(l.as_slice());
    proof {
        crate::text::lemma_skip_ws_bounds(line@, 0);
    }
    let indent = slice_vec(l.as_slice(), 0, l.len() - trimmed.len());
    let a = match strip_prefix_chars(trimmed.as_slice(), "last_verified") {
        Some(x) => x,
        None => {
            return None;
        },
    };
    let ta = trim_start_chars(a.as_slice());
    let b = match strip_prefix_chars(ta.as_slice(), "=") {
        Some(x) => x,
        None => {
            return None;
        },
    };
    let tb = trim_start_chars(b.as_slice());
    let c = match strip_prefix_chars(tb.as_slice(), "\"") {
        Some(x) => x,
        None => {
            return None;
        },
    };
    let close = find_char(c.as_slice(), '"', 0);
    proof {
        lemma_find_char_from(c@, '"', 0);
    }
    if close >= c.len() {
        return None;
    }
    let after = slice_vec(c.as_slice(), close + 1, c.len());
    let mut v: Vec<char> = Vec::new();
    append(&mut v, indent.as_slice());
    push_str(&mut v, "last_verified = \"");
    push_str(&mut v, today);
    push_str(&mut v, "\"");
    append(&mut v, after.as_slice());
    Some(string_of(v.as_slice()))
}

/// `str::split_inclusive('\n')`: pieces that keep their line break; no
/// empty final piece.
pub open spec fn inclusive_lines(s: Seq<char>) -> Seq<Seq<char>>
    decreases s.len(),
{
    if s.len() == 0 {
        Seq::empty()
    } else {
        let e = find_char_from(s, '\n', 0);
        proof {
            lemma_find_char_from(s, '\n', 0);
        }
        if e < s.len() {
            seq![s.take(e + 1)] + inclusive_lines(s.skip(e + 1))
        } else {
            seq![s]
        }
    }
}

pub open spec fn concat_pieces(ps: Seq<Seq<char>>) -> Seq<char>
    decreases ps.len(),
{
    if ps.len() == 0 {
        Seq::empty()
    } else {
        ps[0] + concat_pieces(ps.skip(1))
    }
}

/// The pieces with the first rewritable `last_verified` line rewritten.
pub open spec fn replaced_pieces(ps: Seq<Seq<char>>, today: Seq<char>) -> Option<Seq<char>>
    decreases ps.len(),
{
    if ps.len() == 0 {
        None
    } else {
        match rewritten_verified_line(ps[0], today) {
            Some(r) => Some(r + concat_pieces(ps.skip(1))),
            None => match replaced_pieces(ps.skip(1), today) {
                Some(t) => Some(ps[0] + t),
                None => None,
            },
        }
    }
}

pub open spec fn replaced_verified(content: Seq<char>, today: Seq<char>) -> Option<Seq<char>> {
    replaced_pieces(inclusive_lines(content), today)
}

fn inclusive_lines_of(s: &[char]) -> (out: Vec<Vec<char>>)
    ensures
        seqs(out@) == inclusive_lines(s@),
{
    let mut out: Vec<Vec<char>> = Vec::new();
    let mut pos: usize = 0;
    assert(s@.skip(0) =~= s@);
    while pos < s.len()
        invariant
            pos <= s.len(),
            seqs(out@) + inclusive_lines(s@.skip(pos as int)) == inclusive_lines(s@),
        decreases s.len() - pos,
    {
        let rest = slice_vec(s, pos, s.len());
        assert(rest@ =~= s@.skip(pos as int));
        let e = find_char(rest.as_slice(), '\n', 0);
        proof {
            lemma_find_char_from(rest@, '\n', 0);
        }
        let ghost before = seqs(out@);
        if e < rest.len() {
            let piece = slice_vec(rest.as_slice(), 0, e + 1);
            out.push(piece);
            assert(seqs(out@) =~= before.push(rest@.take(e + 1)));
            assert(rest@.skip(e + 1) =~= s@.skip(pos + e + 1));
            assert(before + inclusive_lines(rest@) =~= seqs(out@) + inclusive_lines(s@.skip(pos + e + 1)));
            pos = pos + e + 1;
        } else {
            out.push(rest);
            assert(seqs(out@) =~= before.push(s@.skip(pos as int)));
            assert(s@.skip(s@.len() as int) =~= Seq::<char>::empty());
            assert(before + inclusive_lines(rest@) =~= seqs(out@) + inclusive_lines(s@.skip(s@.len() as int)));
            pos = s.len();
        }
    }
    assert(s@.skip(pos as int) =~= Seq::<char>::empty());
    assert(seqs(out@) + Seq::<Seq<char>>::empty() =~= seqs(out@));
    out
}

/// Rewrites the first `last_verified = "..."` line of a sidecar to `today`;
/// an error when there is none.
pub fn replace_last_verified(content: &str, today: &str) -> (r: Result<String, String>)
    ensures
        match replaced_verified(content@, today@) {
            Some(t) => r matches Ok(s) && s@ == t,
            None => r matches Err(e) && e@ == "sidecar is not valid; run leaf doctor"@,
        },
{
    let c = chars_of(content);
    let ps = inclusive_lines_of(c.as_slice());
    let ghost all = seqs(ps@);
    let mut head: Vec<char> = Vec::new();
    let mut i: usize = 0;
    assert(all.skip(0) =~= all);
    while i < ps.len()
        invariant
            i <= ps.len(),
            all == seqs(ps@),
            all == inclusive_lines(content@),
            match replaced_pieces(all.skip(i as int), today@) {
                Some(t) => replaced_pieces(all, today@) == Some(head@ + t),
                None => replaced_pieces(all, today@) is None,
            },
        decreases ps.len() - i,
    {
        let ghost cur = all.skip(i as int);
        assert(cur[0] == ps@[i as int]@);
        assert(cur.skip(1) =~= all.skip(i + 1));
        let line = string_of(ps[i].as_slice());
        match rewrite_last_verified_line(line.as_str(), today) {
            Some(rw) => {
                let mut out = head;
                push_str(&mut out, rw.as_str());
                let ghost tail_start = out@;
                let mut k = i + 1;
                assert(all.skip(i + 1).skip(0) =~= all.skip(i + 1));
                while k < ps.len()
                    invariant
                        i + 1 <= k <= ps.len(),
                        all == seqs(ps@),
                        out@ + concat_pieces(all.skip(k as int)) == tail_start + concat_pieces(all.skip(i + 1)),
                    decreases ps.len() - k,
                {
                    assert(all.skip(k as int)[0] == ps@[k as int]@);
                    assert(all.skip(k as int).skip(1) =~= all.skip(k + 1));
                    append(&mut out, ps[k].as_slice());
                    k = k + 1;
                }
                assert(all.skip(k as int) =~= Seq::<Seq<char>>::empty());
                assert(out@ =~= tail_start + concat_pieces(all.skip(i + 1)));
                return Ok(string_of(out.as_slice()));
            },
            None => {
                append(&mut head, ps[i].as_slice());
            },
        }
        i = i + 1;
    }
    assert(all.skip(i as int) =~= Seq::<Seq<char>>::empty());
    Err("sidecar is not valid; run leaf doctor".to_string())
}

// ---------------------------------------------------------------------------
// Artifact paths
// ---------------------------------------------------------------------------
/// The normal components of an artifact path joined by `/`, or an error when
/// the path is absolute, climbs with `..`, or names nothing.
pub open spec fn normalized_artifact(artifact: Seq<char>) -> Option<Seq<char>> {
    let cs = path_components(artifact);
    let parts = cs.filter(|c: Seq<char>| c != "."@);
    if (forall|i: int| 0 <= i < cs.len() ==> #[trigger] cs[i] != "/"@ && cs[i] != ".."@) && parts.len() > 0 {
        Some(join(parts, "/"@))
    } else {
        None
    }
}

/// An absolute artifact path is refused: it cannot name a file inside the
/// repository.
pub proof fn lemma_absolute_artifact_refused(artifact: Seq<char>)
    requires
        artifact.len() > 0,
        artifact[0] == '/',
    ensures
        normalized_artifact(artifact) is None,
{
    let cs = path_components(artifact);
    assert(cs[0] == "/"@);
}

pub fn normalize_artifact(artifact: &str) -> (r: Result<String, String>)
    ensures
        match normalized_artifact(artifact@) {
            Some(t) => r matches Ok(s) && s@ == t,
            None => r matches Err(e) && e@ == "artifact path must be inside the repo: "@ + artifact@,
        },
{
    let cs = path_components_of(artifact);
    let ghost all = seqs(cs@);
    let ghost keep = |c: Seq<char>| c != "."@;
    let dot = chars_of(".");
    let slash = chars_of("/");
    let dots = chars_of("..");
    let mut parts: Vec<Vec<char>> = Vec::new();
    let mut ok = true;
    for i in 0..cs.len()
        invariant
            all == seqs(cs@),
            dot@ == "."@,
            slash@ == "/"@,
            dots@ == ".."@,
            keep == (|c: Seq<char>| c != "."@),
            seqs(parts@) == all.take(i as int).filter(keep),
            ok <==> (forall|j: int| 0 <= j < i ==> #[trigger] all[j] != "/"@ && all[j] != ".."@),
    {
        assert(all[i as int] == cs@[i as int]@);
        assert(all.take(i + 1).drop_last() =~= all.take(i as int));
        reveal_with_fuel(Seq::filter, 1);
        if eq_chars(cs[i].as_slice(), slash.as_slice()) || eq_chars(cs[i].as_slice(), dots.as_slice()) {
            ok = false;
        }
        if !eq_chars(cs[i].as_slice(), dot.as_slice()) {
            let ghost before = seqs(parts@);
            let piece = slice_vec(cs[i].as_slice(), 0, cs[i].len());
            assert(piece@ =~= cs@[i as int]@);
            parts.push(piece);
            assert(seqs(parts@) =~= before.push(all[i as int]));
        }
    }
    assert(all.take(cs@.len() as int) =~= all);
    if !ok || parts.len() == 0 {
        let mut m: Vec<char> = Vec::new();
        push_str(&mut m, "artifact path must be inside the repo: ");
        push_str(&mut m, artifact);
        return Err(string_of(m.as_slice()));
    }
    let j = join_chars(&parts, slash.as_slice());
    Ok(string_of(j.as_slice()))
}


/// The freshness a sidecar listing shows: `broken` when the sidecar could not
/// be read as TOML, `missing` when its artifact does not exist, `stale` when
/// the artifact was modified after the sidecar, else `fresh`.
pub open spec fn sidecar_state_text(parsed: bool, artifact_exists: bool, artifact_newer: bool) -> Seq<char> {
    if !parsed {
        "broken"@
    } else if !artifact_exists {
        "missing"@
    } else if artifact_newer {
        "stale"@
    } else {
        "fresh"@
    }
}

pub fn sidecar_state(parsed: bool, artifact_exists: bool, artifact_newer: bool) -> (r: &'static str)
    ensures
        r@ == sidecar_state_text(parsed, artifact_exists, artifact_newer),
{
    if !parsed {
        "broken"
    } else if !artifact_exists {
        "missing"
    } else if artifact_newer {
        "stale"
    } else {
        "fresh"
    }
}

/// The sidecar listing's closing line: the count of sidecars and of stale
/// ones, then the missing and broken counts where they are not zero.
pub open spec fn summary_text(total: nat, stale: nat, missing: nat, broken: nat) -> Seq<char> {
    "\n"@ + crate::text::decimal(total) + " sidecars \u{b7} "@ + crate::text::decimal(stale) + " stale"@
        + (if missing > 0 { " \u{b7} "@ + crate::text::decimal(missing) + " missing"@ } else { Seq::empty() })
        + (if broken > 0 { " \u{b7} "@ + crate::text::decimal(broken) + " broken"@ } else { Seq::empty() })
}

pub fn sidecar_summary(total: u64, stale: u64, missing: u64, broken: u64) -> (r: String)
    ensures
        r@ == summary_text(total as nat, stale as nat, missing as nat, broken as nat),
{
    let mut v: Vec<char> = Vec::new();
    push_str(&mut v, "\n");
    append(&mut v, decimal_chars(total).as_slice());
    push_str(&mut v, " sidecars \u{b7} ");
    append(&mut v, decimal_chars(stale).as_slice());
    push_str(&mut v, " stale");
    let ghost head = v@;
    if missing > 0 {
        push_str(&mut v, " \u{b7} ");
        append(&mut v, decimal_chars(missing).as_slice());
        push_str(&mut v, " missing");
    }
    let ghost mid = v@;
    if broken > 0 {
        push_str(&mut v, " \u{b7} ");
        append(&mut v, decimal_chars(broken).as_slice());
        push_str(&mut v, " broken");
    }
    proof {
        reveal_strlit("\n");
        reveal_strlit(" sidecars \u{b7} ");
        reveal_strlit(" stale");
        reveal_strlit(" \u{b7} ");
        reveal_strlit(" missing");
        reveal_strlit(" broken");
    }
    assert(v@ =~= summary_text(total as nat, stale as nat, missing as nat, broken as nat));
    string_of(v.as_slice())
}


// ---------------------------------------------------------------------------
// The sidecar command's decisions
// ---------------------------------------------------------------------------
/// `verify`'s new sidecar text: refused as invalid unless the text parses
/// as TOML, then the `last_verified` line rewritten to `today`.
pub open spec fn verified_update_text(content: Seq<char>, today: Seq<char>) -> Result<Seq<char>, Seq<char>> {
    if toml_parsed(content) is Err {
        Err("sidecar is not valid; run leaf doctor"@)
    } else {
        match replaced_verified(content, today) {
            Some(t) => Ok(t),
            None => Err("sidecar is not valid; run leaf doctor"@),
        }
    }
}

pub fn verified_update(content: &str, today: &str) -> (r: Result<String, String>)
    ensures
        match verified_update_text(content@, today@) {
            Ok(t) => r matches Ok(s) && s@ == t,
            Err(m) => r matches Err(e) && e@ == m,
        },
{
    match parse_toml(content) {
        Err(_) => {
            let e = "sidecar is not valid; run leaf doctor".to_owned();
            proof {
                reveal_strlit("sidecar is not valid; run leaf doctor");
            }
            Err(e)
        },
        Ok(_) => replace_last_verified(content, today),
    }
}

/// The artifact a sidecar documents: its path without the sidecar suffix.
pub open spec fn artifact_of_sidecar(rel: Seq<char>) -> Seq<char> {
    if crate::text::ends_with(rel, SUFFIX@) {
        rel.take(rel.len() - SUFFIX@.len())
    } else {
        rel
    }
}

pub fn sidecar_artifact_path(sidecar_rel: &str) -> (r: String)
    ensures
        r@ == artifact_of_sidecar(sidecar_rel@),
{
    let cs = chars_of(sidecar_rel);
    let suffix = chars_of(SUFFIX);
    if suffix.len() <= cs.len() {
        let tail = slice_vec(cs.as_slice(), cs.len() - suffix.len(), cs.len());
        assert(cs@.skip(cs@.len() - suffix@.len()) =~= tail@);
        if eq_chars(tail.as_slice(), suffix.as_slice()) {
            let head = slice_vec(cs.as_slice(), 0, cs.len() - suffix.len());
            assert(head@ =~= cs@.take(cs@.len() - suffix@.len()));
            return string_of(head.as_slice());
        }
    }
    string_of(cs.as_slice())
}

/// One row of `leaf sidecar list`.
#[derive(Debug)]
pub struct SidecarRow {
    pub artifact: String,
    pub sidecar: String,
    pub last_verified: Option<String>,
    pub state: &'static str,
}

/// The `last_verified` string of a parsed sidecar text, when it has one.
pub open spec fn last_verified_of(content: Option<Seq<char>>) -> Option<Seq<char>> {
    match content {
        Some(c) => match toml_parsed(c) {
            Ok(d) => match doc_get(d, "last_verified"@) {
                Some(TomlItem::Str(s)) => Some(s@),
                _ => None,
            },
            Err(_) => None,
        },
        None => None,
    }
}

/// Whether a sidecar's text (`None` when it could not be read) parses.
pub open spec fn parses(content: Option<Seq<char>>) -> bool {
    match content {
        Some(c) => toml_parsed(c) is Ok,
        None => false,
    }
}

pub open spec fn row_view(r: SidecarRow) -> (Seq<char>, Seq<char>, Option<Seq<char>>, Seq<char>) {
    (r.artifact@, r.sidecar@, match r.last_verified {
        Some(s) => Some(s@),
        None => None,
    }, r.state@)
}

/// The row of a sidecar at `sidecar_rel` with text `content` (`None` when it
/// could not be read), given whether its artifact exists and was modified
/// after it.
pub fn sidecar_row(sidecar_rel: &str, content: Option<String>, artifact_exists: bool, artifact_newer: bool) -> (r: SidecarRow)
    ensures
        r.artifact@ == artifact_of_sidecar(sidecar_rel@),
        r.sidecar@ == sidecar_rel@,
        row_view(r).2 == last_verified_of(match content {
            Some(c) => Some(c@),
            None => None,
        }),
        r.state@ == sidecar_state_text(
            parses(match content {
                Some(c) => Some(c@),
                None => None,
            }),
            artifact_exists,
            artifact_newer,
        ),
{
    let (parsed, last_verified) = match &content {
        None => (false, None),
        Some(c) => match parse_toml(c.as_str()) {
            Err(_) => (false, None),
            Ok(d) => {
                let lv = match get_entry(&d, "last_verified") {
                    Some(TomlItem::Str(s)) => Some(string_of(chars_of(s.as_str()).as_slice())),
                    _ => None,
                };
                proof {
                    reveal_strlit("last_verified");
                }
                (true, lv)
            },
        },
    };
    SidecarRow {
        artifact: sidecar_artifact_path(sidecar_rel),
        sidecar: string_of(chars_of(sidecar_rel).as_slice()),
        last_verified,
        state: sidecar_state(parsed, artifact_exists, artifact_newer),
    }
}

pub open spec fn row_views(v: Seq<SidecarRow>) -> Seq<(Seq<char>, Seq<char>, Option<Seq<char>>, Seq<char>)> {
    v.map_values(|r: SidecarRow| row_view(r))
}

/// Inserts row `x` after every row of `s` whose artifact it does not sort
/// before.
pub open spec fn insert_row(
    s: Seq<(Seq<char>, Seq<char>, Option<Seq<char>>, Seq<char>)>,
    x: (Seq<char>, Seq<char>, Option<Seq<char>>, Seq<char>),
) -> Seq<(Seq<char>, Seq<char>, Option<Seq<char>>, Seq<char>)>
    decreases s.len(),
{
    if s.len() == 0 {
        seq![x]
    } else if text_lt(x.0, s.last().0) {
        insert_row(s.drop_last(), x).push(s.last())
    } else {
        s.push(x)
    }
}

/// Rows sorted by artifact, equal artifacts in their first order.
pub open spec fn sorted_rows(
    s: Seq<(Seq<char>, Seq<char>, Option<Seq<char>>, Seq<char>)>,
) -> Seq<(Seq<char>, Seq<char>, Option<Seq<char>>, Seq<char>)>
    decreases s.len(),
{
    if s.len() == 0 {
        Seq::empty()
    } else {
        insert_row(sorted_rows(s.drop_last()), s.last())
    }
}

fn insert_row_in_order(out: &mut Vec<SidecarRow>, x: SidecarRow)
    ensures
        row_views(final(out)@) == insert_row(row_views(old(out)@), row_view(x)),
{
    let ghost orig = row_views(out@);
    let ghost xp = row_view(x);
    let mut p = out.len();
    let mut done = false;
    assert(orig.take(p as int) =~= orig);
    assert(orig.skip(p as int) =~= Seq::<(Seq<char>, Seq<char>, Option<Seq<char>>, Seq<char>)>::empty());
    while p > 0 && !done
        invariant
            p <= out.len(),
            row_views(out@) == orig,
            xp == row_view(x),
            insert_row(orig, xp) == insert_row(orig.take(p as int), xp) + orig.skip(p as int),
            done ==> p > 0 && !text_lt(xp.0, orig[p - 1].0),
        decreases p + (if done {
            0int
        } else {
            1int
        }),
    {
        let ghost q = (p - 1) as int;
        assert(orig[q] == row_view(out@[q]));
        let a = chars_of(x.artifact.as_str());
        let b = chars_of(out[p - 1].artifact.as_str());
        if crate::text::chars_lt(a.as_slice(), b.as_slice()) {
            assert(orig.take(p as int).drop_last() =~= orig.take(q));
            assert(orig.take(p as int).last() == orig[q]);
            assert(orig.take(q).push(orig[q]) =~= orig.take(p as int));
            assert(seq![orig[q]] + orig.skip(p as int) =~= orig.skip(q));
            p = p - 1;
        } else {
            done = true;
        }
    }
    proof {
        if p > 0 {
            assert(orig.take(p as int).last() == orig[p - 1]);
        }
    }
    out.insert(p, x);
    assert(row_views(out@) =~= insert_row(orig.take(p as int), xp) + orig.skip(p as int));
}

/// Sorts the rows of `leaf sidecar list` by artifact (a stable sort).
pub fn sort_rows(items: Vec<SidecarRow>) -> (r: Vec<SidecarRow>)
    ensures
        row_views(r@) == sorted_rows(row_views(items@)),
{
    let ghost orig = row_views(items@);
    let total = items.len();
    let mut rest = items;
    let mut out: Vec<SidecarRow> = Vec::new();
    let mut k: usize = 0;
    while rest.len() > 0
        invariant
            k <= orig.len(),
            orig.len() == total,
            orig.len() == rest@.len() + k,
            row_views(rest@) == orig.skip(k as int),
            row_views(out@) == sorted_rows(orig.take(k as int)),
        decreases rest.len(),
    {
        let ghost r0 = rest@;
        let x = rest.remove(0);
        assert(row_views(r0)[0] == row_view(x));
        assert(orig.skip(k as int)[0] == orig[k as int]);
        assert(orig.take(k + 1).drop_last() =~= orig.take(k as int));
        assert(row_views(rest@) =~= row_views(r0).drop_first());
        insert_row_in_order(&mut out, x);
        assert(row_views(rest@) =~= orig.skip(k + 1));
        k = k + 1;
    }
    assert(orig.take(k as int) =~= orig);
    out
}

/// How many rows have state `state`.
pub open spec fn count_state(rows: Seq<SidecarRow>, state: Seq<char>) -> nat
    decreases rows.len(),
{
    if rows.len() == 0 {
        0
    } else {
        count_state(rows.drop_last(), state) + if rows.last().state@ == state {
            1nat
        } else {
            0nat
        }
    }
}

pub fn count_rows_in_state(rows: &Vec<SidecarRow>, state: &str) -> (n: u64)
    requires
        rows@.len() <= u64::MAX,
    ensures
        n == count_state(rows@, state@),
{
    let want = chars_of(state);
    let mut n: u64 = 0;
    let mut i: usize = 0;
    while i < rows.len()
        invariant
            i <= rows@.len(),
            rows@.len() <= u64::MAX,
            want@ == state@,
            n == count_state(rows@.take(i as int), state@),
            n <= i,
        decreases rows@.len() - i,
    {
        assert(rows@.take(i + 1).drop_last() =~= rows@.take(i as int));
        let got = chars_of(rows[i].state);
        if eq_chars(got.as_slice(), want.as_slice()) {
            n = n + 1;
        }
        i = i + 1;
    }
    assert(rows@.take(i as int) =~= rows@);
    n
}

/// The closing line of the listing for `rows`.
pub fn rows_summary(rows: &Vec<SidecarRow>) -> (r: String)
    requires
        rows@.len() <= u64::MAX,
    ensures
        r@ == summary_text(
            rows@.len(),
            count_state(rows@, "stale"@),
            count_state(rows@, "missing"@),
            count_state(rows@, "broken"@),
        ),
{
    let stale = count_rows_in_state(rows, "stale");
    let missing = count_rows_in_state(rows, "missing");
    let broken = count_rows_in_state(rows, "broken");
    sidecar_summary(rows.len() as u64, stale, missing, broken)
}

/// The responsibility a new sidecar records: the given one trimmed, or a
/// TODO naming the artifact when none (or only blanks) was given; and
/// whether it is that TODO.
pub open spec fn responsibility_text(artifact: Seq<char>, given: Option<Seq<char>>) -> (Seq<char>, bool) {
    match given {
        Some(g) => if trim(g).len() > 0 {
            (trim(g), false)
        } else {
            ("TODO: "@ + artifact + "\u{c758} \u{b2e8}\u{c77c} \u{cc45}\u{c784}\u{c744} \u{d55c} \u{bb38}\u{c7a5}\u{c73c}\u{b85c}"@, true)
        },
        None => ("TODO: "@ + artifact + "\u{c758} \u{b2e8}\u{c77c} \u{cc45}\u{c784}\u{c744} \u{d55c} \u{bb38}\u{c7a5}\u{c73c}\u{b85c}"@, true),
    }
}

pub fn scaffold_responsibility(artifact: &str, given: Option<&str>) -> (r: (String, bool))
    ensures
        (r.0@, r.1) == responsibility_text(artifact@, crate::links::opt_str(given)),
{
    if let Some(g) = given {
        let t = crate::text::trim_chars(chars_of(g).as_slice());
        if t.len() > 0 {
            return (string_of(t.as_slice()), false);
        }
    }
    let mut v: Vec<char> = Vec::new();
    push_str(&mut v, "TODO: ");
    push_str(&mut v, artifact);
    push_str(&mut v, "\u{c758} \u{b2e8}\u{c77c} \u{cc45}\u{c784}\u{c744} \u{d55c} \u{bb38}\u{c7a5}\u{c73c}\u{b85c}");
    proof {
        reveal_strlit("TODO: ");
        reveal_strlit("\u{c758} \u{b2e8}\u{c77c} \u{cc45}\u{c784}\u{c744} \u{d55c} \u{bb38}\u{c7a5}\u{c73c}\u{b85c}");
    }
    (string_of(v.as_slice()), true)
}

/// The artifact column's width: the widest artifact, and at least the
/// header's.
pub open spec fn list_width(rows: Seq<SidecarRow>) -> nat
    decreases rows.len(),
{
    if rows.len() == 0 {
        display_columns("ARTIFACT"@)
    } else {
        let w = list_width(rows.drop_last());
        let a = display_columns(rows.last().artifact@);
        if a > w {
            a
        } else {
            w
        }
    }
}

/// `text` padded with spaces to 13 characters (as `{:<13}` does).
pub open spec fn pad13(text: Seq<char>) -> Seq<char> {
    text + spaces(if text.len() < 13 {
        (13 - text.len()) as nat
    } else {
        0
    })
}

pub open spec fn list_line(r: SidecarRow, width: nat) -> Seq<char> {
    padded_display(r.artifact@, width) + "  "@ + pad13(match r.last_verified {
        Some(v) => v@,
        None => "-"@,
    }) + "  "@ + r.state@ + "\n"@
}

pub open spec fn list_lines(rows: Seq<SidecarRow>, width: nat) -> Seq<char>
    decreases rows.len(),
{
    if rows.len() == 0 {
        Seq::empty()
    } else {
        list_lines(rows.drop_last(), width) + list_line(rows.last(), width)
    }
}

/// What `leaf sidecar list` prints for `rows` (already sorted).
pub open spec fn list_text(rows: Seq<SidecarRow>) -> Seq<char> {
    if rows.len() == 0 {
        "no sidecars found\n"@
    } else {
        let w = list_width(rows);
        padded_display("ARTIFACT"@, w) + "  LAST_VERIFIED  STATE\n"@ + list_lines(rows, w) + summary_text(
            rows.len(),
            count_state(rows, "stale"@),
            count_state(rows, "missing"@),
            count_state(rows, "broken"@),
        ) + "\n"@
    }
}

fn pad_chars13(v: &mut Vec<char>, text: &str)
    ensures
        final(v)@ == old(v)@ + pad13(text@),
{
    let ghost start = v@;
    let cs = chars_of(text);
    append(v, cs.as_slice());
    let ghost base = v@;
    let pad: usize = if cs.len() < 13 { 13 - cs.len() } else { 0 };
    for i in 0..pad
        invariant
            v@ == base + spaces(i as nat),
    {
        v.push(' ');
        assert(v@ =~= base + spaces((i + 1) as nat));
    }
    assert(v@ =~= start + pad13(text@));
}

/// The text of `leaf sidecar list` for sorted rows.
pub fn sidecar_list_text(rows: &Vec<SidecarRow>) -> (r: String)
    requires
        rows@.len() <= u64::MAX,
    ensures
        r@ == list_text(rows@),
{
    if rows.len() == 0 {
        let t = "no sidecars found\n".to_owned();
        proof {
            reveal_strlit("no sidecars found\n");
        }
        return t;
    }
    let mut width = text_width("ARTIFACT");
    let mut i: usize = 0;
    while i < rows.len()
        invariant
            i <= rows@.len(),
            width == list_width(rows@.take(i as int)),
        decreases rows@.len() - i,
    {
        assert(rows@.take(i + 1).drop_last() =~= rows@.take(i as int));
        let a = text_width(rows[i].artifact.as_str());
        if a > width {
            width = a;
        }
        i = i + 1;
    }
    assert(rows@.take(i as int) =~= rows@);
    let mut v: Vec<char> = Vec::new();
    let head = pad_display("ARTIFACT", width);
    append(&mut v, chars_of(head.as_str()).as_slice());
    push_str(&mut v, "  LAST_VERIFIED  STATE\n");
    let ghost h = v@;
    let mut j: usize = 0;
    while j < rows.len()
        invariant
            j <= rows@.len(),
            v@ == h + list_lines(rows@.take(j as int), width as nat),
        decreases rows@.len() - j,
    {
        assert(rows@.take(j + 1).drop_last() =~= rows@.take(j as int));
        let ghost before = v@;
        let row = &rows[j];
        let p = pad_display(row.artifact.as_str(), width);
        append(&mut v, chars_of(p.as_str()).as_slice());
        push_str(&mut v, "  ");
        match &row.last_verified {
            Some(lv) => pad_chars13(&mut v, lv.as_str()),
            None => pad_chars13(&mut v, "-"),
        }
        push_str(&mut v, "  ");
        push_str(&mut v, row.state);
        push_str(&mut v, "\n");
        assert(v@ =~= before + list_line(rows@[j as int], width as nat));
        j = j + 1;
    }
    assert(rows@.take(j as int) =~= rows@);
    let summary = rows_summary(rows);
    append(&mut v, chars_of(summary.as_str()).as_slice());
    push_str(&mut v, "\n");
    assert(v@ =~= list_text(rows@));
    string_of(v.as_slice())
}

/// `path` relative to `root`, components joined by `/`.
pub fn repo_relative(root: &str, path: &str) -> (r: String)
    ensures
        r@ == relative_path_text(root@, path@),
{
    crate::doctor::srp_sidecar::repo_relative_path(root, path)
}

} // verus!
