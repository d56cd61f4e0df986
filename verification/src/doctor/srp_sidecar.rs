//! Strict SRP sidecar contracts (`*.leaf.local.toml`) kept next to artifacts.
use crate::doctor::lifecycle::{located, one_if, FindingView};
use crate::doctor::{cat2, cat3, cat4, findings_view, push_finding, DoctorFinding, Severity};
use crate::graph::{debug_quoted, debug_str, split_chars, split_text};
use crate::text::{
    chars_of, ends_with, eq_chars, has_suffix, join, join_chars, lines, lines_of, seqs,
    slice_vec, starts_with, string_of, trim, trim_chars,
};
use vstd::prelude::*;

verus! {

pub const SUFFIX: &'static str = ".leaf.local.toml";

pub const SCHEMA: &'static str = "leaf.srp-sidecar.v1";

pub const EXCLUDE_LINE: &'static str = "*.leaf.local.toml";

pub const REQUIRED_FIELDS: [&'static str; 5] = [
    "schema",
    "artifact",
    "status",
    "last_verified",
    "responsibility",
];

pub const STRING_ARRAY_FIELDS: [&'static str; 3] = ["does_not_own", "contracts", "split_signals"];

pub const ALLOWED_FIELDS: [&'static str; 8] = [
    "schema",
    "artifact",
    "status",
    "last_verified",
    "responsibility",
    "does_not_own",
    "contracts",
    "split_signals",
];

pub open spec fn required_fields() -> Seq<Seq<char>> {
    seq!["schema"@, "artifact"@, "status"@, "last_verified"@, "responsibility"@]
}

pub open spec fn string_array_fields() -> Seq<Seq<char>> {
    seq!["does_not_own"@, "contracts"@, "split_signals"@]
}

pub open spec fn allowed_fields() -> Seq<Seq<char>> {
    required_fields() + string_array_fields()
}

// ---------------------------------------------------------------------------
// Paths
// ---------------------------------------------------------------------------
pub open spec fn skipped_dir(name: Seq<char>) -> bool {
    name == ".git"@ || name == "target"@ || name == "node_modules"@ || name == ".next"@ || name
        == "dist"@ || name == "coverage"@
}

/// Directories the sidecar scan does not descend into.
pub fn should_skip_dir(name: &str) -> (b: bool)
    ensures
        b == skipped_dir(name@),
{
    let n = chars_of(name);
    let names: [&'static str; 6] = [".git", "target", "node_modules", ".next", "dist", "coverage"];
    let mut i: usize = 0;
    while i < 6
        invariant
            i <= 6,
            n@ == name@,
            names@ == seq![".git", "target", "node_modules", ".next", "dist", "coverage"],
            forall|j: int| 0 <= j < i ==> names@[j]@ != name@,
        decreases 6 - i,
    {
        let c = chars_of(names[i]);
        if eq_chars(n.as_slice(), c.as_slice()) {
            return true;
        }
        i = i + 1;
    }
    assert(names@[0]@ != name@ && names@[1]@ != name@ && names@[2]@ != name@);
    assert(names@[3]@ != name@ && names@[4]@ != name@ && names@[5]@ != name@);
    false
}

/// Whether a file name is that of a sidecar.
pub fn is_sidecar_file_name(name: &str) -> (b: bool)
    ensures
        b == ends_with(name@, SUFFIX@),
{
    let n = chars_of(name);
    let s = chars_of(SUFFIX);
    has_suffix(n.as_slice(), s.as_slice())
}

/// A `/`-separated path that is relative and has no `..` component.
pub open spec fn repo_relative_artifact(path: Seq<char>) -> bool {
    !(path.len() > 0 && path[0] == '/') && forall|i: int|
        0 <= i < split_text(path, '/').len() ==> #[trigger] split_text(path, '/')[i] != ".."@
}

/// Whether an artifact path stays inside the repository: not absolute and
/// without a `..` component (paths are `/`-separated).
pub fn is_repo_relative_artifact_path(path: &str) -> (b: bool)
    ensures
        b == repo_relative_artifact(path@),
{
    let p = chars_of(path);
    if p.len() > 0 && p[0] == '/' {
        return false;
    }
    let pieces = split_chars(p.as_slice(), '/');
    let dots = chars_of("..");
    let ghost ps = seqs(pieces@);
    for i in 0..pieces.len()
        invariant
            ps == seqs(pieces@),
            ps == split_text(path@, '/'),
            dots@ == ".."@,
            forall|j: int| 0 <= j < i ==> #[trigger] ps[j] != ".."@,
    {
        assert(ps[i as int] == pieces@[i as int]@);
        if eq_chars(pieces[i].as_slice(), dots.as_slice()) {
            return false;
        }
    }
    true
}

/// The components of a `/`-separated path as `Path::components` yields them:
/// `/` for a leading root, `.` only at the start, empty and other `.` pieces
/// dropped.
pub open spec fn path_components(p: Seq<char>) -> Seq<Seq<char>> {
    let pieces = split_text(p, '/');
    if p.len() > 0 && p[0] == '/' {
        seq!["/"@] + pieces.skip(1).filter(|x: Seq<char>| x.len() > 0 && x != "."@)
    } else if pieces[0] == "."@ {
        seq!["."@] + pieces.skip(1).filter(|x: Seq<char>| x.len() > 0 && x != "."@)
    } else {
        pieces.filter(|x: Seq<char>| x.len() > 0 && x != "."@)
    }
}

/// `path` relative to `root` (or `path` itself when it is not under `root`),
/// its components joined by `/`.
pub open spec fn relative_path_text(root: Seq<char>, path: Seq<char>) -> Seq<char> {
    let rc = path_components(root);
    let pc = path_components(path);
    if rc.len() <= pc.len() && pc.take(rc.len() as int) == rc {
        join(pc.skip(rc.len() as int), "/"@)
    } else {
        join(pc, "/"@)
    }
}

fn is_component(x: &Vec<char>) -> (b: bool)
    ensures
        b == (x@.len() > 0 && x@ != "."@),
{
    let dot = chars_of(".");
    x.len() > 0 && !eq_chars(x.as_slice(), dot.as_slice())
}

pub fn path_components_of(p: &str) -> (r: Vec<Vec<char>>)
    ensures
        seqs(r@) == path_components(p@),
{
    let c = chars_of(p);
    let pieces = split_chars(c.as_slice(), '/');
    let ghost ps = seqs(pieces@);
    proof {
        lemma_split_nonempty(p@, '/');
    }
    let mut out: Vec<Vec<char>> = Vec::new();
    let first: usize;
    let ghost keep = |x: Seq<char>| x.len() > 0 && x != "."@;
    if c.len() > 0 && c[0] == '/' {
        out.push(chars_of("/"));
        first = 1;
    } else if eq_chars(pieces[0].as_slice(), chars_of(".").as_slice()) {
        out.push(chars_of("."));
        first = 1;
    } else {
        first = 0;
    }
    let ghost head = seqs(out@);
    assert(ps.skip(first as int).take(0).filter(keep) =~= Seq::<Seq<char>>::empty());
    assert(head + Seq::<Seq<char>>::empty() =~= head);
    let mut i = first;
    while i < pieces.len()
        invariant
            first <= i <= pieces.len(),
            first <= 1,
            ps == seqs(pieces@),
            head == seqs(out@.take(head.len() as int)),
            seqs(out@) == head + ps.skip(first as int).take(i - first).filter(keep),
            keep == (|x: Seq<char>| x.len() > 0 && x != "."@),
        decreases pieces.len() - i,
    {
        let ghost before = seqs(out@);
        assert(ps.skip(first as int).take(i + 1 - first).drop_last() =~= ps.skip(first as int).take(
            i - first,
        ));
        assert(ps.skip(first as int).take(i + 1 - first).last() == pieces@[i as int]@);
        reveal_with_fuel(Seq::filter, 1);
        let ghost f0 = ps.skip(first as int).take(i - first).filter(keep);
        let ghost x = pieces@[i as int]@;
        assert(ps.skip(first as int).take(i + 1 - first).filter(keep) == if keep(x) {
            f0.push(x)
        } else {
            f0
        });
        if is_component(&pieces[i]) {
            let piece = slice_vec(pieces[i].as_slice(), 0, pieces[i].len());
            assert(piece@ =~= x);
            out.push(piece);
            assert(seqs(out@) =~= before.push(piece@));
            assert(head + f0.push(x) =~= (head + f0).push(x));
        }
        assert(seqs(out@).take(head.len() as int) =~= seqs(out@.take(head.len() as int)));
        i = i + 1;
    }
    assert(ps.skip(first as int).take(pieces.len() - first) =~= ps.skip(first as int));
    assert(ps.skip(0) =~= ps);
    out
}

proof fn lemma_split_nonempty(s: Seq<char>, c: char)
    ensures
        split_text(s, c).len() >= 1,
    decreases s.len(),
{
    crate::text::lemma_find_char_from(s, c, 0);
}

/// `path` relative to `root`, its components joined by `/`.
pub fn repo_relative_path(repo_root: &str, path: &str) -> (r: String)
    ensures
        r@ == relative_path_text(repo_root@, path@),
{
    let rc = path_components_of(repo_root);
    let pc = path_components_of(path);
    let ghost rs = seqs(rc@);
    let ghost ps = seqs(pc@);
    let mut is_prefix = rc.len() <= pc.len();
    let mut k: usize = 0;
    while is_prefix && k < rc.len()
        invariant
            rs == seqs(rc@),
            ps == seqs(pc@),
            k <= rc.len(),
            is_prefix ==> rc.len() <= pc.len(),
            is_prefix ==> forall|j: int| 0 <= j < k ==> rs[j] == ps[j],
            !is_prefix ==> !(rs.len() <= ps.len() && ps.take(rs.len() as int) == rs),
        decreases rc.len() - k, (if is_prefix {
            1int
        } else {
            0int
        }),
    {
        assert(rs[k as int] == rc@[k as int]@ && ps[k as int] == pc@[k as int]@);
        if !eq_chars(rc[k].as_slice(), pc[k].as_slice()) {
            is_prefix = false;
            proof {
                if rs.len() <= ps.len() && ps.take(rs.len() as int) == rs {
                    assert(ps.take(rs.len() as int)[k as int] == ps[k as int]);
                }
            }
        } else {
            k = k + 1;
        }
    }
    let mut rest: Vec<Vec<char>> = Vec::new();
    let start = if is_prefix {
        assert(ps.take(rs.len() as int) =~= rs);
        rc.len()
    } else {
        0
    };
    for j in start..pc.len()
        invariant
            ps == seqs(pc@),
            start <= pc.len(),
            seqs(rest@) == ps.skip(start as int).take(j - start),
    {
        let ghost before = seqs(rest@);
        let piece = slice_vec(pc[j].as_slice(), 0, pc[j].len());
        assert(piece@ =~= pc@[j as int]@);
        rest.push(piece);
        assert(seqs(rest@) =~= before.push(ps[j as int]));
        assert(ps.skip(start as int).take(j + 1 - start) =~= ps.skip(start as int).take(j - start).push(
            ps[j as int],
        ));
    }
    assert(ps.skip(start as int).take(pc.len() - start) =~= ps.skip(start as int));
    assert(ps.skip(0) =~= ps);
    let sep = chars_of("/");
    let j = join_chars(&rest, sep.as_slice());
    string_of(j.as_slice())
}

// ---------------------------------------------------------------------------
// The TOML document of a sidecar
// ---------------------------------------------------------------------------
/// An array element as the sidecar checks read it.
#[derive(Debug, Clone, PartialEq, Eq)]
pub enum TomlScalar {
    Str(String),
    Other,
}

/// A top-level value as the sidecar checks read it.
#[derive(Debug, Clone, PartialEq, Eq)]
pub enum TomlItem {
    Str(String),
    Array(Vec<TomlScalar>),
    Other,
}

/// A parsed sidecar: its top-level entries in the order the parser's table
/// iterates them, or `None` when the document is not a table.
#[derive(Debug, Clone, PartialEq, Eq)]
pub struct TomlDocument {
    pub table: Option<Vec<(String, TomlItem)>>,
}

#[verifier::external_type_specification]
#[verifier::external_body]
pub struct ExTomlValue(toml::Value);

/// What `toml::from_str::<toml::Value>` makes of a text, as the sidecar
/// checks read it: the document, or the parser's error message.
pub uninterp spec fn toml_parsed(content: Seq<char>) -> Result<TomlDocument, Seq<char>>;

#[verifier::external_body]
fn toml_scalar_of(v: toml::Value) -> TomlScalar {
    match v {
        toml::Value::String(s) => TomlScalar::Str(s),
        _ => TomlScalar::Other,
    }
}

/// Converts a top-level `toml::Value`: strings and arrays keep what the
/// checks read, any other value is `Other`.
#[verifier::external_body]
fn toml_item(v: toml::Value) -> TomlItem {
    match v {
        toml::Value::String(s) => TomlItem::Str(s),
        toml::Value::Array(items) => TomlItem::Array(items.into_iter().map(toml_scalar_of).collect()),
        _ => TomlItem::Other,
    }
}

/// Converts a parsed `toml::Value` document.
#[verifier::external_body]
fn toml_document(v: toml::Value) -> TomlDocument {
    match v {
        toml::Value::Table(t) => TomlDocument {
            table: Some(t.into_iter().map(|(k, v)| (k, toml_item(v))).collect()),
        },
        _ => TomlDocument { table: None },
    }
}

/// Calls `toml::from_str::<toml::Value>`; the document (converted by
/// [`toml_document`]) or the error's message is named by [`toml_parsed`].
#[verifier::external_body]
pub(crate) fn parse_toml(content: &str) -> (r: Result<TomlDocument, String>)
    ensures
        match r {
            Ok(d) => toml_parsed(content@) == Ok::<TomlDocument, Seq<char>>(d),
            Err(e) => toml_parsed(content@) == Err::<TomlDocument, Seq<char>>(e@),
        },
{
    match toml::from_str::<toml::Value>(content) {
        Ok(v) => Ok(toml_document(v)),
        Err(e) => Err(e.to_string()),
    }
}

/// The value of `key` in a table's entries (the first entry with that key).
pub open spec fn entry_of(es: Seq<(String, TomlItem)>, key: Seq<char>) -> Option<TomlItem>
    decreases es.len(),
{
    if es.len() == 0 {
        None
    } else if es[0].0@ == key {
        Some(es[0].1)
    } else {
        entry_of(es.skip(1), key)
    }
}

pub open spec fn doc_get(d: TomlDocument, key: Seq<char>) -> Option<TomlItem> {
    match d.table {
        Some(es) => entry_of(es@, key),
        None => None,
    }
}

/// A field that is a string and not blank, trimmed.
pub open spec fn string_field_of(d: TomlDocument, key: Seq<char>) -> Option<Seq<char>> {
    match doc_get(d, key) {
        Some(TomlItem::Str(s)) => if trim(s@).len() > 0 {
            Some(trim(s@))
        } else {
            None
        },
        _ => None,
    }
}

pub open spec fn string_array(v: TomlItem) -> bool {
    match v {
        TomlItem::Array(items) => forall|i: int|
            0 <= i < items@.len() ==> #[trigger] items@[i] is Str,
        _ => false,
    }
}

pub(crate) fn get_entry<'a>(d: &'a TomlDocument, key: &str) -> (r: Option<&'a TomlItem>)
    ensures
        match r {
            Some(v) => doc_get(*d, key@) == Some(*v),
            None => doc_get(*d, key@) is None,
        },
{
    match &d.table {
        None => None,
        Some(es) => {
            let k = chars_of(key);
            let mut i: usize = 0;
            assert(es@.skip(0) =~= es@);
            while i < es.len()
                invariant
                    i <= es.len(),
                    k@ == key@,
                    d.table == Some(*es),
                    entry_of(es@, key@) == entry_of(es@.skip(i as int), key@),
                decreases es.len() - i,
            {
                assert(es@.skip(i as int)[0] == es@[i as int]);
                assert(es@.skip(i as int).skip(1) =~= es@.skip(i + 1));
                let name = chars_of(es[i].0.as_str());
                if eq_chars(name.as_slice(), k.as_slice()) {
                    assert(es@.skip(i as int)[0].0@ == key@);
                    assert(entry_of(es@.skip(i as int), key@) == Some(es@[i as int].1));
                    assert(d.table == Some(*es));
                    assert(doc_get(*d, key@) == Some(es@[i as int].1));
                    return Some(&es[i].1);
                }
                i = i + 1;
            }
            None
        },
    }
}

fn string_field(d: &TomlDocument, key: &str) -> (r: Option<String>)
    ensures
        match r {
            Some(s) => string_field_of(*d, key@) == Some(s@),
            None => string_field_of(*d, key@) is None,
        },
{
    match get_entry(d, key) {
        Some(TomlItem::Str(s)) => {
            let c = chars_of(s.as_str());
            let t = trim_chars(c.as_slice());
            if t.len() > 0 {
                Some(string_of(t.as_slice()))
            } else {
                None
            }
        },
        _ => None,
    }
}

fn is_string_array(v: &TomlItem) -> (b: bool)
    ensures
        b == string_array(*v),
{
    match v {
        TomlItem::Array(items) => {
            for i in 0..items.len()
                invariant
                    *v == TomlItem::Array(*items),
                    forall|j: int| 0 <= j < i ==> #[trigger] items@[j] is Str,
            {
                match &items[i] {
                    TomlScalar::Str(_) => {},
                    TomlScalar::Other => {
                        assert(!(items@[i as int] is Str));
                        assert(*v == TomlItem::Array(*items));
                        assert(!string_array(*v));
                        return false;
                    },
                }
            }
            true
        },
        _ => false,
    }
}

// ---------------------------------------------------------------------------
// Checking one sidecar
// ---------------------------------------------------------------------------
pub open spec fn warn_at(code: Seq<char>, message: Seq<char>, rel: Seq<char>) -> FindingView {
    located(Severity::Warn, code, message, rel)
}

/// The artifact a sidecar at `rel` is expected to describe: its path without
/// the sidecar suffix.
pub open spec fn expected_artifact(rel: Seq<char>) -> Seq<char> {
    if ends_with(rel, SUFFIX@) {
        rel.take(rel.len() - SUFFIX@.len())
    } else {
        rel
    }
}

#[verifier::opaque]
pub open spec fn unknown_field_findings(es: Seq<(String, TomlItem)>, rel: Seq<char>) -> Seq<
    FindingView,
>
    decreases es.len(),
{
    if es.len() == 0 {
        Seq::empty()
    } else {
        unknown_field_findings(es.drop_last(), rel) + one_if(
            !allowed_fields().contains(es.last().0@),
            warn_at(
                "srp_sidecar_unknown_field"@,
                "SRP sidecar field `"@ + es.last().0@ + "` is not part of the v1 contract"@,
                rel,
            ),
        )
    }
}

#[verifier::opaque]
pub open spec fn missing_field_findings(d: TomlDocument, n: int, rel: Seq<char>) -> Seq<FindingView>
    decreases n,
{
    if n <= 0 {
        Seq::empty()
    } else {
        missing_field_findings(d, n - 1, rel) + one_if(
            string_field_of(d, required_fields()[n - 1]) is None,
            warn_at(
                "srp_sidecar_missing_field"@,
                "SRP sidecar missing non-empty string field `"@ + required_fields()[n - 1] + "`"@,
                rel,
            ),
        )
    }
}

#[verifier::opaque]
pub open spec fn array_field_findings(d: TomlDocument, n: int, rel: Seq<char>) -> Seq<FindingView>
    decreases n,
{
    if n <= 0 {
        Seq::empty()
    } else {
        array_field_findings(d, n - 1, rel) + match doc_get(d, string_array_fields()[n - 1]) {
            Some(v) => one_if(
                !string_array(v),
                warn_at(
                    "srp_sidecar_invalid_array"@,
                    "SRP sidecar field `"@ + string_array_fields()[n - 1]
                        + "` must be an array of strings"@,
                    rel,
                ),
            ),
            None => Seq::empty(),
        }
    }
}

#[verifier::opaque]
pub open spec fn value_findings(d: TomlDocument, rel: Seq<char>) -> Seq<FindingView> {
    (match string_field_of(d, "schema"@) {
        Some(v) => one_if(
            v != SCHEMA@,
            warn_at(
                "srp_sidecar_invalid_schema"@,
                "SRP sidecar schema must be "@ + debug_quoted(SCHEMA@) + ", got "@ + debug_quoted(v),
                rel,
            ),
        ),
        None => Seq::empty(),
    }) + (match string_field_of(d, "status"@) {
        Some(v) => one_if(
            v != "advisory"@,
            warn_at(
                "srp_sidecar_invalid_status"@,
                "SRP sidecar status must be \"advisory\", got "@ + debug_quoted(v),
                rel,
            ),
        ),
        None => Seq::empty(),
    })
}

#[verifier::opaque]
pub open spec fn artifact_findings(d: TomlDocument, rel: Seq<char>) -> Seq<FindingView> {
    match string_field_of(d, "artifact"@) {
        None => Seq::empty(),
        Some(a) => if !repo_relative_artifact(a) {
            seq![
                warn_at(
                    "srp_sidecar_invalid_artifact"@,
                    "SRP sidecar artifact must be a repo-relative path that does not escape the repo"@,
                    rel,
                ),
            ]
        } else {
            one_if(
                a != expected_artifact(rel),
                warn_at(
                    "srp_sidecar_artifact_mismatch"@,
                    "SRP sidecar artifact should be "@ + debug_quoted(expected_artifact(rel))
                        + ", got "@ + debug_quoted(a),
                    rel,
                ),
            )
        },
    }
}

/// The artifact a well-formed sidecar points at, which is then looked at.
pub open spec fn artifact_to_probe(d: TomlDocument) -> Option<Seq<char>> {
    match string_field_of(d, "artifact"@) {
        Some(a) => if repo_relative_artifact(a) {
            Some(a)
        } else {
            None
        },
        None => None,
    }
}

/// What a table-shaped sidecar document is reported for (before its artifact
/// is looked at).
pub open spec fn table_findings(d: TomlDocument, es: Seq<(String, TomlItem)>, rel: Seq<char>) -> Seq<
    FindingView,
> {
    unknown_field_findings(es, rel) + missing_field_findings(d, 5, rel) + value_findings(d, rel)
        + array_field_findings(d, 3, rel) + artifact_findings(d, rel)
}

/// What the text of a sidecar is reported for, and the artifact to look at.
pub open spec fn document_report(rel: Seq<char>, content: Result<String, String>) -> (
    Seq<FindingView>,
    Option<Seq<char>>,
) {
    match content {
        Err(e) => (
            seq![warn_at("srp_sidecar_unreadable"@, "failed to read SRP sidecar: "@ + e@, rel)],
            None,
        ),
        Ok(c) => match toml_parsed(c@) {
            Err(m) => (seq![warn_at("srp_sidecar_invalid_toml"@, "invalid TOML: "@ + m, rel)], None),
            Ok(d) => match d.table {
                None => (
                    seq![
                        warn_at(
                            "srp_sidecar_invalid_shape"@,
                            "SRP sidecar must be a TOML table"@,
                            rel,
                        ),
                    ],
                    None,
                ),
                Some(es) => (table_findings(d, es@, rel), artifact_to_probe(d)),
            },
        },
    }
}

fn is_allowed_field(name: &str) -> (b: bool)
    ensures
        b == allowed_fields().contains(name@),
{
    let n = chars_of(name);
    let mut i: usize = 0;
    while i < 8
        invariant
            i <= 8,
            n@ == name@,
            forall|j: int| 0 <= j < i ==> allowed_fields()[j] != name@,
        decreases 8 - i,
    {
        let f = chars_of(ALLOWED_FIELDS[i]);
        assert(ALLOWED_FIELDS[i as int]@ == allowed_fields()[i as int]);
        if eq_chars(n.as_slice(), f.as_slice()) {
            return true;
        }
        i = i + 1;
    }
    proof {
        if allowed_fields().contains(name@) {
            let j = choose|j: int| 0 <= j < allowed_fields().len() && allowed_fields()[j] == name@;
            assert(false);
        }
    }
    false
}

fn push_unknown_fields(es: &Vec<(String, TomlItem)>, rel: &str, findings: &mut Vec<DoctorFinding>)
    ensures
        findings_view(final(findings)@) == findings_view(old(findings)@) + unknown_field_findings(
            es@,
            rel@,
        ),
{
    reveal(unknown_field_findings);
    let ghost s0 = findings_view(findings@);
    for i in 0..es.len()
        invariant
            findings_view(findings@) == s0 + unknown_field_findings(es@.take(i as int), rel@),
    {
        reveal(unknown_field_findings);
        assert(es@.take(i + 1).drop_last() =~= es@.take(i as int));
        if !is_allowed_field(es[i].0.as_str()) {
            let m = cat3("SRP sidecar field `", es[i].0.as_str(), "` is not part of the v1 contract");
            push_finding(findings, DoctorFinding::warn("srp_sidecar_unknown_field", m.as_str()).with_path(rel));
        }
        assert(findings_view(findings@) =~= s0 + unknown_field_findings(es@.take(i + 1), rel@));
    }
    assert(es@.take(es@.len() as int) =~= es@);
}

fn push_missing_fields(d: &TomlDocument, rel: &str, findings: &mut Vec<DoctorFinding>)
    ensures
        findings_view(final(findings)@) == findings_view(old(findings)@) + missing_field_findings(
            *d,
            5,
            rel@,
        ),
{
    reveal(missing_field_findings);
    let ghost s1 = findings_view(findings@);
    for i in 0..5usize
        invariant
            findings_view(findings@) == s1 + missing_field_findings(*d, i as int, rel@),
    {
        reveal(missing_field_findings);
        let field = REQUIRED_FIELDS[i];
        assert(field@ == required_fields()[i as int]);
        if string_field(d, field).is_none() {
            let m = cat3("SRP sidecar missing non-empty string field `", field, "`");
            push_finding(findings, DoctorFinding::warn("srp_sidecar_missing_field", m.as_str()).with_path(rel));
        }
        assert(findings_view(findings@) =~= s1 + missing_field_findings(*d, i + 1, rel@));
    }
}

fn push_value_findings(d: &TomlDocument, rel: &str, findings: &mut Vec<DoctorFinding>)
    ensures
        findings_view(final(findings)@) == findings_view(old(findings)@) + value_findings(*d, rel@),
{
    reveal(value_findings);
    let ghost s2 = findings_view(findings@);
    match string_field(d, "schema") {
        Some(schema) => {
            let sc = chars_of(schema.as_str());
            let want = chars_of(SCHEMA);
            if !eq_chars(sc.as_slice(), want.as_slice()) {
                let a = debug_str(SCHEMA);
                let b = debug_str(schema.as_str());
                let m = cat4("SRP sidecar schema must be ", a.as_str(), ", got ", b.as_str());
                push_finding(findings, DoctorFinding::warn("srp_sidecar_invalid_schema", m.as_str()).with_path(rel));
            }
        },
        None => {},
    }
    let ghost s2b = findings_view(findings@);
    match string_field(d, "status") {
        Some(status) => {
            let st = chars_of(status.as_str());
            let want = chars_of("advisory");
            if !eq_chars(st.as_slice(), want.as_slice()) {
                let b = debug_str(status.as_str());
                let m = cat2("SRP sidecar status must be \"advisory\", got ", b.as_str());
                push_finding(findings, DoctorFinding::warn("srp_sidecar_invalid_status", m.as_str()).with_path(rel));
            }
        },
        None => {},
    }
    assert(findings_view(findings@) =~= s2 + value_findings(*d, rel@));
}

fn push_array_findings(d: &TomlDocument, rel: &str, findings: &mut Vec<DoctorFinding>)
    ensures
        findings_view(final(findings)@) == findings_view(old(findings)@) + array_field_findings(
            *d,
            3,
            rel@,
        ),
{
    reveal(array_field_findings);
    let ghost s3 = findings_view(findings@);
    for i in 0..3usize
        invariant
            findings_view(findings@) == s3 + array_field_findings(*d, i as int, rel@),
    {
        reveal(array_field_findings);
        let field = STRING_ARRAY_FIELDS[i];
        assert(field@ == string_array_fields()[i as int]);
        match get_entry(d, field) {
            Some(v) => {
                if !is_string_array(v) {
                    let m = cat3("SRP sidecar field `", field, "` must be an array of strings");
                    push_finding(findings, DoctorFinding::warn("srp_sidecar_invalid_array", m.as_str()).with_path(rel));
                }
            },
            None => {},
        }
        assert(findings_view(findings@) =~= s3 + array_field_findings(*d, i + 1, rel@));
    }
}

fn push_artifact_findings(d: &TomlDocument, rel: &str, findings: &mut Vec<DoctorFinding>)
    ensures
        findings_view(final(findings)@) == findings_view(old(findings)@) + artifact_findings(*d, rel@),
{
    reveal(artifact_findings);
    let ghost s4 = findings_view(findings@);
    match string_field(d, "artifact") {
        None => {},
        Some(artifact) => {
            if !is_repo_relative_artifact_path(artifact.as_str()) {
                push_finding(
                    findings,
                    DoctorFinding::warn(
                        "srp_sidecar_invalid_artifact",
                        "SRP sidecar artifact must be a repo-relative path that does not escape the repo",
                    ).with_path(rel),
                );
            } else {
                let expected = expected_artifact_of(rel);
                let ac = chars_of(artifact.as_str());
                let ec = chars_of(expected.as_str());
                if !eq_chars(ac.as_slice(), ec.as_slice()) {
                    let a = debug_str(expected.as_str());
                    let b = debug_str(artifact.as_str());
                    let m = cat4("SRP sidecar artifact should be ", a.as_str(), ", got ", b.as_str());
                    push_finding(findings, DoctorFinding::warn("srp_sidecar_artifact_mismatch", m.as_str()).with_path(rel));
                }
            }
        },
    }
    assert(findings_view(findings@) =~= s4 + artifact_findings(*d, rel@));
}

fn push_table_findings(
    d: &TomlDocument,
    es: &Vec<(String, TomlItem)>,
    rel: &str,
    findings: &mut Vec<DoctorFinding>,
)
    requires
        d.table == Some(*es),
    ensures
        findings_view(final(findings)@) == findings_view(old(findings)@) + table_findings(
            *d,
            es@,
            rel@,
        ),
{
    let ghost s0 = findings_view(findings@);
    push_unknown_fields(es, rel, findings);
    let ghost s1 = findings_view(findings@);
    push_missing_fields(d, rel, findings);
    let ghost s2 = findings_view(findings@);
    push_value_findings(d, rel, findings);
    let ghost s3 = findings_view(findings@);
    push_array_findings(d, rel, findings);
    let ghost s4 = findings_view(findings@);
    push_artifact_findings(d, rel, findings);
    assert(findings_view(findings@) =~= s0 + table_findings(*d, es@, rel@));
}

fn expected_artifact_of(rel: &str) -> (r: String)
    ensures
        r@ == expected_artifact(rel@),
{
    let c = chars_of(rel);
    let s = chars_of(SUFFIX);
    if has_suffix(c.as_slice(), s.as_slice()) {
        let t = slice_vec(c.as_slice(), 0, c.len() - s.len());
        string_of(t.as_slice())
    } else {
        rel.to_string()
    }
}

/// Checks the text of one sidecar at repo-relative `rel`, given what reading
/// it gave; returns the artifact to look at next, if the document names a
/// valid one.
pub fn check_sidecar_document(
    rel: &str,
    content: &Result<String, String>,
    findings: &mut Vec<DoctorFinding>,
) -> (artifact: Option<String>)
    ensures
        findings_view(final(findings)@) == findings_view(old(findings)@) + document_report(
            rel@,
            *content,
        ).0,
        match artifact {
            Some(a) => document_report(rel@, *content).1 == Some(a@),
            None => document_report(rel@, *content).1 is None,
        },
{
    let ghost s0 = findings_view(findings@);
    let text = match content {
        Err(e) => {
            let m = cat2("failed to read SRP sidecar: ", e.as_str());
            push_finding(findings, DoctorFinding::warn("srp_sidecar_unreadable", m.as_str()).with_path(rel));
            assert(findings_view(findings@) =~= s0 + document_report(rel@, *content).0);
            return None;
        },
        Ok(t) => t,
    };
    let doc = match parse_toml(text.as_str()) {
        Err(e) => {
            let m = cat2("invalid TOML: ", e.as_str());
            push_finding(findings, DoctorFinding::warn("srp_sidecar_invalid_toml", m.as_str()).with_path(rel));
            assert(findings_view(findings@) =~= s0 + document_report(rel@, *content).0);
            return None;
        },
        Ok(d) => d,
    };
    match &doc.table {
        None => {
            push_finding(
                findings,
                DoctorFinding::warn("srp_sidecar_invalid_shape", "SRP sidecar must be a TOML table").with_path(rel),
            );
            assert(findings_view(findings@) =~= s0 + document_report(rel@, *content).0);
            None
        },
        Some(es) => {
            push_table_findings(&doc, es, rel, findings);
            match string_field(&doc, "artifact") {
                Some(a) => {
                    if is_repo_relative_artifact_path(a.as_str()) {
                        Some(a)
                    } else {
                        None
                    }
                },
                None => None,
            }
        },
    }
}

pub open spec fn artifact_report(rel: Seq<char>, exists: bool, newer: bool) -> Seq<FindingView> {
    if !exists {
        seq![
            warn_at(
                "srp_sidecar_artifact_missing"@,
                "SRP sidecar points at an artifact that does not exist"@,
                rel,
            ),
        ]
    } else {
        one_if(
            newer,
            warn_at(
                "srp_sidecar_stale"@,
                "paired artifact is newer than the SRP sidecar; verify or update the responsibility contract"@,
                rel,
            ),
        )
    }
}

/// Checks the artifact a sidecar points at: whether it exists, and whether
/// it was modified after the sidecar.
pub fn check_sidecar_artifact(
    rel: &str,
    exists: bool,
    newer: bool,
    findings: &mut Vec<DoctorFinding>,
)
    ensures
        findings_view(final(findings)@) == findings_view(old(findings)@) + artifact_report(
            rel@,
            exists,
            newer,
        ),
{
    let ghost s0 = findings_view(findings@);
    if !exists {
        push_finding(
            findings,
            DoctorFinding::warn(
                "srp_sidecar_artifact_missing",
                "SRP sidecar points at an artifact that does not exist",
            ).with_path(rel),
        );
    } else if newer {
        push_finding(
            findings,
            DoctorFinding::warn(
                "srp_sidecar_stale",
                "paired artifact is newer than the SRP sidecar; verify or update the responsibility contract",
            ).with_path(rel),
        );
    }
    assert(findings_view(findings@) =~= s0 + artifact_report(rel@, exists, newer));
}

// ---------------------------------------------------------------------------
// The git exclude line and the whole sidecar pass
// ---------------------------------------------------------------------------
/// What reading `.git/info/exclude` gave.
#[derive(Debug, Clone, PartialEq, Eq)]
pub enum ExcludeRead {
    NotFound,
    Failed(String),
    Content(String),
}

pub open spec fn exclude_missing(rel: Seq<char>) -> FindingView {
    warn_at(
        "srp_sidecar_exclude_missing"@,
        EXCLUDE_LINE@ + " is missing from .git/info/exclude; strict SRP sidecars may appear in git status"@,
        rel,
    )
}

pub open spec fn has_exclude_line(c: Seq<char>) -> bool {
    exists|i: int| 0 <= i < lines(c).len() && trim(#[trigger] lines(c)[i]) == EXCLUDE_LINE@
}

pub open spec fn exclude_report(rel: Seq<char>, read: ExcludeRead) -> Seq<FindingView> {
    match read {
        ExcludeRead::NotFound => seq![exclude_missing(rel)],
        ExcludeRead::Failed(e) => seq![
            warn_at(
                "srp_sidecar_exclude_unreadable"@,
                "failed to read git exclude for SRP sidecars: "@ + e@,
                rel,
            ),
        ],
        ExcludeRead::Content(c) => one_if(!has_exclude_line(c@), exclude_missing(rel)),
    }
}

fn content_has_exclude_line(c: &str) -> (b: bool)
    ensures
        b == has_exclude_line(c@),
{
    let cv = chars_of(c);
    let ls = lines_of(cv.as_slice());
    let want = chars_of(EXCLUDE_LINE);
    let ghost all = seqs(ls@);
    for i in 0..ls.len()
        invariant
            all == seqs(ls@),
            all == lines(c@),
            want@ == EXCLUDE_LINE@,
            forall|j: int| 0 <= j < i ==> trim(#[trigger] all[j]) != EXCLUDE_LINE@,
    {
        assert(all[i as int] == ls@[i as int]@);
        let t = trim_chars(ls[i].as_slice());
        if eq_chars(t.as_slice(), want.as_slice()) {
            return true;
        }
    }
    false
}

/// Reports a missing or unreadable git exclude entry for sidecars; `rel` is
/// the repo-relative path of the exclude file.
pub fn check_exclude(rel: &str, read: &ExcludeRead, findings: &mut Vec<DoctorFinding>)
    ensures
        findings_view(final(findings)@) == findings_view(old(findings)@) + exclude_report(
            rel@,
            *read,
        ),
{
    let ghost s0 = findings_view(findings@);
    let missing = match read {
        ExcludeRead::NotFound => true,
        ExcludeRead::Failed(e) => {
            let m = cat2("failed to read git exclude for SRP sidecars: ", e.as_str());
            push_finding(
                findings,
                DoctorFinding::warn("srp_sidecar_exclude_unreadable", m.as_str()).with_path(rel),
            );
            false
        },
        ExcludeRead::Content(c) => !content_has_exclude_line(c.as_str()),
    };
    if missing {
        let m = cat2(
            EXCLUDE_LINE,
            " is missing from .git/info/exclude; strict SRP sidecars may appear in git status",
        );
        push_finding(findings, DoctorFinding::warn("srp_sidecar_exclude_missing", m.as_str()).with_path(rel));
    }
    assert(findings_view(findings@) =~= s0 + exclude_report(rel@, *read));
}

/// What was read for one sidecar found by the scan.
#[derive(Debug)]
pub struct SidecarObservation {
    /// Repo-relative path of the sidecar.
    pub rel: String,
    /// What reading it gave.
    pub content: Result<String, String>,
    /// Whether the artifact it points at exists (looked at only when the
    /// document names a valid artifact).
    pub artifact_exists: bool,
    /// Whether that artifact was modified after the sidecar.
    pub artifact_newer: bool,
}

pub open spec fn sidecar_report(o: SidecarObservation) -> Seq<FindingView> {
    let (fs, artifact) = document_report(o.rel@, o.content);
    fs + match artifact {
        Some(_) => artifact_report(o.rel@, o.artifact_exists, o.artifact_newer),
        None => Seq::empty(),
    }
}

pub open spec fn sidecars_report(os: Seq<SidecarObservation>, n: int) -> Seq<FindingView>
    decreases n,
{
    if n <= 0 {
        Seq::empty()
    } else {
        sidecars_report(os, n - 1) + sidecar_report(os[n - 1])
    }
}

pub open spec fn scan_report(failures: Seq<(String, String)>, n: int) -> Seq<FindingView>
    decreases n,
{
    if n <= 0 {
        Seq::empty()
    } else {
        scan_report(failures, n - 1) + seq![
            warn_at(
                "srp_sidecar_scan_unreadable"@,
                "failed to scan for SRP sidecars: "@ + failures[n - 1].1@,
                failures[n - 1].0@,
            ),
        ]
    }
}

/// Everything the sidecar pass reports: scan failures, then (when any
/// sidecar was found) the exclude entry and each sidecar.
pub open spec fn srp_report(
    failures: Seq<(String, String)>,
    sidecars: Seq<SidecarObservation>,
    exclude: Option<(String, ExcludeRead)>,
) -> Seq<FindingView> {
    scan_report(failures, failures.len() as int) + if sidecars.len() == 0 {
        Seq::empty()
    } else {
        (match exclude {
            Some((rel, read)) => exclude_report(rel@, read),
            None => Seq::empty(),
        }) + sidecars_report(sidecars, sidecars.len() as int)
    }
}

/// The sidecar pass. `scan_failures` holds, in scan order, the repo-relative
/// directory and error of every directory that could not be listed;
/// `sidecars` what was read for every sidecar found; `exclude` the
/// repo-relative path of the git exclude file and what reading it gave, when
/// there is one.
pub fn check(
    scan_failures: &[(String, String)],
    sidecars: &[SidecarObservation],
    exclude: &Option<(String, ExcludeRead)>,
    findings: &mut Vec<DoctorFinding>,
)
    ensures
        findings_view(final(findings)@) == findings_view(old(findings)@) + srp_report(
            scan_failures@,
            sidecars@,
            *exclude,
        ),
{
    let ghost s0 = findings_view(findings@);
    for i in 0..scan_failures.len()
        invariant
            findings_view(findings@) == s0 + scan_report(scan_failures@, i as int),
    {
        let m = cat2("failed to scan for SRP sidecars: ", scan_failures[i].1.as_str());
        push_finding(
            findings,
            DoctorFinding::warn("srp_sidecar_scan_unreadable", m.as_str()).with_path(
                scan_failures[i].0.as_str(),
            ),
        );
        assert(findings_view(findings@) =~= s0 + scan_report(scan_failures@, i + 1));
    }
    let ghost s1 = findings_view(findings@);
    if sidecars.len() == 0 {
        assert(findings_view(findings@) =~= s0 + srp_report(scan_failures@, sidecars@, *exclude));
        return;
    }
    match exclude {
        Some((rel, read)) => check_exclude(rel.as_str(), read, findings),
        None => {},
    }
    let ghost s2 = findings_view(findings@);
    for i in 0..sidecars.len()
        invariant
            findings_view(findings@) == s2 + sidecars_report(sidecars@, i as int),
    {
        let o = &sidecars[i];
        let artifact = check_sidecar_document(o.rel.as_str(), &o.content, findings);
        if artifact.is_some() {
            check_sidecar_artifact(o.rel.as_str(), o.artifact_exists, o.artifact_newer, findings);
        }
        assert(findings_view(findings@) =~= s2 + sidecars_report(sidecars@, i + 1));
    }
    assert(findings_view(findings@) =~= s0 + srp_report(scan_failures@, sidecars@, *exclude));
}

/// The artifact the scan should look at for a sidecar, given what reading it
/// gave: the one its document names, when that is a valid repo-relative path.
pub fn sidecar_artifact(rel: &str, content: &Result<String, String>) -> (r: Option<String>)
    ensures
        match r {
            Some(a) => document_report(rel@, *content).1 == Some(a@),
            None => document_report(rel@, *content).1 is None,
        },
{
    let mut scratch: Vec<DoctorFinding> = Vec::new();
    check_sidecar_document(rel, content, &mut scratch)
}

} // verus!
