//! The `pressed.md` digest and the `linked.md` graph edges of a leaf.
use crate::doctor::lifecycle::{item_path, located, one_if, FindingView};
use crate::doctor::{cat2, cat3, cat4, findings_view, push_finding, DoctorFinding, LocationView, Severity};
use crate::graph::{
    debug_quoted, debug_str, fm_value, frontmatter_of, frontmatter_value, line_ref, link_line,
    opt_view, parse_link_line, parse_yaml_frontmatter, LinkLine,
};
use crate::inventory::StageDir;
use crate::text::{chars_of, decimal_chars, eq_chars, join, join_chars, lines, lines_of, push_str, seqs, string_of};
use vstd::prelude::*;

verus! {

/// What looking at an optional file of an item gave.
#[derive(Debug, Clone, PartialEq, Eq)]
pub enum FileProbe {
    NotFound,
    InspectFailed(String),
    NotFile,
    ReadFailed(String),
    Content(String),
}

pub const FRONTMATTER_TYPE: &'static str = "Leaf Pressed Digest";

pub const FRONTMATTER_FIELDS: [&'static str; 8] = [
    "type",
    "title",
    "description",
    "resource",
    "tags",
    "timestamp",
    "citation_handle",
    "stage",
];

pub const FRONTMATTER_TEMPLATE: &'static str = "---\ntype: Leaf Pressed Digest\ntitle: <human-readable title>\ndescription: <one-sentence summary for indexes and previews>\nresource: <source path>\ntags: [leaf, <short-topic-tag>]\ntimestamp: <ISO 8601 local timestamp>\ncitation_handle: leaf:{slug}\nstage: leaf\n---\n";

pub const LINKED_METADATA_MESSAGE: &'static str = "expected link rows like `- `cites` -> `leaf:other-slug` - optional note`; allowed predicates: cites, refines, supersedes, depends_on, derived_from, related_to";

pub open spec fn frontmatter_fields() -> Seq<Seq<char>> {
    seq![
        "type"@,
        "title"@,
        "description"@,
        "resource"@,
        "tags"@,
        "timestamp"@,
        "citation_handle"@,
        "stage"@,
    ]
}

pub open spec fn pressed_impact() -> Seq<char> {
    "expected frontmatter:\n"@ + FRONTMATTER_TEMPLATE@
}

/// The template a pressed digest's frontmatter is expected to follow.
pub fn expected_pressed_frontmatter_message() -> (r: String)
    ensures
        r@ == pressed_impact(),
{
    cat2("expected frontmatter:\n", FRONTMATTER_TEMPLATE)
}

/// What a `linked.md` row is expected to look like.
pub fn expected_linked_metadata_message() -> (r: &'static str)
    ensures
        r@ == LINKED_METADATA_MESSAGE@,
{
    LINKED_METADATA_MESSAGE
}

pub open spec fn with_impact_at(
    code: Seq<char>,
    message: Seq<char>,
    path: Seq<char>,
    impact: Seq<char>,
) -> FindingView {
    (Severity::Warn, code, message, LocationView::Path(path), Some(impact))
}

// ---------------------------------------------------------------------------
// pressed.md
// ---------------------------------------------------------------------------
pub open spec fn missing_fm_fields(fm: Seq<char>) -> Seq<Seq<char>> {
    frontmatter_fields().filter(|f: Seq<char>| fm_value(fm, f) is None)
}

pub open spec fn frontmatter_report(fm: Seq<char>, rel: Seq<char>) -> Seq<FindingView> {
    let missing = missing_fm_fields(fm);
    one_if(
        missing.len() > 0,
        with_impact_at(
            "pressed_frontmatter_missing_fields"@,
            "pressed.md frontmatter missing fields: "@ + join(missing, ", "@),
            rel,
            pressed_impact(),
        ),
    ) + (match fm_value(fm, "type"@) {
        Some(v) => one_if(
            v != FRONTMATTER_TYPE@,
            with_impact_at(
                "pressed_frontmatter_invalid_type"@,
                "pressed.md frontmatter type must be "@ + debug_quoted(FRONTMATTER_TYPE@)
                    + ", got "@ + debug_quoted(v),
                rel,
                pressed_impact(),
            ),
        ),
        None => Seq::empty(),
    }) + (match fm_value(fm, "stage"@) {
        Some(v) => one_if(
            v != "leaf"@,
            with_impact_at(
                "pressed_frontmatter_invalid_stage"@,
                "pressed.md frontmatter stage must be "@ + debug_quoted("leaf"@) + ", got "@
                    + debug_quoted(v),
                rel,
                pressed_impact(),
            ),
        ),
        None => Seq::empty(),
    })
}

pub open spec fn pressed_content_report(c: Seq<char>, rel: Seq<char>) -> Seq<FindingView> {
    match frontmatter_of(c) {
        None => seq![
            with_impact_at(
                "pressed_frontmatter_missing"@,
                "pressed.md must start with OKF-compatible YAML frontmatter"@,
                rel,
                pressed_impact(),
            ),
        ],
        Some(fm) => frontmatter_report(fm, rel),
    }
}

pub open spec fn pressed_wrong_stage(d: StageDir, rel: Seq<char>) -> Seq<FindingView> {
    one_if(
        d != StageDir::Leaves,
        located(
            Severity::Warn,
            "pressed_digest_wrong_stage"@,
            "pressed.md belongs only in .leaf/02-leaves after ⑧ passes"@,
            rel,
        ),
    )
}

/// What the `pressed.md` of an item is reported for.
pub open spec fn pressed_report(d: StageDir, dir: Seq<char>, slug: Seq<char>, probe: FileProbe) -> Seq<
    FindingView,
> {
    let rel = item_path(dir, slug) + "/pressed.md"@;
    match probe {
        FileProbe::NotFound => Seq::empty(),
        FileProbe::InspectFailed(e) => seq![
            located(
                Severity::Warn,
                "pressed_digest_unreadable"@,
                "failed to inspect pressed digest: "@ + e@,
                rel,
            ),
        ],
        FileProbe::NotFile => seq![
            located(
                Severity::Warn,
                "pressed_digest_not_file"@,
                "pressed.md exists but is not a regular file"@,
                rel,
            ),
        ],
        FileProbe::ReadFailed(e) => pressed_wrong_stage(d, rel) + seq![
            located(
                Severity::Warn,
                "pressed_digest_unreadable"@,
                "failed to read pressed digest: "@ + e@,
                rel,
            ),
        ],
        FileProbe::Content(c) => pressed_wrong_stage(d, rel) + pressed_content_report(c@, rel),
    }
}

fn same_text(a: &str, b: &str) -> (r: bool)
    ensures
        r == (a@ == b@),
{
    let x = chars_of(a);
    let y = chars_of(b);
    eq_chars(x.as_slice(), y.as_slice())
}

fn missing_fields_joined(fm: &str) -> (r: (bool, String))
    ensures
        r.0 == (missing_fm_fields(fm@).len() > 0),
        r.1@ == join(missing_fm_fields(fm@), ", "@),
{
    let ghost all = frontmatter_fields();
    let ghost p = |f: Seq<char>| fm_value(fm@, f) is None;
    let mut pieces: Vec<Vec<char>> = Vec::new();
    for i in 0..8usize
        invariant
            all == frontmatter_fields(),
            p == (|f: Seq<char>| fm_value(fm@, f) is None),
            seqs(pieces@) == all.take(i as int).filter(p),
    {
        let field = FRONTMATTER_FIELDS[i];
        assert(field@ == all[i as int]);
        assert(all.take(i + 1).drop_last() =~= all.take(i as int));
        reveal_with_fuel(Seq::filter, 1);
        if !crate::graph::frontmatter_has_key(fm, field) {
            let ghost before = seqs(pieces@);
            pieces.push(chars_of(field));
            assert(seqs(pieces@) =~= before.push(field@));
        }
    }
    assert(all.take(8) =~= all);
    let sep = chars_of(", ");
    let j = join_chars(&pieces, sep.as_slice());
    (pieces.len() > 0, string_of(j.as_slice()))
}

fn push_frontmatter_checks(fm: &str, rel: &str, findings: &mut Vec<DoctorFinding>)
    ensures
        findings_view(final(findings)@) == findings_view(old(findings)@) + frontmatter_report(
            fm@,
            rel@,
        ),
{
    let ghost s0 = findings_view(findings@);
    let impact = expected_pressed_frontmatter_message();
    let (any_missing, names) = missing_fields_joined(fm);
    if any_missing {
        let m = cat2("pressed.md frontmatter missing fields: ", names.as_str());
        push_finding(
            findings,
            DoctorFinding::warn("pressed_frontmatter_missing_fields", m.as_str()).with_impact(
                impact.as_str(),
            ).with_path(rel),
        );
    }
    let ghost s1 = findings_view(findings@);
    match frontmatter_value(fm, "type") {
        Some(value) => {
            if !same_text(value.as_str(), FRONTMATTER_TYPE) {
                let expected = debug_str(FRONTMATTER_TYPE);
                let got = debug_str(value.as_str());
                let m = cat4(
                    "pressed.md frontmatter type must be ",
                    expected.as_str(),
                    ", got ",
                    got.as_str(),
                );
                push_finding(
                    findings,
                    DoctorFinding::warn("pressed_frontmatter_invalid_type", m.as_str()).with_impact(
                        impact.as_str(),
                    ).with_path(rel),
                );
            }
        },
        None => {},
    }
    let ghost s2 = findings_view(findings@);
    match frontmatter_value(fm, "stage") {
        Some(value) => {
            let leaf = crate::inventory::Stage::Leaf.label();
            if !same_text(value.as_str(), leaf) {
                let expected = debug_str(leaf);
                let got = debug_str(value.as_str());
                let m = cat4(
                    "pressed.md frontmatter stage must be ",
                    expected.as_str(),
                    ", got ",
                    got.as_str(),
                );
                push_finding(
                    findings,
                    DoctorFinding::warn("pressed_frontmatter_invalid_stage", m.as_str()).with_impact(
                        impact.as_str(),
                    ).with_path(rel),
                );
            }
        },
        None => {},
    }
    assert(findings_view(findings@) =~= s0 + frontmatter_report(fm@, rel@));
}

/// Validates `<item>/pressed.md`, given what looking at it gave.
pub fn check_item_pressed_digest(
    stage_dir: StageDir,
    dir_name: &str,
    slug: &str,
    probe: &FileProbe,
    findings: &mut Vec<DoctorFinding>,
)
    ensures
        findings_view(final(findings)@) == findings_view(old(findings)@) + pressed_report(
            stage_dir,
            dir_name@,
            slug@,
            *probe,
        ),
{
    let ghost s0 = findings_view(findings@);
    let rel = cat4(".leaf/", dir_name, "/", slug);
    let rel = cat2(rel.as_str(), "/pressed.md");
    match probe {
        FileProbe::NotFound => {
            assert(findings_view(findings@) =~= s0 + pressed_report(stage_dir, dir_name@, slug@, *probe));
            return;
        },
        FileProbe::InspectFailed(e) => {
            let m = cat2("failed to inspect pressed digest: ", e.as_str());
            push_finding(
                findings,
                DoctorFinding::warn("pressed_digest_unreadable", m.as_str()).with_path(rel.as_str()),
            );
            assert(findings_view(findings@) =~= s0 + pressed_report(stage_dir, dir_name@, slug@, *probe));
            return;
        },
        FileProbe::NotFile => {
            push_finding(
                findings,
                DoctorFinding::warn(
                    "pressed_digest_not_file",
                    "pressed.md exists but is not a regular file",
                ).with_path(rel.as_str()),
            );
            assert(findings_view(findings@) =~= s0 + pressed_report(stage_dir, dir_name@, slug@, *probe));
            return;
        },
        _ => {},
    }
    if stage_dir != StageDir::Leaves {
        push_finding(
            findings,
            DoctorFinding::warn(
                "pressed_digest_wrong_stage",
                "pressed.md belongs only in .leaf/02-leaves after ⑧ passes",
            ).with_path(rel.as_str()),
        );
    }
    let ghost s1 = findings_view(findings@);
    assert(s1 =~= s0 + pressed_wrong_stage(stage_dir, rel@));
    match probe {
        FileProbe::ReadFailed(e) => {
            let m = cat2("failed to read pressed digest: ", e.as_str());
            push_finding(
                findings,
                DoctorFinding::warn("pressed_digest_unreadable", m.as_str()).with_path(rel.as_str()),
            );
        },
        FileProbe::Content(c) => {
            match parse_yaml_frontmatter(c.as_str()) {
                None => {
                    let impact = expected_pressed_frontmatter_message();
                    push_finding(
                        findings,
                        DoctorFinding::warn(
                            "pressed_frontmatter_missing",
                            "pressed.md must start with OKF-compatible YAML frontmatter",
                        ).with_impact(impact.as_str()).with_path(rel.as_str()),
                    );
                },
                Some(fm) => {
                    push_frontmatter_checks(fm.as_str(), rel.as_str(), findings);
                },
            }
        },
        _ => {},
    }
    assert(findings_view(findings@) =~= s0 + pressed_report(stage_dir, dir_name@, slug@, *probe));
}

// ---------------------------------------------------------------------------
// linked.md
// ---------------------------------------------------------------------------
/// How many of `ls[..n]` are link rows with an edge.
pub open spec fn edge_count(ls: Seq<Seq<char>>, n: int) -> nat
    decreases n,
{
    if n <= 0 {
        0
    } else {
        edge_count(ls, n - 1) + match link_line(ls[n - 1]) {
            LinkLine::Edge(_, _, _) => 1nat,
            _ => 0nat,
        }
    }
}

/// One warning per broken row among `ls[..n]`.
pub open spec fn invalid_edge_findings(ls: Seq<Seq<char>>, n: int, rel: Seq<char>) -> Seq<
    FindingView,
>
    decreases n,
{
    if n <= 0 {
        Seq::empty()
    } else {
        invalid_edge_findings(ls, n - 1, rel) + match link_line(ls[n - 1]) {
            LinkLine::Invalid(m) => seq![
                with_impact_at(
                    "linked_metadata_invalid_edge"@,
                    m,
                    line_ref(rel, n - 1),
                    LINKED_METADATA_MESSAGE@,
                ),
            ],
            _ => Seq::empty(),
        }
    }
}

pub open spec fn linked_content_report(c: Seq<char>, rel: Seq<char>) -> Seq<FindingView> {
    let ls = lines(c);
    invalid_edge_findings(ls, ls.len() as int, rel) + one_if(
        edge_count(ls, ls.len() as int) == 0,
        with_impact_at(
            "linked_metadata_no_edges"@,
            "linked.md has no graph edges; remove it or add `predicate -> target` rows"@,
            rel,
            LINKED_METADATA_MESSAGE@,
        ),
    )
}

pub open spec fn pressed_is_file(p: FileProbe) -> bool {
    p is ReadFailed || p is Content
}

pub open spec fn linked_placement(d: StageDir, pressed: FileProbe, rel: Seq<char>) -> Seq<
    FindingView,
> {
    one_if(
        d != StageDir::Leaves,
        located(
            Severity::Warn,
            "linked_metadata_wrong_stage"@,
            "linked.md belongs next to pressed.md in .leaf/02-leaves"@,
            rel,
        ),
    ) + one_if(
        !pressed_is_file(pressed),
        located(
            Severity::Warn,
            "linked_metadata_without_pressed"@,
            "linked.md should only exist next to a pressed.md digest"@,
            rel,
        ),
    )
}

/// What the `linked.md` of an item is reported for; `pressed` is what looking
/// at its `pressed.md` gave.
pub open spec fn linked_report(
    d: StageDir,
    dir: Seq<char>,
    slug: Seq<char>,
    probe: FileProbe,
    pressed: FileProbe,
) -> Seq<FindingView> {
    let rel = item_path(dir, slug) + "/linked.md"@;
    match probe {
        FileProbe::NotFound => Seq::empty(),
        FileProbe::InspectFailed(e) => seq![
            located(
                Severity::Warn,
                "linked_metadata_unreadable"@,
                "failed to inspect linked metadata: "@ + e@,
                rel,
            ),
        ],
        FileProbe::NotFile => seq![
            located(
                Severity::Warn,
                "linked_metadata_not_file"@,
                "linked.md exists but is not a regular file"@,
                rel,
            ),
        ],
        FileProbe::ReadFailed(e) => linked_placement(d, pressed, rel) + seq![
            located(
                Severity::Warn,
                "linked_metadata_unreadable"@,
                "failed to read linked metadata: "@ + e@,
                rel,
            ),
        ],
        FileProbe::Content(c) => linked_placement(d, pressed, rel) + linked_content_report(
            c@,
            rel,
        ),
    }
}

fn line_ref_text(path: &str, k: usize) -> (r: String)
    requires
        k < usize::MAX,
    ensures
        r@ == line_ref(path@, k as int),
{
    let mut v: Vec<char> = Vec::new();
    push_str(&mut v, path);
    v.push(':');
    let d = decimal_chars((k + 1) as u64);
    crate::text::append(&mut v, d.as_slice());
    string_of(v.as_slice())
}

fn push_linked_content(c: &str, rel: &str, findings: &mut Vec<DoctorFinding>)
    ensures
        findings_view(final(findings)@) == findings_view(old(findings)@) + linked_content_report(
            c@,
            rel@,
        ),
{
    let ghost s0 = findings_view(findings@);
    let cv = chars_of(c);
    let ls = lines_of(cv.as_slice());
    let ghost all = seqs(ls@);
    let mut edges: usize = 0;
    for k in 0..ls.len()
        invariant
            all == seqs(ls@),
            all == lines(c@),
            edges == edge_count(all, k as int),
            edges <= k,
            findings_view(findings@) == s0 + invalid_edge_findings(all, k as int, rel@),
    {
        assert(all[k as int] == ls@[k as int]@);
        let line = string_of(ls[k].as_slice());
        match parse_link_line(line.as_str()) {
            Ok(Some(_)) => {
                edges = edges + 1;
            },
            Ok(None) => {},
            Err(message) => {
                let path = line_ref_text(rel, k);
                push_finding(
                    findings,
                    DoctorFinding::warn("linked_metadata_invalid_edge", message.as_str()).with_impact(
                        LINKED_METADATA_MESSAGE,
                    ).with_path(path.as_str()),
                );
            },
        }
        assert(findings_view(findings@) =~= s0 + invalid_edge_findings(all, k + 1, rel@));
    }
    let ghost s1 = findings_view(findings@);
    if edges == 0 {
        push_finding(
            findings,
            DoctorFinding::warn(
                "linked_metadata_no_edges",
                "linked.md has no graph edges; remove it or add `predicate -> target` rows",
            ).with_impact(LINKED_METADATA_MESSAGE).with_path(rel),
        );
    }
    assert(findings_view(findings@) =~= s0 + linked_content_report(c@, rel@));
}

/// Validates `<item>/linked.md`, given what looking at it and at the item's
/// `pressed.md` gave.
pub fn check_item_linked_metadata(
    stage_dir: StageDir,
    dir_name: &str,
    slug: &str,
    probe: &FileProbe,
    pressed: &FileProbe,
    findings: &mut Vec<DoctorFinding>,
)
    ensures
        findings_view(final(findings)@) == findings_view(old(findings)@) + linked_report(
            stage_dir,
            dir_name@,
            slug@,
            *probe,
            *pressed,
        ),
{
    let ghost s0 = findings_view(findings@);
    let rel = cat4(".leaf/", dir_name, "/", slug);
    let rel = cat2(rel.as_str(), "/linked.md");
    match probe {
        FileProbe::NotFound => {
            assert(findings_view(findings@) =~= s0 + linked_report(stage_dir, dir_name@, slug@, *probe, *pressed));
            return;
        },
        FileProbe::InspectFailed(e) => {
            let m = cat2("failed to inspect linked metadata: ", e.as_str());
            push_finding(
                findings,
                DoctorFinding::warn("linked_metadata_unreadable", m.as_str()).with_path(rel.as_str()),
            );
            assert(findings_view(findings@) =~= s0 + linked_report(stage_dir, dir_name@, slug@, *probe, *pressed));
            return;
        },
        FileProbe::NotFile => {
            push_finding(
                findings,
                DoctorFinding::warn(
                    "linked_metadata_not_file",
                    "linked.md exists but is not a regular file",
                ).with_path(rel.as_str()),
            );
            assert(findings_view(findings@) =~= s0 + linked_report(stage_dir, dir_name@, slug@, *probe, *pressed));
            return;
        },
        _ => {},
    }
    if stage_dir != StageDir::Leaves {
        push_finding(
            findings,
            DoctorFinding::warn(
                "linked_metadata_wrong_stage",
                "linked.md belongs next to pressed.md in .leaf/02-leaves",
            ).with_path(rel.as_str()),
        );
    }
    let has_pressed = match pressed {
        FileProbe::ReadFailed(_) | FileProbe::Content(_) => true,
        _ => false,
    };
    if !has_pressed {
        push_finding(
            findings,
            DoctorFinding::warn(
                "linked_metadata_without_pressed",
                "linked.md should only exist next to a pressed.md digest",
            ).with_path(rel.as_str()),
        );
    }
    let ghost s1 = findings_view(findings@);
    assert(s1 =~= s0 + linked_placement(stage_dir, *pressed, rel@));
    match probe {
        FileProbe::ReadFailed(e) => {
            let m = cat2("failed to read linked metadata: ", e.as_str());
            push_finding(
                findings,
                DoctorFinding::warn("linked_metadata_unreadable", m.as_str()).with_path(rel.as_str()),
            );
        },
        FileProbe::Content(c) => {
            push_linked_content(c.as_str(), rel.as_str(), findings);
        },
        _ => {},
    }
    assert(findings_view(findings@) =~= s0 + linked_report(stage_dir, dir_name@, slug@, *probe, *pressed));
}

} // verus!
