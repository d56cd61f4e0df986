//! The preview of one item: for leaf work its status followed by the first
//! gate documents, each under a source boundary; for a pressed digest its
//! title and excerpt.
use crate::markdown::{pline, plines, PLine};
use crate::preview::{fallback_if_empty, PreviewLine};
use crate::text::{chars_of, push_str, string_of};
use vstd::prelude::*;

verus! {

/// How many lines a leaf-work preview keeps.
pub const MAX_LEAF_PREVIEW_LINES: usize = 32;

/// How many status lines a leaf-work preview shows.
pub const STATUS_PREVIEW_LINES: usize = 8;

/// How many lines of each gate document a leaf-work preview shows.
pub const SECONDARY_PREVIEW_LINES: usize = 4;

/// A titled preview.
pub struct Preview {
    pub title: String,
    pub lines: Vec<PreviewLine>,
}

/// Which documents a leaf-work preview shows, in order: their phase,
/// gate label and source path.
pub open spec fn preview_gate(k: int) -> (Seq<char>, Seq<char>, Seq<char>) {
    if k == 0 {
        ("Learn"@, "\u{2460} Intent"@, "01-Learn/01-intent.md"@)
    } else if k == 1 {
        ("Learn"@, "\u{2461} Unknowns"@, "01-Learn/02-unknowns.md"@)
    } else {
        ("Example"@, "\u{2462} Criteria"@, "02-Example/03-criteria.md"@)
    }
}

/// A gate document's lines added after what is there: set off by two empty
/// lines when something precedes them, and headed by a source boundary. A
/// document that could not be read adds nothing.
pub open spec fn with_gate(lines: Seq<PLine>, k: int, gate: Option<Seq<PLine>>) -> Seq<PLine> {
    match gate {
        None => lines,
        Some(g) => (if lines.len() > 0 {
            lines + seq![PLine::Plain(Seq::empty()), PLine::Plain(Seq::empty())]
        } else {
            lines
        }) + seq![PLine::Boundary(preview_gate(k).0, preview_gate(k).1, preview_gate(k).2)] + g,
    }
}

/// The lines of a leaf-work preview: the status lines, then the intent,
/// unknowns and criteria documents, cut to the preview's length.
pub open spec fn leaf_work_lines(
    status: Seq<PLine>,
    intent: Option<Seq<PLine>>,
    unknowns: Option<Seq<PLine>>,
    criteria: Option<Seq<PLine>>,
) -> Seq<PLine> {
    let all = with_gate(with_gate(with_gate(status, 0, intent), 1, unknowns), 2, criteria);
    if all.len() > MAX_LEAF_PREVIEW_LINES {
        all.take(MAX_LEAF_PREVIEW_LINES as int)
    } else {
        all
    }
}

/// The line shown in place of a source that could not be read.
pub fn unreadable_source_line(path: &str, error: &str) -> (r: PreviewLine)
    ensures
        pline(r) == PLine::Plain("Unable to read preview source "@ + path@ + ": "@ + error@),
{
    let mut v: Vec<char> = Vec::new();
    push_str(&mut v, "Unable to read preview source ");
    push_str(&mut v, path);
    push_str(&mut v, ": ");
    push_str(&mut v, error);
    PreviewLine::Plain(string_of(v.as_slice()))
}

fn append_gate(lines: &mut Vec<PreviewLine>, k: usize, gate: Option<Vec<PreviewLine>>)
    requires
        k < 3,
    ensures
        plines(final(lines)@) == with_gate(
            plines(old(lines)@),
            k as int,
            match gate {
                Some(g) => Some(plines(g@)),
                None => None,
            },
        ),
{
    let ghost before = plines(lines@);
    match gate {
        None => {},
        Some(g) => {
            if lines.len() > 0 {
                lines.push(PreviewLine::Plain(String::new()));
                lines.push(PreviewLine::Plain(String::new()));
            }
            let (phase, label, source) = if k == 0 {
                ("Learn", "\u{2460} Intent", "01-Learn/01-intent.md")
            } else if k == 1 {
                ("Learn", "\u{2461} Unknowns", "01-Learn/02-unknowns.md")
            } else {
                ("Example", "\u{2462} Criteria", "02-Example/03-criteria.md")
            };
            lines.push(
                PreviewLine::SourceBoundary {
                    phase: phase.to_owned(),
                    gate: label.to_owned(),
                    source: source.to_owned(),
                },
            );
            let ghost mid = plines(lines@);
            let ghost gv = plines(g@);
            let mut g = g;
            lines.append(&mut g);
            assert(plines(lines@) =~= mid + gv);
            assert(plines(lines@) =~= with_gate(before, k as int, Some(gv)));
        },
    }
}

/// A leaf-work preview from its status lines and the rendered gate
/// documents that could be read; titled by the slug.
pub fn leaf_work_preview(
    slug: &str,
    status: Vec<PreviewLine>,
    intent: Option<Vec<PreviewLine>>,
    unknowns: Option<Vec<PreviewLine>>,
    criteria: Option<Vec<PreviewLine>>,
) -> (r: Preview)
    ensures
        r.title@ == slug@,
        ({
            let ls = leaf_work_lines(
                plines(status@),
                match intent {
                    Some(g) => Some(plines(g@)),
                    None => None,
                },
                match unknowns {
                    Some(g) => Some(plines(g@)),
                    None => None,
                },
                match criteria {
                    Some(g) => Some(plines(g@)),
                    None => None,
                },
            );
            if ls.len() > 0 {
                plines(r.lines@) == ls
            } else {
                plines(r.lines@) == seq![PLine::Plain("No preview available."@)]
            }
        }),
{
    let mut lines = status;
    append_gate(&mut lines, 0, intent);
    append_gate(&mut lines, 1, unknowns);
    append_gate(&mut lines, 2, criteria);
    if lines.len() > MAX_LEAF_PREVIEW_LINES {
        let ghost all = plines(lines@);
        lines.truncate(MAX_LEAF_PREVIEW_LINES);
        assert(plines(lines@) =~= all.take(MAX_LEAF_PREVIEW_LINES as int));
    }
    let lines = fallback_if_empty(lines);
    proof {
        if plines(lines@).len() == 1 {
            assert(pline(lines@[0]) == plines(lines@)[0]);
        }
    }
    Preview { title: string_of(chars_of(slug).as_slice()), lines }
}

/// A pressed digest's preview: titled by its first heading (the slug when
/// it has none), showing its rendered excerpt.
pub fn pressed_digest_preview(slug: &str, heading: Option<String>, excerpt: Vec<PreviewLine>) -> (r:
    Preview)
    ensures
        r.title@ == match heading {
            Some(h) => h@,
            None => slug@,
        },
        excerpt@.len() > 0 ==> plines(r.lines@) == plines(excerpt@),
        excerpt@.len() == 0 ==> plines(r.lines@) == seq![PLine::Plain("No preview available."@)],
{
    let title = match heading {
        Some(h) => h,
        None => string_of(chars_of(slug).as_slice()),
    };
    let lines = fallback_if_empty(excerpt);
    Preview { title, lines }
}

/// The preview of a pressed digest that could not be read.
pub fn unreadable_digest_preview(slug: &str, path: &str, error: &str) -> (r: Preview)
    ensures
        r.title@ == slug@,
        plines(r.lines@) == seq![
            PLine::Plain("Unable to read preview source "@ + path@ + ": "@ + error@),
        ],
{
    let line = unreadable_source_line(path, error);
    let lines = vec![line];
    assert(plines(lines@) =~= seq![pline(line)]);
    Preview { title: string_of(chars_of(slug).as_slice()), lines }
}

} // verus!
