//! Status rewrites used when a sprout is kept as a leaf or falls.
use crate::inventory::{
    heading_from, lemma_heading_bounds, line_is_section_heading, parse_status_summary,
    status_value, StageDir,
};
use crate::phase::{
    is_status_field_chars, lemma_heading_prefix, phase_from_value, rejoin, rejoin_lines,
    status_field_line, Phase,
};
use crate::text::{
    append, chars_of, eq_chars, lines, lines_of, push_str, seqs, slice_vec, string_of, trim,
    trim_chars,
};
use crate::date::secs_since_epoch;
use crate::text::{decimal, decimal_chars, starts_with};
use std::time::SystemTime;
use vstd::prelude::*;

verus! {

/// Match a `- stage:` status field line, case-insensitively.
pub fn is_stage_field(line: &str) -> (b: bool)
    ensures
        b == status_field_line(line@, "stage"@),
{
    let l = chars_of(line);
    let k = chars_of("stage");
    is_status_field_chars(l.as_slice(), k.as_slice())
}

/// Line `i` of `ls` once a sprout status becomes a leaf status.
pub open spec fn leaf_rewritten_line(ls: Seq<Seq<char>>, i: int) -> Seq<char> {
    if trim(ls[i]) == "# Sprout Status"@ {
        "# Leaf Status"@
    } else if i < heading_from(ls, 0) && status_field_line(ls[i], "stage"@) {
        "- stage: leaf"@
    } else {
        ls[i]
    }
}

pub open spec fn leaf_status(content: Seq<char>) -> Seq<char> {
    let ls = lines(content);
    rejoin(Seq::new(ls.len(), |i: int| leaf_rewritten_line(ls, i)), content)
}

/// Rewrite a sprout status into a leaf status: the preamble `- stage:` value
/// becomes `leaf` and the `# Sprout Status` title becomes `# Leaf Status`.
pub fn rewrite_stage_to_leaf(content: &str) -> (r: String)
    ensures
        r@ == leaf_status(content@),
{
    let c = chars_of(content);
    let ls = lines_of(c.as_slice());
    let ghost sl = seqs(ls@);
    let key = chars_of("stage");
    let title = chars_of("# Sprout Status");
    let mut outs: Vec<Vec<char>> = Vec::new();
    let mut in_preamble = true;
    proof {
        lemma_heading_bounds(sl, 0);
    }
    for i in 0..ls.len()
        invariant
            sl == seqs(ls@),
            sl == lines(content@),
            key@ == "stage"@,
            title@ == "# Sprout Status"@,
            0 <= heading_from(sl, 0) <= sl.len(),
            in_preamble == (i <= heading_from(sl, 0)),
            seqs(outs@) == Seq::new(i as nat, |j: int| leaf_rewritten_line(sl, j)),
    {
        let line = &ls[i];
        assert(line@ == sl[i as int]);
        if in_preamble && line_is_section_heading(line.as_slice()) {
            in_preamble = false;
        }
        proof {
            lemma_heading_prefix(sl, i as int);
        }
        let t = trim_chars(line.as_slice());
        let out: Vec<char> = if eq_chars(t.as_slice(), title.as_slice()) {
            chars_of("# Leaf Status")
        } else if in_preamble && is_status_field_chars(line.as_slice(), key.as_slice()) {
            chars_of("- stage: leaf")
        } else {
            slice_vec(line.as_slice(), 0, line.len())
        };
        assert(in_preamble == (i < heading_from(sl, 0)));
        assert(out@ =~= leaf_rewritten_line(sl, i as int));
        let ghost before = seqs(outs@);
        let ghost outv = out@;
        outs.push(out);
        assert(seqs(outs@) =~= before.push(outv));
        assert(seqs(outs@) =~= Seq::new((i + 1) as nat, |j: int| leaf_rewritten_line(sl, j)));
    }
    let r = rejoin_lines(&outs, c.as_slice());
    string_of(r.as_slice())
}

/// The phase a keep warns about: `None` when the sprout's `current phase` is
/// Feedback, the phase itself otherwise, `"unknown"` when it has none.
pub open spec fn premature(content: Seq<char>) -> Option<Seq<char>> {
    match status_value(content, "current phase"@, "current phase"@) {
        Some(phase) => if phase_from_value(phase) == Some(Phase::Feedback) {
            None
        } else {
            Some(phase)
        },
        None => Some("unknown"@),
    }
}

/// Keeping warns exactly when the sprout is before Feedback: no warning
/// when its `current phase` value (trimmed) starts with `Feedback`, and a
/// warning naming the value itself when it starts with `Learn`, `Example`
/// or `Architect` (or anything but `Feedback`); `unknown` when the status
/// names no current phase.
pub proof fn lemma_keep_warns_before_feedback(content: Seq<char>)
    ensures
        ({
            let sv = status_value(content, "current phase"@, "current phase"@);
            &&& premature(content) is None <==> (sv is Some && starts_with(trim(sv.unwrap()), "Feedback"@))
            &&& (sv is Some && (starts_with(trim(sv.unwrap()), "Learn"@) || starts_with(trim(sv.unwrap()), "Example"@)
                || starts_with(trim(sv.unwrap()), "Architect"@))) ==> premature(content) == sv
            &&& sv is None ==> premature(content) == Some("unknown"@)
            &&& (sv is Some && !starts_with(trim(sv.unwrap()), "Feedback"@)) ==> premature(content) == sv
        }),
{
    reveal_strlit("Learn");
    reveal_strlit("Example");
    reveal_strlit("Architect");
    reveal_strlit("Feedback");
    let sv = status_value(content, "current phase"@, "current phase"@);
    if sv is Some {
        let t = trim(sv.unwrap());
        if t.len() > 0 {
            assert(starts_with(t, "Learn"@) ==> t.take(5)[0] == 'L');
            assert(starts_with(t, "Example"@) ==> t.take(7)[0] == 'E');
            assert(starts_with(t, "Architect"@) ==> t.take(9)[0] == 'A');
            assert(starts_with(t, "Feedback"@) ==> t.take(8)[0] == 'F');
        }
    }
}

pub fn premature_phase(content: &str) -> (r: Option<String>)
    ensures
        r.deep_view() == premature(content@),
{
    let summary = parse_status_summary(content, StageDir::Sprouts);
    match summary.current_phase {
        Some(phase) => {
            if Phase::from_status_value(phase.as_str()) == Some(Phase::Feedback) {
                None
            } else {
                Some(phase)
            }
        },
        None => Some("unknown".to_owned()),
    }
}

/// The trimmed fallen reason, refused when empty.
pub fn validate_reason(reason: &str) -> (r: Result<String, String>)
    ensures
        match r {
            Ok(v) => trim(reason@).len() > 0 && v@ == trim(reason@),
            Err(e) => trim(reason@).len() == 0 && e@ == "fallen reason cannot be empty"@,
        },
{
    let c = chars_of(reason);
    let t = trim_chars(c.as_slice());
    if t.len() == 0 {
        return Err("fallen reason cannot be empty".to_owned());
    }
    Ok(string_of(t.as_slice()))
}

/// The status document written into a fallen item.
pub open spec fn fallen_status_text(
    source_display: Seq<char>,
    reason: Seq<char>,
    timestamp: Seq<char>,
    previous: Seq<char>,
) -> Seq<char> {
    let head = "# Fallen Status\n\n- stage: fallen\n- fallen at: "@ + timestamp
        + "\n- fallen from: "@ + source_display + "\n- fallen reason: "@ + reason
        + "\n- closure summary: -\n- reusable lessons: -\n- unresolved limits: -\n- successor: -\n\n## Fall Log\n\n- "@
        + timestamp + ": moved to fallen; no execution artifacts were created.\n"@;
    let prev = trim(previous);
    if prev.len() == 0 {
        head
    } else {
        head + "\n## Previous Status\n\n"@ + prev + seq!['\n']
    }
}

/// Build the fallen status: fixed closure fields, the fall log, and the
/// trimmed previous status (when there was one) under `## Previous Status`.
/// `source_display` is the source directory relative to the repository root.
pub fn fallen_status(
    source_display: &str,
    reason: &str,
    timestamp: &str,
    previous_status: Option<&str>,
) -> (r: String)
    ensures
        r@ == fallen_status_text(
            source_display@,
            reason@,
            timestamp@,
            match previous_status {
                Some(p) => p@,
                None => ""@,
            },
        ),
{
    let prev_raw = match previous_status {
        Some(p) => chars_of(p),
        None => chars_of(""),
    };
    let prev = trim_chars(prev_raw.as_slice());
    let mut out: Vec<char> = Vec::new();
    push_str(&mut out, "# Fallen Status\n\n- stage: fallen\n- fallen at: ");
    push_str(&mut out, timestamp);
    push_str(&mut out, "\n- fallen from: ");
    push_str(&mut out, source_display);
    push_str(&mut out, "\n- fallen reason: ");
    push_str(&mut out, reason);
    push_str(
        &mut out,
        "\n- closure summary: -\n- reusable lessons: -\n- unresolved limits: -\n- successor: -\n\n## Fall Log\n\n- ",
    );
    push_str(&mut out, timestamp);
    push_str(&mut out, ": moved to fallen; no execution artifacts were created.\n");
    if prev.len() > 0 {
        push_str(&mut out, "\n## Previous Status\n\n");
        append(&mut out, prev.as_slice());
        out.push('\n');
    }
    string_of(out.as_slice())
}

/// What `symlink_metadata` reports for a path, as the lifecycle moves see it.
#[derive(Clone, Copy, PartialEq, Eq, Debug, Structural)]
pub enum PathKind {
    Missing,
    Directory,
    Symlink,
    Other,
}

/// Whether `kind` is a real directory that may be moved; a symlink is refused.
pub fn real_dir_exists(kind: PathKind, path_display: &str) -> (r: Result<bool, String>)
    ensures
        match r {
            Ok(b) => kind != PathKind::Symlink && b == (kind == PathKind::Directory),
            Err(e) => kind == PathKind::Symlink
                && e@ == "leaf path is a symlink and cannot be moved: "@ + path_display@,
        },
{
    match kind {
        PathKind::Symlink => {
            let mut out: Vec<char> = Vec::new();
            push_str(&mut out, "leaf path is a symlink and cannot be moved: ");
            push_str(&mut out, path_display);
            Err(string_of(out.as_slice()))
        },
        PathKind::Directory => Ok(true),
        _ => Ok(false),
    }
}

/// Whether anything at all (a symlink included) stands at the path.
pub fn path_exists(kind: PathKind) -> (b: bool)
    ensures
        b == (kind != PathKind::Missing),
{
    kind != PathKind::Missing
}

pub open spec fn keep_refusal(
    slug: Seq<char>,
    source: Seq<char>,
    destination: Seq<char>,
    source_present: bool,
    destination_exists: bool,
) -> Option<Seq<char>> {
    if destination_exists && source_present {
        Some("ambiguous slug: "@ + slug + " exists in both "@ + source + " and "@ + destination
            + "; run leaf doctor and disambiguate"@)
    } else if destination_exists {
        Some(slug + " is already a leaf: "@ + destination + "; nothing to keep"@)
    } else if !source_present {
        Some("sprout does not exist: checked "@ + source)
    } else {
        None
    }
}

/// Decide whether a sprout may be kept: a present leaf destination refuses the
/// keep (as ambiguous when the sprout exists too), and so does a missing sprout.
pub fn keep_check(
    slug: &str,
    source_display: &str,
    destination_display: &str,
    source_present: bool,
    destination_exists: bool,
) -> (r: Result<(), String>)
    ensures
        match r {
            Ok(_) => keep_refusal(slug@, source_display@, destination_display@, source_present,
                destination_exists) is None,
            Err(e) => keep_refusal(slug@, source_display@, destination_display@, source_present,
                destination_exists) == Some(e@),
        },
{
    let mut out: Vec<char> = Vec::new();
    if destination_exists && source_present {
        push_str(&mut out, "ambiguous slug: ");
        push_str(&mut out, slug);
        push_str(&mut out, " exists in both ");
        push_str(&mut out, source_display);
        push_str(&mut out, " and ");
        push_str(&mut out, destination_display);
        push_str(&mut out, "; run leaf doctor and disambiguate");
        Err(string_of(out.as_slice()))
    } else if destination_exists {
        push_str(&mut out, slug);
        push_str(&mut out, " is already a leaf: ");
        push_str(&mut out, destination_display);
        push_str(&mut out, "; nothing to keep");
        Err(string_of(out.as_slice()))
    } else if !source_present {
        push_str(&mut out, "sprout does not exist: checked ");
        push_str(&mut out, source_display);
        Err(string_of(out.as_slice()))
    } else {
        Ok(())
    }
}

/// The stage a falling item leaves from.
#[derive(Clone, Copy, PartialEq, Eq, Debug, Structural)]
pub enum FallSource {
    Sprout,
    Leaf,
}

pub open spec fn fall_choice(
    slug: Seq<char>,
    sprout: Seq<char>,
    leaf: Seq<char>,
    sprout_exists: bool,
    leaf_exists: bool,
    destination_exists: bool,
) -> Result<FallSource, Seq<char>> {
    if sprout_exists && leaf_exists {
        Err("ambiguous leaf slug: "@ + slug + " exists in both "@ + sprout + " and "@ + leaf
            + "; run leaf doctor and disambiguate"@)
    } else if !sprout_exists && !leaf_exists {
        Err("leaf does not exist: checked "@ + sprout + " and "@ + leaf)
    } else if destination_exists {
        Err("fallen leaf already exists: "@ + slug)
    } else if sprout_exists {
        Ok(FallSource::Sprout)
    } else {
        Ok(FallSource::Leaf)
    }
}

/// Decide where a fall moves from: exactly one of the sprout and the leaf must
/// exist, and no fallen item of that slug may be there already.
pub fn fall_check(
    slug: &str,
    sprout_display: &str,
    leaf_display: &str,
    sprout_exists: bool,
    leaf_exists: bool,
    destination_exists: bool,
) -> (r: Result<FallSource, String>)
    ensures
        match (r, fall_choice(slug@, sprout_display@, leaf_display@, sprout_exists, leaf_exists,
            destination_exists)) {
            (Ok(a), Ok(b)) => a == b,
            (Err(e), Err(m)) => e@ == m,
            _ => false,
        },
{
    let mut out: Vec<char> = Vec::new();
    if sprout_exists && leaf_exists {
        push_str(&mut out, "ambiguous leaf slug: ");
        push_str(&mut out, slug);
        push_str(&mut out, " exists in both ");
        push_str(&mut out, sprout_display);
        push_str(&mut out, " and ");
        push_str(&mut out, leaf_display);
        push_str(&mut out, "; run leaf doctor and disambiguate");
        return Err(string_of(out.as_slice()));
    }
    if !sprout_exists && !leaf_exists {
        push_str(&mut out, "leaf does not exist: checked ");
        push_str(&mut out, sprout_display);
        push_str(&mut out, " and ");
        push_str(&mut out, leaf_display);
        return Err(string_of(out.as_slice()));
    }
    if destination_exists {
        push_str(&mut out, "fallen leaf already exists: ");
        push_str(&mut out, slug);
        return Err(string_of(out.as_slice()));
    }
    if sprout_exists {
        Ok(FallSource::Sprout)
    } else {
        Ok(FallSource::Leaf)
    }
}

/// The message for a status write that failed after the move, saying whether
/// the move was rolled back (`rollback_error` is `None`) or not.
pub fn write_failure_context(
    status_path: &str,
    destination: &str,
    source: &str,
    rollback_error: Option<&str>,
) -> (r: String)
    ensures
        r@ == match rollback_error {
            Some(e) => "failed to write "@ + status_path@ + "; also failed to roll back "@
                + destination@ + " to "@ + source@ + ": "@ + e@,
            None => "failed to write "@ + status_path@ + "; rolled back move to "@ + source@,
        },
{
    let mut out: Vec<char> = Vec::new();
    push_str(&mut out, "failed to write ");
    push_str(&mut out, status_path);
    match rollback_error {
        Some(e) => {
            push_str(&mut out, "; also failed to roll back ");
            push_str(&mut out, destination);
            push_str(&mut out, " to ");
            push_str(&mut out, source);
            push_str(&mut out, ": ");
            push_str(&mut out, e);
        },
        None => {
            push_str(&mut out, "; rolled back move to ");
            push_str(&mut out, source);
        },
    }
    string_of(out.as_slice())
}

/// The `unix:<seconds>` stamp written into a fallen status.
pub fn unix_timestamp_from_secs(secs: u64) -> (r: String)
    ensures
        r@ == "unix:"@ + decimal(secs as nat),
{
    let mut out: Vec<char> = Vec::new();
    push_str(&mut out, "unix:");
    let d = decimal_chars(secs);
    append(&mut out, d.as_slice());
    string_of(out.as_slice())
}

/// The `unix:<seconds>` stamp of `time`, refused before the epoch.
pub fn unix_timestamp(time: SystemTime) -> (r: Result<String, String>)
    ensures
        match crate::date::epoch_secs(time) {
            Some(secs) => r matches Ok(t) && t@ == "unix:"@ + decimal(secs as nat),
            None => r matches Err(e) && e@ == "system clock is before the unix epoch"@,
        },
{
    match secs_since_epoch(time) {
        Ok(secs) => Ok(unix_timestamp_from_secs(secs)),
        Err(_) => {
            let e = "system clock is before the unix epoch".to_owned();
            proof {
                reveal_strlit("system clock is before the unix epoch");
            }
            Err(e)
        },
    }
}

} // verus!
