//! `leaf doctor` output: the text report and the flat JSON shape.
use crate::doctor::{
    count_severity, loc_view, strs, DoctorFinding, DoctorReport, DoctorSummary, Location,
    LocationView, Severity,
};
use crate::text::{append, chars_of, decimal, decimal_chars, push_str, string_of};
use vstd::prelude::*;

verus! {

pub open spec fn text_severity_of(s: Severity) -> Seq<char> {
    match s {
        Severity::Pass => "OK"@,
        Severity::Warn => "WARN"@,
        Severity::Error => "ERROR"@,
    }
}

pub open spec fn json_severity_of(s: Severity) -> Seq<char> {
    match s {
        Severity::Pass => "ok"@,
        Severity::Warn => "warn"@,
        Severity::Error => "error"@,
    }
}

pub fn text_severity(severity: Severity) -> (r: &'static str)
    ensures
        r@ == text_severity_of(severity),
{
    match severity {
        Severity::Pass => "OK",
        Severity::Warn => "WARN",
        Severity::Error => "ERROR",
    }
}

pub fn json_severity(severity: Severity) -> (r: &'static str)
    ensures
        r@ == json_severity_of(severity),
{
    match severity {
        Severity::Pass => "ok",
        Severity::Warn => "warn",
        Severity::Error => "error",
    }
}

/// A path for display: backslashes become slashes.
pub open spec fn display_path_text(p: Seq<char>) -> Seq<char> {
    p.map_values(|c: char| if c == '\\' { '/' } else { c })
}

pub fn display_path(path: &str) -> (r: String)
    ensures
        r@ == display_path_text(path@),
{
    let v = chars_of(path);
    let mut out: Vec<char> = Vec::new();
    for i in 0..v.len()
        invariant
            v@ == path@,
            out@ == display_path_text(path@.take(i as int)),
    {
        let c = v[i];
        out.push(if c == '\\' { '/' } else { c });
        assert(out@ =~= display_path_text(path@.take(i + 1)));
    }
    assert(path@.take(path@.len() as int) =~= path@);
    string_of(out.as_slice())
}

pub open spec fn result_text(errors: nat, warnings: nat) -> Seq<char> {
    if errors > 0 {
        "not ready: fix errors before trusting leaf list"@
    } else if warnings > 0 {
        "usable with warnings: leaf list may be degraded"@
    } else {
        "ready: leaf list should display cleanly"@
    }
}

/// The one-line verdict of a report.
pub fn result_line(report: &DoctorReport) -> (r: &'static str)
    ensures
        r@ == result_text(
            count_severity(report.findings@, Severity::Error),
            count_severity(report.findings@, Severity::Warn),
        ),
{
    let summary = report.summary();
    if summary.errors > 0 {
        "not ready: fix errors before trusting leaf list"
    } else if summary.warnings > 0 {
        "usable with warnings: leaf list may be degraded"
    } else {
        "ready: leaf list should display cleanly"
    }
}

pub open spec fn rest_paths_text(ps: Seq<Seq<char>>) -> Seq<char>
    decreases ps.len(),
{
    if ps.len() == 0 {
        Seq::empty()
    } else {
        rest_paths_text(ps.drop_last()) + "            "@ + display_path_text(ps.last()) + "\n"@
    }
}

pub open spec fn location_text(l: LocationView) -> Seq<char> {
    match l {
        LocationView::NoPath => Seq::empty(),
        LocationView::Path(p) => "    path    "@ + display_path_text(p) + "\n"@,
        LocationView::Paths(ps) => if ps.len() == 0 {
            Seq::empty()
        } else {
            "    paths   "@ + display_path_text(ps[0]) + "\n"@ + rest_paths_text(ps.skip(1))
        },
    }
}

/// The lines that place a finding.
pub fn write_location(location: &Location) -> (r: String)
    ensures
        r@ == location_text(loc_view(*location)),
{
    let mut v: Vec<char> = Vec::new();
    match location {
        Location::NoPath => {},
        Location::Path(p) => {
            push_str(&mut v, "    path    ");
            let d = display_path(p.as_str());
            push_str(&mut v, d.as_str());
            push_str(&mut v, "\n");
        },
        Location::Paths(ps) => {
            if ps.len() > 0 {
                push_str(&mut v, "    paths   ");
                let d = display_path(ps[0].as_str());
                push_str(&mut v, d.as_str());
                push_str(&mut v, "\n");
                let ghost head = v@;
                let ghost all = strs(ps@);
                assert(all.skip(1).take(0) =~= Seq::<Seq<char>>::empty());
                for i in 1..ps.len()
                    invariant
                        all == strs(ps@),
                        ps@.len() >= 1,
                        v@ == head + rest_paths_text(all.skip(1).take(i - 1)),
                {
                    assert(all.skip(1).take(i as int).drop_last() =~= all.skip(1).take(i - 1));
                    assert(all.skip(1).take(i as int).last() == ps@[i as int]@);
                    push_str(&mut v, "            ");
                    let d = display_path(ps[i].as_str());
                    push_str(&mut v, d.as_str());
                    push_str(&mut v, "\n");
                    assert(v@ =~= head + rest_paths_text(all.skip(1).take(i as int)));
                }
                assert(all.skip(1).take(ps@.len() - 1) =~= all.skip(1));
            }
        },
    }
    assert(v@ =~= location_text(loc_view(*location)));
    string_of(v.as_slice())
}

pub open spec fn finding_text(f: DoctorFinding) -> Seq<char> {
    "\n"@ + "  "@ + text_severity_of(f.severity) + " "@ + f.code@ + "\n"@ + location_text(
        loc_view(f.location),
    ) + "    reason  "@ + f.message@ + "\n"@ + match f.impact {
        Some(i) => "    impact  "@ + i@ + "\n"@,
        None => Seq::empty(),
    }
}

/// The texts of the findings among `fs` with severity `s`, in order.
pub open spec fn group_body(fs: Seq<DoctorFinding>, s: Severity) -> Seq<char>
    decreases fs.len(),
{
    if fs.len() == 0 {
        Seq::empty()
    } else {
        group_body(fs.drop_last(), s) + if fs.last().severity == s {
            finding_text(fs.last())
        } else {
            Seq::empty()
        }
    }
}

pub open spec fn group_text(fs: Seq<DoctorFinding>, s: Severity, heading: Seq<char>) -> Seq<char> {
    if count_severity(fs, s) == 0 {
        Seq::empty()
    } else {
        "\n"@ + heading + "\n"@ + group_body(fs, s)
    }
}

fn finding_chars(f: &DoctorFinding) -> (r: Vec<char>)
    ensures
        r@ == finding_text(*f),
{
    let mut v: Vec<char> = Vec::new();
    push_str(&mut v, "\n");
    push_str(&mut v, "  ");
    push_str(&mut v, text_severity(f.severity));
    push_str(&mut v, " ");
    push_str(&mut v, f.code);
    push_str(&mut v, "\n");
    let loc = write_location(&f.location);
    push_str(&mut v, loc.as_str());
    push_str(&mut v, "    reason  ");
    push_str(&mut v, f.message.as_str());
    push_str(&mut v, "\n");
    match &f.impact {
        Some(i) => {
            push_str(&mut v, "    impact  ");
            push_str(&mut v, i.as_str());
            push_str(&mut v, "\n");
        },
        None => {},
    }
    assert(v@ =~= finding_text(*f));
    v
}

/// The section of one severity: a heading and every finding of that
/// severity, or nothing when there is none.
pub fn write_group(report: &DoctorReport, severity: Severity, heading: &str) -> (r: String)
    ensures
        r@ == group_text(report.findings@, severity, heading@),
{
    let fs = &report.findings;
    let mut body: Vec<char> = Vec::new();
    let mut count: usize = 0;
    for i in 0..fs.len()
        invariant
            body@ == group_body(fs@.take(i as int), severity),
            count == count_severity(fs@.take(i as int), severity),
            count <= i,
    {
        assert(fs@.take(i + 1).drop_last() =~= fs@.take(i as int));
        if fs[i].severity == severity {
            let t = finding_chars(&fs[i]);
            append(&mut body, t.as_slice());
            count = count + 1;
        }
        assert(body@ =~= group_body(fs@.take(i + 1), severity));
    }
    assert(fs@.take(fs@.len() as int) =~= fs@);
    if count == 0 {
        return String::new();
    }
    let mut v: Vec<char> = Vec::new();
    push_str(&mut v, "\n");
    push_str(&mut v, heading);
    push_str(&mut v, "\n");
    append(&mut v, body.as_slice());
    assert(v@ =~= group_text(report.findings@, severity, heading@));
    string_of(v.as_slice())
}

pub open spec fn report_text(r: DoctorReport) -> Seq<char> {
    let e = count_severity(r.findings@, Severity::Error);
    let w = count_severity(r.findings@, Severity::Warn);
    let o = count_severity(r.findings@, Severity::Pass);
    "leaf doctor\n\nsummary  errors "@ + decimal(e) + "  warnings "@ + decimal(w) + "  ok "@
        + decimal(o) + "\nresult   "@ + result_text(e, w) + "\n"@ + group_text(
        r.findings@,
        Severity::Error,
        "Errors"@,
    ) + group_text(r.findings@, Severity::Warn, "Warnings"@) + group_text(
        r.findings@,
        Severity::Pass,
        "OK checks"@,
    )
}

/// The text report: a summary, a verdict, then errors, warnings and passed
/// checks.
pub fn write_text(report: &DoctorReport) -> (r: String)
    ensures
        r@ == report_text(*report),
{
    let summary = report.summary();
    proof {
        crate::doctor::lemma_summary_counts_every_finding(report.findings@);
    }
    let mut v: Vec<char> = Vec::new();
    push_str(&mut v, "leaf doctor\n\nsummary  errors ");
    let e = decimal_chars(summary.errors as u64);
    append(&mut v, e.as_slice());
    push_str(&mut v, "  warnings ");
    let w = decimal_chars(summary.warnings as u64);
    append(&mut v, w.as_slice());
    push_str(&mut v, "  ok ");
    let o = decimal_chars(summary.ok as u64);
    append(&mut v, o.as_slice());
    push_str(&mut v, "\nresult   ");
    push_str(&mut v, result_line(report));
    push_str(&mut v, "\n");
    let g1 = write_group(report, Severity::Error, "Errors");
    push_str(&mut v, g1.as_str());
    let g2 = write_group(report, Severity::Warn, "Warnings");
    push_str(&mut v, g2.as_str());
    let g3 = write_group(report, Severity::Pass, "OK checks");
    push_str(&mut v, g3.as_str());
    assert(v@ =~= report_text(*report));
    string_of(v.as_slice())
}

// ---------------------------------------------------------------------------
// JSON shape
// ---------------------------------------------------------------------------
#[derive(Debug, Clone, PartialEq, Eq)]
pub struct JsonSummary {
    pub ok: usize,
    pub warnings: usize,
    pub errors: usize,
}

/// One finding in the JSON report: `path` and `paths` are never both set.
#[derive(Debug, Clone, PartialEq, Eq)]
pub struct JsonFinding {
    pub severity: &'static str,
    pub code: &'static str,
    pub message: String,
    pub path: Option<String>,
    pub paths: Option<Vec<String>>,
}

#[derive(Debug, Clone, PartialEq, Eq)]
pub struct JsonReport {
    pub leaf_root: String,
    pub summary: JsonSummary,
    pub findings: Vec<JsonFinding>,
}

pub open spec fn json_finding_matches(j: JsonFinding, f: DoctorFinding) -> bool {
    &&& j.severity@ == json_severity_of(f.severity)
    &&& j.code@ == f.code@
    &&& j.message@ == f.message@
    &&& match loc_view(f.location) {
        LocationView::NoPath => j.path is None && j.paths is None,
        LocationView::Path(p) => (j.path matches Some(x) && x@ == display_path_text(p))
            && j.paths is None,
        LocationView::Paths(ps) => j.path is None && (j.paths matches Some(xs) && strs(xs@)
            == ps.map_values(|p: Seq<char>| display_path_text(p))),
    }
}

impl JsonFinding {
    pub fn from_finding(finding: &DoctorFinding) -> (r: JsonFinding)
        ensures
            json_finding_matches(r, *finding),
    {
        let (path, paths) = match &finding.location {
            Location::NoPath => (None, None),
            Location::Path(p) => (Some(display_path(p.as_str())), None),
            Location::Paths(ps) => {
                let mut out: Vec<String> = Vec::new();
                for i in 0..ps.len()
                    invariant
                        strs(out@) == strs(ps@.take(i as int)).map_values(
                            |p: Seq<char>| display_path_text(p),
                        ),
                {
                    let ghost before = strs(out@);
                    out.push(display_path(ps[i].as_str()));
                    assert(strs(out@) =~= before.push(display_path_text(ps@[i as int]@)));
                    assert(strs(ps@.take(i + 1)) =~= strs(ps@.take(i as int)).push(ps@[i as int]@));
                    assert(strs(ps@.take(i + 1)).map_values(|p: Seq<char>| display_path_text(p))
                        =~= strs(out@));
                }
                assert(ps@.take(ps@.len() as int) =~= ps@);
                (None, Some(out))
            },
        };
        JsonFinding {
            severity: json_severity(finding.severity),
            code: finding.code,
            message: finding.message.clone(),
            path,
            paths,
        }
    }
}

impl JsonReport {
    pub fn from_report(report: &DoctorReport) -> (r: JsonReport)
        ensures
            r.leaf_root@ == display_path_text(report.leaf_root@),
            r.summary.ok == count_severity(report.findings@, Severity::Pass),
            r.summary.warnings == count_severity(report.findings@, Severity::Warn),
            r.summary.errors == count_severity(report.findings@, Severity::Error),
            r.findings@.len() == report.findings@.len(),
            forall|i: int|
                0 <= i < r.findings@.len() ==> json_finding_matches(
                    #[trigger] r.findings@[i],
                    report.findings@[i],
                ),
    {
        let summary = report.summary();
        let mut findings: Vec<JsonFinding> = Vec::new();
        for i in 0..report.findings.len()
            invariant
                findings@.len() == i,
                forall|j: int|
                    0 <= j < i ==> json_finding_matches(
                        #[trigger] findings@[j],
                        report.findings@[j],
                    ),
        {
            findings.push(JsonFinding::from_finding(&report.findings[i]));
        }
        JsonReport {
            leaf_root: display_path(report.leaf_root.as_str()),
            summary: JsonSummary { ok: summary.ok, warnings: summary.warnings, errors: summary.errors },
            findings,
        }
    }
}

} // verus!
