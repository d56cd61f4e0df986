//! `leaf doctor`: findings about the `.leaf/` workspace and the report that
//! collects them.
use vstd::prelude::*;

pub mod lifecycle;
pub mod pressed;
pub mod srp_sidecar;

verus! {

#[derive(Debug, Clone, Copy, PartialEq, Eq, Structural)]
pub enum Severity {
    Pass,
    Warn,
    Error,
}

#[derive(Debug, Clone, PartialEq, Eq)]
pub enum Location {
    NoPath,
    Path(String),
    Paths(Vec<String>),
}

/// What a location says, as text.
pub enum LocationView {
    NoPath,
    Path(Seq<char>),
    Paths(Seq<Seq<char>>),
}

#[derive(Debug, Clone)]
pub struct DoctorFinding {
    pub severity: Severity,
    pub code: &'static str,
    pub message: String,
    pub location: Location,
    pub impact: Option<String>,
}

#[derive(Debug, Clone, Copy, PartialEq, Eq)]
pub struct DoctorSummary {
    pub ok: usize,
    pub warnings: usize,
    pub errors: usize,
}

#[derive(Debug, Clone)]
pub struct DoctorReport {
    pub leaf_root: String,
    pub findings: Vec<DoctorFinding>,
}

pub open spec fn strs(v: Seq<String>) -> Seq<Seq<char>> {
    v.map_values(|s: String| s@)
}

pub open spec fn loc_view(l: Location) -> LocationView {
    match l {
        Location::NoPath => LocationView::NoPath,
        Location::Path(p) => LocationView::Path(p@),
        Location::Paths(ps) => LocationView::Paths(strs(ps@)),
    }
}

pub open spec fn opt_text(o: Option<String>) -> Option<Seq<char>> {
    match o {
        Some(s) => Some(s@),
        None => None,
    }
}

/// A finding as plain values: severity, code, message, location, impact.
pub open spec fn finding_view(f: DoctorFinding) -> (
    Severity,
    Seq<char>,
    Seq<char>,
    LocationView,
    Option<Seq<char>>,
) {
    (f.severity, f.code@, f.message@, loc_view(f.location), opt_text(f.impact))
}

pub open spec fn findings_view(v: Seq<DoctorFinding>) -> Seq<
    (Severity, Seq<char>, Seq<char>, LocationView, Option<Seq<char>>),
> {
    v.map_values(|f: DoctorFinding| finding_view(f))
}

/// A finding with only a code, a severity, a message and a single path.
pub open spec fn at_path(sev: Severity, code: Seq<char>, message: Seq<char>, path: Seq<char>) -> (
    Severity,
    Seq<char>,
    Seq<char>,
    LocationView,
    Option<Seq<char>>,
) {
    (sev, code, message, LocationView::Path(path), None)
}

/// How many findings of `findings` have severity `s`.
pub open spec fn count_severity(findings: Seq<DoctorFinding>, s: Severity) -> nat
    decreases findings.len(),
{
    if findings.len() == 0 {
        0
    } else {
        count_severity(findings.drop_last(), s) + if findings.last().severity == s {
            1nat
        } else {
            0nat
        }
    }
}

pub open spec fn has_error_finding(findings: Seq<DoctorFinding>) -> bool {
    exists|i: int| 0 <= i < findings.len() && #[trigger] findings[i].severity == Severity::Error
}

impl DoctorFinding {
    pub fn new(severity: Severity, code: &'static str, message: &str) -> (f: DoctorFinding)
        ensures
            finding_view(f) == (severity, code@, message@, LocationView::NoPath, None::<Seq<char>>),
    {
        DoctorFinding {
            severity,
            code,
            message: message.to_string(),
            location: Location::NoPath,
            impact: None,
        }
    }

    pub fn ok(code: &'static str, message: &str) -> (f: DoctorFinding)
        ensures
            finding_view(f) == (Severity::Pass, code@, message@, LocationView::NoPath, None::<
                Seq<char>,
            >),
    {
        DoctorFinding::new(Severity::Pass, code, message)
    }

    pub fn warn(code: &'static str, message: &str) -> (f: DoctorFinding)
        ensures
            finding_view(f) == (Severity::Warn, code@, message@, LocationView::NoPath, None::<
                Seq<char>,
            >),
    {
        DoctorFinding::new(Severity::Warn, code, message)
    }

    pub fn error(code: &'static str, message: &str) -> (f: DoctorFinding)
        ensures
            finding_view(f) == (Severity::Error, code@, message@, LocationView::NoPath, None::<
                Seq<char>,
            >),
    {
        DoctorFinding::new(Severity::Error, code, message)
    }

    /// The same finding, located at one path.
    pub fn with_path(self, path: &str) -> (f: DoctorFinding)
        ensures
            finding_view(f) == (
                self.severity,
                self.code@,
                self.message@,
                LocationView::Path(path@),
                opt_text(self.impact),
            ),
    {
        let mut f = self;
        f.location = Location::Path(path.to_string());
        f
    }

    /// The same finding, located at several paths.
    pub fn with_paths(self, paths: Vec<String>) -> (f: DoctorFinding)
        ensures
            finding_view(f) == (
                self.severity,
                self.code@,
                self.message@,
                LocationView::Paths(strs(paths@)),
                opt_text(self.impact),
            ),
    {
        let mut f = self;
        f.location = Location::Paths(paths);
        f
    }

    /// The same finding, with a note on what it affects.
    pub fn with_impact(self, impact: &str) -> (f: DoctorFinding)
        ensures
            finding_view(f) == (
                self.severity,
                self.code@,
                self.message@,
                loc_view(self.location),
                Some(impact@),
            ),
    {
        let mut f = self;
        f.impact = Some(impact.to_string());
        f
    }
}

impl DoctorReport {
    pub fn new(leaf_root: &str, findings: Vec<DoctorFinding>) -> (r: DoctorReport)
        ensures
            r.leaf_root@ == leaf_root@,
            r.findings@ == findings@,
    {
        DoctorReport { leaf_root: leaf_root.to_string(), findings }
    }

    /// How many findings there are of each severity.
    pub fn summary(&self) -> (s: DoctorSummary)
        ensures
            s.ok == count_severity(self.findings@, Severity::Pass),
            s.warnings == count_severity(self.findings@, Severity::Warn),
            s.errors == count_severity(self.findings@, Severity::Error),
    {
        let mut summary = DoctorSummary { ok: 0, warnings: 0, errors: 0 };
        for i in 0..self.findings.len()
            invariant
                summary.ok == count_severity(self.findings@.take(i as int), Severity::Pass),
                summary.warnings == count_severity(self.findings@.take(i as int), Severity::Warn),
                summary.errors == count_severity(self.findings@.take(i as int), Severity::Error),
                summary.ok + summary.warnings + summary.errors == i,
        {
            assert(self.findings@.take(i + 1).drop_last() =~= self.findings@.take(i as int));
            match self.findings[i].severity {
                Severity::Pass => summary.ok = summary.ok + 1,
                Severity::Warn => summary.warnings = summary.warnings + 1,
                Severity::Error => summary.errors = summary.errors + 1,
            }
        }
        assert(self.findings@.take(self.findings@.len() as int) =~= self.findings@);
        summary
    }

    /// Whether any finding is an error.
    pub fn has_errors(&self) -> (b: bool)
        ensures
            b == has_error_finding(self.findings@),
    {
        for i in 0..self.findings.len()
            invariant
                forall|j: int| 0 <= j < i ==> self.findings@[j].severity != Severity::Error,
        {
            if self.findings[i].severity == Severity::Error {
                return true;
            }
        }
        false
    }
}

/// Every finding is counted under exactly one severity.
pub proof fn lemma_summary_counts_every_finding(findings: Seq<DoctorFinding>)
    ensures
        count_severity(findings, Severity::Pass) + count_severity(findings, Severity::Warn)
            + count_severity(findings, Severity::Error) == findings.len(),
    decreases findings.len(),
{
    if findings.len() > 0 {
        lemma_summary_counts_every_finding(findings.drop_last());
    }
}

/// A report has errors exactly when its summary counts at least one error.
pub proof fn lemma_has_errors_iff_error_count(findings: Seq<DoctorFinding>)
    ensures
        has_error_finding(findings) <==> count_severity(findings, Severity::Error) > 0,
    decreases findings.len(),
{
    if findings.len() > 0 {
        let init = findings.drop_last();
        lemma_has_errors_iff_error_count(init);
        if has_error_finding(init) {
            let i = choose|i: int| 0 <= i < init.len() && #[trigger] init[i].severity
                == Severity::Error;
            assert(findings[i].severity == Severity::Error);
        }
        if has_error_finding(findings) && findings.last().severity != Severity::Error {
            let i = choose|i: int| 0 <= i < findings.len() && #[trigger] findings[i].severity
                == Severity::Error;
            assert(init[i].severity == Severity::Error);
        }
        if findings.last().severity == Severity::Error {
            assert(findings[findings.len() - 1].severity == Severity::Error);
        }
    }
}

/// Appends one finding.
pub fn push_finding(findings: &mut Vec<DoctorFinding>, f: DoctorFinding)
    ensures
        findings_view(final(findings)@) == findings_view(old(findings)@).push(finding_view(f)),
{
    let ghost before = findings_view(findings@);
    findings.push(f);
    assert(findings_view(findings@) =~= before.push(finding_view(f)));
}

/// `a` followed by `b`.
pub fn cat2(a: &str, b: &str) -> (r: String)
    ensures
        r@ == a@ + b@,
{
    let mut v: Vec<char> = Vec::new();
    crate::text::push_str(&mut v, a);
    crate::text::push_str(&mut v, b);
    assert(v@ =~= a@ + b@);
    crate::text::string_of(v.as_slice())
}

pub fn cat3(a: &str, b: &str, c: &str) -> (r: String)
    ensures
        r@ == a@ + b@ + c@,
{
    let ab = cat2(a, b);
    cat2(ab.as_str(), c)
}

pub fn cat4(a: &str, b: &str, c: &str, d: &str) -> (r: String)
    ensures
        r@ == a@ + b@ + c@ + d@,
{
    let abc = cat3(a, b, c);
    cat2(abc.as_str(), d)
}

pub fn cat5(a: &str, b: &str, c: &str, d: &str, e: &str) -> (r: String)
    ensures
        r@ == a@ + b@ + c@ + d@ + e@,
{
    let abcd = cat4(a, b, c, d);
    cat2(abcd.as_str(), e)
}

/// Everything `leaf doctor` looks at in a repository, as plain values.
#[derive(Debug)]
pub struct DoctorObservation {
    /// What `.leaf` is.
    pub leaf_root: lifecycle::DirectoryStatus,
    /// What inspecting each of the three stage directories gave.
    pub stage_dirs: Vec<lifecycle::StageDirState>,
    /// Whether each of `lifecycle::legacy_stage_dirs()` is a directory.
    pub legacy_dirs: Vec<bool>,
    /// The entries of each of the three stage directories.
    pub listings: Vec<lifecycle::StageListing>,
    /// Directories the sidecar scan could not list, with the reason.
    pub scan_failures: Vec<(String, String)>,
    /// What was read for every sidecar found.
    pub sidecars: Vec<srp_sidecar::SidecarObservation>,
    /// The repo-relative git exclude file and what reading it gave.
    pub exclude: Option<(String, srp_sidecar::ExcludeRead)>,
}

pub open spec fn observation_well_formed(o: DoctorObservation) -> bool {
    &&& o.stage_dirs@.len() == 3
    &&& o.legacy_dirs@.len() == 6
    &&& o.listings@.len() == 3
    &&& lifecycle::entries_well_formed(o.listings@)
}

/// The findings `leaf doctor` reports for what it observed.
pub open spec fn doctor_findings(o: DoctorObservation) -> Seq<
    (Severity, Seq<char>, Seq<char>, LocationView, Option<Seq<char>>),
> {
    match o.leaf_root {
        lifecycle::DirectoryStatus::Directory => seq![
            at_path(Severity::Pass, "leaf_root_present"@, ".leaf initialized"@, ".leaf"@),
        ] + lifecycle::stage_dirs_report(o.stage_dirs@, o.legacy_dirs@)
            + lifecycle::entries_report(o.listings@) + srp_sidecar::srp_report(
            o.scan_failures@,
            o.sidecars@,
            o.exclude,
        ),
        lifecycle::DirectoryStatus::NotDirectory => seq![
            at_path(Severity::Error, "leaf_root_not_directory"@, ".leaf is not a directory"@, ".leaf"@),
        ],
        lifecycle::DirectoryStatus::Missing => seq![
            at_path(Severity::Error, "leaf_root_missing"@, ".leaf is not initialized"@, ".leaf"@),
        ],
    }
}

/// Checks a workspace from what was observed of it.
pub fn check_with_git_exclude(obs: &DoctorObservation) -> (r: DoctorReport)
    requires
        observation_well_formed(*obs),
    ensures
        r.leaf_root@ == ".leaf"@,
        findings_view(r.findings@) == doctor_findings(*obs),
{
    let mut findings: Vec<DoctorFinding> = Vec::new();
    match obs.leaf_root {
        lifecycle::DirectoryStatus::Directory => {
            push_finding(&mut findings, DoctorFinding::ok("leaf_root_present", ".leaf initialized").with_path(".leaf"));
        },
        lifecycle::DirectoryStatus::NotDirectory => {
            push_finding(&mut findings, DoctorFinding::error("leaf_root_not_directory", ".leaf is not a directory").with_path(".leaf"));
            assert(findings_view(findings@) =~= doctor_findings(*obs));
            return DoctorReport::new(".leaf", findings);
        },
        lifecycle::DirectoryStatus::Missing => {
            push_finding(&mut findings, DoctorFinding::error("leaf_root_missing", ".leaf is not initialized").with_path(".leaf"));
            assert(findings_view(findings@) =~= doctor_findings(*obs));
            return DoctorReport::new(".leaf", findings);
        },
    }
    let ghost s0 = findings_view(findings@);
    lifecycle::check_stage_dirs(obs.stage_dirs.as_slice(), obs.legacy_dirs.as_slice(), &mut findings);
    let ghost s1 = findings_view(findings@);
    lifecycle::check_entries(obs.listings.as_slice(), &mut findings);
    let ghost s2 = findings_view(findings@);
    srp_sidecar::check(obs.scan_failures.as_slice(), obs.sidecars.as_slice(), &obs.exclude, &mut findings);
    assert(findings_view(findings@) =~= doctor_findings(*obs));
    DoctorReport::new(".leaf", findings)
}

} // verus!
