use leaf::doctor::lifecycle::{legacy_stage_dirs, DirectoryStatus, StageDirState, StageEntry, StageListing};
use leaf::doctor::pressed::FileProbe;
use leaf::doctor::srp_sidecar::{ExcludeRead, SidecarObservation, EXCLUDE_LINE};
use leaf::doctor::{
    check_with_git_exclude, DoctorFinding, DoctorObservation, DoctorReport, Location, Severity,
};

const NOT_FOUND: &str = "No such file or directory (os error 2)";

fn entry(name: &str, status: Option<&str>) -> StageEntry {
    StageEntry {
        name: name.to_string(),
        is_dir: true,
        status: match status {
            Some(s) => Ok(s.to_string()),
            None => Err(NOT_FOUND.to_string()),
        },
        unpolished: vec![false; 4],
        pressed: FileProbe::NotFound,
        linked: FileProbe::NotFound,
    }
}

fn file_entry(name: &str) -> StageEntry {
    StageEntry {
        name: name.to_string(),
        is_dir: false,
        status: Err(NOT_FOUND.to_string()),
        unpolished: vec![false; 4],
        pressed: FileProbe::NotFound,
        linked: FileProbe::NotFound,
    }
}

/// `.leaf` with the three lifecycle stage directories holding `entries`.
fn lifecycle(sprouts: Vec<StageEntry>, leaves: Vec<StageEntry>, fallen: Vec<StageEntry>) -> DoctorObservation {
    DoctorObservation {
        leaf_root: DirectoryStatus::Directory,
        stage_dirs: vec![StageDirState::Readable, StageDirState::Readable, StageDirState::Readable],
        legacy_dirs: vec![false; 6],
        listings: vec![
            StageListing::Entries(sprouts),
            StageListing::Entries(leaves),
            StageListing::Entries(fallen),
        ],
        scan_failures: Vec::new(),
        sidecars: Vec::new(),
        exclude: None,
    }
}

fn legacy_index(name: &str) -> usize {
    legacy_stage_dirs().iter().position(|(_, n)| *n == name).expect("legacy name")
}

fn assert_finding<'a>(
    report: &'a DoctorReport,
    severity: Severity,
    code: &str,
    location: Option<Location>,
) -> &'a DoctorFinding {
    let finding = report
        .findings
        .iter()
        .find(|finding| finding.severity == severity && finding.code == code)
        .unwrap_or_else(|| panic!("missing finding {severity:?} {code}"));
    if let Some(location) = location {
        assert_eq!(finding.location, location);
    }
    finding
}

fn path(p: &str) -> Option<Location> {
    Some(Location::Path(p.to_string()))
}

const LEAF_STATUS: &str = "- stage: leaf\n- current phase: Feedback\n- current gate: ⑨ Review\n- first missing gate: ⑩ Retrospect\n- next action: review\n";

const REFERENCE_DIGEST: &str = "---\ntype: Leaf Pressed Digest\ntitle: Reference Leaf\ndescription: One-sentence summary.\nresource: .leaf/02-leaves/reference\ntags: [leaf, reference]\ntimestamp: 2026-06-22T10:00:00+09:00\ncitation_handle: leaf:reference\nstage: leaf\n---\n\n# Reference Leaf\n";

#[test]
fn report_counts_findings_by_severity_and_detects_errors() {
    let report = DoctorReport::new(
        ".leaf",
        vec![
            DoctorFinding::ok("leaf_root_present", ".leaf initialized").with_path(".leaf"),
            DoctorFinding::warn("stage_dir_missing", "missing stage dir").with_path(".leaf/03-fallen"),
            DoctorFinding::error("stage_dir_not_directory", "stage dir is not a directory")
                .with_path(".leaf/02-leaves"),
        ],
    );

    let summary = report.summary();

    assert_eq!(summary.ok, 1);
    assert_eq!(summary.warnings, 1);
    assert_eq!(summary.errors, 1);
    assert!(report.has_errors());
}

#[test]
fn check_reports_missing_leaf_root_as_error() {
    let mut obs = lifecycle(Vec::new(), Vec::new(), Vec::new());
    obs.leaf_root = DirectoryStatus::Missing;

    let report = check_with_git_exclude(&obs);

    assert!(report.has_errors());
    assert_finding(&report, Severity::Error, "leaf_root_missing", path(".leaf"));
    assert_eq!(report.findings.len(), 1);
}

#[test]
fn check_reports_leaf_root_file_as_error() {
    let mut obs = lifecycle(Vec::new(), Vec::new(), Vec::new());
    obs.leaf_root = DirectoryStatus::NotDirectory;

    let report = check_with_git_exclude(&obs);

    assert!(report.has_errors());
    assert_finding(&report, Severity::Error, "leaf_root_not_directory", path(".leaf"));
}

#[test]
fn check_accepts_leaf_root_symlink_to_directory() {
    // A symlink to a directory is observed as a directory.
    let report = check_with_git_exclude(&lifecycle(Vec::new(), Vec::new(), Vec::new()));

    assert!(!report.has_errors());
    assert_finding(&report, Severity::Pass, "leaf_root_present", path(".leaf"));
}

#[test]
fn check_warns_for_missing_stage_dir() {
    let mut obs = lifecycle(Vec::new(), Vec::new(), Vec::new());
    obs.stage_dirs = vec![StageDirState::Readable, StageDirState::Missing, StageDirState::Missing];
    obs.listings = vec![
        StageListing::Entries(Vec::new()),
        StageListing::Unreadable,
        StageListing::Unreadable,
    ];

    let report = check_with_git_exclude(&obs);

    assert!(!report.has_errors());
    assert_finding(&report, Severity::Warn, "stage_dir_missing", path(".leaf/02-leaves"));
}

#[test]
fn check_warns_for_old_numbered_dir_without_migrating() {
    let mut obs = lifecycle(Vec::new(), Vec::new(), Vec::new());
    obs.stage_dirs = vec![StageDirState::Missing, StageDirState::Missing, StageDirState::Missing];
    obs.listings = vec![StageListing::Unreadable, StageListing::Unreadable, StageListing::Unreadable];
    obs.legacy_dirs[legacy_index("01-seeds")] = true;

    let report = check_with_git_exclude(&obs);

    assert!(!report.has_errors());
    assert_finding(&report, Severity::Warn, "old_stage_dir_present", path(".leaf/01-seeds"));
}

#[test]
fn check_warns_when_old_numbered_and_stage_dirs_coexist() {
    let mut obs = lifecycle(Vec::new(), Vec::new(), Vec::new());
    obs.stage_dirs = vec![StageDirState::Readable, StageDirState::Missing, StageDirState::Missing];
    obs.listings = vec![
        StageListing::Entries(Vec::new()),
        StageListing::Unreadable,
        StageListing::Unreadable,
    ];
    obs.legacy_dirs[legacy_index("01-seeds")] = true;

    let report = check_with_git_exclude(&obs);

    assert!(!report.has_errors());
    assert_finding(&report, Severity::Warn, "old_stage_dir_present", path(".leaf/01-seeds"));
}

#[test]
fn check_warns_for_partial_sprout_status() {
    let obs = lifecycle(
        vec![entry("draft", Some("# Status\n\n- stage: sprout\n- current phase: Learn\n"))],
        Vec::new(),
        Vec::new(),
    );

    let report = check_with_git_exclude(&obs);

    assert!(!report.has_errors());
    let finding = assert_finding(
        &report,
        Severity::Warn,
        "status_missing_fields",
        path(".leaf/01-sprouts/draft/00-status.md"),
    );
    assert!(finding.message.contains("current_gate"));
    assert!(finding.message.contains("first_missing_gate"));
    assert!(finding.message.contains("next_action"));
}

#[test]
fn check_errors_for_missing_active_status() {
    let obs = lifecycle(Vec::new(), vec![entry("no-status", None)], Vec::new());

    let report = check_with_git_exclude(&obs);

    assert!(report.has_errors());
    assert_finding(
        &report,
        Severity::Error,
        "status_unreadable",
        path(".leaf/02-leaves/no-status/00-status.md"),
    );
}

#[test]
fn check_errors_for_fallen_status_missing_reason() {
    let obs = lifecycle(Vec::new(), Vec::new(), vec![entry("closed", Some("# Leaf Status\n\n- stage: fallen\n"))]);

    let report = check_with_git_exclude(&obs);

    assert!(report.has_errors());
    let finding = assert_finding(
        &report,
        Severity::Error,
        "status_missing_fields",
        path(".leaf/03-fallen/closed/00-status.md"),
    );
    assert!(finding.message.contains("fallen_reason"));
}

#[test]
fn check_errors_for_stage_dir_mismatch() {
    let obs = lifecycle(
        Vec::new(),
        vec![entry(
            "wrong-stage",
            Some("- stage: sprout\n- current phase: Example\n- current gate: ③ Criteria\n- first missing gate: ④ Wireframe\n- next action: continue\n"),
        )],
        Vec::new(),
    );

    let report = check_with_git_exclude(&obs);

    assert!(report.has_errors());
    let finding = assert_finding(
        &report,
        Severity::Error,
        "stage_dir_mismatch",
        path(".leaf/02-leaves/wrong-stage/00-status.md"),
    );
    assert!(finding.message.contains("stage sprout conflicts with directory 02-leaves"));
    assert!(finding.message.contains("expected leaf"));
}

#[test]
fn check_warns_for_leaf_before_feedback() {
    let obs = lifecycle(
        Vec::new(),
        vec![entry(
            "early",
            Some("- stage: leaf\n- current phase: Architect\n- current gate: ⑧ Execution\n- first missing gate: ⑨ Review\n- next action: finish execution\n"),
        )],
        Vec::new(),
    );

    let report = check_with_git_exclude(&obs);

    assert!(!report.has_errors());
    assert_finding(
        &report,
        Severity::Warn,
        "leaf_before_feedback",
        path(".leaf/02-leaves/early/00-status.md"),
    );
}

#[test]
fn check_warns_for_ignored_stage_entry_and_pressed_leftover() {
    let mut obs = lifecycle(vec![file_entry("loose.md")], Vec::new(), Vec::new());
    obs.legacy_dirs[legacy_index("04-pressed")] = true;

    let report = check_with_git_exclude(&obs);

    assert!(!report.has_errors());
    assert_finding(&report, Severity::Warn, "ignored_stage_entry", path(".leaf/01-sprouts/loose.md"));
    assert_finding(&report, Severity::Warn, "pressed_stage_dir_present", path(".leaf/04-pressed"));
}

#[test]
fn check_warns_for_top_level_pressed_digest_leftover() {
    let mut obs = lifecycle(Vec::new(), Vec::new(), Vec::new());
    obs.legacy_dirs[legacy_index("04-pressed")] = true;

    let report = check_with_git_exclude(&obs);

    assert!(!report.has_errors());
    assert_finding(&report, Severity::Warn, "pressed_stage_dir_present", path(".leaf/04-pressed"));
}

fn reference_with(pressed: FileProbe, linked: FileProbe) -> DoctorObservation {
    let mut item = entry("reference", Some(LEAF_STATUS));
    item.pressed = pressed;
    item.linked = linked;
    lifecycle(Vec::new(), vec![item], Vec::new())
}

#[test]
fn check_accepts_pressed_digest_with_okf_frontmatter() {
    let report = check_with_git_exclude(&reference_with(
        FileProbe::Content(REFERENCE_DIGEST.to_string()),
        FileProbe::NotFound,
    ));

    assert!(!report.has_errors());
    assert!(
        report.findings.iter().all(|finding| !finding.code.starts_with("pressed_frontmatter")),
        "valid pressed digest should not emit frontmatter findings: {:?}",
        report.findings
    );
}

#[test]
fn check_warns_for_pressed_digest_missing_frontmatter() {
    let report = check_with_git_exclude(&reference_with(
        FileProbe::Content("# Reference Leaf\n".to_string()),
        FileProbe::NotFound,
    ));

    assert!(!report.has_errors());
    let finding = assert_finding(
        &report,
        Severity::Warn,
        "pressed_frontmatter_missing",
        path(".leaf/02-leaves/reference/pressed.md"),
    );
    let impact = finding.impact.as_deref().expect("frontmatter template");
    assert!(impact.contains("expected frontmatter:"));
    assert!(impact.contains("type: Leaf Pressed Digest"));
    assert!(impact.contains("citation_handle: leaf:{slug}"));
}

#[test]
fn check_warns_for_pressed_digest_missing_fields_and_invalid_type() {
    let report = check_with_git_exclude(&reference_with(
        FileProbe::Content("---\ntype: Note\ntitle: Reference Leaf\n---\n\n# Reference Leaf\n".to_string()),
        FileProbe::NotFound,
    ));

    assert!(!report.has_errors());
    let missing = assert_finding(
        &report,
        Severity::Warn,
        "pressed_frontmatter_missing_fields",
        path(".leaf/02-leaves/reference/pressed.md"),
    );
    assert!(missing.message.contains("description"));
    assert!(missing.message.contains("citation_handle"));
    assert!(missing
        .impact
        .as_deref()
        .expect("frontmatter template")
        .contains("timestamp: <ISO 8601 local timestamp>"));
    let invalid_type = assert_finding(
        &report,
        Severity::Warn,
        "pressed_frontmatter_invalid_type",
        path(".leaf/02-leaves/reference/pressed.md"),
    );
    assert!(invalid_type.message.contains("Leaf Pressed Digest"));
    assert!(invalid_type.message.contains("Note"));
}

#[test]
fn check_warns_when_pressed_digest_is_not_in_leaves() {
    let mut item = entry(
        "draft",
        Some("- stage: sprout\n- current phase: Learn\n- current gate: ② Unknowns & Context\n- first missing gate: ③ Criteria\n- next action: continue\n"),
    );
    item.pressed = FileProbe::Content(
        "---\ntype: Leaf Pressed Digest\ntitle: Draft\ndescription: Draft summary.\nresource: .leaf/01-sprouts/draft\ntags: [leaf, draft]\ntimestamp: 2026-06-22T10:00:00+09:00\ncitation_handle: leaf:draft\nstage: leaf\n---\n\n# Draft\n".to_string(),
    );
    let report = check_with_git_exclude(&lifecycle(vec![item], Vec::new(), Vec::new()));

    assert!(!report.has_errors());
    assert_finding(
        &report,
        Severity::Warn,
        "pressed_digest_wrong_stage",
        path(".leaf/01-sprouts/draft/pressed.md"),
    );
}

#[test]
fn check_warns_for_pressed_digest_frontmatter_stage_not_leaf() {
    let report = check_with_git_exclude(&reference_with(
        FileProbe::Content(REFERENCE_DIGEST.replace("stage: leaf", "stage: sprout")),
        FileProbe::NotFound,
    ));

    assert!(!report.has_errors());
    let finding = assert_finding(
        &report,
        Severity::Warn,
        "pressed_frontmatter_invalid_stage",
        path(".leaf/02-leaves/reference/pressed.md"),
    );
    assert!(finding.message.contains("leaf"));
    assert!(finding.message.contains("sprout"));
}

#[test]
fn check_accepts_linked_metadata_edges_next_to_pressed_digest() {
    let report = check_with_git_exclude(&reference_with(
        FileProbe::Content(REFERENCE_DIGEST.to_string()),
        FileProbe::Content("# Links\n\n- `cites` -> `okf:spec` - OKF source\n".to_string()),
    ));

    assert!(!report.has_errors());
    assert!(
        report.findings.iter().all(|finding| !finding.code.starts_with("linked_metadata")),
        "valid linked metadata should not emit findings: {:?}",
        report.findings
    );
}

#[test]
fn check_warns_for_invalid_linked_metadata_edges() {
    let digest = REFERENCE_DIGEST.replace("---\n\n# Reference Leaf\n", "---\n");
    let report = check_with_git_exclude(&reference_with(
        FileProbe::Content(digest),
        FileProbe::Content("# Links\n\n- `causes` -> `leaf:other`\n".to_string()),
    ));

    assert!(!report.has_errors());
    let finding = assert_finding(
        &report,
        Severity::Warn,
        "linked_metadata_invalid_edge",
        path(".leaf/02-leaves/reference/linked.md:3"),
    );
    assert!(finding.message.contains("unknown link predicate"));
    assert!(finding.impact.as_deref().expect("linked template").contains("allowed predicates"));
}

#[test]
fn check_warns_for_linked_metadata_without_pressed_digest() {
    let report = check_with_git_exclude(&reference_with(
        FileProbe::NotFound,
        FileProbe::Content("# Links\n\n- `related_to` -> `leaf:other`\n".to_string()),
    ));

    assert!(!report.has_errors());
    assert_finding(
        &report,
        Severity::Warn,
        "linked_metadata_without_pressed",
        path(".leaf/02-leaves/reference/linked.md"),
    );
}

fn with_sidecar(body: &str, exclude: &str, newer: bool) -> DoctorObservation {
    let mut obs = lifecycle(Vec::new(), Vec::new(), Vec::new());
    obs.sidecars = vec![SidecarObservation {
        rel: "src/phase.rs.leaf.local.toml".to_string(),
        content: Ok(body.to_string()),
        artifact_exists: true,
        artifact_newer: newer,
    }];
    obs.exclude = Some((".git/info/exclude".to_string(), ExcludeRead::Content(exclude.to_string())));
    obs
}

#[test]
fn check_accepts_valid_srp_sidecar_contract() {
    let body = r#"
schema = "leaf.srp-sidecar.v1"
artifact = "src/phase.rs"
status = "advisory"
last_verified = "2026-06-26"
responsibility = "Owns LEAF phase ordering, labels, transitions, and polish-boundary checks."
does_not_own = ["File scaffolding; see src/scaffold.rs."]
contracts = ["Phase order is Learn -> Example -> Architect -> Feedback."]
split_signals = ["If this starts creating files, move that to src/scaffold.rs."]
"#;
    let report = check_with_git_exclude(&with_sidecar(body, EXCLUDE_LINE, false));

    assert!(!report.has_errors());
    assert!(
        report.findings.iter().all(|finding| !finding.code.starts_with("srp_sidecar")),
        "valid sidecar should not emit SRP findings: {:?}",
        report.findings
    );
}

#[test]
fn check_warns_for_srp_sidecar_missing_required_fields() {
    let body = r#"
schema = "leaf.srp-sidecar.v1"
artifact = "src/phase.rs"
status = "advisory"
"#;
    let report = check_with_git_exclude(&with_sidecar(body, EXCLUDE_LINE, false));

    assert!(!report.has_errors());
    let finding = assert_finding(
        &report,
        Severity::Warn,
        "srp_sidecar_missing_field",
        path("src/phase.rs.leaf.local.toml"),
    );
    assert!(finding.message.contains("last_verified") || finding.message.contains("responsibility"));
}

#[test]
fn check_warns_when_srp_sidecar_exclude_pattern_is_missing() {
    let body = r#"
schema = "leaf.srp-sidecar.v1"
artifact = "src/phase.rs"
status = "advisory"
last_verified = "2026-06-26"
responsibility = "Owns LEAF phase ordering."
"#;
    let report = check_with_git_exclude(&with_sidecar(body, "/.leaf", false));

    assert!(!report.has_errors());
    assert_finding(&report, Severity::Warn, "srp_sidecar_exclude_missing", path(".git/info/exclude"));
}

#[test]
fn check_warns_when_srp_sidecar_is_stale() {
    let body = r#"
schema = "leaf.srp-sidecar.v1"
artifact = "src/phase.rs"
status = "advisory"
last_verified = "2026-06-26"
responsibility = "Owns LEAF phase ordering."
"#;
    let report = check_with_git_exclude(&with_sidecar(body, EXCLUDE_LINE, true));

    assert!(!report.has_errors());
    assert_finding(&report, Severity::Warn, "srp_sidecar_stale", path("src/phase.rs.leaf.local.toml"));
}

#[test]
fn check_warns_for_srp_sidecar_wrong_schema_and_unknown_fields() {
    let body = r#"
schema = "leaf.srp-sidecar.v0"
artifact = "src/phase.rs"
status = "advisory"
last_verified = "2026-06-26"
responsibility = "Owns LEAF phase ordering."
notes = "This is where sidecars become junk drawers."
"#;
    let report = check_with_git_exclude(&with_sidecar(body, EXCLUDE_LINE, false));

    assert!(!report.has_errors());
    assert_finding(&report, Severity::Warn, "srp_sidecar_invalid_schema", path("src/phase.rs.leaf.local.toml"));
    assert_finding(&report, Severity::Warn, "srp_sidecar_unknown_field", path("src/phase.rs.leaf.local.toml"));
}

#[test]
fn check_warns_for_duplicate_slug_across_lifecycle_stages() {
    let obs = lifecycle(
        vec![entry(
            "duplicate",
            Some("- stage: sprout\n- current phase: Learn\n- current gate: ② Unknowns & Context\n- first missing gate: ③ Criteria\n- next action: continue\n"),
        )],
        vec![entry(
            "duplicate",
            Some("- stage: leaf\n- current phase: Architect\n- current gate: ⑦ Tasks\n- first missing gate: ⑧ Artifact\n- next action: implement\n"),
        )],
        Vec::new(),
    );

    let report = check_with_git_exclude(&obs);

    assert!(!report.has_errors());
    assert_finding(
        &report,
        Severity::Warn,
        "duplicate_slug",
        Some(Location::Paths(vec![
            ".leaf/01-sprouts/duplicate".to_string(),
            ".leaf/02-leaves/duplicate".to_string(),
        ])),
    );
}

#[test]
fn entries_are_checked_in_name_order_and_duplicates_listed_by_slug() {
    let obs = lifecycle(
        vec![file_entry("b.md"), file_entry("a.md"), entry("zeta", None), entry("alpha", None)],
        vec![entry("zeta", None), entry("alpha", None)],
        Vec::new(),
    );
    let report = check_with_git_exclude(&obs);
    let ignored: Vec<&str> = report
        .findings
        .iter()
        .filter(|f| f.code == "ignored_stage_entry")
        .map(|f| f.message.as_str())
        .collect();
    assert_eq!(ignored, vec!["ignored non-directory entry in 01-sprouts: a.md", "ignored non-directory entry in 01-sprouts: b.md"]);
    let dups: Vec<&Location> = report
        .findings
        .iter()
        .filter(|f| f.code == "duplicate_slug")
        .map(|f| &f.location)
        .collect();
    assert_eq!(
        dups,
        vec![
            &Location::Paths(vec![".leaf/01-sprouts/alpha".to_string(), ".leaf/02-leaves/alpha".to_string()]),
            &Location::Paths(vec![".leaf/01-sprouts/zeta".to_string(), ".leaf/02-leaves/zeta".to_string()]),
        ]
    );
}

#[test]
fn unpolished_earlier_phase_is_reported_with_its_folder() {
    let mut item = entry(
        "work",
        Some("- stage: sprout\n- current phase: Architect\n- current gate: ⑤ Design\n- first missing gate: ⑥ Critic\n- next action: design\n"),
    );
    item.unpolished = vec![true, false, true, true];
    let report = check_with_git_exclude(&lifecycle(vec![item], Vec::new(), Vec::new()));
    let polish: Vec<&DoctorFinding> = report.findings.iter().filter(|f| f.code == "boundary_unpolished").collect();
    assert_eq!(polish.len(), 1);
    assert_eq!(polish[0].location, Location::Path(".leaf/01-sprouts/work/01-Learn".to_string()));
    assert!(polish[0].message.starts_with("phase Learn was left unpolished"));
    assert!(polish[0].impact.is_some());
}
