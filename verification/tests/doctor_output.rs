use leaf::doctor::{DoctorFinding, DoctorReport, Location, Severity};
use leaf::doctor_output::{
    display_path, json_severity, result_line, text_severity, write_group, write_location,
    write_text, JsonFinding, JsonReport,
};

fn paths(items: &[&str]) -> Vec<String> {
    items.iter().map(|s| s.to_string()).collect()
}

#[test]
fn text_groups_errors_warnings_and_ok_findings() {
    let report = DoctorReport::new(
        ".leaf",
        vec![
            DoctorFinding::ok("leaf_root_present", ".leaf initialized").with_path(".leaf"),
            DoctorFinding::warn("duplicate_slug", "slug appears in more than one stage")
                .with_paths(paths(&[".leaf/01-sprouts/demo", ".leaf/02-leaves/demo"])),
            DoctorFinding::error(
                "stage_dir_mismatch",
                "stage sprout conflicts with directory leaves; expected leaf",
            )
            .with_path(".leaf/02-leaves/demo/00-status.md"),
        ],
    );

    let output = write_text(&report);

    assert!(output.contains("summary  errors 1  warnings 1  ok 1"));
    assert!(output.contains("result   not ready: fix errors before trusting leaf list"));
    assert!(output.find("Errors").unwrap() < output.find("Warnings").unwrap());
    assert!(output.find("Warnings").unwrap() < output.find("OK checks").unwrap());
    assert!(output.contains("    paths   .leaf/01-sprouts/demo\n            .leaf/02-leaves/demo"));
}

#[test]
fn json_uses_flat_findings_with_mutually_exclusive_path_fields() {
    let report = DoctorReport::new(
        ".leaf",
        vec![DoctorFinding::warn("duplicate_slug", "slug appears in more than one stage")
            .with_paths(paths(&[".leaf/01-sprouts/demo", ".leaf/02-leaves/demo"]))],
    );

    let json = JsonReport::from_report(&report);

    assert_eq!(json.leaf_root, ".leaf");
    assert_eq!(json.summary.warnings, 1);
    assert_eq!(json.findings[0].severity, "warn");
    assert_eq!(json.findings[0].code, "duplicate_slug");
    assert!(json.findings[0].path.is_none());
    assert_eq!(
        json.findings[0].paths,
        Some(paths(&[".leaf/01-sprouts/demo", ".leaf/02-leaves/demo"]))
    );
}

#[test]
fn whole_text_report_of_a_clean_workspace() {
    let report = DoctorReport::new(
        ".leaf",
        vec![DoctorFinding::ok("leaf_root_present", ".leaf initialized").with_path(".leaf")],
    );
    assert_eq!(
        write_text(&report),
        "leaf doctor\n\nsummary  errors 0  warnings 0  ok 1\nresult   ready: leaf list should display cleanly\n\nOK checks\n\n  OK leaf_root_present\n    path    .leaf\n    reason  .leaf initialized\n"
    );
}

#[test]
fn result_line_reflects_the_worst_severity() {
    let warn = DoctorReport::new(".leaf", vec![DoctorFinding::warn("w", "m")]);
    assert_eq!(result_line(&warn), "usable with warnings: leaf list may be degraded");
    let empty = DoctorReport::new(".leaf", Vec::new());
    assert_eq!(result_line(&empty), "ready: leaf list should display cleanly");
}

#[test]
fn group_is_empty_without_findings_of_that_severity() {
    let report = DoctorReport::new(".leaf", vec![DoctorFinding::warn("w", "m")]);
    assert_eq!(write_group(&report, Severity::Error, "Errors"), "");
    assert_eq!(
        write_group(&report, Severity::Warn, "Warnings"),
        "\nWarnings\n\n  WARN w\n    reason  m\n"
    );
}

#[test]
fn impact_is_printed_after_the_reason() {
    let report = DoctorReport::new(
        ".leaf",
        vec![DoctorFinding::warn("w", "m").with_impact("i").with_path("p")],
    );
    assert_eq!(
        write_group(&report, Severity::Warn, "Warnings"),
        "\nWarnings\n\n  WARN w\n    path    p\n    reason  m\n    impact  i\n"
    );
}

#[test]
fn location_lines_and_labels() {
    assert_eq!(write_location(&Location::NoPath), "");
    assert_eq!(write_location(&Location::Paths(Vec::new())), "");
    assert_eq!(write_location(&Location::Path("a\\b".to_string())), "    path    a/b\n");
    assert_eq!(display_path("a\\b\\c"), "a/b/c");
    assert_eq!(text_severity(Severity::Pass), "OK");
    assert_eq!(json_severity(Severity::Error), "error");
}

#[test]
fn json_finding_keeps_a_single_path() {
    let f = DoctorFinding::error("e", "m").with_path("x\\y");
    let j = JsonFinding::from_finding(&f);
    assert_eq!(j.path.as_deref(), Some("x/y"));
    assert!(j.paths.is_none());
    assert_eq!(j.severity, "error");
    assert_eq!(j.message, "m");
}
