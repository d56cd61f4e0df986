use leaf::inventory::{parse_status_summary, ParseState, StageDir};
use leaf::phase::{Phase, POLISH_PENDING_TOKEN};
use leaf::scaffold::{phase_dirs, phase_files, scaffold_plan, POLISH_PENDING_BLOCK, STATUS_TEMPLATE};

#[test]
fn sprout_status_template_has_all_doctor_required_fields() {
    let summary = parse_status_summary(STATUS_TEMPLATE, StageDir::Sprouts);

    assert_eq!(summary.parse_state, ParseState::Valid);
    assert!(
        summary.missing_fields.is_empty(),
        "fresh sprout status is missing doctor-required fields: {:?}",
        summary.missing_fields
    );
    assert_eq!(summary.stage.as_deref(), Some("sprout"));
    assert!(summary.legacy_state.is_none());
    assert_eq!(summary.current_phase.as_deref(), Some("Learn"));
    assert_eq!(summary.current_gate.as_deref(), Some("① Intent"));
}

#[test]
fn sprout_status_template_has_live_overview_section() {
    assert!(
        STATUS_TEMPLATE.contains("## Overview"),
        "00-status.md should summarize what this LEAF is doing"
    );
    assert!(
        STATUS_TEMPLATE.contains("- request:"),
        "overview should preserve the user's request at status level"
    );
    assert!(
        STATUS_TEMPLATE.contains("- why:")
            && STATUS_TEMPLATE.contains("- what:")
            && STATUS_TEMPLATE.contains("- wireframe:"),
        "status should carry the locked why / what / wireframe triple"
    );
    assert!(
        STATUS_TEMPLATE.contains("- consistency rule:"),
        "overview should remind agents to keep status and gate docs aligned"
    );
}

#[test]
fn sprout_status_template_surfaces_triple_within_preview_budget() {
    let preview: String = STATUS_TEMPLATE
        .lines()
        .map(str::trim)
        .filter(|line| !line.is_empty())
        .take(8)
        .collect::<Vec<_>>()
        .join("\n");

    for label in ["- why:", "- what:", "- wireframe:"] {
        assert!(
            preview.contains(label),
            "`{label}` must be within the 8-line TUI preview budget; got:\n{preview}"
        );
    }
}

#[test]
fn learn_phase_scaffolds_references_folder() {
    assert_eq!(phase_dirs(Phase::Learn), &["01-Learn", "01-Learn/02-references"]);
    assert_eq!(phase_dirs(Phase::Feedback), &["04-Feedback"]);
    let files: Vec<&str> = phase_files(Phase::Learn).iter().map(|f| f.0).collect();
    assert_eq!(
        files,
        vec!["01-Learn/01-intent.md", "01-Learn/02-unknowns.md", "01-Learn/02-references/README.md"]
    );
}

#[test]
fn first_gate_file_carries_polish_pending_token() {
    let plan = scaffold_plan(Phase::Learn, &[false, false, false]);
    assert_eq!(plan.len(), 3);
    assert!(plan[0].1.lines().next().unwrap().trim_start() == POLISH_PENDING_TOKEN);
    assert!(plan[0].1.starts_with(POLISH_PENDING_BLOCK));
    assert!(!plan[1].1.contains(POLISH_PENDING_TOKEN));
}

#[test]
fn scaffold_plan_skips_existing_files() {
    let plan = scaffold_plan(Phase::Example, &[true, false]);
    assert_eq!(plan.len(), 1);
    assert_eq!(plan[0].0, "02-Example/04-wireframe.md");
    assert!(!plan[0].1.contains(POLISH_PENDING_TOKEN));
    assert!(scaffold_plan(Phase::Feedback, &[true]).is_empty());
}
