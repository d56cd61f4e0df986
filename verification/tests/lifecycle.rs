use leaf::lifecycle::{
    fall_check, fallen_status, keep_check, path_exists, premature_phase, real_dir_exists,
    rewrite_stage_to_leaf, unix_timestamp, unix_timestamp_from_secs, validate_reason,
    write_failure_context, FallSource, PathKind,
};
use std::time::{Duration, UNIX_EPOCH};

#[test]
fn rewrite_stage_to_leaf_flips_stage_and_title_only() {
    let sprout = "# Sprout Status\n\n\
                  - why: x\n\
                  - stage: sprout\n\
                  - current phase: Feedback\n\
                  - next action: keep\n\n\
                  ## Overview\n\
                  - stage: must-not-touch\n";
    let leaf = rewrite_stage_to_leaf(sprout);
    assert!(leaf.contains("# Leaf Status"));
    assert!(!leaf.contains("# Sprout Status"));
    assert!(leaf.contains("- stage: leaf"));
    assert!(leaf.contains("- why: x"));
    assert!(leaf.contains("- current phase: Feedback"));
    assert!(leaf.contains("- stage: must-not-touch"));
    assert!(leaf.ends_with('\n'));
}

#[test]
fn rewrite_stage_to_leaf_handles_mixed_case_and_indent() {
    let sprout = "# Sprout Status\n\n-   Stage:  sprout\n";
    let leaf = rewrite_stage_to_leaf(sprout);
    assert!(leaf.contains("- stage: leaf"));
    assert!(!leaf.to_lowercase().contains("stage:  sprout"));
}

#[test]
fn rewrite_stage_to_leaf_without_trailing_newline() {
    let leaf = rewrite_stage_to_leaf("# Sprout Status\n\n- stage: sprout");
    assert!(leaf.contains("- stage: leaf"));
    assert!(!leaf.ends_with('\n'));
}

#[test]
fn premature_phase_is_none_at_feedback() {
    let status = "- stage: sprout\n- current phase: Feedback\n";
    assert_eq!(premature_phase(status), None);
}

#[test]
fn premature_phase_is_none_for_annotated_feedback() {
    let status = "- stage: sprout\n- current phase: Feedback (⑨ Review)\n";
    assert_eq!(premature_phase(status), None);
}

#[test]
fn premature_phase_reports_earlier_phase() {
    let status = "- stage: sprout\n- current phase: Example\n";
    assert_eq!(premature_phase(status), Some("Example".to_string()));
}

#[test]
fn premature_phase_reports_unknown_when_phase_missing() {
    let status = "- stage: sprout\n- next action: keep\n";
    assert_eq!(premature_phase(status), Some("unknown".to_string()));
}

#[test]
fn validate_reason_trims_and_rejects_blank() {
    assert_eq!(validate_reason("  parked  ").unwrap(), "parked");
    assert_eq!(
        validate_reason(" \t ").unwrap_err(),
        "fallen reason cannot be empty"
    );
}

#[test]
fn fallen_status_embeds_previous_status_under_heading() {
    let status = fallen_status(
        ".leaf/01-sprouts/demo",
        "abandoned",
        "unix:42",
        Some("\n# Sprout Status\n- stage: sprout\n\n"),
    );
    assert!(status.starts_with("# Fallen Status\n\n- stage: fallen\n- fallen at: unix:42\n"));
    assert!(status.contains("- fallen from: .leaf/01-sprouts/demo\n"));
    assert!(status.contains("- fallen reason: abandoned\n"));
    assert!(status.contains("- unix:42: moved to fallen; no execution artifacts were created.\n"));
    assert!(status.ends_with("\n## Previous Status\n\n# Sprout Status\n- stage: sprout\n"));
}

#[test]
fn fallen_status_without_previous_status_has_no_previous_section() {
    let status = fallen_status("x", "r", "t", None);
    assert!(!status.contains("Previous Status"));
    let blank = fallen_status("x", "r", "t", Some("   \n"));
    assert_eq!(status, blank);
}

#[test]
fn real_dir_exists_refuses_symlinks() {
    assert_eq!(real_dir_exists(PathKind::Directory, "p"), Ok(true));
    assert_eq!(real_dir_exists(PathKind::Missing, "p"), Ok(false));
    assert_eq!(real_dir_exists(PathKind::Other, "p"), Ok(false));
    assert_eq!(
        real_dir_exists(PathKind::Symlink, ".leaf/01-sprouts/x"),
        Err("leaf path is a symlink and cannot be moved: .leaf/01-sprouts/x".to_string())
    );
    assert!(path_exists(PathKind::Symlink));
    assert!(!path_exists(PathKind::Missing));
}

#[test]
fn keep_check_refuses_existing_leaf_and_missing_sprout() {
    assert_eq!(keep_check("x", "s/x", "l/x", true, false), Ok(()));
    assert_eq!(
        keep_check("x", "s/x", "l/x", true, true),
        Err("ambiguous slug: x exists in both s/x and l/x; run leaf doctor and disambiguate".to_string())
    );
    assert_eq!(
        keep_check("x", "s/x", "l/x", false, true),
        Err("x is already a leaf: l/x; nothing to keep".to_string())
    );
    assert_eq!(
        keep_check("x", "s/x", "l/x", false, false),
        Err("sprout does not exist: checked s/x".to_string())
    );
}

#[test]
fn fall_check_picks_the_single_existing_source() {
    assert_eq!(fall_check("x", "s/x", "l/x", true, false, false), Ok(FallSource::Sprout));
    assert_eq!(fall_check("x", "s/x", "l/x", false, true, false), Ok(FallSource::Leaf));
    assert_eq!(
        fall_check("x", "s/x", "l/x", true, true, false),
        Err("ambiguous leaf slug: x exists in both s/x and l/x; run leaf doctor and disambiguate".to_string())
    );
    assert_eq!(
        fall_check("x", "s/x", "l/x", false, false, false),
        Err("leaf does not exist: checked s/x and l/x".to_string())
    );
    assert_eq!(
        fall_check("x", "s/x", "l/x", true, false, true),
        Err("fallen leaf already exists: x".to_string())
    );
}

#[test]
fn write_failure_context_reports_rollback() {
    assert_eq!(
        write_failure_context("d/00-status.md", "d", "s", None),
        "failed to write d/00-status.md; rolled back move to s"
    );
    assert_eq!(
        write_failure_context("d/00-status.md", "d", "s", Some("busy")),
        "failed to write d/00-status.md; also failed to roll back d to s: busy"
    );
}

#[test]
fn unix_timestamp_formats_whole_seconds() {
    assert_eq!(unix_timestamp_from_secs(0), "unix:0");
    assert_eq!(unix_timestamp_from_secs(1_700_000_123), "unix:1700000123");
    let t = UNIX_EPOCH + Duration::from_secs(42);
    assert_eq!(unix_timestamp(t), Ok("unix:42".to_string()));
}
