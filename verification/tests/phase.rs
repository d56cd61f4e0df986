use leaf::phase::{
    is_checkpoint_copy, is_status_field, phase_transition, phase_unpolished, rewrite_status_phase,
    Phase, POLISH_PENDING_TOKEN,
};

#[test]
fn from_status_value_matches_annotated_phase() {
    assert_eq!(
        Phase::from_status_value("Architect (⑤ Design)"),
        Some(Phase::Architect)
    );
    assert_eq!(
        Phase::from_status_value("  Learn (휴지 — triple 잠금)"),
        Some(Phase::Learn)
    );
    assert_eq!(Phase::from_status_value("Feedback"), Some(Phase::Feedback));
    assert_eq!(Phase::from_status_value("nonsense"), None);
}

#[test]
fn phase_order_and_next_are_consistent() {
    assert_eq!(Phase::Learn.next(), Some(Phase::Example));
    assert_eq!(Phase::Architect.next(), Some(Phase::Feedback));
    assert_eq!(Phase::Feedback.next(), None);
    assert!(Phase::Learn.index() < Phase::Architect.index());
}

#[test]
fn rewrite_status_replaces_only_preamble_phase_and_gate() {
    let status = "# Sprout Status\n\n\
         - why: x\n\
         - current phase: Learn\n\
         - current gate: ① Intent\n\
         - next action: go\n\n\
         ## Overview\n\
         - current phase: must-not-touch\n";
    let out = rewrite_status_phase(status, Phase::Example);
    assert!(out.contains("- current phase: Example"));
    assert!(out.contains("- current gate: ③ Criteria"));
    assert!(out.contains("- why: x"));
    assert!(out.contains("- next action: go"));
    assert!(out.contains("- current phase: must-not-touch"));
    assert!(out.ends_with('\n'));
}

#[test]
fn phase_labels_and_dirs_follow_order() {
    let names: Vec<_> = Phase::ORDER.iter().map(|p| p.name()).collect();
    assert_eq!(names, ["Learn", "Example", "Architect", "Feedback"]);
    let dirs: Vec<_> = Phase::ORDER.iter().map(|p| p.dir()).collect();
    assert_eq!(dirs, ["01-Learn", "02-Example", "03-Architect", "04-Feedback"]);
    assert_eq!(Phase::Architect.first_gate_label(), "⑤ Design");
    for (i, p) in Phase::ORDER.iter().enumerate() {
        assert_eq!(p.index(), i);
    }
}

#[test]
fn checkpoint_copy_names_need_a_six_and_four_digit_stamp() {
    assert!(is_checkpoint_copy("260622-1257 01-intent.md"));
    assert!(!is_checkpoint_copy("01-intent.md"));
    assert!(!is_checkpoint_copy("2606-1257 01-intent.md"));
    assert!(!is_checkpoint_copy("260622-12a7 01-intent.md"));
}

#[test]
fn status_field_match_ignores_case_dash_and_indent() {
    assert!(is_status_field("  -   Current Phase: Learn", "current phase"));
    assert!(is_status_field("current gate: x", "current gate"));
    assert!(!is_status_field("- current phases: x", "current phase"));
}

fn dir_with(name: &str, content: String) -> Option<Vec<(String, Result<String, String>)>> {
    Some(vec![(name.to_string(), Ok(content))])
}

#[test]
fn token_at_line_start_marks_phase_unpolished() {
    let dir = dir_with("01-intent.md", format!("{POLISH_PENDING_TOKEN}\n# Intent\n"));
    assert!(phase_unpolished(&dir));
}

#[test]
fn token_quoted_in_prose_does_not_mark_unpolished() {
    let dir = dir_with(
        "05-design.md",
        format!(
            "# Design\n\n마커는 `{POLISH_PENDING_TOKEN}` 이고 줄머리에서만 매치된다.\n\
             - 설명: {POLISH_PENDING_TOKEN} 를 polish가 제거한다.\n"
        ),
    );
    assert!(
        !phase_unpolished(&dir),
        "prose mentions of the token must not count as a marker"
    );
}

#[test]
fn absent_token_reads_polished() {
    let dir = dir_with("01-intent.md", "# Intent\n".to_string());
    assert!(!phase_unpolished(&dir));
}

#[test]
fn checkpoint_copy_with_token_is_ignored() {
    let dir = dir_with("260622-1257 01-intent.md", format!("{POLISH_PENDING_TOKEN}\n"));
    assert!(
        !phase_unpolished(&dir),
        "a preserved snapshot must not keep a polished phase dirty"
    );
}

#[test]
fn missing_phase_dir_reads_polished() {
    assert!(!phase_unpolished(&None));
}

#[test]
fn indented_token_and_unreadable_or_non_markdown_files() {
    let entries = Some(vec![
        ("notes.txt".to_string(), Ok(format!("{POLISH_PENDING_TOKEN}\n"))),
        ("02-unknowns.md".to_string(), Err("denied".to_string())),
        ("01-intent.md".to_string(), Ok(format!("# Intent\n   {POLISH_PENDING_TOKEN}\n"))),
    ]);
    assert!(phase_unpolished(&entries));
    let quiet = Some(vec![("notes.txt".to_string(), Ok(format!("{POLISH_PENDING_TOKEN}\n")))]);
    assert!(!phase_unpolished(&quiet));
}

#[test]
fn phase_transition_reads_current_phase() {
    assert_eq!(
        phase_transition("- current phase: Learn (① Intent)\n"),
        Ok(Some((Phase::Learn, Phase::Example)))
    );
    assert_eq!(phase_transition("- current phase: Feedback\n"), Ok(None));
    assert_eq!(
        phase_transition("- next action: x\n"),
        Err("cannot determine current phase from 00-status.md `current phase` field".to_string())
    );
    assert_eq!(
        phase_transition("- current phase: Nowhere\n"),
        Err("cannot determine current phase from 00-status.md `current phase` field".to_string())
    );
}
