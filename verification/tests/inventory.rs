use leaf::fs_ext::DirectoryStatus;
use leaf::inventory::{
    gate_order, load, parse_gate_index, parse_status_summary, status_triple_state, ItemKind,
    ParseState, PreviewSource, RawEntry, StageDir, StatusField, TripleState,
};

fn full_status() -> &'static str {
    "# Leaf Status\n\n\
     - stage: leaf\n\
     - current phase: Architect\n\
     - current gate: G3\n\
     - first missing gate: G4\n\
     - next action: write design\n"
}

#[test]
fn inventory_parse_status_summary_ok_when_all_expected_present() {
    let summary = parse_status_summary(full_status(), StageDir::Leaves);

    assert_eq!(summary.parse_state, ParseState::Valid);
    assert!(summary.missing_fields.is_empty());
    assert_eq!(summary.stage.as_deref(), Some("leaf"));
    assert!(summary.legacy_state.is_none());
    assert_eq!(summary.current_phase.as_deref(), Some("Architect"));
    assert_eq!(summary.current_gate.as_deref(), Some("G3"));
    assert_eq!(summary.first_missing_gate.as_deref(), Some("G4"));
    assert_eq!(summary.next_action.as_deref(), Some("write design"));
}

#[test]
fn inventory_parse_status_summary_partial_lists_missing_fields() {
    let content = "- state: seed\n- current phase: Learn\n";

    let summary = parse_status_summary(content, StageDir::Sprouts);

    assert_eq!(summary.parse_state, ParseState::Partial);
    assert_eq!(summary.stage.as_deref(), Some("sprout"));
    assert_eq!(summary.legacy_state.as_deref(), Some("seed"));
    assert_eq!(summary.current_phase.as_deref(), Some("Learn"));
    assert!(summary.current_gate.is_none());
    assert!(!summary.missing_fields.contains(&StatusField::Stage));
    assert!(!summary.missing_fields.contains(&StatusField::CurrentPhase));
    assert!(summary.missing_fields.contains(&StatusField::CurrentGate));
    assert!(
        summary
            .missing_fields
            .contains(&StatusField::FirstMissingGate)
    );
    assert!(summary.missing_fields.contains(&StatusField::NextAction));
}

#[test]
fn inventory_parse_status_summary_prefers_stage_and_keeps_state_as_fallback_only() {
    let content = "- stage: sprout\n\
                   - current phase: Learn\n\
                   - current gate: ① Intent\n\
                   - first missing gate: ① Intent\n\
                   - next action: draft intent\n";

    let summary = parse_status_summary(content, StageDir::Sprouts);

    assert_eq!(summary.parse_state, ParseState::Valid);
    assert_eq!(summary.stage.as_deref(), Some("sprout"));
    assert!(summary.legacy_state.is_none());
    assert!(summary.missing_fields.is_empty());
}

#[test]
fn inventory_parse_status_summary_projects_old_state_as_compatibility_stage() {
    let content = "- state: active\n\
                   - current phase: Architect\n\
                   - current gate: ⑤ Design\n\
                   - first missing gate: ⑥ Critic\n\
                   - next action: continue\n";

    let summary = parse_status_summary(content, StageDir::Leaves);

    assert_eq!(summary.parse_state, ParseState::Valid);
    assert_eq!(summary.stage.as_deref(), Some("sprout"));
    assert_eq!(summary.legacy_state.as_deref(), Some("active"));
}

#[test]
fn inventory_parse_status_summary_normalizes_keys_and_ignores_unknown() {
    let content = "- State:  active\n\
                   - Current   Phase: Learn\n\
                   - CURRENT GATE: G1\n\
                   - First Missing Gate: G2\n\
                   - Next Action: do it: now\n\
                   - random key: whatever\n";

    let summary = parse_status_summary(content, StageDir::Leaves);

    assert_eq!(summary.parse_state, ParseState::Valid);
    assert_eq!(summary.legacy_state.as_deref(), Some("active"));
    assert_eq!(summary.current_phase.as_deref(), Some("Learn"));
    assert_eq!(summary.current_gate.as_deref(), Some("G1"));
    assert_eq!(summary.first_missing_gate.as_deref(), Some("G2"));
    assert_eq!(summary.next_action.as_deref(), Some("do it: now"));
}

#[test]
fn inventory_status_triple_state_classifies_missing_unfilled_and_valid() {
    // all three real → clean
    let ok =
        status_triple_state("- why: 막는다\n- what: 스킬\n- wireframe: 한 건\n- stage: leaf\n");
    assert_eq!(ok, TripleState::default());

    // none — is a valid Learn-close answer → neither missing nor unfilled
    let none_ok = status_triple_state(
        "- why: 실제 이유\n- what: none — 이해 전용\n- wireframe: none — 이해 전용\n",
    );
    assert_eq!(none_ok, TripleState::default());

    // absent lines → missing; TODO/empty → unfilled
    let mixed =
        status_triple_state("- why: TODO state the problem\n- what:   \n- stage: sprout\n");
    assert_eq!(mixed.missing, vec!["wireframe"]);
    assert_eq!(mixed.unfilled, vec!["why", "what"]);

    // a `## Overview` heading ends the preamble; later `- why:` is ignored
    let preamble_only = status_triple_state("- stage: leaf\n\n## Overview\n- why: 본문 밖\n");
    assert_eq!(preamble_only.missing, vec!["why", "what", "wireframe"]);
}

#[test]
fn inventory_parse_status_summary_fallen_expects_stage_and_reason() {
    let summary = parse_status_summary(
        "- stage: fallen\n- fallen reason: completed\n",
        StageDir::Fallen,
    );

    assert_eq!(summary.parse_state, ParseState::Valid);
    assert_eq!(summary.stage.as_deref(), Some("fallen"));
    assert_eq!(summary.fallen_reason.as_deref(), Some("completed"));
    assert!(summary.missing_fields.is_empty());
}

#[test]
fn inventory_parse_status_summary_fallen_partial_when_required_fields_missing() {
    let summary = parse_status_summary("- current phase: x\n", StageDir::Fallen);

    assert_eq!(summary.parse_state, ParseState::Partial);
    assert_eq!(
        summary.missing_fields,
        vec![StatusField::Stage, StatusField::FallenReason]
    );
}

#[test]
fn inventory_parse_status_summary_pressed_is_ok_with_no_fields() {
    let summary = parse_status_summary("anything at all\n- state: x\n", StageDir::Pressed);

    assert_eq!(summary.parse_state, ParseState::Valid);
    assert!(summary.legacy_state.is_none());
    assert!(summary.current_phase.is_none());
    assert!(summary.missing_fields.is_empty());
}

#[test]
fn inventory_parse_status_summary_ignores_fields_after_section_heading() {
    // A fallen file keeps the canonical stage and fallen reason in its
    // preamble, then embeds the prior active status under a `## Previous
    // Status` section. Only the preamble is canonical; the copied
    // `- state: active`/phase/gate lines below the heading must NOT
    // override it.
    let content = "# Leaf Status\n\n\
                   - stage: fallen\n\
                   - fallen reason: completed\n\
                   \n\
                   ## Previous Status\n\
                   \n\
                   - state: active\n\
                   - current phase: Architect\n\
                   - current gate: G3\n";

    let summary = parse_status_summary(content, StageDir::Fallen);

    assert_eq!(summary.parse_state, ParseState::Valid);
    assert_eq!(summary.stage.as_deref(), Some("fallen"));
    assert_eq!(summary.fallen_reason.as_deref(), Some("completed"));
    assert!(summary.legacy_state.is_none());
    assert!(summary.current_phase.is_none());
    assert!(summary.current_gate.is_none());
    assert!(summary.missing_fields.is_empty());
}

#[test]
fn inventory_parse_status_summary_title_does_not_end_preamble() {
    // The single-`#` document title must NOT be treated as a section break;
    // all five fields below it are still canonical for an active leaf, and a
    // trailing `## Gate progress` section with junk is ignored.
    let content = "# Leaf Status\n\n\
                   - state: active\n\
                   - current phase: Architect\n\
                   - current gate: G3\n\
                   - first missing gate: G4\n\
                   - next action: write design\n\
                   \n\
                   ## Gate progress\n\
                   - state: fallen\n";

    let summary = parse_status_summary(content, StageDir::Leaves);

    assert_eq!(summary.parse_state, ParseState::Valid);
    assert_eq!(summary.legacy_state.as_deref(), Some("active"));
    assert_eq!(summary.current_phase.as_deref(), Some("Architect"));
    assert_eq!(summary.current_gate.as_deref(), Some("G3"));
    assert!(summary.missing_fields.is_empty());
}

#[test]
fn inventory_parse_status_summary_heading_before_fields_yields_no_fields() {
    // Boundary: a `##` heading before any field line ends the preamble
    // immediately, so no canonical field is captured.
    let content = "## Previous Status\n\
                   - state: active\n\
                   - current phase: Architect\n";

    let summary = parse_status_summary(content, StageDir::Leaves);

    assert!(summary.legacy_state.is_none());
    assert!(summary.current_phase.is_none());
    assert_eq!(summary.parse_state, ParseState::Partial);
}

#[test]
fn gate_index_reads_circled_numeric_and_g_prefixed_labels() {
    assert_eq!(parse_gate_index("③ Criteria"), Some(3));
    assert_eq!(parse_gate_index("  ⑩ Retrospect"), Some(10));
    assert_eq!(parse_gate_index("12 things"), Some(12));
    assert_eq!(parse_gate_index("G7"), Some(7));
    assert_eq!(parse_gate_index("g"), None);
    assert_eq!(parse_gate_index("Intent"), None);
    assert_eq!(parse_gate_index(""), None);
    assert_eq!(parse_gate_index("99999999999999999999999"), None);
}

#[test]
fn gate_order_sorts_unnumbered_labels_last_by_lowercase_text() {
    assert_eq!(gate_order(Some("② Unknowns")), (2, String::new()));
    assert_eq!(gate_order(Some("  Draft ")), (usize::MAX, "draft".to_string()));
    assert_eq!(gate_order(None), (usize::MAX, String::new()));
}

fn dir_entry(stage: &str, slug: &str, content: Result<String, String>) -> RawEntry {
    RawEntry {
        name: slug.to_string(),
        path: format!("/repo/.leaf/{stage}/{slug}"),
        is_file: false,
        is_dir: true,
        content,
    }
}

fn empty_listings() -> Vec<Result<Vec<RawEntry>, String>> {
    vec![Ok(Vec::new()), Ok(Vec::new()), Ok(Vec::new())]
}

#[test]
fn inventory_load_errors_when_leaf_root_is_missing() {
    let err = load("/repo/.leaf", DirectoryStatus::Missing, Vec::new())
        .expect_err("missing .leaf must error");

    assert!(
        err.contains(".leaf/ is not initialized in this git repository"),
        "got: {err}"
    );
    assert!(err.contains("leaf init"), "got: {err}");
}

#[test]
fn inventory_load_errors_when_leaf_is_not_a_directory() {
    let err = load("/repo/.leaf", DirectoryStatus::NotDirectory, Vec::new())
        .expect_err("non-directory .leaf must error");

    assert!(
        err.contains("path exists but is not a directory"),
        "got: {err}"
    );
}

#[test]
fn inventory_load_returns_stages_in_order_even_when_empty() {
    let inventory =
        load("/repo/.leaf", DirectoryStatus::Directory, empty_listings()).expect("load inventory");

    assert_eq!(inventory.leaf_root, "/repo/.leaf");
    assert_eq!(inventory.stages.len(), 3);
    assert_eq!(inventory.stages[0].stage_dir, StageDir::Sprouts);
    assert_eq!(inventory.stages[1].stage_dir, StageDir::Leaves);
    assert_eq!(inventory.stages[2].stage_dir, StageDir::Fallen);
    for stage_dir in &inventory.stages {
        assert!(stage_dir.items.is_empty(), "expected empty stage_dir");
    }
}

#[test]
fn inventory_load_does_not_create_missing_stage_directories() {
    // Missing stage directories are listed as empty; loading reads only.
    let listings = empty_listings();
    let inventory =
        load("/repo/.leaf", DirectoryStatus::Directory, listings).expect("load inventory");
    assert!(inventory.stages.iter().all(|stage| stage.items.is_empty()));
}

#[test]
fn inventory_load_lists_only_directories_in_sprouts_sorted_by_gate_then_slug() {
    let status = |phase: &str, gate: &str, missing: &str, action: &str| -> Result<String, String> {
        Ok(format!(
            "# Leaf Status\n\n\
             - stage: sprout\n\
             - current phase: {phase}\n\
             - current gate: {gate}\n\
             - first missing gate: {missing}\n\
             - next action: {action}\n"
        ))
    };
    let sprouts = vec![
        dir_entry(
            "01-sprouts",
            "third",
            status("Example", "③ Criteria", "④ Wireframe", "write criteria"),
        ),
        dir_entry(
            "01-sprouts",
            "second-zebra",
            status("Learn", "② Unknowns", "③ Criteria", "resolve unknowns"),
        ),
        dir_entry(
            "01-sprouts",
            "second-apple",
            status("Learn", "G2", "G3", "resolve unknowns"),
        ),
        dir_entry(
            "01-sprouts",
            "first",
            status("Learn", "1 Intent", "② Unknowns", "clarify intent"),
        ),
        RawEntry {
            name: "loose.md".to_string(),
            path: "/repo/.leaf/01-sprouts/loose.md".to_string(),
            is_file: true,
            is_dir: false,
            content: Ok("stray file\n".to_string()),
        },
    ];

    let inventory = load(
        "/repo/.leaf",
        DirectoryStatus::Directory,
        vec![Ok(sprouts), Ok(Vec::new()), Ok(Vec::new())],
    )
    .expect("load inventory");

    let slugs: Vec<_> = inventory.stages[0]
        .items
        .iter()
        .map(|item| item.slug.as_str())
        .collect();
    assert_eq!(
        slugs,
        vec!["first", "second-apple", "second-zebra", "third"]
    );
}

#[test]
fn inventory_load_ignores_top_level_pressed_digests() {
    let inventory =
        load("/repo/.leaf", DirectoryStatus::Directory, empty_listings()).expect("load inventory");

    assert_eq!(inventory.stages.len(), 3);
    assert!(
        inventory
            .stages
            .iter()
            .all(|stage_dir| stage_dir.stage_dir != StageDir::Pressed)
    );
    assert!(
        inventory
            .stages
            .iter()
            .all(|stage_dir| stage_dir.items.is_empty())
    );
}

#[test]
fn inventory_leaf_item_has_leafwork_kind_and_preview_paths() {
    let leaves = vec![dir_entry("02-leaves", "demo", Ok(full_status().to_string()))];
    let inventory = load(
        "/repo/.leaf",
        DirectoryStatus::Directory,
        vec![Ok(Vec::new()), Ok(leaves), Ok(Vec::new())],
    )
    .expect("load inventory");
    let item = &inventory.stages[1].items[0];

    assert_eq!(item.stage_dir, StageDir::Leaves);
    assert_eq!(item.slug, "demo");
    assert_eq!(item.kind, ItemKind::LeafWork);
    assert_eq!(item.path, "/repo/.leaf/02-leaves/demo");
    assert_eq!(item.status.parse_state, ParseState::Valid);
    assert_eq!(item.status.stage.as_deref(), Some("leaf"));
    assert!(item.status.legacy_state.is_none());
    assert_eq!(item.status.current_phase.as_deref(), Some("Architect"));
    assert_eq!(item.status.next_action.as_deref(), Some("write design"));

    match item.preview() {
        PreviewSource::LeafWork {
            status_path,
            intent_path,
            unknowns_path,
            criteria_path,
        } => {
            let base = "/repo/.leaf/02-leaves/demo";
            assert_eq!(status_path, format!("{base}/00-status.md"));
            assert_eq!(intent_path, format!("{base}/01-Learn/01-intent.md"));
            assert_eq!(unknowns_path, format!("{base}/01-Learn/02-unknowns.md"));
            assert_eq!(criteria_path, format!("{base}/02-Example/03-criteria.md"));
        }
        other => panic!("expected LeafWork preview, got {other:?}"),
    }
}

#[test]
fn inventory_leaf_item_without_status_is_visible_with_error_state() {
    let leaves = vec![dir_entry(
        "02-leaves",
        "no-status",
        Err("No such file or directory".to_string()),
    )];
    let inventory = load(
        "/repo/.leaf",
        DirectoryStatus::Directory,
        vec![Ok(Vec::new()), Ok(leaves), Ok(Vec::new())],
    )
    .expect("load inventory");
    let item = &inventory.stages[1].items[0];

    assert_eq!(item.slug, "no-status");
    assert_eq!(item.kind, ItemKind::LeafWork);
    assert_eq!(item.status.parse_state, ParseState::Error);
    assert!(item.status.legacy_state.is_none());
    assert!(item.status.current_phase.is_none());
    assert!(item.status.next_action.is_none());
    assert!(item.status.missing_fields.is_empty());
}

#[test]
fn inventory_load_reports_unreadable_stage_directory() {
    let err = load(
        "/repo/.leaf",
        DirectoryStatus::Directory,
        vec![
            Ok(Vec::new()),
            Err("failed to read /repo/.leaf/02-leaves".to_string()),
            Ok(Vec::new()),
        ],
    )
    .expect_err("unreadable stage");
    assert_eq!(err, "failed to read /repo/.leaf/02-leaves");
}

#[test]
fn pressed_digest_preview_reads_the_digest_itself() {
    let pressed = vec![RawEntry {
        name: "real.md".to_string(),
        path: "/repo/.leaf/04-pressed/real.md".to_string(),
        is_file: true,
        is_dir: false,
        content: Ok("# Real\n".to_string()),
    }];
    let item = leaf::inventory::project_entry(StageDir::Pressed, pressed.into_iter().next().unwrap())
        .expect("digest item");
    assert_eq!(item.slug, "real");
    assert_eq!(
        item.preview(),
        PreviewSource::PressedDigest {
            digest_path: "/repo/.leaf/04-pressed/real.md".to_string()
        }
    );
}
