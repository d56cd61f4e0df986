use leaf::cli::{
    checkpoint_gate, checkpoint_message, created_message, fall_message, init_message,
    keep_message, keep_warning, leaf_work_path_for_slug, parent_of, repo_relative,
    tree_output_width, GateFlags,
};
use leaf::inventory::{
    Inventory, InventoryItem, ItemKind, ParseState, StageDir, StageInventory, StatusSummary,
};
use leaf::slug::validate;

fn flags() -> GateFlags {
    GateFlags {
        gate: None,
        intent: false,
        unknowns: false,
        criteria: false,
        wireframe: false,
        design: false,
        critic: false,
        tasks: false,
        execution: false,
        review: false,
        retrospect: false,
        gate_1: false,
        gate_2: false,
        gate_3: false,
        gate_4: false,
        gate_5: false,
        gate_6: false,
        gate_7: false,
        gate_8: false,
        gate_9: false,
        gate_10: false,
    }
}

#[test]
fn slug_validation_accepts_path_safe_names_only() {
    assert_eq!(validate("feature-1_a").unwrap(), "feature-1_a");
    assert_eq!(validate("").unwrap_err(), "invalid slug: ");
    assert_eq!(validate(" a").unwrap_err(), "invalid slug:  a");
    assert_eq!(validate("a/b").unwrap_err(), "invalid slug: a/b");
    assert_eq!(validate("한글").unwrap_err(), "invalid slug: 한글");
}

#[test]
fn checkpoint_gate_needs_exactly_one_flag() {
    let none = flags();
    assert_eq!(
        checkpoint_gate(&none).unwrap_err(),
        "missing gate flag; use --criteria, --3, or --gate <gate>"
    );
    let mut criteria = flags();
    criteria.criteria = true;
    assert_eq!(checkpoint_gate(&criteria).unwrap().index, 3);
    let mut numbered = flags();
    numbered.gate_7 = true;
    assert_eq!(checkpoint_gate(&numbered).unwrap().name, "tasks");
    let mut named = flags();
    named.gate = Some("g5".to_string());
    assert_eq!(checkpoint_gate(&named).unwrap().index, 5);
    let mut two = flags();
    two.intent = true;
    two.gate_2 = true;
    assert_eq!(checkpoint_gate(&two).unwrap_err(), "choose exactly one gate flag");
    let mut unknown = flags();
    unknown.gate = Some("nope".to_string());
    assert_eq!(checkpoint_gate(&unknown).unwrap_err(), "unknown gate: nope");
}

fn summary() -> StatusSummary {
    StatusSummary {
        parse_state: ParseState::Valid,
        stage: None,
        legacy_state: None,
        fallen_reason: None,
        current_phase: None,
        current_gate: None,
        first_missing_gate: None,
        next_action: None,
        missing_fields: Vec::new(),
    }
}

fn item(stage_dir: StageDir, slug: &str, kind: ItemKind, path: &str) -> InventoryItem {
    InventoryItem {
        stage_dir,
        slug: slug.to_string(),
        kind,
        path: path.to_string(),
        status: summary(),
    }
}

#[test]
fn leaf_work_path_for_slug_finds_one_and_reports_none_or_many() {
    let inventory = Inventory {
        leaf_root: "/repo/.leaf".to_string(),
        stages: vec![
            StageInventory {
                stage_dir: StageDir::Sprouts,
                items: vec![item(
                    StageDir::Sprouts,
                    "alpha",
                    ItemKind::LeafWork,
                    "/repo/.leaf/01-sprouts/alpha",
                )],
            },
            StageInventory {
                stage_dir: StageDir::Leaves,
                items: vec![
                    item(StageDir::Leaves, "beta", ItemKind::LeafWork, "/repo/.leaf/02-leaves/beta"),
                    item(StageDir::Leaves, "alpha", ItemKind::LeafWork, "/repo/.leaf/02-leaves/alpha"),
                ],
            },
            StageInventory {
                stage_dir: StageDir::Pressed,
                items: vec![item(
                    StageDir::Pressed,
                    "gamma",
                    ItemKind::PressedDigest,
                    "/repo/.leaf/04-pressed/gamma.md",
                )],
            },
        ],
    };
    assert_eq!(
        leaf_work_path_for_slug(&inventory, "beta").unwrap(),
        "/repo/.leaf/02-leaves/beta"
    );
    assert_eq!(
        leaf_work_path_for_slug(&inventory, "gamma").unwrap_err(),
        "leaf work does not exist: gamma"
    );
    assert_eq!(
        leaf_work_path_for_slug(&inventory, "alpha").unwrap_err(),
        "leaf work slug is ambiguous: alpha (.leaf/01-sprouts/alpha, .leaf/02-leaves/alpha)"
    );
}

#[test]
fn repo_relative_strips_the_repository_root() {
    assert_eq!(repo_relative("/repo", "/repo/.leaf/x"), ".leaf/x");
    assert_eq!(repo_relative("/repo", "/repo"), "");
    assert_eq!(repo_relative("/repo", "/repository/x"), "/repository/x");
    assert_eq!(repo_relative("/", "/etc"), "etc");
    assert_eq!(parent_of("/repo/.leaf").unwrap(), "/repo");
    assert_eq!(parent_of("/.leaf").unwrap(), "/");
    assert_eq!(parent_of(".leaf").unwrap(), "");
    assert!(parent_of("/").is_none());
}

#[test]
fn command_messages_read_as_printed() {
    assert_eq!(init_message(true), "initialized .leaf/");
    assert_eq!(init_message(false), ".leaf/ already initialized");
    assert_eq!(created_message("x"), "created .leaf/01-sprouts/x/");
    assert_eq!(
        fall_message("/r", "/r/.leaf/01-sprouts/x", "/r/.leaf/03-fallen/x"),
        "moved .leaf/01-sprouts/x/ to .leaf/03-fallen/x/"
    );
    assert_eq!(
        keep_message("/r", "x", "/r/.leaf/01-sprouts/x", "/r/.leaf/02-leaves/x"),
        "✓ x: sprout → leaf\n  .leaf/01-sprouts/x/ → .leaf/02-leaves/x/\n  stage: sprout → leaf"
    );
    assert_eq!(
        keep_warning("x", "Build"),
        "⚠ x는 아직 Feedback에 도달하지 않았습니다 (current phase: Build). 완료 전 keep일 수 있습니다 — 그래도 진행합니다."
    );
    assert_eq!(
        checkpoint_message("/r", "/r/a.md", "/r/cp/a.md"),
        "checkpointed a.md to cp/a.md"
    );
}

#[test]
fn tree_width_follows_the_terminal() {
    assert_eq!(tree_output_width(true, Some(80)), 80);
    assert_eq!(tree_output_width(true, Some(0)), 1);
    assert_eq!(tree_output_width(true, None), 112);
    assert_eq!(tree_output_width(false, Some(80)), 112);
}
