use leaf::preview::PreviewLine;
use leaf::review::{
    build_document, canonical_source, include_source, markdown_files_in, parse_current_gate,
    reference_files, write_references_text, ReviewDocument, ReviewLine, SourceContent,
    CANONICAL_SOURCE_COUNT,
};

const ROOT: &str = ".leaf/02-leaves/demo";

// Stand-in for the markdown renderer, which is not part of the library: one
// plain line per source line.
fn render(body: &str) -> Vec<PreviewLine> {
    body.lines()
        .map(|line| PreviewLine::Plain(line.to_string()))
        .collect()
}

fn build(files: &[(&str, &str)], dirs: &[&str]) -> ReviewDocument {
    let find = |rel: &str| files.iter().find(|(path, _)| *path == rel).map(|(_, b)| *b);
    let is_dir = |rel: &str| {
        dirs.contains(&rel)
            || files
                .iter()
                .any(|(path, _)| path.starts_with(&format!("{rel}/")))
    };
    let current_gate = find("00-status.md").and_then(parse_current_gate);
    let mut contents = Vec::new();
    for index in 0..CANONICAL_SOURCE_COUNT {
        let spec = canonical_source(index);
        let exists = find(spec.file).is_some() || spec.folders.iter().any(|f| is_dir(f));
        if !include_source(index, current_gate, exists) {
            continue;
        }
        let content = if let Some(body) = find(spec.file) {
            SourceContent::File(render(body))
        } else if let Some(folder) = spec.folders.iter().find(|f| is_dir(f)) {
            let entries: Vec<(String, bool)> = files
                .iter()
                .filter_map(|(path, _)| path.strip_prefix(&format!("{folder}/")))
                .filter(|name| !name.contains('/'))
                .map(|name| (name.to_string(), true))
                .collect();
            let rels = markdown_files_in(folder, &entries);
            SourceContent::Folder {
                folder: folder.to_string(),
                files: rels
                    .into_iter()
                    .map(|rel| {
                        let body = find(&rel).unwrap_or("");
                        (rel, render(body))
                    })
                    .collect(),
            }
        } else {
            SourceContent::Missing
        };
        contents.push((index, content));
    }
    build_document("demo".to_string(), ROOT.to_string(), contents)
}

fn section_paths(document: &ReviewDocument) -> Vec<&str> {
    document
        .sections
        .iter()
        .map(|section| section.relative_path.as_str())
        .collect()
}

fn visible_text(document: &ReviewDocument) -> String {
    document.visible_text()
}

#[test]
fn review_build_includes_status_first_then_current_gate_sources() {
    let document = build(
        &[
            ("00-status.md", "# Leaf 상태\n\n- current gate: ④ Wireframe\n"),
            ("01-Learn/01-intent.md", "# Intent\n\n목표\n"),
            ("01-Learn/02-unknowns.md", "# Unknowns\n\n맥락\n"),
            ("02-Example/03-criteria.md", "# Criteria\n\n기준\n"),
            ("02-Example/04-wireframe.md", "# Wireframe\n\n화면\n"),
        ],
        &[],
    );

    assert_eq!(
        section_paths(&document),
        vec![
            ".leaf/02-leaves/demo/00-status.md",
            ".leaf/02-leaves/demo/01-Learn/01-intent.md",
            ".leaf/02-leaves/demo/01-Learn/02-unknowns.md",
            ".leaf/02-leaves/demo/02-Example/03-criteria.md",
            ".leaf/02-leaves/demo/02-Example/04-wireframe.md",
        ]
    );
    assert!(visible_text(&document).contains("Wireframe"));
}

#[test]
fn review_build_adds_two_blank_lines_before_file_boundaries_after_first() {
    let document = build(
        &[
            ("00-status.md", "# Status\n\n- current gate: ① Intent\n"),
            ("01-Learn/01-intent.md", "# Intent\n\nGoal\n"),
        ],
        &[],
    );

    assert!(matches!(
        document.lines.first(),
        Some(ReviewLine::Separator { relative_path, .. })
            if relative_path == ".leaf/02-leaves/demo/00-status.md"
    ));
    let intent_start = document.sections[1].start_line;
    assert!(matches!(
        &document.lines[intent_start],
        ReviewLine::Separator { relative_path, .. }
            if relative_path == ".leaf/02-leaves/demo/01-Learn/01-intent.md"
    ));
    assert_eq!(document.lines[intent_start - 1].visible_text(), "");
    assert_eq!(document.lines[intent_start - 2].visible_text(), "");
}

#[test]
fn review_build_marks_missing_sources_through_current_gate() {
    let document = build(
        &[
            ("00-status.md", "# Leaf 상태\n\n- current gate: ⑤ Design\n"),
            ("01-Learn/01-intent.md", "# Intent\n"),
            ("01-Learn/02-unknowns.md", "# Unknowns\n"),
            ("02-Example/03-criteria.md", "# Criteria\n"),
            ("02-Example/04-wireframe.md", "# Wireframe\n"),
        ],
        &[],
    );
    let text = visible_text(&document);

    assert!(text.contains("MISSING SOURCE"));
    assert!(text.contains(".leaf/02-leaves/demo/03-Architect/05-design.md"));
    assert!(!text.contains(".leaf/02-leaves/demo/03-Architect/06-critic.md"));
}

#[test]
fn review_build_includes_existing_future_gate_files() {
    let document = build(
        &[
            ("00-status.md", "# Leaf 상태\n\n- current gate: ④ Wireframe\n"),
            ("01-Learn/01-intent.md", "# Intent\n"),
            ("01-Learn/02-unknowns.md", "# Unknowns\n"),
            ("02-Example/03-criteria.md", "# Criteria\n"),
            ("02-Example/04-wireframe.md", "# Wireframe\n"),
            ("03-Architect/05-design.md", "# Design\n\n미리 작성됨\n"),
        ],
        &[],
    );

    assert!(section_paths(&document).contains(&".leaf/02-leaves/demo/03-Architect/05-design.md"));
    assert!(visible_text(&document).contains("미리 작성됨"));
}

#[test]
fn review_build_accepts_g_prefixed_current_gate_labels() {
    let document = build(
        &[
            ("00-status.md", "# Leaf Status\n\n- current gate: G3\n"),
            ("01-Learn/01-intent.md", "# Intent\n"),
            ("01-Learn/02-unknowns.md", "# Unknowns\n"),
        ],
        &[],
    );
    let text = visible_text(&document);

    assert!(text.contains("MISSING SOURCE"));
    assert!(text.contains(".leaf/02-leaves/demo/02-Example/03-criteria.md"));
    assert!(!text.contains(".leaf/02-leaves/demo/02-Example/04-wireframe.md"));
}

#[test]
fn review_build_normalizes_current_gate_field_like_inventory_status_parser() {
    let document = build(
        &[
            (
                "00-status.md",
                "# Leaf Status\n\n- current   gate: ⑤ Design\n\n## Later\n\n- current gate: ① Intent\n",
            ),
            ("01-Learn/01-intent.md", "# Intent\n"),
            ("01-Learn/02-unknowns.md", "# Unknowns\n"),
            ("02-Example/03-criteria.md", "# Criteria\n"),
            ("02-Example/04-wireframe.md", "# Wireframe\n"),
        ],
        &[],
    );
    let text = visible_text(&document);

    assert!(text.contains("MISSING SOURCE"));
    assert!(text.contains(".leaf/02-leaves/demo/03-Architect/05-design.md"));
    assert!(!text.contains(".leaf/02-leaves/demo/03-Architect/06-critic.md"));
}

#[test]
fn review_build_requires_critic_file_through_tasks() {
    let document = build(
        &[
            ("00-status.md", "# Leaf Status\n\n- current gate: ⑦ Tasks\n"),
            ("01-Learn/01-intent.md", "# Intent\n"),
            ("01-Learn/02-unknowns.md", "# Unknowns\n"),
            ("02-Example/03-criteria.md", "# Criteria\n"),
            ("02-Example/04-wireframe.md", "# Wireframe\n"),
            ("03-Architect/05-design.md", "# Design\n\nCritic quick pass: APPROVE.\n"),
        ],
        &[],
    );
    let text = visible_text(&document);

    assert!(text.contains(".leaf/02-leaves/demo/03-Architect/06-critic.md"));
    assert!(text.contains(".leaf/02-leaves/demo/03-Architect/07-tasks.md"));
    assert!(text.contains("MISSING SOURCE"));
}

#[test]
fn review_build_uses_folder_form_gate_sources_when_markdown_file_is_absent() {
    let document = build(
        &[
            ("00-status.md", "# Leaf Status\n\n- current gate: ⑩ Retrospect\n"),
            ("01-Learn/01-intent.md", "# Intent\n"),
            ("01-Learn/02-unknowns.md", "# Unknowns\n"),
            ("02-Example/03-criteria.md", "# Criteria\n"),
            ("02-Example/04-wireframe/02-second.md", "# Second Wireframe\n"),
            ("02-Example/04-wireframe/01-first.md", "# First Wireframe\n"),
            ("03-Architect/05-design.md", "# Design\n"),
            ("03-Architect/06-critic.md", "# Critic\n"),
            ("03-Architect/07-tasks.md", "# Tasks\n"),
            ("03-Architect/08-execution.md", "# Execution\n"),
            ("04-Feedback/09-reviews/02-followup.md", "# Follow-up Review\n"),
            ("04-Feedback/09-reviews/01-initial.md", "# Initial Review\n"),
            ("04-Feedback/10-retrospective/01-retro.md", "# Retrospective\n"),
        ],
        &[],
    );

    assert_eq!(
        section_paths(&document),
        vec![
            ".leaf/02-leaves/demo/00-status.md",
            ".leaf/02-leaves/demo/01-Learn/01-intent.md",
            ".leaf/02-leaves/demo/01-Learn/02-unknowns.md",
            ".leaf/02-leaves/demo/02-Example/03-criteria.md",
            ".leaf/02-leaves/demo/02-Example/04-wireframe/01-first.md",
            ".leaf/02-leaves/demo/02-Example/04-wireframe/02-second.md",
            ".leaf/02-leaves/demo/03-Architect/05-design.md",
            ".leaf/02-leaves/demo/03-Architect/06-critic.md",
            ".leaf/02-leaves/demo/03-Architect/07-tasks.md",
            ".leaf/02-leaves/demo/03-Architect/08-execution.md",
            ".leaf/02-leaves/demo/04-Feedback/09-reviews/01-initial.md",
            ".leaf/02-leaves/demo/04-Feedback/09-reviews/02-followup.md",
            ".leaf/02-leaves/demo/04-Feedback/10-retrospective/01-retro.md",
        ]
    );
    assert_eq!(document.source_count, document.sections.len());
    assert!(!visible_text(&document).contains("MISSING SOURCE"));
}

#[test]
fn review_build_reports_folder_form_gate_source_without_markdown_files() {
    let document = build(
        &[
            ("00-status.md", "# Leaf Status\n\n- current gate: ④ Wireframe\n"),
            ("01-Learn/01-intent.md", "# Intent\n"),
            ("01-Learn/02-unknowns.md", "# Unknowns\n"),
            ("02-Example/03-criteria.md", "# Criteria\n"),
            ("02-Example/04-wireframe/notes.txt", "not markdown\n"),
        ],
        &["02-Example/04-wireframe"],
    );
    let text = visible_text(&document);

    assert!(text.contains("NO MARKDOWN SOURCES"));
    assert!(text.contains(".leaf/02-leaves/demo/02-Example/04-wireframe/"));
    assert!(!text.contains("MISSING SOURCE"));
}

#[test]
fn reference_files_lists_markdown_filename_ascending_ignoring_others() {
    let entries = vec![
        ("terrain.md".to_string(), true),
        ("README.md".to_string(), true),
        ("source-map.txt".to_string(), true),
        ("nested".to_string(), false),
    ];

    let references = reference_files(ROOT, true, &entries);
    let relative: Vec<&str> = references.iter().map(String::as_str).collect();

    assert_eq!(
        relative,
        vec![
            ".leaf/02-leaves/demo/01-Learn/02-references/README.md",
            ".leaf/02-leaves/demo/01-Learn/02-references/terrain.md",
        ],
        "only top-level .md, filename ascending, repo-relative"
    );
}

#[test]
fn reference_files_is_empty_when_folder_missing() {
    let references = reference_files(ROOT, false, &Vec::new());

    assert!(references.is_empty());
}

#[test]
fn write_references_text_emits_section_or_nothing() {
    let entries = vec![("terrain.md".to_string(), true), ("README.md".to_string(), true)];
    let references = reference_files(ROOT, true, &entries);
    let text = write_references_text(&references);

    assert!(text.contains("REFERENCES (2)"));
    assert!(text.contains("  .leaf/02-leaves/demo/01-Learn/02-references/README.md"));
    assert!(text.contains("  .leaf/02-leaves/demo/01-Learn/02-references/terrain.md"));

    let empty = write_references_text(&[]);
    assert!(empty.is_empty(), "no section when there are no references");
}

#[test]
fn current_gate_reads_only_the_preamble() {
    assert_eq!(parse_current_gate("- current gate: ③ Criteria\n"), Some(3));
    assert_eq!(parse_current_gate("## Later\n- current gate: ③ Criteria\n"), None);
    assert_eq!(parse_current_gate("-   CURRENT  Gate : g10\n"), Some(10));
    assert_eq!(parse_current_gate("- current gate: later\n- current gate: ②\n"), None);
}
