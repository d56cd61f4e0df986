use leaf::item_preview::{
    leaf_work_preview, pressed_digest_preview, unreadable_digest_preview, unreadable_source_line,
    MAX_LEAF_PREVIEW_LINES,
};
use leaf::preview::PreviewLine;
use leaf::sidecar::{sidecar_state, sidecar_summary};

fn plain(text: &str) -> PreviewLine {
    PreviewLine::Plain(text.to_string())
}

fn plain_text(line: &PreviewLine) -> Option<&str> {
    match line {
        PreviewLine::Plain(text) => Some(text.as_str()),
        _ => None,
    }
}

#[test]
fn leaf_work_preview_joins_status_and_gates_with_boundaries() {
    let preview = leaf_work_preview(
        "demo",
        vec![plain("status")],
        Some(vec![plain("intent")]),
        None,
        Some(vec![plain("criteria")]),
    );
    assert_eq!(preview.title, "demo");
    assert_eq!(preview.lines.len(), 9);
    assert_eq!(plain_text(&preview.lines[0]), Some("status"));
    assert_eq!(plain_text(&preview.lines[1]), Some(""));
    assert_eq!(plain_text(&preview.lines[2]), Some(""));
    match &preview.lines[3] {
        PreviewLine::SourceBoundary { phase, gate, source } => {
            assert_eq!(phase, "Learn");
            assert_eq!(gate, "\u{2460} Intent");
            assert_eq!(source, "01-Learn/01-intent.md");
        }
        other => panic!("expected a source boundary, got {other:?}"),
    }
    assert_eq!(plain_text(&preview.lines[4]), Some("intent"));
    match &preview.lines[7] {
        PreviewLine::SourceBoundary { phase, source, .. } => {
            assert_eq!(phase, "Example");
            assert_eq!(source, "02-Example/03-criteria.md");
        }
        other => panic!("expected a source boundary, got {other:?}"),
    }
    assert_eq!(plain_text(&preview.lines[8]), Some("criteria"));
}

#[test]
fn leaf_work_preview_without_status_starts_with_the_first_gate() {
    let preview = leaf_work_preview("demo", Vec::new(), None, Some(vec![plain("u")]), None);
    assert_eq!(preview.lines.len(), 2);
    assert!(matches!(&preview.lines[0], PreviewLine::SourceBoundary { gate, .. } if gate == "\u{2461} Unknowns"));
}

#[test]
fn leaf_work_preview_is_capped_and_never_empty() {
    let status: Vec<PreviewLine> = (0..40).map(|i| plain(&i.to_string())).collect();
    let preview = leaf_work_preview("demo", status, None, None, None);
    assert_eq!(preview.lines.len(), MAX_LEAF_PREVIEW_LINES);
    let empty = leaf_work_preview("demo", Vec::new(), None, None, None);
    assert_eq!(empty.lines.len(), 1);
    assert_eq!(plain_text(&empty.lines[0]), Some("No preview available."));
}

#[test]
fn pressed_digest_preview_uses_heading_or_slug() {
    let titled = pressed_digest_preview("demo", Some("Title".to_string()), vec![plain("body")]);
    assert_eq!(titled.title, "Title");
    assert_eq!(plain_text(&titled.lines[0]), Some("body"));
    let untitled = pressed_digest_preview("demo", None, Vec::new());
    assert_eq!(untitled.title, "demo");
    assert_eq!(plain_text(&untitled.lines[0]), Some("No preview available."));
}

#[test]
fn unreadable_sources_name_path_and_error() {
    let line = unreadable_source_line("a/b.md", "denied");
    assert_eq!(plain_text(&line), Some("Unable to read preview source a/b.md: denied"));
    let preview = unreadable_digest_preview("demo", "p.md", "gone");
    assert_eq!(preview.title, "demo");
    assert_eq!(plain_text(&preview.lines[0]), Some("Unable to read preview source p.md: gone"));
}

#[test]
fn sidecar_state_orders_broken_missing_stale_fresh() {
    assert_eq!(sidecar_state(false, false, true), "broken");
    assert_eq!(sidecar_state(true, false, true), "missing");
    assert_eq!(sidecar_state(true, true, true), "stale");
    assert_eq!(sidecar_state(true, true, false), "fresh");
}

#[test]
fn sidecar_summary_mentions_missing_and_broken_only_when_present() {
    assert_eq!(sidecar_summary(3, 1, 0, 0), "\n3 sidecars \u{b7} 1 stale");
    assert_eq!(sidecar_summary(12, 0, 2, 1), "\n12 sidecars \u{b7} 0 stale \u{b7} 2 missing \u{b7} 1 broken");
}
