use leaf::checkpoint::utc_timestamp;
use leaf::date::secs_since_epoch;
use leaf::lifecycle::unix_timestamp;
use leaf::sidecar::{
    rows_summary, scaffold_responsibility, sidecar_artifact_path, sidecar_list_text, sidecar_row, sort_rows,
    verified_update,
};
use std::time::{Duration, UNIX_EPOCH};

#[test]
fn secs_since_epoch_counts_whole_seconds() {
    assert_eq!(secs_since_epoch(UNIX_EPOCH + Duration::from_millis(86_400_999)), Ok(86_400));
    assert_eq!(
        secs_since_epoch(UNIX_EPOCH - Duration::from_secs(1)),
        Err("system time is before Unix epoch".to_string())
    );
}

#[test]
fn time_stamps_follow_the_seconds() {
    let t = UNIX_EPOCH + Duration::from_secs(1_782_132_420);
    assert_eq!(unix_timestamp(t), Ok("unix:1782132420".to_string()));
    assert_eq!(utc_timestamp(t), Ok("260622-1247".to_string()));
    let before = UNIX_EPOCH - Duration::from_secs(5);
    assert_eq!(unix_timestamp(before), Err("system clock is before the unix epoch".to_string()));
    assert!(utc_timestamp(before).is_err());
}

#[test]
fn verified_update_refuses_invalid_toml_and_rewrites_last_verified() {
    let content = "schema = \"leaf.srp-sidecar.v1\"\nlast_verified = \"2024-01-01\"\n";
    assert_eq!(
        verified_update(content, "2026-06-22"),
        Ok("schema = \"leaf.srp-sidecar.v1\"\nlast_verified = \"2026-06-22\"\n".to_string())
    );
    assert_eq!(
        verified_update("schema = [", "2026-06-22"),
        Err("sidecar is not valid; run leaf doctor".to_string())
    );
    assert_eq!(
        verified_update("schema = \"x\"\n", "2026-06-22"),
        Err("sidecar is not valid; run leaf doctor".to_string())
    );
}

#[test]
fn sidecar_rows_classify_read_and_sort() {
    assert_eq!(sidecar_artifact_path("src/a.rs.leaf.local.toml"), "src/a.rs");
    assert_eq!(sidecar_artifact_path("notes.toml"), "notes.toml");
    let fresh = sidecar_row(
        "src/b.rs.leaf.local.toml",
        Some("last_verified = \"2025-01-02\"\n".to_string()),
        true,
        false,
    );
    assert_eq!(fresh.artifact, "src/b.rs");
    assert_eq!(fresh.sidecar, "src/b.rs.leaf.local.toml");
    assert_eq!(fresh.last_verified.as_deref(), Some("2025-01-02"));
    assert_eq!(fresh.state, "fresh");
    let stale = sidecar_row("src/a.rs.leaf.local.toml", Some("x = 1\n".to_string()), true, true);
    assert_eq!(stale.state, "stale");
    assert_eq!(stale.last_verified, None);
    let missing = sidecar_row("src/c.rs.leaf.local.toml", Some(String::new()), false, false);
    assert_eq!(missing.state, "missing");
    let broken = sidecar_row("src/d.rs.leaf.local.toml", Some("= =".to_string()), true, false);
    assert_eq!(broken.state, "broken");
    let unreadable = sidecar_row("src/e.rs.leaf.local.toml", None, true, false);
    assert_eq!(unreadable.state, "broken");
    let rows = sort_rows(vec![fresh, broken, stale, missing, unreadable]);
    let order: Vec<&str> = rows.iter().map(|r| r.artifact.as_str()).collect();
    assert_eq!(order, vec!["src/a.rs", "src/b.rs", "src/c.rs", "src/d.rs", "src/e.rs"]);
    assert_eq!(rows_summary(&rows), "\n5 sidecars \u{b7} 1 stale \u{b7} 1 missing \u{b7} 2 broken");
}

#[test]
fn scaffold_responsibility_trims_or_writes_a_todo() {
    assert_eq!(scaffold_responsibility("src/a.rs", Some("  owns parsing ")), ("owns parsing".to_string(), false));
    assert_eq!(
        scaffold_responsibility("src/a.rs", Some("   ")),
        ("TODO: src/a.rs의 단일 책임을 한 문장으로".to_string(), true)
    );
    assert_eq!(
        scaffold_responsibility("src/a.rs", None),
        ("TODO: src/a.rs의 단일 책임을 한 문장으로".to_string(), true)
    );
}

#[test]
fn sidecar_list_text_pads_columns_and_summarises() {
    assert_eq!(sidecar_list_text(&Vec::new()), "no sidecars found\n");
    let rows = sort_rows(vec![
        sidecar_row("src/lib.rs.leaf.local.toml", Some("last_verified = \"2025-01-02\"\n".to_string()), true, false),
        sidecar_row("b.rs.leaf.local.toml", None, true, false),
    ]);
    assert_eq!(
        sidecar_list_text(&rows),
        "ARTIFACT    LAST_VERIFIED  STATE\n\
         b.rs        -              broken\n\
         src/lib.rs  2025-01-02     fresh\n\
         \n2 sidecars \u{b7} 0 stale \u{b7} 1 broken\n"
    );
}
