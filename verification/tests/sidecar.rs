use leaf::sidecar::{normalize_artifact, pad_display, replace_last_verified, repo_relative, rewrite_last_verified_line};
use unicode_width::UnicodeWidthStr;

#[test]
fn pad_display_accounts_for_wide_glyphs() {
    assert_eq!(pad_display("가", 4).width(), 4);
    assert_eq!(pad_display("a", 4), "a   ");
}

#[test]
fn pad_display_never_truncates() {
    assert_eq!(pad_display("abcdef", 3), "abcdef");
}

#[test]
fn replace_last_verified_swaps_value_and_keeps_trailing_comment() {
    let original =
        "schema = \"x\"\nlast_verified = \"2000-01-01\"  # checked\nresponsibility = \"y\"\n";
    let updated = replace_last_verified(original, "2026-06-29").expect("replaced");
    assert!(updated.contains("last_verified = \"2026-06-29\""));
    assert!(updated.contains("# checked"));
    assert!(!updated.contains("2000-01-01"));
    assert!(updated.contains("schema = \"x\""));
}

#[test]
fn replace_last_verified_bails_when_line_absent() {
    let original = "schema = \"x\"\nresponsibility = \"y\"\n";
    assert!(replace_last_verified(original, "2026-06-29").is_err());
}

#[test]
fn replace_last_verified_rewrites_only_the_first_line_and_keeps_the_rest() {
    let original = "  last_verified=\"a\"\nlast_verified = \"b\"";
    assert_eq!(
        replace_last_verified(original, "T").unwrap(),
        "  last_verified = \"T\"\nlast_verified = \"b\""
    );
    assert_eq!(
        replace_last_verified("", "T").unwrap_err(),
        "sidecar is not valid; run leaf doctor"
    );
}

#[test]
fn rewrite_line_needs_a_closing_quote() {
    assert_eq!(rewrite_last_verified_line("last_verified = \"x", "T"), None);
    assert_eq!(rewrite_last_verified_line("last_verified \"x\"", "T"), None);
    assert_eq!(
        rewrite_last_verified_line("\tlast_verified = \"x\"\n", "T").as_deref(),
        Some("\tlast_verified = \"T\"\n")
    );
}

#[test]
fn normalize_artifact_strips_curdir_and_rejects_escapes() {
    assert_eq!(normalize_artifact("./src/a.rs").expect("dotslash"), "src/a.rs");
    assert_eq!(normalize_artifact("src/a.rs").expect("plain"), "src/a.rs");
    assert!(normalize_artifact("../x").is_err());
    assert!(normalize_artifact("/abs").is_err());
}

#[test]
fn normalize_artifact_rejects_empty_and_collapses_separators() {
    assert_eq!(
        normalize_artifact("./").unwrap_err(),
        "artifact path must be inside the repo: ./"
    );
    assert_eq!(normalize_artifact("src//./a.rs").unwrap(), "src/a.rs");
}

#[test]
fn repo_relative_joins_remaining_components() {
    assert_eq!(repo_relative("/repo", "/repo/src/a.rs"), "src/a.rs");
    assert_eq!(repo_relative("/repo", "/other/a.rs"), "///other/a.rs".replacen("///", "//", 1));
}
