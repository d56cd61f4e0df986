use leaf::codex_config::{non_empty_trimmed, CodexSettings, CodexTuiSettings, CodexTuiToml};
use leaf::git::git_output_value;
use leaf::links::{
    bare_url_spans, display_local_link_path, expand_local_link_path, is_local_path_like_link,
    local_link_target, normalize_local_link_path_text, percent_decode_path_text,
};
use leaf::preview::{PreviewColor, PreviewSpan};
use leaf::storage::{
    directory_needs_creating, exclude_addition, leaf_directories, profile_needs_creating,
    ProfilePathState,
};
use leaf::fs_ext::DirectoryStatus;
use leaf::syntax::{
    builtin_theme_name, normalized_builtin_theme_name, patched_language, preview_color,
    validate_theme_name,
};

#[test]
fn local_link_paths_are_normalized_and_shown_relative_to_cwd() {
    assert_eq!(normalize_local_link_path_text("a\\b\\c"), "a/b/c");
    assert_eq!(normalize_local_link_path_text("\\\\server\\share"), "//server/share");
    assert_eq!(display_local_link_path("/w/src/lib.rs", Some("/w")), "src/lib.rs");
    assert_eq!(display_local_link_path("/w", Some("/w")), "/w");
    assert_eq!(display_local_link_path("/other/x", Some("/w")), "/other/x");
    assert_eq!(display_local_link_path("rel/x", Some("/w")), "rel/x");
    assert_eq!(expand_local_link_path("~/notes.md", Some("/home/u")), "/home/u/notes.md");
    assert_eq!(expand_local_link_path("My%20File.md", None), "My File.md");
    assert_eq!(percent_decode_path_text("%E2%9C%93%zz"), "✓%zz");
}

#[test]
fn local_link_targets_split_location_suffixes() {
    let t = local_link_target("./src/lib.rs#L10C2-L12", None, None).unwrap();
    assert_eq!(t, ("./src/lib.rs".to_string(), Some(":10:2-12".to_string())));
    let t = local_link_target("./src/lib.rs:10:2", None, None).unwrap();
    assert_eq!(t, ("./src/lib.rs".to_string(), Some(":10:2".to_string())));
    let t = local_link_target("C:/src/lib.rs:7", None, None).unwrap();
    assert_eq!(t, ("C:/src/lib.rs".to_string(), Some(":7".to_string())));
    let t = local_link_target("./a.md#intro", None, None).unwrap();
    assert_eq!(t, ("./a.md#intro".to_string(), None));
    assert!(is_local_path_like_link("../x"));
    assert!(is_local_path_like_link("D:\\x"));
    assert!(!is_local_path_like_link("https://example.com"));
}

#[test]
fn bare_urls_keep_trailing_punctuation_plain() {
    let spans = bare_url_spans("https://e.com/x).", 3).unwrap();
    assert_eq!(spans.len(), 2);
    match &spans[0] {
        PreviewSpan::Link { text, target, source_range, local } => {
            assert_eq!(text, "https://e.com/x");
            assert_eq!(target, "https://e.com/x");
            assert_eq!((source_range.start, source_range.end), (3, 18));
            assert!(!local);
        }
        other => panic!("expected link, got {other:?}"),
    }
    assert!(matches!(&spans[1], PreviewSpan::Plain(t) if t == ")."));
    assert!(bare_url_spans("see https://e.com", 0).is_none());
    assert!(bare_url_spans("ftp://e.com", 0).is_none());
}

#[test]
fn git_output_is_trimmed_or_reported() {
    let args = ["rev-parse", "--show-toplevel"];
    assert_eq!(git_output_value(&args, true, Some(" /repo \n"), "").unwrap(), "/repo");
    assert_eq!(
        git_output_value(&args, false, Some(""), " fatal: no \n").unwrap_err(),
        "git rev-parse --show-toplevel failed: fatal: no"
    );
    assert_eq!(
        git_output_value(&args, false, None, "  ").unwrap_err(),
        "git rev-parse --show-toplevel failed"
    );
    assert_eq!(
        git_output_value(&args, true, None, "").unwrap_err(),
        "git rev-parse --show-toplevel returned non-utf8 output"
    );
    assert_eq!(
        git_output_value(&args, true, Some("\n"), "").unwrap_err(),
        "git rev-parse --show-toplevel returned empty output"
    );
}

#[test]
fn storage_setup_decisions() {
    assert_eq!(
        leaf_directories("/r"),
        vec!["/r/.leaf", "/r/.leaf/01-sprouts", "/r/.leaf/02-leaves", "/r/.leaf/03-fallen"]
    );
    assert_eq!(directory_needs_creating(DirectoryStatus::Missing, "/d"), Ok(true));
    assert_eq!(directory_needs_creating(DirectoryStatus::Directory, "/d"), Ok(false));
    assert_eq!(
        directory_needs_creating(DirectoryStatus::NotDirectory, "/d"),
        Err("path exists but is not a directory: /d".to_string())
    );
    assert_eq!(profile_needs_creating(ProfilePathState::Missing, "/p"), Ok(true));
    assert_eq!(profile_needs_creating(ProfilePathState::Present, "/p"), Ok(false));
    assert_eq!(
        profile_needs_creating(ProfilePathState::Directory, "/p"),
        Err("path exists but is a directory: /p".to_string())
    );
    assert_eq!(exclude_addition("").unwrap(), "/.leaf\n*.leaf.local.toml\n");
    assert_eq!(exclude_addition("x").unwrap(), "\n/.leaf\n*.leaf.local.toml\n");
    assert_eq!(exclude_addition("/.leaf\r\n").unwrap(), "*.leaf.local.toml\n");
    assert!(exclude_addition("*.leaf.local.toml\n/.leaf\n").is_none());
}

#[test]
fn codex_settings_follow_the_tui_table() {
    assert_eq!(non_empty_trimmed("  gruvbox-dark "), Some("gruvbox-dark".to_string()));
    assert_eq!(non_empty_trimmed("   "), None);
    let tui = Some(CodexTuiToml {
        theme: Some(" dracula ".to_string()),
        status_line_use_colors: Some(false),
    });
    let settings = CodexSettings::from_config_path("/home/u/.codex/config.toml", &tui);
    assert_eq!(settings.codex_home.as_deref(), Some("/home/u/.codex"));
    assert_eq!(settings.tui.theme.as_deref(), Some("dracula"));
    assert!(!settings.markdown_render_settings().use_theme_colors);
    let defaults = CodexTuiSettings::from_config(&None);
    assert_eq!(defaults.theme, None);
    assert!(defaults.status_line_use_colors);
    let no_home = CodexSettings::from_codex_home(None, &tui);
    assert_eq!(no_home.tui.theme, None);
}

#[test]
fn theme_names_and_warnings() {
    assert_eq!(normalized_builtin_theme_name(" Gruvbox Dark "), "gruvbox-dark");
    assert_eq!(builtin_theme_name("catppuccin_mocha").as_deref(), Some("catppuccin-mocha"));
    assert!(builtin_theme_name("not-a-real-theme").is_none());
    assert!(validate_theme_name(Some("dracula"), None, false, false).is_none());
    let missing = validate_theme_name(Some("my-custom"), Some("/h"), false, false).unwrap();
    assert!(missing.contains("my-custom"));
    assert!(missing.contains("themes/my-custom.tmTheme"));
    let broken = validate_theme_name(Some("broken"), Some("/h"), true, false).unwrap();
    assert!(broken.contains("could not be loaded"));
    assert!(validate_theme_name(Some("valid"), Some("/h"), true, true).is_none());
    assert_eq!(patched_language("golang"), "go");
    assert_eq!(patched_language("rust"), "rust");
    assert!(matches!(preview_color(3, 4, 5, 0), Some(PreviewColor::Ansi(3))));
    assert!(preview_color(3, 4, 5, 1).is_none());
    assert!(matches!(preview_color(3, 4, 5, 255), Some(PreviewColor::Rgb(3, 4, 5))));
}
