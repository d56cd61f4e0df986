use leaf::profile::{config_dir_from, global_profile_path, render_effective, ProfileSource};

fn os(value: &str) -> Option<String> {
    Some(value.to_string())
}

fn source(path: &str, content: Option<&str>) -> ProfileSource {
    ProfileSource {
        path: path.to_string(),
        content: content.map(str::to_string),
    }
}

#[test]
fn config_dir_prefers_leaf_config_dir() {
    let dir = config_dir_from(os("/custom"), os("/xdg"), os("/home/u"));
    assert_eq!(dir, Some("/custom".to_string()));
}

#[test]
fn config_dir_falls_back_to_xdg_config_home() {
    let dir = config_dir_from(None, os("/xdg"), os("/home/u"));
    assert_eq!(dir, Some("/xdg/leaf".to_string()));
}

#[test]
fn config_dir_falls_back_to_home_dot_config() {
    let dir = config_dir_from(None, None, os("/home/u"));
    assert_eq!(dir, Some("/home/u/.config/leaf".to_string()));
}

#[test]
fn config_dir_treats_empty_values_as_unset() {
    let dir = config_dir_from(os(""), os(""), os("/home/u"));
    assert_eq!(dir, Some("/home/u/.config/leaf".to_string()));
    assert_eq!(config_dir_from(os(""), os(""), None), None);
}

#[test]
fn global_profile_path_joins_the_file_name() {
    assert_eq!(global_profile_path("/cfg/leaf"), "/cfg/leaf/profile.md");
    assert_eq!(global_profile_path("/cfg/leaf/"), "/cfg/leaf/profile.md");
}

#[test]
fn render_layers_global_then_local_with_source_markers() {
    let global = source("/cfg/leaf/profile.md", Some("## User Language\n\n- 한국어\n"));
    let local = source("/repo/.leaf/PROFILE.md", Some("## Settled\n\n- repo fact\n"));
    let text = render_effective(Some(&global), Some(&local));

    let global_marker = text.find("<!-- global: /cfg/leaf/profile.md -->").unwrap();
    let local_marker = text.find("<!-- local: /repo/.leaf/PROFILE.md -->").unwrap();
    assert!(global_marker < local_marker, "global must come first:\n{text}");
    assert!(text.contains("- 한국어"));
    assert!(text.contains("- repo fact"));
    assert!(
        text.contains("local") && text.contains("global"),
        "precedence note should mention both layers:\n{text}"
    );
}

#[test]
fn render_marks_missing_global_file() {
    let global = source("/cfg/leaf/profile.md", None);
    let local = source("/repo/.leaf/PROFILE.md", Some("body\n"));
    let text = render_effective(Some(&global), Some(&local));

    assert!(
        text.contains("<!-- global: /cfg/leaf/profile.md (missing; run `leaf init`) -->"),
        "missing global must keep its marker:\n{text}"
    );
    assert!(text.contains("body"));
}

#[test]
fn render_outside_git_repo_shows_global_only() {
    let global = source("/cfg/leaf/profile.md", Some("global body\n"));
    let text = render_effective(Some(&global), None);

    assert!(text.contains("global body"));
    assert!(
        text.contains("<!-- local: (not in a git repository) -->"),
        "local layer must explain why it is absent:\n{text}"
    );
}

#[test]
fn render_with_nothing_available_still_emits_markers() {
    let text = render_effective(None, None);
    assert!(
        text.contains("<!-- global: (unavailable) -->"),
        "unknown global location must be visible:\n{text}"
    );
    assert!(text.contains("<!-- local: (not in a git repository) -->"));
}

#[test]
fn render_trims_trailing_whitespace_of_each_layer() {
    let global = source("/g", Some("a\n\n\n"));
    let text = render_effective(Some(&global), None);
    assert!(text.ends_with("\n<!-- global: /g -->\na\n\n<!-- local: (not in a git repository) -->\n"));
}
