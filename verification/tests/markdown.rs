use leaf::preview::{
    display_width, preview_visible_text, wrapped_table_line_texts, PreviewLine,
    PreviewSourceRange, PreviewSpan,
};

fn render_markdown_with_cwd(content: &str, cwd: Option<&str>) -> Vec<PreviewLine> {
    leaf::markdown::render_markdown_with_cwd(content, cwd, None).expect("renderable markdown")
}

fn marked_lines(lines: Vec<String>) -> Vec<PreviewLine> {
    render_markdown_with_cwd(&lines.join("\n"), None)
}

fn line_text(line: &PreviewLine) -> String {
    preview_visible_text(line)
}

fn span_text(spans: &[PreviewSpan]) -> String {
    spans.iter().map(|span| span.text().to_string()).collect()
}

fn render_snapshot_lines(markdown: &str, cwd: Option<&str>) -> Vec<String> {
    render_markdown_with_cwd(markdown, cwd).iter().map(line_text).collect()
}

#[test]
fn preview_markdown_preserves_heading_levels() {
    let lines = render_markdown_with_cwd("# H1\n### H3\n###### H6\n", None);

    assert!(matches!(
        &lines[0],
        PreviewLine::Heading { level: 1, text } if text == "H1"
    ));
    assert!(matches!(
        &lines[1],
        PreviewLine::Heading { level: 3, text } if text == "H3"
    ));
    assert!(matches!(
        &lines[2],
        PreviewLine::Heading { level: 6, text } if text == "H6"
    ));
}

#[test]
fn preview_markdown_unknown_language_code_block_stays_plain() {
    let lines = marked_lines(vec![
        "```xyzlang".to_string(),
        "hello world".to_string(),
        "```".to_string(),
    ]);

    assert_eq!(
        lines.iter().map(line_text).collect::<Vec<_>>(),
        vec!["hello world"]
    );
    assert!(matches!(lines[0], PreviewLine::Code(ref text) if text == "hello world"));
}

#[test]
fn preview_markdown_code_block_with_inner_triple_backticks_stays_literal() {
    let text = render_snapshot_lines(
        r#"````text
Here is a code block:

```md
# Inside fence
- `inline code`
```
````
"#,
        None,
    );

    assert_eq!(
        text,
        vec![
            "Here is a code block:",
            "",
            "```md",
            "# Inside fence",
            "- `inline code`",
            "```",
        ]
    );
}

#[test]
fn preview_markdown_code_block_preserves_trailing_blank_lines() {
    let text = render_snapshot_lines("```rust\nfn main() {}\n\n```\n", None);
    let code_index = text
        .iter()
        .position(|line| line == "fn main() {}")
        .expect("code line");

    assert_eq!(text.get(code_index + 1).map(String::as_str), Some(""));
}

#[test]
fn preview_markdown_code_block_inside_list_keeps_parent_then_indented_code() {
    let text =
        render_snapshot_lines("- Item\n\n  ```xyzlang\n  first\n  second\n  ```\n", None);

    assert_eq!(text, vec!["• Item", "  first", "  second"]);
}

#[test]
fn preview_markdown_inline_html_is_verbatim() {
    let text = render_snapshot_lines("Hello <span>world</span>!", None);

    assert_eq!(text, vec!["Hello <span>world</span>!"]);
}

#[test]
fn preview_markdown_html_block_is_verbatim_multiline() {
    let text = render_snapshot_lines("<div>\n  <span>hi</span>\n</div>\n", None);

    assert_eq!(text, vec!["<div>", "  <span>hi</span>", "</div>"]);
}

#[test]
fn preview_markdown_emphasis_becomes_italic_style_span() {
    let lines = render_markdown_with_cwd("*Emphasis*", None);

    let PreviewLine::Styled(spans) = &lines[0] else {
        panic!("expected styled emphasis line, got {:?}", lines[0]);
    };
    assert!(matches!(
        &spans[0],
        PreviewSpan::StyledText { text, style }
            if text == "Emphasis" && style.italic && !style.bold && !style.strikethrough
    ));
}

#[test]
fn preview_markdown_strikethrough_becomes_crossed_out_style_span() {
    let lines = render_markdown_with_cwd("~~Strikethrough~~", None);

    let PreviewLine::Styled(spans) = &lines[0] else {
        panic!("expected styled strikethrough line, got {:?}", lines[0]);
    };
    assert!(matches!(
        &spans[0],
        PreviewSpan::StyledText { text, style }
            if text == "Strikethrough" && style.strikethrough && !style.bold && !style.italic
    ));
}

#[test]
fn preview_markdown_strong_emphasis_combines_bold_and_italic() {
    let lines = render_markdown_with_cwd("**Strong *emphasis***", None);

    let PreviewLine::Styled(spans) = &lines[0] else {
        panic!("expected styled strong emphasis line, got {:?}", lines[0]);
    };
    assert!(matches!(&spans[0], PreviewSpan::Bold(text) if text == "Strong "));
    assert!(matches!(
        &spans[1],
        PreviewSpan::StyledText { text, style }
            if text == "emphasis" && style.bold && style.italic && !style.strikethrough
    ));
}

#[test]
fn preview_markdown_url_link_renders_destination_and_preserves_range() {
    let input = "[docs](https://example.com/docs)";
    let lines = render_markdown_with_cwd(input, None);

    let PreviewLine::Styled(spans) = &lines[0] else {
        panic!("expected styled link line, got {:?}", lines[0]);
    };
    assert_eq!(span_text(spans), "docs (https://example.com/docs)");
    let link = spans
        .iter()
        .find(|span| matches!(span, PreviewSpan::Link { .. }))
        .expect("link span");
    match link {
        PreviewSpan::Link {
            text,
            target,
            source_range,
            local,
        } => {
            assert_eq!(text, "docs");
            assert_eq!(target, "https://example.com/docs");
            assert_eq!(
                *source_range,
                PreviewSourceRange {
                    start: 0,
                    end: input.len()
                }
            );
            assert!(!local);
        }
        _ => unreachable!(),
    }
}

#[test]
fn preview_markdown_bare_url_with_tilde_becomes_link_span() {
    let input = "https://www.cs.tufts.edu/~nr/cs257/archive/olin-shivers/dissertation.pdf";
    let lines = render_markdown_with_cwd(input, None);

    let PreviewLine::Styled(spans) = &lines[0] else {
        panic!("expected styled bare URL line, got {:?}", lines[0]);
    };
    assert_eq!(span_text(spans), input);
    assert!(matches!(
        &spans[0],
        PreviewSpan::Link {
            text,
            target,
            source_range,
            local: false,
        } if text == input
            && target == input
            && *source_range == (PreviewSourceRange { start: 0, end: input.len() })
    ));
}

#[test]
fn preview_markdown_bare_url_entity_decoding_preserves_target_text() {
    let source = "https://example.com/a&amp;b~c";
    let destination = "https://example.com/a&b~c";
    let lines = render_markdown_with_cwd(source, None);

    assert_eq!(line_text(&lines[0]), destination);
    let PreviewLine::Styled(spans) = &lines[0] else {
        panic!("expected styled bare URL line, got {:?}", lines[0]);
    };
    assert!(matches!(
        &spans[0],
        PreviewSpan::Link {
            text,
            target,
            source_range,
            local: false,
        } if text == destination
            && target == destination
            && *source_range == (PreviewSourceRange { start: 0, end: source.len() })
    ));
}

#[test]
fn preview_markdown_bare_url_keeps_sentence_punctuation_out_of_link_target() {
    let input = "https://example.com/docs.";
    let lines = render_markdown_with_cwd(input, None);

    assert_eq!(line_text(&lines[0]), input);
    let PreviewLine::Styled(spans) = &lines[0] else {
        panic!("expected styled bare URL line, got {:?}", lines[0]);
    };
    assert!(matches!(
        &spans[0],
        PreviewSpan::Link {
            text,
            target,
            source_range,
            local: false,
        } if text == "https://example.com/docs"
            && target == "https://example.com/docs"
            && *source_range == (PreviewSourceRange { start: 0, end: "https://example.com/docs".len() })
    ));
    assert!(matches!(&spans[1], PreviewSpan::Plain(text) if text == "."));
}

#[test]
fn preview_markdown_table_url_with_tilde_keeps_complete_target_text() {
    let destination =
        "https://www.cs.tufts.edu/~nr/cs257/archive/olin-shivers/dissertation.pdf";
    let markdown = format!("| URL |\n| --- |\n| {destination} |\n");
    let text = render_snapshot_lines(&markdown, None);

    assert!(
        text.iter().any(|line| line.contains(destination)),
        "expected table URL to remain complete: {text:?}"
    );
}

#[test]
fn preview_markdown_local_file_link_uses_normalized_target() {
    let input = "[markdown_render.rs](file:///Users/example/code/codex/codex-rs/tui/src/markdown_render.rs#L74C3)";
    let lines = render_markdown_with_cwd(input, Some("/Users/example/code/codex"));

    let PreviewLine::Styled(spans) = &lines[0] else {
        panic!("expected styled local link line, got {:?}", lines[0]);
    };
    assert_eq!(span_text(spans), "codex-rs/tui/src/markdown_render.rs:74:3");
    assert!(matches!(
        &spans[0],
        PreviewSpan::Link {
            target,
            source_range,
            local: true,
            ..
        } if target == "file:///Users/example/code/codex/codex-rs/tui/src/markdown_render.rs#L74C3"
            && *source_range == (PreviewSourceRange { start: 0, end: input.len() })
    ));
}

#[test]
fn preview_markdown_list_url_link_keeps_destination_in_item() {
    let input = "- [docs](https://example.com/docs)";
    let lines = render_markdown_with_cwd(input, None);

    assert_eq!(
        lines.iter().map(line_text).collect::<Vec<_>>(),
        vec!["• docs (https://example.com/docs)"]
    );
    let PreviewLine::ListItem { spans, .. } = &lines[0] else {
        panic!("expected list item, got {:?}", lines[0]);
    };
    let link_spans = spans
        .iter()
        .filter_map(|span| match span {
            PreviewSpan::Link {
                target,
                source_range,
                ..
            } => Some((target.as_str(), *source_range)),
            _ => None,
        })
        .collect::<Vec<_>>();
    assert_eq!(
        link_spans,
        vec![
            (
                "https://example.com/docs",
                PreviewSourceRange {
                    start: 2,
                    end: input.len()
                }
            ),
            (
                "https://example.com/docs",
                PreviewSourceRange {
                    start: 2,
                    end: input.len()
                }
            )
        ]
    );
}

#[test]
fn preview_markdown_table_url_link_keeps_destination_in_cell() {
    let text = render_snapshot_lines(
        "| Link |\n| --- |\n| [docs](https://example.com/docs) |\n",
        None,
    );

    assert!(
        text.iter()
            .any(|line| line.contains("docs (https://example.com/docs)")),
        "expected table cell to keep URL destination: {text:?}"
    );
}

#[test]
fn preview_markdown_table_local_file_link_preserves_target_metadata() {
    let input =
        "| Link |\n| --- |\n| [file](file:///Users/example/code/codex/README.md#L12) |\n";
    let lines = render_markdown_with_cwd(input, Some("/Users/example/code/codex"));

    let PreviewLine::TableRow { cells, links, .. } = &lines[2] else {
        panic!("expected table row, got {:?}", lines[2]);
    };

    assert_eq!(cells, &vec!["README.md:12".to_string()]);
    assert_eq!(links.len(), 1);
    assert_eq!(links[0].cell, 0);
    assert_eq!(links[0].text, "README.md:12");
    assert_eq!(
        links[0].target,
        "file:///Users/example/code/codex/README.md#L12"
    );
    assert!(links[0].local);
}

#[test]
fn preview_markdown_local_file_link_keeps_absolute_paths_outside_cwd() {
    let lines = render_markdown_with_cwd(
        "[README.md](/Users/example/code/codex/README.md:74)",
        Some("/Users/example/code/codex/codex-rs/tui"),
    );

    assert_eq!(
        line_text(&lines[0]),
        "/Users/example/code/codex/README.md:74"
    );
}

#[test]
fn preview_markdown_local_file_link_decodes_percent_encoded_path() {
    let text = render_snapshot_lines(
        "[file](./docs/My%20Report.md:12)",
        Some("/Users/example/code/codex"),
    );

    assert_eq!(text, vec!["./docs/My Report.md:12"]);
}

#[test]
fn preview_markdown_local_file_link_preserves_hash_range() {
    let text = render_snapshot_lines(
        "[markdown_render.rs](file:///Users/example/code/codex/codex-rs/tui/src/markdown_render.rs#L74C3-L76C9)",
        Some("/Users/example/code/codex"),
    );

    assert_eq!(text, vec!["codex-rs/tui/src/markdown_render.rs:74:3-76:9"]);
}

#[test]
fn preview_markdown_relative_local_file_link_preserves_hash_line_range() {
    let text = render_snapshot_lines(
        "[lib](./src/lib.rs#L10-L12)",
        Some("/Users/example/code/codex"),
    );

    assert_eq!(text, vec!["./src/lib.rs:10-12"]);
}

#[test]
fn preview_markdown_relative_local_file_link_preserves_hash_column_range() {
    let text = render_snapshot_lines(
        "[lib](../codex/src/lib.rs#L10C2-L12C4)",
        Some("/Users/example/code/codex/crates/leaf"),
    );

    assert_eq!(text, vec!["../codex/src/lib.rs:10:2-12:4"]);
}

#[test]
fn preview_markdown_local_file_link_keeps_invalid_hash_fragment_visible() {
    let text = render_snapshot_lines(
        "[lib](./src/lib.rs#LfooC2)",
        Some("/Users/example/code/codex"),
    );

    assert_eq!(text, vec!["./src/lib.rs#LfooC2"]);
}

#[test]
fn preview_markdown_local_file_link_preserves_colon_line_column_suffix() {
    let text = render_snapshot_lines(
        "[lib](./src/lib.rs:10:2)",
        Some("/Users/example/code/codex"),
    );

    assert_eq!(text, vec!["./src/lib.rs:10:2"]);
}

#[test]
fn preview_markdown_list_local_file_link_soft_break_before_colon_stays_inline() {
    let text = render_snapshot_lines(
        "- [binary](/Users/example/code/codex/codex-rs/README.md:93)\n  : cli is the top-level multitool binary.",
        Some("/Users/example/code/codex"),
    );

    assert_eq!(
        text,
        vec!["• codex-rs/README.md:93: cli is the top-level multitool binary."]
    );
}

#[test]
fn preview_markdown_consecutive_list_local_file_links_do_not_detach_paths() {
    let text = render_snapshot_lines(
        "- [binary](/Users/example/code/codex/codex-rs/README.md:93)\n  : cli is the top-level multitool binary.\n- [expectations](/Users/example/code/codex/codex-rs/core/README.md:1)\n  : codex-core owns the real runtime behavior.",
        Some("/Users/example/code/codex"),
    );

    assert_eq!(
        text,
        vec![
            "• codex-rs/README.md:93: cli is the top-level multitool binary.",
            "• codex-rs/core/README.md:1: codex-core owns the real runtime behavior.",
        ]
    );
}

#[test]
fn preview_markup_table_becomes_padded_table_lines() {
    let lines = marked_lines(vec![
        "| Plain check | EARS |".to_string(),
        "|---|---|".to_string(),
        "| 사용자가 이해한다 | WHEN names render, THE MODEL SHALL be clear. |".to_string(),
        "| `fallen` 이유 | WHEN an item enters `fallen`, THE MODEL SHALL record why. |"
            .to_string(),
    ]);
    let text = lines.iter().map(line_text).collect::<Vec<_>>();

    assert!(matches!(lines[0], PreviewLine::TableHeader { .. }));
    assert!(matches!(lines[1], PreviewLine::TableDivider { .. }));
    assert!(matches!(lines[2], PreviewLine::TableRow { .. }));
    assert!(matches!(lines[3], PreviewLine::TableDivider { .. }));
    assert!(text[0].contains("Plain check"));
    assert!(text[1].contains("━━━━━━━━━━━"));
    assert!(text[2].contains("사용자가 이해한다"));
    assert!(text[2].contains("    WHEN names render"));
    assert!(text[3].contains("───────────"));
    assert!(text[4].contains("fallen 이유"));
}

#[test]
fn preview_markup_blockquote_prefixes_lines() {
    let lines = marked_lines(vec![
        "> quoted".to_string(),
        ">".to_string(),
        "> - listed".to_string(),
    ]);
    let text = lines.iter().map(line_text).collect::<Vec<_>>();

    assert!(matches!(lines[0], PreviewLine::BlockQuote { depth: 1, .. }));
    assert_eq!(text[0], "> quoted");
    assert_eq!(text[1], "> • listed");
}

#[test]
fn preview_markup_nested_blockquote_repeats_prefix() {
    let lines = marked_lines(vec!["> outer".to_string(), "> > inner".to_string()]);
    let text = lines.iter().map(line_text).collect::<Vec<_>>();

    assert!(text.contains(&"> outer".to_string()));
    assert!(text.contains(&"> > inner".to_string()));
}

#[test]
fn preview_markup_table_inside_blockquote_prefixes_each_table_line() {
    let lines = marked_lines(vec![
        "> | Plain check | EARS |".to_string(),
        "> |---|---|".to_string(),
        "> | reason | WHEN an item enters fallen, THE MODEL SHALL record why. |".to_string(),
    ]);
    let text = lines.iter().map(line_text).collect::<Vec<_>>();

    assert!(text.iter().all(|line| line.starts_with("> ")));
    assert!(text.iter().any(|line| line.contains("Plain check")));
    assert!(text.iter().any(|line| line.contains("━━━━")));
    assert!(text.iter().any(|line| line.contains("reason")));
}

#[test]
fn preview_markdown_escaped_pipes_render_in_table_cells() {
    let text = render_snapshot_lines("| Col |\n| --- |\n| a \\| b |\n", None);

    assert!(text.iter().any(|line| line.contains("a | b")));
}

#[test]
fn preview_markdown_table_alignment_respects_markers() {
    let text = render_snapshot_lines(
        "| Left | Center | Right |\n|:-----|:------:|------:|\n| a | b | c |\n",
        None,
    );

    assert_eq!(text[0], "Left    Center    Right");
    assert_eq!(text[2], "a         b           c");
}

#[test]
fn preview_markdown_table_aligns_second_column_when_first_column_wraps() {
    // Mixed first-column lengths: the long one wraps to multiple lines.
    // Every body row's second column must start at the same display column.
    let lines = render_markdown_with_cwd(
        "| Criteria | Verdict |\n\
         | --- | --- |\n\
         | MySQL-first schema | ALPHA expressed as plain columns |\n\
         | separation of source history derived and baseline values across all the tables | BRAVO seven tables separated cleanly here |\n\
         | payment dedup key | CHARLIE natural keys kept together |\n",
        None,
    );
    let rendered = lines
        .iter()
        .flat_map(|line| {
            wrapped_table_line_texts(line, 78).unwrap_or_else(|| vec![line_text(line)])
        })
        .collect::<Vec<_>>();

    // Display column where a token first appears (counts wide chars correctly).
    let display_col = |token: &str| -> usize {
        rendered
            .iter()
            .find_map(|line| line.find(token).map(|byte| display_width(&line[..byte])))
            .unwrap_or_else(|| panic!("token {token:?} not found in {rendered:?}"))
    };

    let header = display_col("Verdict");
    let short_a = display_col("ALPHA");
    let wrapped = display_col("BRAVO");
    let short_c = display_col("CHARLIE");

    assert_eq!(
        (short_a, wrapped, short_c),
        (header, header, header),
        "second column must start at the same display column for every row\n{rendered:#?}"
    );
}

#[test]
fn preview_markdown_table_separates_logical_rows_after_wrapped_content() {
    let lines = render_markdown_with_cwd(
        "| Key | Description |\n| --- | --- |\n| -v | Enable very verbose logging output for debugging |\n| -q | Quiet output |\n",
        None,
    );
    let rendered = lines
        .iter()
        .flat_map(|line| {
            wrapped_table_line_texts(line, 64).unwrap_or_else(|| vec![line_text(line)])
        })
        .collect::<Vec<_>>();

    let wrapped_row_end = rendered
        .iter()
        .position(|line| line.contains("debugging"))
        .expect("wrapped row final line");
    let separator_indices = rendered
        .iter()
        .enumerate()
        .filter_map(|(index, line)| (line.contains('━') || line.contains('─')).then_some(index))
        .collect::<Vec<_>>();

    assert!(
        rendered
            .iter()
            .any(|line| line.contains("Enable very verbose"))
            && rendered.iter().any(|line| line.contains("debugging")),
        "expected wrapped row content: {rendered:?}"
    );
    assert_eq!(separator_indices.len(), 2);
    assert!(separator_indices[1] > wrapped_row_end);
    assert!(
        rendered
            .last()
            .is_some_and(|line| line.contains("Quiet output"))
    );
}

#[test]
fn preview_markdown_table_falls_back_to_records_when_width_is_tiny() {
    let lines = render_markdown_with_cwd(
        "| Key | Content | Extra | More |\n|---|---|---|---|\n| item | [link](https://example.com) | **bold** | `code` |\n",
        None,
    );
    let rendered = lines
        .iter()
        .flat_map(|line| {
            wrapped_table_line_texts(line, 16).unwrap_or_else(|| vec![line_text(line)])
        })
        .collect::<Vec<_>>();

    assert!(rendered.iter().any(|line| line.contains("Key")));
    assert!(rendered.iter().any(|line| line.contains("item")));
    assert!(rendered.iter().any(|line| line.contains("link")));
    assert!(rendered.iter().any(|line| line.contains("bold")));
    assert!(rendered.iter().any(|line| line.contains("code")));
    assert!(!rendered.iter().any(|line| line.contains('━')));
}

#[test]
fn preview_markdown_table_falls_back_to_records_before_columns_feel_cramped() {
    let lines = render_markdown_with_cwd(
        "| Plain check | EARS |\n| --- | --- |\n| fallen reason is narrow | WHEN an item enters fallen, THE MODEL SHALL record a narrowly scoped removal reason instead of a broad lifecycle outcome term. |\n",
        None,
    );
    let rendered = lines
        .iter()
        .flat_map(|line| {
            wrapped_table_line_texts(line, 64).unwrap_or_else(|| vec![line_text(line)])
        })
        .collect::<Vec<_>>();

    assert!(rendered.iter().any(|line| line.contains("Plain check")));
    assert!(
        rendered
            .iter()
            .any(|line| line.contains("fallen reason is narrow"))
    );
    assert!(rendered.iter().any(|line| line.contains("EARS")));
    assert!(rendered.iter().any(|line| line.contains("WHEN an item")));
    assert!(!rendered.iter().any(|line| line.contains('━')));
}

#[test]
fn preview_markdown_table_record_fallback_preserves_labels_and_values() {
    let lines = render_markdown_with_cwd(
        "| Key | Content | Extra | More |\n|---|---|---|---|\n| item | [link](https://example.com) | **bold** | `code` |\n",
        None,
    );
    let rendered = lines
        .iter()
        .flat_map(|line| {
            wrapped_table_line_texts(line, 16).unwrap_or_else(|| vec![line_text(line)])
        })
        .collect::<Vec<_>>();

    assert!(
        rendered
            .iter()
            .any(|line| line.trim_start().starts_with("Key") || line.contains("Key  item")),
        "expected record label for Key: {rendered:?}"
    );
    assert!(
        rendered
            .iter()
            .any(|line| line.contains("Content") || line.contains("link")),
        "expected record label/value for Content: {rendered:?}"
    );
    assert!(rendered.iter().any(|line| line.contains("item")));
    assert!(rendered.iter().any(|line| line.contains("link")));
    assert!(rendered.iter().any(|line| line.contains("bold")));
    assert!(rendered.iter().any(|line| line.contains("code")));
}

#[test]
fn preview_markdown_table_does_not_absorb_following_pipe_less_paragraph() {
    let text = render_snapshot_lines(
        "| Name | Meaning |\n| --- | --- |\n| alpha | first value |\ntrailing paragraph without pipes\n",
        None,
    );

    assert_eq!(
        text,
        vec![
            "Name     Meaning",
            "━━━━━    ━━━━━━━━━━━",
            "alpha    first value",
            "trailing paragraph without pipes",
        ]
    );
}

#[test]
fn preview_markdown_table_keeps_explicit_single_cell_pipe_row() {
    let text = render_snapshot_lines(
        "| Only |\n| --- |\n| value |\n| explicit sparse row |\n",
        None,
    );

    assert_eq!(
        text,
        vec![
            "Only",
            "━━━━━━━━━━━━━━━━━━━",
            "value",
            "───────────────────",
            "explicit sparse row",
        ]
    );
}

#[test]
fn preview_markdown_nested_list_keeps_parent_before_child() {
    let lines = marked_lines(vec![
        "- parent".to_string(),
        "  - child".to_string(),
        "  - [x] checked".to_string(),
        "- next".to_string(),
    ]);
    let text = lines.iter().map(line_text).collect::<Vec<_>>();

    assert_eq!(
        text,
        vec!["• parent", "  • child", "  • [x] checked", "• next"]
    );
}

#[test]
fn preview_markdown_task_list_keeps_marker_checked_state_and_indent() {
    let text = render_snapshot_lines("- [ ] todo\n  - [x] nested done\n", None);

    assert_eq!(text, vec!["• [ ] todo", "  • [x] nested done"]);
}

#[test]
fn preview_markdown_blockquote_list_then_nested_blockquote_keeps_indentation() {
    let text = render_snapshot_lines("> - parent\n>   > child\n", None);

    assert_eq!(text, vec!["> • parent", ">   > child"]);
}

#[test]
fn preview_markdown_blockquote_inside_ordered_item_uses_item_marker_line() {
    let text = render_snapshot_lines("1.\n   > quoted\n", None);

    assert_eq!(text, vec!["1. > quoted"]);
}

#[test]
fn preview_markdown_blockquote_after_ordered_item_aligns_with_content() {
    let text = render_snapshot_lines("1. before\n   > quoted\n", None);

    assert_eq!(text, vec!["1. before", "   > quoted"]);
}

#[test]
fn preview_markdown_blockquote_with_multiline_code_block_keeps_quote_prefix() {
    let text = render_snapshot_lines("> ```xyzlang\n> first\n> second\n> ```\n", None);

    assert_eq!(text, vec!["> first", "> second"]);
}

#[test]
fn preview_markdown_unordered_item_continuation_paragraph_is_indented() {
    let text = render_snapshot_lines(
        "- Intro\n\n  Continuation paragraph line 1\n  Continuation paragraph line 2\n",
        None,
    );

    assert_eq!(
        text,
        vec![
            "• Intro",
            "",
            "  Continuation paragraph line 1 Continuation paragraph line 2"
        ]
    );
}

#[test]
fn preview_markdown_ordered_item_continuation_paragraph_is_indented() {
    let text = render_snapshot_lines("1. Intro\n\n   More details about intro\n", None);

    assert_eq!(text, vec!["1. Intro", "", "   More details about intro"]);
}

#[test]
fn preview_markdown_nested_item_continuation_paragraph_is_indented() {
    let text = render_snapshot_lines("1. A\n    - B\n\n      Continuation for B\n2. C\n", None);

    assert_eq!(
        text,
        vec!["1. A", "  • B", "", "    Continuation for B", "2. C"]
    );
}

#[test]
fn preview_markdown_blockquote_two_paragraphs_inside_ordered_item_has_blank_line() {
    let text = render_snapshot_lines("1.\n   > para 1\n   >\n   > para 2\n", None);

    assert_eq!(text, vec!["1. > para 1", "   > ", "   > para 2"]);
}

#[test]
fn preview_markdown_list_item_blockquote_then_text_keeps_quote_context() {
    let text = render_snapshot_lines("1.\n   > quoted\n   after\n", None);

    assert_eq!(text, vec!["1. > quoted", "   > after"]);
}

#[test]
fn preview_markdown_complex_snapshot_covers_codex_style_features() {
    let text = render_snapshot_lines(
        r#"# Review
Intro with **bold**, `code`, and [docs](https://example.com/docs).

> Quote [target](file:///Users/example/code/codex/codex-rs/README.md#L93)
> - nested item
> ```xyzlang
> plain code
> ```
> | Plain check | EARS |
> |---|---|
> | 좁은 이유 | WHEN item falls, THE MODEL SHALL record why. |

1. ordered
   1. child
"#,
        Some("/Users/example/code/codex"),
    );

    assert_eq!(
        text,
        vec![
            "Review",
            "Intro with bold, code, and docs (https://example.com/docs).",
            "> Quote codex-rs/README.md:93",
            "> • nested item",
            "> plain code",
            "> Plain check    EARS",
            "> ━━━━━━━━━━━    ━━━━━━━━━━━━━━━━━━━━━━━━━━━━━━━━━━━━━━━━━━━━",
            "> 좁은 이유      WHEN item falls, THE MODEL SHALL record why.",
            "1. ordered",
            "  1. child",
        ]
    );
}

#[test]
fn preview_markdown_deep_snapshot_covers_nested_quote_list_code_table_and_links() {
    let text = render_snapshot_lines(
        r#"- [task](file:///Users/example/code/codex/README.md#L10)
  > quote starts
  > - nested [web](https://example.com/a)
  >   ```rust
  >   fn main() {}
  >   ```
  > | File | Meaning |
  > |---|---|
  > | [readme](file:///Users/example/code/codex/README.md#L10) | narrow reason |

  continuation paragraph
"#,
        Some("/Users/example/code/codex"),
    );

    assert_eq!(
        text,
        vec![
            "• README.md:10",
            "  > quote starts",
            "  >   • nested web (https://example.com/a)",
            "  >     fn main() {}",
            "  > File            Meaning",
            "  > ━━━━━━━━━━━━    ━━━━━━━━━━━━━",
            "  > README.md:10    narrow reason",
            "",
            "  continuation paragraph",
        ]
    );
}
