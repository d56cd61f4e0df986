use leaf::preview::{
    digest_lines, display_width, fallback_if_empty, first_heading, fitted_table_widths_for_cells,
    markup_line, preview_visible_text, record_table_row_texts, span_text, table_divider,
    table_line_text, useful_lines, wrapped_table_line_texts, wrapped_table_row_texts,
    PreviewLine, PreviewSpan, TableAlignment, TableColumnKind, TableColumnMetric,
    TableDividerKind, TABLE_COLUMN_GAP,
};

fn line_text(line: &PreviewLine) -> String {
    preview_visible_text(line)
}

#[test]
fn preview_markup_headings_become_heading() {
    let mut in_code_block = false;

    let line = markup_line("### 개요", &mut in_code_block);

    match line {
        PreviewLine::Heading { level, text } => {
            assert_eq!(level, 1);
            assert_eq!(text, "개요");
        }
        other => panic!("expected heading, got {other:?}"),
    }
    assert!(!in_code_block);
}

#[test]
fn preview_markup_checkboxes_become_checkbox() {
    let mut in_code_block = false;

    let checked = markup_line("- [x] Done", &mut in_code_block);
    let unchecked = markup_line("- [ ] 다음 작업", &mut in_code_block);

    match checked {
        PreviewLine::Checkbox { checked, text, .. } => {
            assert!(checked);
            assert_eq!(text, "Done");
        }
        other => panic!("expected checked checkbox, got {other:?}"),
    }
    match unchecked {
        PreviewLine::Checkbox { checked, text, .. } => {
            assert!(!checked);
            assert_eq!(text, "다음 작업");
        }
        other => panic!("expected unchecked checkbox, got {other:?}"),
    }
}

#[test]
fn preview_markup_bullet_list_becomes_rendered_list_item() {
    let mut in_code_block = false;

    let line = markup_line("- first item", &mut in_code_block);

    match line {
        PreviewLine::ListItem { marker, spans } => {
            assert_eq!(marker, "•");
            assert_eq!(span_text(&spans), "first item");
        }
        other => panic!("expected list item, got {other:?}"),
    }
}

#[test]
fn preview_markup_numbered_list_becomes_rendered_list_item() {
    let mut in_code_block = false;

    let line = markup_line("12. numbered item", &mut in_code_block);

    match line {
        PreviewLine::ListItem { marker, spans } => {
            assert_eq!(marker, "12.");
            assert_eq!(span_text(&spans), "numbered item");
        }
        other => panic!("expected numbered list item, got {other:?}"),
    }
}

#[test]
fn preview_markup_list_item_preserves_inline_bold_and_code() {
    let mut in_code_block = false;

    let line = markup_line("- **Driver:** use `leaf`", &mut in_code_block);

    match line {
        PreviewLine::ListItem { marker, spans } => {
            assert_eq!(marker, "•");
            assert!(matches!(&spans[0], PreviewSpan::Bold(text) if text == "Driver:"));
            assert!(matches!(&spans[1], PreviewSpan::Plain(text) if text == " use "));
            assert!(matches!(&spans[2], PreviewSpan::Code(text) if text == "leaf"));
            assert_eq!(spans.len(), 3);
        }
        other => panic!("expected styled list item, got {other:?}"),
    }
}

#[test]
fn preview_markup_fenced_code_blocks_toggle_and_emit_code_lines() {
    let mut in_code_block = false;

    let opening = markup_line("```rust", &mut in_code_block);
    assert!(matches!(opening, PreviewLine::Code(ref text) if text == "```rust"));
    assert!(in_code_block);

    let code = markup_line("let value = 1;", &mut in_code_block);
    assert!(matches!(code, PreviewLine::Code(ref text) if text == "let value = 1;"));
    assert!(in_code_block);

    let closing = markup_line("```", &mut in_code_block);
    assert!(matches!(closing, PreviewLine::Code(ref text) if text == "```"));
    assert!(!in_code_block);

    let plain = markup_line("after", &mut in_code_block);
    assert!(matches!(plain, PreviewLine::Plain(ref text) if text == "after"));
}

#[test]
fn preview_markup_inline_bold_and_code_become_styled_spans() {
    let mut in_code_block = false;

    let line = markup_line("Use **bold** and `code` now", &mut in_code_block);

    match line {
        PreviewLine::Styled(spans) => {
            assert!(matches!(&spans[0], PreviewSpan::Plain(text) if text == "Use "));
            assert!(matches!(&spans[1], PreviewSpan::Bold(text) if text == "bold"));
            assert!(matches!(&spans[2], PreviewSpan::Plain(text) if text == " and "));
            assert!(matches!(&spans[3], PreviewSpan::Code(text) if text == "code"));
            assert!(matches!(&spans[4], PreviewSpan::Plain(text) if text == " now"));
            assert_eq!(spans.len(), 5);
        }
        other => panic!("expected styled spans, got {other:?}"),
    }
}

#[test]
fn preview_markup_malformed_inline_markdown_stays_visible() {
    let mut in_code_block = false;

    let input = "Keep **unterminated and `dangling";
    let line = markup_line(input, &mut in_code_block);
    let rendered = line_text(&line);

    assert!(
        matches!(line, PreviewLine::Plain(_) | PreviewLine::Styled(_)),
        "expected visible fallback, got {line:?}"
    );
    assert!(
        rendered.contains("**unterminated"),
        "missing malformed bold marker in {rendered:?}"
    );
    assert!(
        rendered.contains("`dangling"),
        "missing malformed code marker in {rendered:?}"
    );
}

#[test]
fn fitted_table_widths_for_cells_shrinks_token_heavy_before_narrative() {
    let headers = vec![
        "URL".to_string(),
        "Description".to_string(),
        "OK".to_string(),
    ];
    let cells = vec![
        "https://example.com/a/very/long/path/that/can/wrap".to_string(),
        "This narrative column should keep enough width to remain readable".to_string(),
        "ok".to_string(),
    ];
    let widths = vec![52, 64, 2];

    let fitted = fitted_table_widths_for_cells(&headers, &cells, &widths, 82);

    assert_eq!(fitted.iter().sum::<usize>() + TABLE_COLUMN_GAP * 2, 82);
    assert!(
        fitted[0] < fitted[1],
        "token-heavy column should give width to narrative text: {fitted:?}"
    );
    assert_eq!(
        fitted[2], 2,
        "compact column should stay stable: {fitted:?}"
    );
}

#[test]
fn fitted_table_widths_for_cells_uses_header_token_floor_for_compact_columns() {
    let headers = vec!["CurrentGate".to_string(), "N".to_string()];
    let cells = vec!["ok".to_string(), "1".to_string()];
    let widths = vec![20, 10];

    let fitted = fitted_table_widths_for_cells(&headers, &cells, &widths, 18);

    assert_eq!(fitted.iter().sum::<usize>() + TABLE_COLUMN_GAP, 18);
    assert!(
        fitted[0] >= "CurrentGate".len(),
        "compact column should keep header readable: {fitted:?}"
    );
}

fn narrative(widths: &[usize]) -> Vec<TableColumnMetric> {
    widths
        .iter()
        .map(|w| TableColumnMetric {
            max_width: (*w).max(1),
            header_token_width: 0,
            body_token_width: 0,
            kind: TableColumnKind::Narrative,
        })
        .collect()
}

#[test]
fn table_lines_pad_align_and_divide_at_natural_width() {
    let row = PreviewLine::TableRow {
        headers: vec!["Name".to_string(), "N".to_string()],
        cells: vec!["ab".to_string(), "7".to_string()],
        links: Vec::new(),
        widths: vec![4, 3],
        alignments: vec![TableAlignment::Right, TableAlignment::Center],
        metrics: Vec::new(),
    };
    assert_eq!(table_line_text(&row).as_deref(), Some("  ab     7"));
    let divider = PreviewLine::TableDivider {
        widths: vec![4, 1],
        kind: TableDividerKind::Header,
        metrics: Vec::new(),
    };
    assert_eq!(table_line_text(&divider).as_deref(), Some("━━━━    ━━━"));
    assert_eq!(
        table_divider(&[2], TableDividerKind::Body).into_iter().collect::<String>(),
        "───"
    );
    let quoted = PreviewLine::BlockQuote {
        depth: 1,
        prefix: "> ".to_string(),
        line: Box::new(divider),
    };
    assert_eq!(table_line_text(&quoted).as_deref(), Some("> ━━━━    ━━━"));
    assert_eq!(table_line_text(&PreviewLine::Plain("x".to_string())), None);
}

#[test]
fn wrapped_rows_fit_the_width_and_records_take_over_when_cramped() {
    let cells = vec!["alpha beta gamma".to_string(), "x".to_string()];
    let widths = vec![16, 1];
    let lines = wrapped_table_row_texts(
        &cells,
        &widths,
        &[TableAlignment::Unaligned, TableAlignment::Unaligned],
        &narrative(&widths),
        16,
    );
    assert_eq!(lines, vec!["alpha beta     x", "gamma"]);

    let records = record_table_row_texts(
        &["Name".to_string(), "Meaning".to_string()],
        &["alpha".to_string(), "first value".to_string()],
        30,
    );
    assert_eq!(records, vec![" Name     alpha", " Meaning  first value"]);
    let narrow = record_table_row_texts(&["Name".to_string()], &["alpha".to_string()], 10);
    assert_eq!(narrow, vec![" Name", "  alpha"]);

    let row = PreviewLine::TableRow {
        headers: vec!["Name".to_string(), "Meaning".to_string()],
        cells: vec!["alpha".to_string(), "first value".to_string()],
        links: Vec::new(),
        widths: vec![40, 40],
        alignments: Vec::new(),
        metrics: Vec::new(),
    };
    assert_eq!(
        wrapped_table_line_texts(&row, 30),
        Some(vec![" Name     alpha".to_string(), " Meaning  first value".to_string()])
    );
    let body = PreviewLine::TableDivider {
        widths: vec![40, 40],
        kind: TableDividerKind::Body,
        metrics: Vec::new(),
    };
    assert_eq!(wrapped_table_line_texts(&body, 5), Some(vec!["─────".to_string()]));
}

#[test]
fn display_width_counts_wide_characters_twice() {
    assert_eq!(display_width("abc"), 3);
    assert_eq!(display_width("사용자"), 6);
    assert_eq!(display_width(""), 0);
}

#[test]
fn preview_excerpts_skip_blank_lines_and_find_digest_summary() {
    assert_eq!(
        useful_lines("\n  a  \n\n b\n c\n", 2),
        vec!["a".to_string(), "b".to_string()]
    );
    let digest = "# Title\n\nintro\n\n## Summary\n\nfirst\nsecond\n\nlater\n";
    assert_eq!(
        digest_lines(digest),
        vec!["# Title", "## Summary", "first", "second"]
    );
    assert_eq!(first_heading(digest).as_deref(), Some("Title"));
    assert_eq!(first_heading("plain\n#nospace\n"), None);
    let empty = fallback_if_empty(Vec::new());
    assert!(matches!(&empty[0], PreviewLine::Plain(t) if t == "No preview available."));
}
