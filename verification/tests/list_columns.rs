use leaf::inventory::ParseState;
use leaf::list_columns::{
    bucket_label_plural, bucket_label_singular, display_width, markdown_row, markdown_table,
    markdown_table_cell, parse_state_label, text_row, text_table, text_widths, Bucket,
    ColumnWidth, ListColumn, ListColumnRow, LIST_COLUMNS,
};

fn row(bucket: &str, phase: &str, gate: &str, slug: &str) -> ListColumnRow {
    ListColumnRow {
        bucket_label: bucket.to_string(),
        phase: phase.to_string(),
        gate: gate.to_string(),
        slug: slug.to_string(),
        parse_state: ParseState::Valid,
    }
}

#[test]
fn default_columns_are_the_inventory_display_contract() {
    let headers: Vec<_> = LIST_COLUMNS.iter().map(|column| column.header()).collect();

    assert_eq!(headers, ["BUCKET", "PHASE", "GATE", "SLUG", "STATUS"]);
}

#[test]
fn markdown_table_uses_column_metadata() {
    let row = row("leaf", "Learn", "intent", "alpha");

    assert_eq!(
        markdown_table(&LIST_COLUMNS, &[&row]),
        "| BUCKET | PHASE | GATE | SLUG | STATUS |\n| --- | --- | --- | --- | --- |\n| leaf | Learn | intent | alpha | ok |"
    );
}

#[test]
fn markdown_table_escapes_cell_content_once() {
    let row = row("leaf", "Learn", "intent", "alpha|beta");

    assert_eq!(
        markdown_table(&LIST_COLUMNS, &[&row]),
        "| BUCKET | PHASE | GATE | SLUG | STATUS |\n| --- | --- | --- | --- | --- |\n| leaf | Learn | intent | alpha\\|beta | ok |"
    );
}

#[test]
fn text_table_uses_the_same_column_order() {
    let row = row("leaf", "Architect", "⑦ Task Graph", "active");

    assert_eq!(
        text_table(&LIST_COLUMNS, &[row]),
        "BUCKET  PHASE      GATE           SLUG     STATUS\nleaf    Architect  ⑦ Task Graph   active   ok"
    );
}

#[test]
fn markdown_cell_turns_line_breaks_into_spaces() {
    assert_eq!(markdown_table_cell("a\r\nb|c"), "a  b\\|c");
    assert_eq!(markdown_table_cell(""), "");
}

#[test]
fn markdown_row_wraps_cells_in_pipes() {
    assert_eq!(
        markdown_row(vec!["a".to_string(), "b|c".to_string()]),
        "| a | b\\|c |"
    );
    assert_eq!(markdown_row(Vec::new()), "|  |");
}

#[test]
fn markdown_table_without_rows_keeps_header_and_divider() {
    assert_eq!(
        markdown_table(&[ListColumn::Slug, ListColumn::Status], &[]),
        "| SLUG | STATUS |\n| --- | --- |"
    );
}

#[test]
fn text_widths_take_the_widest_of_minimum_header_and_values() {
    let rows = [row("leaf", "Architect", "g", "a-very-long-slug-name")];
    assert_eq!(text_widths(&LIST_COLUMNS, &rows), vec![7, 10, 14, 21, 8]);
    assert_eq!(text_widths(&LIST_COLUMNS, &[]), vec![7, 10, 14, 8, 8]);
}

#[test]
fn text_row_pads_all_but_the_last_cell() {
    assert_eq!(
        text_row(vec!["ab".to_string(), "c".to_string()], &[4, 4]),
        "ab   c"
    );
    assert_eq!(
        text_row(vec!["abcdef".to_string(), "c".to_string()], &[4, 4]),
        "abcdef c"
    );
    assert_eq!(text_row(vec!["ab".to_string()], &[4, 4]), "ab  ");
}

#[test]
fn display_width_counts_characters() {
    assert_eq!(display_width("⑦ Task"), 6);
    assert_eq!(display_width(""), 0);
}

#[test]
fn column_metadata_widths_and_labels() {
    assert_eq!(ListColumn::Slug.tui_width(), ColumnWidth::Min(18));
    assert_eq!(ListColumn::Gate.tui_width(), ColumnWidth::Fixed(18));
    assert_eq!(ListColumn::Gate.text_min_width(), 14);
    assert_eq!(ListColumn::Status.value(&row("a", "b", "c", "d")), "ok");
    assert_eq!(ListColumn::Phase.value(&row("a", "b", "c", "d")), "b");
    assert_eq!(bucket_label_singular(Bucket::Leaves), "leaf");
    assert_eq!(bucket_label_plural(Bucket::Seeds), "seeds");
    assert_eq!(parse_state_label(ParseState::Partial), "partial");
    assert_eq!(parse_state_label(ParseState::Error), "error");
}
