use leaf::syntax::language_from_info_string;

#[test]
fn language_from_info_string_takes_first_metadata_token() {
    assert_eq!(language_from_info_string("rust,no_run").as_deref(), Some("rust"));
    assert_eq!(language_from_info_string("rust title=demo").as_deref(), Some("rust"));
    assert_eq!(language_from_info_string("rust\tignore").as_deref(), Some("rust"));
    assert_eq!(language_from_info_string("").as_deref(), None);
}

#[test]
fn language_from_info_string_is_none_when_it_starts_with_a_separator() {
    assert_eq!(language_from_info_string(" rust"), None);
    assert_eq!(language_from_info_string("python"), Some("python".to_string()));
}
