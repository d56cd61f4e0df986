use leaf::checkpoint::{
    available_checkpoint_name, checkpoint_file_name, checkpoint_sources, gate_spec, utc_timestamp,
    utc_timestamp_from_secs,
};
use std::time::{Duration, UNIX_EPOCH};

#[test]
fn gate_spec_accepts_names_numbers_and_file_stems() {
    assert_eq!(gate_spec("criteria").expect("criteria").index, 3);
    assert_eq!(gate_spec("3").expect("3").index, 3);
    assert_eq!(gate_spec("03").expect("03").index, 3);
    assert_eq!(gate_spec("g3").expect("g3").index, 3);
    assert_eq!(gate_spec("03-criteria").expect("stem").index, 3);
    assert_eq!(gate_spec("artifact").expect("artifact").index, 8);
}

#[test]
fn gate_spec_trims_dashes_and_case() {
    assert_eq!(gate_spec("  --Review ").expect("review").index, 9);
    assert_eq!(gate_spec("--10").expect("ten").name, "retrospect");
    assert_eq!(gate_spec("g10").expect("g10").file, "04-Feedback/10-retrospect.md");
}

#[test]
fn gate_spec_rejects_unknown_gates() {
    assert_eq!(gate_spec("nope").unwrap_err(), "unknown gate: nope");
    assert!(gate_spec("11").is_err());
    assert!(gate_spec("0").is_err());
}

#[test]
fn gate_file_name_stem_drops_directory_and_extension() {
    let gate = gate_spec("wireframe").expect("wireframe");
    assert_eq!(gate.file_name_stem(), "04-wireframe");
    assert_eq!(gate.folders, &["02-Example/04-wireframe"]);
}

#[test]
fn checkpoint_file_name_adds_counter_only_for_repeats() {
    assert_eq!(
        checkpoint_file_name("260612-1430", "03-criteria.md", None),
        "260612-1430 03-criteria.md"
    );
    assert_eq!(
        checkpoint_file_name("260612-1430", "03-criteria.md", Some(2)),
        "260612-1430-2 03-criteria.md"
    );
}

#[test]
fn utc_timestamp_is_two_digit_year_month_day_hour_minute() {
    assert_eq!(utc_timestamp(UNIX_EPOCH).expect("epoch"), "700101-0000");
    assert_eq!(utc_timestamp_from_secs(1_781_274_600), "260612-1430");
    let later = UNIX_EPOCH + Duration::from_secs(951_782_400 + 3_600 * 23 + 59 * 60 + 59);
    assert_eq!(utc_timestamp(later).expect("leap day"), "000229-2359");
}

#[test]
fn checkpoint_error_lists_file_and_folder_candidates() {
    let gate = gate_spec("wireframe").expect("gate");
    let error = checkpoint_sources("/tmp/root", gate, false, &[false]).expect_err("missing sources");
    assert!(error.contains("02-Example/04-wireframe.md"), "{error}");
    assert!(error.contains("02-Example/04-wireframe"), "{error}");
    assert_eq!(
        error,
        "gate source does not exist: /tmp/root/02-Example/04-wireframe.md, /tmp/root/02-Example/04-wireframe"
    );
}

#[test]
fn checkpoint_sources_keep_present_file_and_folders_in_order() {
    let review = gate_spec("review").expect("gate");
    assert_eq!(
        checkpoint_sources("root", review, true, &[true]).expect("sources"),
        vec![
            "root/04-Feedback/09-review.md".to_string(),
            "root/04-Feedback/09-reviews".to_string()
        ]
    );
    let wireframe = gate_spec("wireframe").expect("gate");
    assert_eq!(
        checkpoint_sources("root/", wireframe, false, &[true]).expect("folder only"),
        vec!["root/02-Example/04-wireframe".to_string()]
    );
    let criteria = gate_spec("criteria").expect("gate");
    assert_eq!(
        checkpoint_sources("root", criteria, true, &[]).expect("file"),
        vec!["root/02-Example/03-criteria.md".to_string()]
    );
}

#[test]
fn available_checkpoint_path_suffixes_timestamp_without_overwriting() {
    let existing = vec!["260612-1430 03-criteria.md".to_string()];
    let name = available_checkpoint_name("260612-1430", "03-criteria.md", &existing);
    assert_eq!(name, "260612-1430-2 03-criteria.md");
}

#[test]
fn available_checkpoint_name_takes_first_free_slot() {
    assert_eq!(
        available_checkpoint_name("260612-1430", "a.md", &[]),
        "260612-1430 a.md"
    );
    let existing = vec![
        "260612-1430 a.md".to_string(),
        "260612-1430-2 a.md".to_string(),
        "260612-1430-4 a.md".to_string(),
    ];
    assert_eq!(
        available_checkpoint_name("260612-1430", "a.md", &existing),
        "260612-1430-3 a.md"
    );
}
