use riteed::review::{
    CompareReviewSettingsSnapshot, CompareViewMode, ReviewFileId, ReviewFileSpec, ReviewKind,
    ReviewSnapshotFingerprint, ReviewTabSpec,
};

#[test]
fn review_identifiers_preserve_kind_and_raw_path() {
    let file_id = ReviewFileId::new(ReviewKind::Unstaged, b"dir/\xff.txt".to_vec());
    let spec = ReviewFileSpec::new(file_id.raw_path.clone());

    assert_eq!(file_id.review_kind, ReviewKind::Unstaged);
    assert_eq!(spec.raw_path, b"dir/\xff.txt");
}

#[test]
fn fingerprint_keeps_its_token_and_ids_copy_exactly() {
    let fingerprint = ReviewSnapshotFingerprint::new(String::from("token"));
    assert_eq!(fingerprint.token(), "token");
    let file_id = ReviewFileId::new(ReviewKind::Staged, vec![0, 255, 10]);
    assert_eq!(file_id.duplicate(), file_id);
}

#[test]
fn review_tab_spec_keeps_snapshot_metadata() {
    let fingerprint = ReviewSnapshotFingerprint::new(String::from("token"));
    let settings = CompareReviewSettingsSnapshot {
        view_mode: CompareViewMode::Unified,
        collapse_unchanged: true,
        context_lines: 4,
        ignore_leading_trailing_whitespace: true,
        word_wrap: true,
    };
    let spec = ReviewTabSpec::new(
        ReviewKind::Staged,
        String::from("/repo"),
        42,
        fingerprint.clone(),
        vec![ReviewFileSpec::new(b"file.txt".to_vec())],
        settings,
    );

    assert_eq!(fingerprint.token(), "token");
    assert_eq!(spec.review_kind, ReviewKind::Staged);
    assert_eq!(spec.snapshot_generation_at_creation, 42);
    assert_eq!(spec.fingerprint_at_creation, fingerprint);
    assert_eq!(spec.settings_snapshot, settings);
}

#[test]
fn file_ids_compare_by_kind_and_bytes() {
    let a = ReviewFileId::new(ReviewKind::Staged, b"a.txt".to_vec());
    assert!(a.same_as(&ReviewFileId::new(ReviewKind::Staged, b"a.txt".to_vec())));
    assert!(!a.same_as(&ReviewFileId::new(ReviewKind::Unstaged, b"a.txt".to_vec())));
    assert!(!a.same_as(&ReviewFileId::new(ReviewKind::Staged, b"a.txu".to_vec())));
    assert!(!a.same_as(&ReviewFileId::new(ReviewKind::Staged, b"a.tx".to_vec())));
}
