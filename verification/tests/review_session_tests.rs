use riteed::diff::compute_diff;
use riteed::i18n::translate;
use riteed::review::{
    CompareReviewSettingsSnapshot, CompareViewMode, ReviewFileId, ReviewFileSpec, ReviewKind,
    ReviewSnapshotFingerprint, ReviewTabSpec,
};
use riteed::review_session::{
    changed_counts, file_boundary_label_parts, path_display, review_message, ReviewText, ReviewFileInput, ReviewScrollTarget,
    ReviewSession,
};

fn settings(collapse_unchanged: bool, context_lines: i32) -> CompareReviewSettingsSnapshot {
    CompareReviewSettingsSnapshot {
        view_mode: CompareViewMode::Unified,
        collapse_unchanged,
        context_lines,
        ignore_leading_trailing_whitespace: false,
        word_wrap: false,
    }
}

fn spec_with(kind: ReviewKind, settings: CompareReviewSettingsSnapshot) -> ReviewTabSpec {
    ReviewTabSpec::new(
        kind,
        String::from("/repo"),
        7,
        ReviewSnapshotFingerprint::new(String::from("fingerprint")),
        vec![ReviewFileSpec::new(b"file.txt".to_vec())],
        settings,
    )
}

fn spec() -> ReviewTabSpec {
    spec_with(ReviewKind::Staged, settings(false, 3))
}

fn staged(path: &[u8]) -> ReviewFileId {
    ReviewFileId::new(ReviewKind::Staged, path.to_vec())
}

fn modified() -> String {
    String::from("M")
}

#[test]
fn session_populates_file_display_models() {
    let spec = spec();
    let mut session = ReviewSession::from_inputs(
        &spec,
        vec![ReviewFileInput::file(
            staged(b"file.txt"),
            modified(),
            Some(String::from("old\nsame\n")),
            Some(String::from("new\nsame\n")),
        )],
    );

    assert_eq!(session.file_count(), 1);
    assert!(session.files[0].diff_row_model.is_some());
    assert!(session.files[0].display_model.is_some());
    assert!(session.render_text().contains("file.txt"));

    let mut settings = spec.settings_snapshot;
    settings.collapse_unchanged = true;
    settings.context_lines = 1;
    session.rebuild_displays(settings);
    assert!(session.files[0].display_model.is_some());
}

#[test]
fn session_keeps_skip_reason_as_rendered_marker() {
    let spec = spec();
    let session = ReviewSession::from_inputs(
        &spec,
        vec![ReviewFileInput::skipped(staged(b"large.txt"), modified(), String::from("too large"))],
    );

    assert!(session.render_text().contains("too large"));
    assert_eq!(session.rendered_lines.len(), 2);
}

#[test]
fn review_path_newline_keeps_rendered_line_map_aligned() {
    let raw_path = b"a\nb.txt".to_vec();
    let session = ReviewSession::from_inputs(
        &spec(),
        vec![ReviewFileInput::skipped(
            ReviewFileId::new(ReviewKind::Staged, raw_path.clone()),
            modified(),
            String::from("too large"),
        )],
    );

    let rendered = session.render_text();
    assert_eq!(rendered.lines().count(), session.rendered_lines.len());
    assert_eq!(rendered.lines().next(), Some("a\\nb.txt (M, 0 additions, 0 removals)"));
    assert!(!rendered.contains("a\nb.txt"));
    assert_eq!(session.files[0].file_id.raw_path, raw_path);
}

#[test]
fn review_path_display_preserves_escape_and_fallback_contracts() {
    let control_path = "safe\\path\t\u{202e}gnp.txt".as_bytes().to_vec();
    let invalid_path = b"dir/\xff.bin".to_vec();
    let empty_path = Vec::new();
    let session = ReviewSession::from_inputs(
        &spec(),
        vec![
            ReviewFileInput::skipped(
                ReviewFileId::new(ReviewKind::Staged, control_path.clone()),
                modified(),
                String::from("too large"),
            ),
            ReviewFileInput::skipped(
                ReviewFileId::new(ReviewKind::Staged, invalid_path.clone()),
                modified(),
                String::from("too large"),
            ),
            ReviewFileInput::skipped(
                ReviewFileId::new(ReviewKind::Staged, empty_path.clone()),
                modified(),
                String::from("too large"),
            ),
        ],
    );

    let rendered = session.render_text();
    let header_paths = rendered
        .lines()
        .step_by(2)
        .map(|line| line.split_once(" (").map_or(line, |(path, _suffix)| path))
        .collect::<Vec<_>>();
    let invalid_fallback = translate(&review_message(ReviewText::InvalidPathEncoding, 0));
    let empty_sentinel = translate(&review_message(ReviewText::ReviewLimit, 0));
    assert_eq!(
        header_paths,
        vec![
            "safe\\\\path\\t\\u{202e}gnp.txt",
            invalid_fallback.as_str(),
            empty_sentinel.as_str(),
        ]
    );
    let change_items = session.change_list_items();
    let change_labels = change_items
        .chunks_exact(2)
        .map(|items| items[0].label.as_str())
        .collect::<Vec<_>>();
    assert_eq!(change_labels, header_paths);
    assert_eq!(session.files[0].file_id.raw_path, control_path);
    assert_eq!(session.files[1].file_id.raw_path, invalid_path);
    assert_eq!(session.files[2].file_id.raw_path, empty_path);
}

fn collapsed_session() -> ReviewSession {
    ReviewSession::from_inputs(
        &spec_with(ReviewKind::Staged, settings(true, 1)),
        vec![ReviewFileInput::file(
            staged(b"file.txt"),
            modified(),
            Some(String::from("0\n1\n2\n3\n4\n5\n6\n")),
            Some(String::from("x\n1\n2\n3\n4\n5\ny\n")),
        )],
    )
}

#[test]
fn reveal_above_extends_top_of_current_marker() {
    let mut session = collapsed_session();

    assert!(session.can_reveal_context(Some(3)));
    let target = session.reveal_above(Some(3));

    assert!(target.is_some());
    assert!(session.files[0].collapse_state.revealed_rows.contains(&2));
    assert!(!session.files[0].collapse_state.revealed_rows.contains(&4));
}

#[test]
fn reveal_below_extends_bottom_of_current_marker() {
    let mut session = collapsed_session();
    let target = session.reveal_below(Some(3));

    assert!(target.is_some());
    assert!(session.files[0].collapse_state.revealed_rows.contains(&4));
    assert!(!session.files[0].collapse_state.revealed_rows.contains(&2));
}

#[test]
fn reveal_all_expands_current_marker_range() {
    let mut session = collapsed_session();
    let target = session.reveal_current_all(Some(3));

    assert!(target.is_none());
    for row in 2..5 {
        assert!(session.files[0].collapse_state.revealed_rows.contains(&row));
    }
    assert!(!session.can_reveal_context(Some(3)));
}

#[test]
fn reveal_targets_the_remaining_collapsed_line() {
    let mut session = collapsed_session();
    // boundary, row 0, row 1, collapsed 2..5, row 5, row 6
    assert_eq!(session.rendered_lines.len(), 6);
    let target = session.reveal_above(Some(3));
    // boundary, rows 0..=2, collapsed 3..5, rows 5 and 6
    assert_eq!(target, Some(ReviewScrollTarget { line_index: 4 }));
    assert_eq!(session.rendered_lines.len(), 7);
    // Line 3 now shows row 2, and no collapsed line lies above it.
    let again = session.reveal_above(Some(3));
    assert!(again.is_none());
    assert_eq!(session.rendered_lines.len(), 7);
    // Without a collapsed line at or above the line, nothing can be revealed.
    assert!(!session.can_reveal_context(Some(2)));
    assert!(session.reveal_below(Some(2)).is_none());
    assert!(!session.can_reveal_context(None));
}

fn two_file_session(kind: ReviewKind) -> ReviewSession {
    ReviewSession::from_inputs(
        &spec_with(kind, settings(false, 3)),
        vec![
            ReviewFileInput::file(
                staged(b"a.txt"),
                modified(),
                Some(String::from("a\nb\nc\n")),
                Some(String::from("a\nB\nc\n")),
            ),
            ReviewFileInput::skipped(staged(b"b.txt"), modified(), String::from("too large")),
        ],
    )
}

#[test]
fn rendered_text_has_one_line_per_rendered_line() {
    let session = two_file_session(ReviewKind::Staged);
    let text = session.render_text();
    assert_eq!(text.lines().count(), session.rendered_lines.len());
    assert_eq!(
        text,
        "a.txt (M, 1 addition, 1 removal)\na\nB\nc\nb.txt (M, 0 additions, 0 removals)\ntoo large"
    );
    assert_eq!(session.files[0].additions, 1);
    assert_eq!(session.files[0].removals, 1);
    assert_eq!(session.rendered_lines[4].file_index, 1);
}

#[test]
fn navigation_moves_between_changes_and_wraps() {
    let session = two_file_session(ReviewKind::Staged);
    let forward = |line: Option<usize>| session.target_for_direction(line, 1).map(|t| t.line_index);
    let backward = |line: Option<usize>| session.target_for_direction(line, -1).map(|t| t.line_index);
    assert_eq!(forward(None), Some(2));
    assert_eq!(forward(Some(2)), Some(5));
    assert_eq!(forward(Some(5)), Some(2));
    assert_eq!(backward(Some(5)), Some(2));
    assert_eq!(backward(Some(2)), Some(5));
    assert_eq!(backward(Some(0)), Some(5));
    assert_eq!(session.target_for_direction(Some(3), 0).map(|t| t.line_index), Some(5));
}

#[test]
fn navigation_finds_nothing_without_changes() {
    let session = ReviewSession::from_inputs(
        &spec(),
        vec![ReviewFileInput::file(
            staged(b"same.txt"),
            modified(),
            Some(String::from("a\n")),
            Some(String::from("a\n")),
        )],
    );
    assert_eq!(session.target_for_direction(Some(0), 1), None);
    assert_eq!(session.target_for_direction(Some(0), -1), None);
}

#[test]
fn change_list_lists_files_changes_and_markers() {
    let session = two_file_session(ReviewKind::Staged);
    let items = session.change_list_items();
    let targets = items.iter().map(|item| item.target.line_index).collect::<Vec<_>>();
    assert_eq!(targets, vec![0, 2, 4, 5]);
    let labels = items.iter().map(|item| item.label.as_str()).collect::<Vec<_>>();
    assert_eq!(labels, vec!["a.txt", "a.txt", "b.txt", "b.txt"]);
    assert_eq!(items[3].description, "too large");
}

#[test]
fn open_target_skips_files_without_current_text() {
    let session = two_file_session(ReviewKind::Staged);
    assert_eq!(session.open_target_for_line(2), Some(b"a.txt".to_vec()));
    assert_eq!(session.open_target_for_line(5), None);
    assert_eq!(session.open_target_for_line(99), None);
    assert_eq!(session.current_file_for_line(4), Some(staged(b"b.txt")));
    assert_eq!(session.current_file_for_line(6), None);
    assert_eq!(session.repo_root(), "/repo");
}

#[test]
fn staleness_follows_the_review_kind() {
    let same = ReviewSnapshotFingerprint::new(String::from("fingerprint"));
    let other = ReviewSnapshotFingerprint::new(String::from("other"));

    let mut staged_session = two_file_session(ReviewKind::Staged);
    assert!(!staged_session.mark_stale_if_mismatch(&same, 8));
    assert!(!staged_session.is_stale());
    assert!(staged_session.mark_stale_if_mismatch(&other, 7));
    assert!(staged_session.is_stale());
    staged_session.clear_stale();
    assert!(!staged_session.is_stale());

    let mut unstaged_session = two_file_session(ReviewKind::Unstaged);
    assert!(!unstaged_session.mark_stale_if_mismatch(&same, 7));
    assert!(unstaged_session.mark_stale_if_mismatch(&same, 8));
    assert!(unstaged_session.mark_stale_if_mismatch(&other, 7));
}

#[test]
fn change_counts_count_modified_rows_on_both_sides() {
    let computation = compute_diff("a\nb\nc\n", "a\nB\nd\ne\n");
    let counts = changed_counts(&computation.model);
    assert_eq!(counts.additions, 3);
    assert_eq!(counts.removals, 2);
}

#[test]
fn headings_and_path_labels() {
    assert_eq!(file_boundary_label_parts("p", "A", 2, 1), "p (A, 2 additions, 1 removal)");
    assert_eq!(path_display(b"tab\there"), "tab\\there");
    assert_eq!(path_display(b"plain/path.rs"), "plain/path.rs");
    assert_eq!(path_display(b""), translate(&review_message(ReviewText::ReviewLimit, 0)));
    assert_eq!(path_display(b"\xff"), translate(&review_message(ReviewText::InvalidPathEncoding, 0)));
}
