use riteed::diff::compute_diff_row_model;
use riteed::model::DiffRowModel;
use riteed::status::{
    compare_status, compare_status_text, current_hunk_after_recompute, ellipsis_label, format_position,
    loading_status_text, status_text, CompareStatus,
};

#[test]
fn compare_status_text_keeps_hunk_position_translatable() {
    assert_eq!(compare_status_text(1, None, 2), "1 changed line");
    assert_eq!(compare_status_text(2, None, 2), "2 changed lines");
    assert_eq!(compare_status_text(1, Some(0), 2), "1 changed line - 1/2");
    assert_eq!(compare_status_text(2, Some(1), 2), "2 changed lines - 2/2");
}

#[test]
fn recompute_keeps_hunk_within_range() {
    assert_eq!(current_hunk_after_recompute(None, 0, false), None);
    assert_eq!(current_hunk_after_recompute(Some(2), 3, true), None);
    assert_eq!(current_hunk_after_recompute(None, 3, false), Some(0));
    assert_eq!(current_hunk_after_recompute(Some(1), 3, false), Some(1));
    assert_eq!(current_hunk_after_recompute(Some(7), 3, false), Some(2));
}

#[test]
fn status_reports_what_the_model_holds() {
    assert_eq!(compare_status(&DiffRowModel::too_large(), None, false), CompareStatus::TooLarge);
    let same = compute_diff_row_model("a\n", "a\n");
    assert_eq!(compare_status(&same, None, false), CompareStatus::NoDifferences);
    assert_eq!(compare_status(&same, None, true), CompareStatus::OnlyTrimmedWhitespaceHidden);
    let changed = compute_diff_row_model("a\nb\n", "x\nb\ny\n");
    assert_eq!(
        compare_status(&changed, Some(0), false),
        CompareStatus::Changes { changed_lines: 2, current_hunk: Some(0), hunk_count: 1 }
    );
}

#[test]
fn status_texts_for_each_state() {
    assert_eq!(status_text(CompareStatus::TooLarge), "Too large to compare differences.");
    assert_eq!(status_text(CompareStatus::NoDifferences), "No differences were found.");
    assert_eq!(
        status_text(CompareStatus::OnlyTrimmedWhitespaceHidden),
        "Only leading or trailing whitespace differences are hidden."
    );
    assert_eq!(
        status_text(CompareStatus::Changes { changed_lines: 3, current_hunk: None, hunk_count: 1 }),
        "3 changed lines"
    );
}

#[test]
fn position_template_fills_every_slot() {
    assert_eq!(format_position("%1$d/%2$d/%3$d %1$d", 10, 2, 305), "10/2/305 10");
}

#[test]
fn loading_labels_end_with_an_ellipsis() {
    assert_eq!(ellipsis_label(String::from("Loading")), "Loading\u{2026}");
    assert!(loading_status_text().ends_with('\u{2026}'));
}
