use riteed::diff::compute_diff_row_model;
use riteed::display::{build_display_model, CompareDisplayModel, CompareDisplayOptions};
use riteed::model::DiffRowModel;
use riteed::navigation::{
    current_hunk_row, hunk_after_move, recompute_scroll_row, target_hunk_for_navigation, top_visible_row,
};
use riteed::unified::{build_unified_presentation, current_collapsed_marker, remaining_marker_line};

#[test]
fn next_hunk_uses_strict_visible_row() {
    let model = compute_diff_row_model("a\nb\nc\nd\ne\nf\n", "x\nb\nc\nd\ne\ny\n");

    assert_eq!(target_hunk_for_navigation(&model, 0, 1), Some(1));
    assert_eq!(target_hunk_for_navigation(&model, 5, 1), Some(0));
}

#[test]
fn previous_hunk_uses_strict_visible_row() {
    let model = compute_diff_row_model("a\nb\nc\nd\ne\nf\n", "x\nb\nc\nd\ne\ny\n");

    assert_eq!(target_hunk_for_navigation(&model, 5, -1), Some(0));
    assert_eq!(target_hunk_for_navigation(&model, 0, -1), Some(1));
}

#[test]
fn navigation_without_hunks_goes_nowhere() {
    let model = compute_diff_row_model("a\n", "a\n");
    assert_eq!(target_hunk_for_navigation(&model, 0, 1), None);
    assert_eq!(target_hunk_for_navigation(&DiffRowModel::too_large(), 0, -1), None);
}

fn collapsed_display(model: &DiffRowModel) -> CompareDisplayModel {
    let reference = ["a\n", "b\n", "c\n", "d\n", "e\n", "f\n"];
    let current = ["x\n", "b\n", "c\n", "d\n", "e\n", "y\n"];
    build_display_model(None, model, &reference, &current, &CompareDisplayOptions::collapsed(1))
}

#[test]
fn moves_start_from_the_current_hunk_or_the_top_row() {
    let model = compute_diff_row_model("a\nb\nc\nd\ne\nf\n", "x\nb\nc\nd\ne\ny\n");
    let display = collapsed_display(&model);
    // display rows: row 0, row 1, rows 2..4 collapsed, row 4, row 5
    assert_eq!(display.rows.len(), 5);
    assert_eq!(hunk_after_move(&model, &display, 2, None, 1), Some(1));
    assert_eq!(hunk_after_move(&model, &display, 0, Some(1), 1), Some(0));
    assert_eq!(hunk_after_move(&model, &display, 0, Some(1), -1), Some(0));
    assert_eq!(hunk_after_move(&model, &display, 0, Some(0), 1), Some(1));
    assert_eq!(hunk_after_move(&model, &display, 99, None, 1), Some(0));
    assert_eq!(hunk_after_move(&DiffRowModel::too_large(), &display, 0, None, 1), None);
}

#[test]
fn the_current_hunk_row_is_its_display_row() {
    let model = compute_diff_row_model("a\nb\nc\nd\ne\nf\n", "x\nb\nc\nd\ne\ny\n");
    let display = collapsed_display(&model);
    assert_eq!(current_hunk_row(Some(1), &model, &display), Some(4));
    assert_eq!(current_hunk_row(Some(0), &model, &display), Some(0));
    assert_eq!(current_hunk_row(Some(7), &model, &display), None);
    assert_eq!(current_hunk_row(None, &model, &display), None);
    assert_eq!(current_hunk_row(Some(1), &model, &CompareDisplayModel::empty()), Some(5));
    assert_eq!(recompute_scroll_row(Some(0), &model, &display), Some(0));
    assert_eq!(recompute_scroll_row(Some(1), &model, &display), None);
}

#[test]
fn the_cursor_finds_the_collapsed_run_above_it() {
    let model = compute_diff_row_model("a\nb\nc\nd\ne\nf\n", "x\nb\nc\nd\ne\ny\n");
    let unified = build_unified_presentation(&collapsed_display(&model));
    // lines: -a, +x, b, [2..4], e, -f, +y
    assert_eq!(unified.lines.len(), 7);
    assert_eq!(current_collapsed_marker(&unified, 3), Some((2, 4)));
    assert_eq!(current_collapsed_marker(&unified, 5), Some((2, 4)));
    assert_eq!(current_collapsed_marker(&unified, 100), Some((2, 4)));
    assert_eq!(current_collapsed_marker(&unified, 2), None);
    assert_eq!(remaining_marker_line(&unified, 2, 4), Some(3));
    assert_eq!(remaining_marker_line(&unified, 3, 4), None);
}

#[test]
fn the_top_visible_row_is_clamped_to_the_display() {
    assert_eq!(top_visible_row(4, 0), 0);
    assert_eq!(top_visible_row(-3, 5), 0);
    assert_eq!(top_visible_row(3, 5), 3);
    assert_eq!(top_visible_row(9, 5), 4);
}
