use riteed::diff::compute_diff_row_model;
use riteed::model::{
    build_row_model, hunks_for_rows, DiffLineOp, DiffLineTag, DiffRow, DiffRowKind, DiffRowModel,
    DiffSide,
};

#[test]
fn insertion_only_builds_current_only_rows() {
    let model = compute_diff_row_model("", "a\nb\n");
    assert_eq!(model.rows.len(), 2);
    assert!(model.rows.iter().all(|row| row.kind == DiffRowKind::CurrentOnly));
    assert_eq!(model.row_to_reference_line, vec![None, None]);
    assert_eq!(model.row_to_current_line, vec![Some(0), Some(1)]);
}

#[test]
fn deletion_only_builds_reference_only_rows() {
    let model = compute_diff_row_model("a\nb\n", "");
    assert_eq!(model.rows.len(), 2);
    assert!(model.rows.iter().all(|row| row.kind == DiffRowKind::ReferenceOnly));
    assert_eq!(model.row_to_reference_line, vec![Some(0), Some(1)]);
    assert_eq!(model.row_to_current_line, vec![None, None]);
}

#[test]
fn replacement_pairs_modify_and_surplus_rows() {
    let model = compute_diff_row_model("a\nb\nc\n", "x\ny\nz\nq\n");
    assert_eq!(model.rows[0].kind, DiffRowKind::Modify);
    assert_eq!(model.rows[1].kind, DiffRowKind::Modify);
    assert_eq!(model.rows[2].kind, DiffRowKind::Modify);
    assert_eq!(model.rows[3].kind, DiffRowKind::CurrentOnly);
}

#[test]
fn dense_line_maps_roundtrip() {
    let model = compute_diff_row_model("a\nb\nc\n", "a\nx\nc\n");
    assert_eq!(model.row_for_line(DiffSide::Reference, 1), Some(1));
    assert_eq!(model.row_for_line(DiffSide::Current, 1), Some(1));
    assert_eq!(model.line_for_row(DiffSide::Reference, 1), Some(1));
    assert_eq!(model.line_for_row(DiffSide::Current, 1), Some(1));
}

#[test]
fn nearby_changes_merge_with_three_context_rows() {
    let model = compute_diff_row_model("0\n1\n2\n3\n4\n5\n", "x\n1\n2\n3\ny\n5\n");
    assert_eq!(model.hunks.len(), 1);
    assert_eq!(model.hunks[0].first_row, 0);
    assert_eq!(model.hunks[0].rows, vec![0, 4]);
}

#[test]
fn eof_insert_preserves_prefix_maps() {
    let model = compute_diff_row_model("a\nb\n", "a\nb\nc\n");
    assert_eq!(model.rows[2].kind, DiffRowKind::CurrentOnly);
    assert_eq!(model.row_to_reference_line, vec![Some(0), Some(1), None]);
    assert_eq!(model.row_to_current_line, vec![Some(0), Some(1), Some(2)]);
    assert_eq!(model.row_for_line(DiffSide::Current, 2), Some(2));
    assert_eq!(model.line_for_row(DiffSide::Reference, 2), None);
}

#[test]
fn eof_delete_preserves_prefix_maps() {
    let model = compute_diff_row_model("a\nb\nc\n", "a\nb\n");
    assert_eq!(model.rows[2].kind, DiffRowKind::ReferenceOnly);
    assert_eq!(model.row_to_reference_line, vec![Some(0), Some(1), Some(2)]);
    assert_eq!(model.row_to_current_line, vec![Some(0), Some(1), None]);
    assert_eq!(model.row_for_line(DiffSide::Reference, 2), Some(2));
    assert_eq!(model.line_for_row(DiffSide::Current, 2), None);
}

#[test]
fn eof_replace_preserves_prefix_maps() {
    let model = compute_diff_row_model("a\nb\n", "a\nc\n");
    assert_eq!(model.rows[1].kind, DiffRowKind::Modify);
    assert_eq!(model.row_to_reference_line, vec![Some(0), Some(1)]);
    assert_eq!(model.row_to_current_line, vec![Some(0), Some(1)]);
    assert_eq!(model.row_for_line(DiffSide::Reference, 1), Some(1));
    assert_eq!(model.line_for_row(DiffSide::Current, 1), Some(1));
}

#[test]
fn trailing_newline_boundaries_keep_last_line_maps() {
    let missing_newline = compute_diff_row_model("a\nb\n", "a\nb");
    assert_eq!(missing_newline.rows.len(), 2);
    assert_eq!(missing_newline.rows[1].kind, DiffRowKind::Modify);
    assert_eq!(missing_newline.row_to_reference_line, vec![Some(0), Some(1)]);
    assert_eq!(missing_newline.row_to_current_line, vec![Some(0), Some(1)]);

    let added_newline = compute_diff_row_model("a\nb", "a\nb\n");
    assert_eq!(added_newline.rows.len(), 2);
    assert_eq!(added_newline.rows[1].kind, DiffRowKind::Modify);
    assert_eq!(added_newline.row_to_reference_line, vec![Some(0), Some(1)]);
    assert_eq!(added_newline.row_to_current_line, vec![Some(0), Some(1)]);
}

#[test]
fn model_queries_past_the_end_give_none() {
    let model = compute_diff_row_model("a\n", "a\n");
    assert_eq!(model.row_for_line(DiffSide::Reference, 5), None);
    assert_eq!(model.line_for_row(DiffSide::Current, 5), None);
    let empty = DiffRowModel::empty();
    assert!(!empty.too_large);
    assert_eq!(empty.changed_row_count(), 0);
    assert!(DiffRowModel::too_large().too_large);
}

#[test]
fn row_model_from_ops_pairs_replaced_lines_then_surplus() {
    let ops = vec![
        DiffLineOp { tag: DiffLineTag::Equal, reference_range: 0..1, current_range: 0..1 },
        DiffLineOp { tag: DiffLineTag::Replace, reference_range: 1..3, current_range: 1..2 },
    ];
    let reference = ["a\n", "b\n", "c\n"];
    let current = ["a\n", "x\n"];
    let model = build_row_model(&ops, &reference, &current);
    let kinds: Vec<DiffRowKind> = model.rows.iter().map(|row| row.kind).collect();
    assert_eq!(kinds, vec![DiffRowKind::Equal, DiffRowKind::Modify, DiffRowKind::ReferenceOnly]);
    assert_eq!(model.row_to_reference_line, vec![Some(0), Some(1), Some(2)]);
    assert_eq!(model.row_to_current_line, vec![Some(0), Some(1), None]);
    assert!(model.has_complete_line_identity(3, 2));
    assert_eq!(model.changed_row_count(), 2);
}

#[test]
fn distant_changes_make_separate_hunks() {
    let mut rows = Vec::new();
    rows.push(DiffRow::new(Some(0), Some(0), DiffRowKind::Modify));
    for line in 1..6 {
        rows.push(DiffRow::new(Some(line), Some(line), DiffRowKind::Equal));
    }
    rows.push(DiffRow::new(Some(6), Some(6), DiffRowKind::Modify));
    let hunks = hunks_for_rows(&rows);
    assert_eq!(hunks.len(), 2);
    assert_eq!(hunks[0].first_row, 0);
    assert_eq!(hunks[0].rows, vec![0]);
    assert_eq!(hunks[1].first_row, 6);
    assert_eq!(hunks[1].rows, vec![6]);
}
