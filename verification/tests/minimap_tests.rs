use riteed::diff::DiffSkipReason;
use riteed::minimap_rows::{compute, MinimapRow, MinimapRowKind};

#[test]
fn minimap_rows_follow_the_line_diff() {
    let rows = compute("same\nold\n", "same\nnew\nadded\n");
    assert_eq!(rows.skip_reason, None);
    assert_eq!(
        rows.rows,
        vec![
            MinimapRow { reference_line: Some(0), current_line: Some(0), kind: MinimapRowKind::Equal },
            MinimapRow { reference_line: Some(1), current_line: Some(1), kind: MinimapRowKind::Modified },
            MinimapRow { reference_line: None, current_line: Some(2), kind: MinimapRowKind::Added },
        ]
    );
}

#[test]
fn minimap_rows_of_skipped_compares_are_empty() {
    let large = "x".repeat(1_000_001);
    let rows = compute(&large, "");
    assert_eq!(rows.skip_reason, Some(DiffSkipReason::Bytes));
    assert!(rows.rows.is_empty());
    let removed = compute("a\n", "");
    assert_eq!(removed.rows[0].kind, MinimapRowKind::Removed);
}
