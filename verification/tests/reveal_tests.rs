use std::collections::BTreeSet;

use riteed::diff::compute_diff_row_model;
use riteed::display::{build_display_model, CompareDisplayOptions};
use riteed::row_reveal::{reveal_at_cursor, reveal_rows, RevealScope};
use riteed::unified::build_unified_presentation;

#[test]
fn reveal_takes_context_rows_from_either_end() {
    assert_eq!(reveal_rows(10, 20, 3, RevealScope::Above), vec![10, 11, 12]);
    assert_eq!(reveal_rows(10, 20, 3, RevealScope::Below), vec![17, 18, 19]);
    assert_eq!(reveal_rows(10, 13, 3, RevealScope::All), vec![10, 11, 12]);
}

#[test]
fn reveal_clamps_the_context_setting() {
    assert_eq!(reveal_rows(0, 20, -4, RevealScope::Above).len(), 3);
    assert_eq!(reveal_rows(0, 20, 0, RevealScope::Above).len(), 1);
    assert_eq!(reveal_rows(0, 20, 50, RevealScope::Above).len(), 10);
    assert_eq!(reveal_rows(5, 7, 10, RevealScope::Below), vec![5, 6]);
}

#[test]
fn empty_runs_reveal_nothing() {
    assert!(reveal_rows(4, 4, 3, RevealScope::All).is_empty());
    assert!(reveal_rows(9, 4, 3, RevealScope::Above).is_empty());
}

#[test]
fn cursor_reveals_grow_the_revealed_rows_once() {
    let reference = ["a\n", "b\n", "c\n", "d\n", "e\n", "f\n"];
    let current = ["x\n", "b\n", "c\n", "d\n", "e\n", "y\n"];
    let model = compute_diff_row_model("a\nb\nc\nd\ne\nf\n", "x\nb\nc\nd\ne\ny\n");
    let display = build_display_model(None, &model, &reference, &current, &CompareDisplayOptions::collapsed(1));
    let unified = build_unified_presentation(&display);
    // unified lines: -a, +x, b, [rows 2..4 hidden], e, -f, +y
    let mut revealed = BTreeSet::new();
    assert!(reveal_at_cursor(&mut revealed, &unified, 3, 1, RevealScope::Above));
    assert_eq!(revealed.iter().copied().collect::<Vec<_>>(), vec![2]);
    assert!(!reveal_at_cursor(&mut revealed, &unified, 3, 1, RevealScope::Above));
    assert!(reveal_at_cursor(&mut revealed, &unified, 4, 1, RevealScope::Below));
    assert_eq!(revealed.iter().copied().collect::<Vec<_>>(), vec![2, 3]);
    assert!(!reveal_at_cursor(&mut revealed, &unified, 2, 1, RevealScope::All));
    assert_eq!(revealed.len(), 2);
}
