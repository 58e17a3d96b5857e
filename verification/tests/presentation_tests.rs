use riteed::diff::compute_diff;
use riteed::presentation::{strip_line_ending, PresentationSide};

#[test]
fn current_only_uses_reference_placeholders() {
    let presentation = compute_diff("", "a\nb\n").presentation;

    assert_eq!(presentation.reference_text, "2 lines only in current\n");
    assert_eq!(presentation.current_text, "a\nb");
    assert_eq!(presentation.placeholder_count, 2);
    assert_eq!(
        presentation
            .placeholder_marker(PresentationSide::Reference, 0)
            .map(|marker| marker.run_len),
        Some(2)
    );
    assert_eq!(presentation.placeholder_marker(PresentationSide::Reference, 1), None);
    assert_eq!(presentation.line_number(PresentationSide::Reference, 0), None);
    assert_eq!(presentation.line_number(PresentationSide::Current, 0), Some(1));
}

#[test]
fn reference_only_uses_current_placeholders() {
    let presentation = compute_diff("a\nb\n", "").presentation;

    assert_eq!(presentation.reference_text, "a\nb");
    assert_eq!(presentation.current_text, "2 lines only in reference\n");
    assert_eq!(presentation.placeholder_count, 2);
    assert_eq!(
        presentation
            .placeholder_marker(PresentationSide::Current, 0)
            .map(|marker| marker.run_len),
        Some(2)
    );
    assert_eq!(presentation.placeholder_marker(PresentationSide::Current, 1), None);
    assert_eq!(presentation.line_number(PresentationSide::Reference, 1), Some(2));
    assert_eq!(presentation.line_number(PresentationSide::Current, 1), None);
}

#[test]
fn mixed_rows_preserve_original_line_numbers() {
    let left = "same\nold\nleft\n";
    let right = "same\nnew\nright\n";
    let computation = compute_diff(left, right);
    let model = computation.model;
    let presentation = computation.presentation;

    assert_eq!(presentation.line_count(), model.rows.len());
    assert_eq!(presentation.line_number(PresentationSide::Reference, 0), Some(1));
    assert_eq!(presentation.line_number(PresentationSide::Current, 0), Some(1));
    assert_eq!(
        presentation.reference_line_numbers.len(),
        presentation.current_line_numbers.len()
    );
}

#[test]
fn hatch_side_targets_only_placeholder_side() {
    let left = "same\nold\nleft only\nblank follows\n\n";
    let right = "same\nnew\nblank follows\n\nright only\n";
    let presentation = compute_diff(left, right).presentation;

    let hatch_sides: Vec<Option<PresentationSide>> = (0..presentation.line_count())
        .map(|row| presentation.hatch_side_for_row(row))
        .collect();

    assert!(hatch_sides.contains(&Some(PresentationSide::Reference)));
    assert!(hatch_sides.contains(&Some(PresentationSide::Current)));
    assert_eq!(presentation.hatch_side_for_row(0), None);
    for row in 0..presentation.line_count() {
        if presentation.line_number(PresentationSide::Reference, row).is_some()
            && presentation.line_number(PresentationSide::Current, row).is_some()
        {
            assert_eq!(presentation.hatch_side_for_row(row), None);
        }
    }
}

#[test]
fn marker_metadata_does_not_mark_real_blank_lines() {
    let left = "a\n\n";
    let right = "a\n\nb\n";
    let presentation = compute_diff(left, right).presentation;

    let real_blank = (0..presentation.line_count()).find(|row| {
        presentation.line_number(PresentationSide::Reference, *row) == Some(2)
            && presentation.line_number(PresentationSide::Current, *row) == Some(2)
    });
    let marker_count = (0..presentation.line_count())
        .filter(|row| {
            presentation.placeholder_marker(PresentationSide::Reference, *row).is_some()
                || presentation.placeholder_marker(PresentationSide::Current, *row).is_some()
        })
        .count();

    assert!(real_blank.is_some());
    assert_eq!(marker_count, 1);
}

#[test]
fn single_line_runs_use_only_in_labels() {
    let presentation = compute_diff("", "a\n").presentation;
    assert_eq!(presentation.reference_text, "Only in current");
    let presentation = compute_diff("a\n", "").presentation;
    assert_eq!(presentation.current_text, "Only in reference");
}

#[test]
fn max_line_number_defaults_to_one() {
    let presentation = compute_diff("a\nb\nc\n", "").presentation;
    assert_eq!(presentation.max_line_number(PresentationSide::Reference), 3);
    assert_eq!(presentation.max_line_number(PresentationSide::Current), 1);
    assert!(!presentation.is_metadata_row(0));
}

#[test]
fn presentation_strip_removes_one_line_ending() {
    assert_eq!(strip_line_ending("a\r\n"), "a");
    assert_eq!(strip_line_ending("a\n"), "a");
    assert_eq!(strip_line_ending("a\r"), "a");
    assert_eq!(strip_line_ending("a\n\n"), "a\n");
    assert_eq!(strip_line_ending("a"), "a");
}
