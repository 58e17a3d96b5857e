use riteed::diff::compute_diff;
use riteed::display::{build_display_model, CompareDisplayOptions};
use riteed::presentation::PresentationSide;
use riteed::presentation_display::build_presentation_from_display;

#[test]
fn collapsed_display_rows_become_split_metadata_rows() {
    let reference = "0\n1\n2\n3\n4\n5\n6\n";
    let current = "x\n1\n2\n3\n4\n5\ny\n";
    let computation = compute_diff(reference, current);
    let reference_lines = reference.lines().collect::<Vec<_>>();
    let current_lines = current.lines().collect::<Vec<_>>();
    let display = build_display_model(
        None,
        &computation.model,
        &reference_lines,
        &current_lines,
        &CompareDisplayOptions::collapsed(1),
    );
    let presentation = build_presentation_from_display(&display);

    let metadata_row = (0..presentation.line_count()).find(|row| {
        presentation.is_metadata_row(*row)
            && presentation
                .reference_text
                .lines()
                .nth(*row)
                .is_some_and(|line| line.contains("unchanged lines hidden"))
    });

    assert!(metadata_row.is_some());
    assert!(metadata_row.is_some_and(|row| {
        presentation.line_number(PresentationSide::Reference, row).is_none()
            && presentation.line_number(PresentationSide::Current, row).is_none()
    }));
    assert!(presentation.line_count() < computation.model.rows.len());
}

#[test]
fn display_presentation_labels_one_sided_runs() {
    let reference = "a\n";
    let current = "a\nb\nc\n";
    let computation = compute_diff(reference, current);
    let display = build_display_model(
        None,
        &computation.model,
        &["a\n"],
        &["a\n", "b\n", "c\n"],
        &CompareDisplayOptions::expanded(),
    );
    let presentation = build_presentation_from_display(&display);
    assert_eq!(presentation.reference_text, "a\n2 lines only in current\n");
    assert_eq!(presentation.current_text, "a\nb\nc");
    assert_eq!(presentation.placeholder_count, 2);
    assert_eq!(
        presentation.placeholder_marker(PresentationSide::Reference, 1).map(|m| m.run_len),
        Some(2)
    );
    assert_eq!(presentation.line_number(PresentationSide::Current, 2), Some(3));
    assert!(!presentation.is_metadata_row(0));
}

#[test]
fn empty_display_gives_empty_presentation() {
    let computation = compute_diff("", "");
    let display = build_display_model(None, &computation.model, &[], &[], &CompareDisplayOptions::expanded());
    let presentation = build_presentation_from_display(&display);
    assert_eq!(presentation.line_count(), 0);
    assert_eq!(presentation.reference_text, "");
}
