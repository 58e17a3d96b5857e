use riteed::diff::compute_diff;
use riteed::gutter::{
    gutter_marker_for_row, gutter_number_for_row, line_number_digits, marker_width_request,
    marker_width_samples, number_width_request_for_digits, number_width_samples,
    shared_max_line_number, unified_current_number, unified_marker, unified_reference_number,
    EMPTY_MARKER,
};
use riteed::presentation::PresentationSide;
use riteed::display::{build_display_model, CompareDisplayOptions};
use riteed::unified::build_unified_presentation;

fn numbered_lines(count: usize) -> String {
    let mut text = String::new();
    for line in 1..=count {
        push_numbered_line(&mut text, line);
    }
    text
}

fn push_numbered_line(text: &mut String, line: usize) {
    text.push_str("line ");
    if line < 10 {
        text.push_str("00");
    } else if line < 100 {
        text.push('0');
    }
    text.push_str(&line.to_string());
    text.push('\n');
}

#[test]
fn line_number_digits_track_max_line() {
    assert_eq!(line_number_digits(9), 1);
    assert_eq!(line_number_digits(99), 2);
    assert_eq!(line_number_digits(100), 3);
    assert_eq!(line_number_digits(1_000), 4);
}

#[test]
fn width_request_adds_padding_and_fallback() {
    assert_eq!(number_width_request_for_digits(0, 3), 42);
    assert_eq!(number_width_request_for_digits(48, 3), 60);
    assert_eq!(marker_width_request(0), 16);
    assert_eq!(marker_width_request(18), 24);
}

#[test]
fn width_samples_measure_number_and_marker_columns_separately() {
    assert_eq!(number_width_samples(3), ["888".to_string()]);
    assert_eq!(
        marker_width_samples(),
        ["+".to_string(), "-".to_string(), EMPTY_MARKER.to_string()]
    );
}

#[test]
fn shared_width_uses_largest_line_number_on_either_side() {
    let current = numbered_lines(120);
    let presentation = compute_diff("a\n", &current).presentation;

    assert_eq!(shared_max_line_number(&presentation), 120);
    assert_eq!(line_number_digits(shared_max_line_number(&presentation)), 3);
}

#[test]
fn gutter_cells_keep_numbers_and_markers_separate() {
    let computation = compute_diff("same\nold\n", "same\nnew\ncurrent\n");
    let model = computation.model;
    let presentation = computation.presentation;

    assert_eq!(gutter_number_for_row(&presentation, PresentationSide::Reference, 0), "1");
    assert_eq!(
        gutter_marker_for_row(&presentation, &model, PresentationSide::Reference, 0),
        EMPTY_MARKER.to_string()
    );
    assert_eq!(gutter_number_for_row(&presentation, PresentationSide::Reference, 1), "2");
    assert_eq!(gutter_marker_for_row(&presentation, &model, PresentationSide::Reference, 1), "-");
    assert_eq!(gutter_number_for_row(&presentation, PresentationSide::Reference, 2), "");
    assert_eq!(gutter_marker_for_row(&presentation, &model, PresentationSide::Reference, 2), "");
    assert_eq!(gutter_number_for_row(&presentation, PresentationSide::Current, 1), "2");
    assert_eq!(gutter_marker_for_row(&presentation, &model, PresentationSide::Current, 1), "+");
    assert_eq!(gutter_number_for_row(&presentation, PresentationSide::Current, 2), "3");
    assert_eq!(gutter_marker_for_row(&presentation, &model, PresentationSide::Current, 2), "+");

    let computation = compute_diff("same\nremoved\n", "same\n");
    let model = computation.model;
    let presentation = computation.presentation;
    assert_eq!(gutter_number_for_row(&presentation, PresentationSide::Reference, 1), "2");
    assert_eq!(gutter_marker_for_row(&presentation, &model, PresentationSide::Reference, 1), "-");
    assert_eq!(gutter_number_for_row(&presentation, PresentationSide::Current, 1), "");
    assert_eq!(gutter_marker_for_row(&presentation, &model, PresentationSide::Current, 1), "");
}

#[test]
fn unified_gutter_numbers_follow_line_sides() {
    let computation = compute_diff("same\nold\n", "same\nnew\n");
    let display = build_display_model(
        None,
        &computation.model,
        &["same\n", "old\n"],
        &["same\n", "new\n"],
        &CompareDisplayOptions::expanded(),
    );
    let unified = build_unified_presentation(&display);
    let context = &unified.lines[0];
    let removal = &unified.lines[1];
    let addition = &unified.lines[2];
    assert_eq!((unified_reference_number(context), unified_current_number(context)), (Some(1), Some(1)));
    assert_eq!((unified_reference_number(removal), unified_current_number(removal)), (Some(2), None));
    assert_eq!((unified_reference_number(addition), unified_current_number(addition)), (None, Some(2)));
    assert_eq!(unified_marker(context), EMPTY_MARKER);
    assert_eq!(unified_marker(removal), '-');
    assert_eq!(unified_marker(addition), '+');
}

#[test]
fn digit_counts_and_widths_at_edges() {
    assert_eq!(line_number_digits(0), 1);
    assert_eq!(line_number_digits(usize::MAX), usize::MAX.to_string().len());
    assert_eq!(number_width_samples(0), ["8".to_string()]);
    assert_eq!(number_width_request_for_digits(i32::MAX, 1), i32::MAX);
    assert_eq!(number_width_request_for_digits(0, usize::MAX), i32::MAX);
}
