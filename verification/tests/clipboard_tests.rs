use riteed::clipboard::{append_projected_line, copies_line, filtered_selection_text, selection_segment};
use riteed::diff::compute_diff;
use riteed::display::{build_display_model, CompareDisplayOptions};
use riteed::unified::build_unified_presentation;

#[test]
fn unified_clipboard_projects_current_content_only() {
    let mut output = String::new();
    let mut wrote = false;

    append_projected_line(&mut output, &mut wrote, "same");
    append_projected_line(&mut output, &mut wrote, "new");

    assert_eq!(output, "same\nnew");
}

#[test]
fn only_context_and_added_lines_are_copied() {
    let computation = compute_diff("same\nold\n", "same\nnew\n");
    let display = build_display_model(
        None,
        &computation.model,
        &["same\n", "old\n"],
        &["same\n", "new\n"],
        &CompareDisplayOptions::expanded(),
    );
    let unified = build_unified_presentation(&display);
    assert!(copies_line(&unified, 0));
    assert!(!copies_line(&unified, 1));
    assert!(copies_line(&unified, 2));
    assert!(!copies_line(&unified, 3));
}

#[test]
fn selection_segments_clamp_to_the_line() {
    assert_eq!(selection_segment(3, 10, 3, 4, 5, 2), (4, 10));
    assert_eq!(selection_segment(4, 10, 3, 4, 5, 2), (0, 10));
    assert_eq!(selection_segment(5, 10, 3, 4, 5, 2), (0, 2));
    assert_eq!(selection_segment(5, 10, 5, 40, 5, -2), (10, 0));
}

#[test]
fn selections_copy_only_current_content_cut_to_the_selection() {
    // unified lines: 0 "same" (context), 1 "old" (removal), 2 "new" (addition)
    let computation = compute_diff("same\nold\n", "same\nnew\n");
    let display = build_display_model(
        None,
        &computation.model,
        &["same\n", "old\n"],
        &["same\n", "new\n"],
        &CompareDisplayOptions::expanded(),
    );
    let unified = build_unified_presentation(&display);
    let buffer = vec![String::from("same"), String::from("old"), String::from("new")];

    assert_eq!(filtered_selection_text(&buffer, &unified, 0, 0, 2, 3), Some(String::from("same\nnew")));
    assert_eq!(filtered_selection_text(&buffer, &unified, 0, 2, 2, 1), Some(String::from("me\nn")));
    assert_eq!(filtered_selection_text(&buffer, &unified, 1, 0, 1, 3), Some(String::new()));
    assert_eq!(filtered_selection_text(&buffer, &unified, 0, 4, 0, 9), Some(String::new()));
    assert_eq!(filtered_selection_text(&buffer, &unified, 2, 0, 2, 0), Some(String::new()));
    assert_eq!(filtered_selection_text(&buffer, &unified, 2, 0, 0, 0), Some(String::new()));
    assert_eq!(filtered_selection_text(&buffer, &unified, -1, 0, 0, 1), None);
    let short_buffer = vec![String::from("same")];
    assert_eq!(filtered_selection_text(&short_buffer, &unified, 0, 0, 2, 3), None);
    assert_eq!(filtered_selection_text(&short_buffer, &unified, 0, 0, 1, 3), Some(String::from("same")));
}
