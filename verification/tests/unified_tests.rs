use riteed::diff::compute_diff;
use riteed::display::{build_display_model, CompareDisplayOptions};
use riteed::inline::InlineRange;
use riteed::model::DiffSide;
use riteed::unified::{build_unified_presentation, inline_ranges_for_side, UnifiedLineSide, UnifiedPresentation};

fn unified(reference: &str, current: &str) -> UnifiedPresentation {
    let computation = compute_diff(reference, current);
    let reference_lines = reference.lines().collect::<Vec<_>>();
    let current_lines = current.lines().collect::<Vec<_>>();
    let display = build_display_model(
        None,
        &computation.model,
        &reference_lines,
        &current_lines,
        &CompareDisplayOptions::expanded(),
    );
    build_unified_presentation(&display)
}

#[test]
fn insertions_and_deletions_use_one_flow() {
    let presentation = unified("same\nold\n", "same\nnew\nextra\n");
    let sides = presentation.lines.iter().map(|line| line.side).collect::<Vec<_>>();

    assert!(sides.contains(&UnifiedLineSide::Removal));
    assert!(sides.contains(&UnifiedLineSide::Addition));
    assert_eq!(presentation.text(), "same\nold\nnew\nextra");
}

#[test]
fn modify_rows_preserve_both_line_numbers() {
    let presentation = unified("alpha\n", "alpine\n");

    let removal = presentation.lines.iter().find(|line| line.side == UnifiedLineSide::Removal);
    let addition = presentation.lines.iter().find(|line| line.side == UnifiedLineSide::Addition);

    assert_eq!(removal.and_then(|line| line.reference_line), Some(1));
    assert_eq!(removal.and_then(|line| line.current_line), None);
    assert_eq!(addition.and_then(|line| line.reference_line), None);
    assert_eq!(addition.and_then(|line| line.current_line), Some(1));
}

#[test]
fn modify_rows_keep_side_specific_inline_ranges() {
    let presentation = unified("alpha beta\n", "alpha zeta\n");

    let removal_ranges = presentation
        .lines
        .iter()
        .find(|line| line.side == UnifiedLineSide::Removal)
        .map(|line| line.inline_ranges.len());
    let addition_ranges = presentation
        .lines
        .iter()
        .find(|line| line.side == UnifiedLineSide::Addition)
        .map(|line| line.inline_ranges.len());

    assert!(removal_ranges.is_some_and(|count| count > 0));
    assert!(addition_ranges.is_some_and(|count| count > 0));
}

#[test]
fn empty_files_have_no_unified_rows() {
    let presentation = unified("", "");

    assert_eq!(presentation.line_count(), 0);
}

#[test]
fn side_filter_keeps_order_and_only_that_side() {
    let ranges = [
        InlineRange { side: DiffSide::Current, start: 0, end: 1 },
        InlineRange { side: DiffSide::Reference, start: 2, end: 3 },
        InlineRange { side: DiffSide::Current, start: 4, end: 6 },
    ];
    assert_eq!(
        inline_ranges_for_side(&ranges, DiffSide::Current),
        vec![ranges[0], ranges[2]]
    );
    assert_eq!(inline_ranges_for_side(&ranges, DiffSide::Reference), vec![ranges[1]]);
}

#[test]
fn context_lines_prefer_current_text() {
    let presentation = unified("same\n", "same\n");
    assert_eq!(presentation.lines.len(), 1);
    assert_eq!(presentation.lines[0].side, UnifiedLineSide::Context);
    assert_eq!(presentation.lines[0].text, "same");
    assert_eq!(presentation.lines[0].logical_row, Some(0));
}
