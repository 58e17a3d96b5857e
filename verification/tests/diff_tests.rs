use proptest::strategy::{Just, Strategy, Union};
use proptest::test_runner::{Config, TestRunner};
use riteed::diff::{
    compare_skip_reason, compute_diff, compute_diff_with_options, fuzz_compute_diff,
    normalized_line, split_line_ending, DiffComputation, DiffOptions, DiffSkipReason,
    MAX_COMPARE_BYTES, MAX_COMPARE_LINES, MAX_COMPARE_LINE_PRODUCT,
};
use riteed::model::DiffSide;
use riteed::presentation::DiffPresentation;
use riteed::text::line_slices;

const IGNORE_WHITESPACE: DiffOptions = DiffOptions {
    ignore_leading_trailing_whitespace: true,
};

fn repeated_lines(count: usize, line: &str) -> String {
    line.repeat(count)
}

fn integer_sqrt(value: usize) -> usize {
    let mut candidate: usize = 0;
    while candidate.saturating_mul(candidate) <= value {
        candidate += 1;
    }
    candidate.saturating_sub(1)
}

fn assert_side_identity(computation: &DiffComputation, side: DiffSide, line_count: usize) {
    let model = &computation.model;
    for line in 0..line_count {
        let row = model.row_for_line(side, line);
        assert!(row.is_some(), "{side:?} line {line} has no row");
        let row = row.unwrap_or(model.rows.len());
        assert!(row < model.rows.len(), "{side:?} row {row} is out of range");
        assert_eq!(model.line_for_row(side, row), Some(line));
        let occurrences = match side {
            DiffSide::Reference => &model.row_to_reference_line,
            DiffSide::Current => &model.row_to_current_line,
        }
        .iter()
        .filter(|mapped| **mapped == Some(line))
        .count();
        assert_eq!(occurrences, 1, "{side:?} line {line} must map once");
    }
}

fn assert_identity(reference: &str, current: &str, options: DiffOptions) -> DiffComputation {
    let computation = compute_diff_with_options(reference, current, options);
    assert_eq!(computation.skip_reason, None);
    assert_side_identity(&computation, DiffSide::Reference, line_slices(reference).len());
    assert_side_identity(&computation, DiffSide::Current, line_slices(current).len());
    computation
}

fn text_of(choices: Vec<char>, max_len: usize) -> impl Strategy<Value = String> {
    let options: Vec<_> = choices.into_iter().map(|c| Just(c).boxed()).collect();
    proptest::collection::vec(Union::new(options), 0..max_len)
        .prop_map(|chars| chars.into_iter().collect::<String>())
}

#[test]
fn performance_guard_skips_large_inputs() {
    let large = "x".repeat(MAX_COMPARE_BYTES + 1);
    let computation = compute_diff(&large, "");
    let model = computation.model;

    assert!(model.too_large);
    assert_eq!(computation.skip_reason, Some(DiffSkipReason::Bytes));
    assert!(model.hunks.is_empty());
}

#[test]
fn bytes_at_minus_one_returns_ok() {
    let reference = "x".repeat(MAX_COMPARE_BYTES - 1);
    let computation = compute_diff(&reference, "");

    assert_eq!(computation.skip_reason, None);
}

#[test]
fn bytes_at_exact_returns_ok() {
    let reference = "x".repeat(MAX_COMPARE_BYTES);
    let computation = compute_diff(&reference, "");

    assert_eq!(computation.skip_reason, None);
}

#[test]
fn bytes_at_plus_one_returns_too_large() {
    let reference = "x".repeat(MAX_COMPARE_BYTES + 1);
    let computation = compute_diff(&reference, "");

    assert_eq!(computation.skip_reason, Some(DiffSkipReason::Bytes));
}

#[test]
fn lines_at_minus_one_returns_ok() {
    let reference = repeated_lines(MAX_COMPARE_LINES - 1, "x\n");
    let computation = compute_diff(&reference, "");

    assert_eq!(computation.skip_reason, None);
}

#[test]
fn lines_at_exact_returns_ok() {
    let reference = repeated_lines(MAX_COMPARE_LINES, "x\n");
    let computation = compute_diff(&reference, "");

    assert_eq!(computation.skip_reason, None);
}

#[test]
fn lines_at_plus_one_returns_too_large() {
    let reference = repeated_lines(MAX_COMPARE_LINES + 1, "x\n");
    let computation = compute_diff(&reference, "");

    assert_eq!(computation.skip_reason, Some(DiffSkipReason::Lines));
}

#[test]
fn line_product_at_minus_one_returns_ok() {
    let reference = repeated_lines(9_999, "x\n");
    let current = repeated_lines(1_000, "x\n");
    let computation = compute_diff(&reference, &current);

    assert_eq!(computation.skip_reason, None);
}

#[test]
fn line_product_at_exact_returns_ok() {
    let reference = repeated_lines(10_000, "x\n");
    let current = repeated_lines(1_000, "x\n");
    let computation = compute_diff(&reference, &current);

    assert_eq!(computation.skip_reason, None);
}

#[test]
fn line_product_at_plus_one_returns_too_large() {
    let reference = repeated_lines(10_001, "x\n");
    let current = repeated_lines(1_000, "x\n");
    let computation = compute_diff(&reference, &current);

    assert_eq!(computation.skip_reason, Some(DiffSkipReason::Computation));
}

#[test]
fn line_limit_reports_skip_reason() {
    let many = "x\n".repeat(MAX_COMPARE_LINES + 1);
    let computation = compute_diff(&many, "");

    assert!(computation.model.too_large);
    assert_eq!(computation.skip_reason, Some(DiffSkipReason::Lines));
}

#[test]
fn computation_limit_reports_skip_reason() {
    let line_count = integer_sqrt(MAX_COMPARE_LINE_PRODUCT).saturating_add(1);
    let reference = "x\n".repeat(line_count);
    let current = "y\n".repeat(line_count);
    let computation = compute_diff(&reference, &current);

    assert!(computation.model.too_large);
    assert_eq!(computation.skip_reason, Some(DiffSkipReason::Computation));
}

#[test]
fn changed_compare_builds_model_and_presentation_from_one_line_diff() {
    let computation = compute_diff("same\nold\n", "same\nnew\ncurrent\n");

    assert_eq!(computation.model.rows.len(), computation.presentation.line_count());
    assert_eq!(computation.presentation.placeholder_count, 1);
}

#[test]
fn equal_compare_uses_one_line_diff_without_placeholders() {
    let computation = compute_diff("same\ntext\n", "same\ntext\n");

    assert_eq!(computation.model.changed_row_count(), 0);
    assert_eq!(computation.presentation.placeholder_count, 0);
    assert_eq!(computation.model.rows.len(), computation.presentation.line_count());
}

#[test]
fn empty_compare_uses_at_most_one_line_diff() {
    let computation = compute_diff("", "");

    assert!(computation.model.rows.is_empty());
    assert_eq!(computation.presentation, DiffPresentation::empty());
}

#[test]
fn leading_trailing_whitespace_option_hides_trim_only_changes() {
    let computation = compute_diff_with_options("alpha\n beta \n", "alpha\nbeta\n", IGNORE_WHITESPACE);

    assert_eq!(computation.model.changed_row_count(), 0);
    assert!(computation.hidden_trim_whitespace_differences);
}

#[test]
fn leading_trailing_whitespace_option_keeps_original_render_text() {
    let computation = compute_diff_with_options("alpha\n beta \n", "alpha\nzeta\n", IGNORE_WHITESPACE);

    assert_eq!(computation.model.changed_row_count(), 1);
    assert!(computation.presentation.reference_text.contains(" beta "));
}

#[test]
fn whitespace_option_does_not_hide_internal_whitespace_changes() {
    let computation = compute_diff_with_options("alpha beta\n", "alphabeta\n", IGNORE_WHITESPACE);

    assert_eq!(computation.model.changed_row_count(), 1);
    assert!(!computation.hidden_trim_whitespace_differences);
}

#[test]
fn proptest_compute_diff_respects_caps() {
    let mut runner = TestRunner::new(Config { cases: 16, ..Config::default() });
    let strategy = (
        text_of(vec!['x', '\n', '\r', '\0'], 1024),
        text_of(vec!['y', '\n', '\r', '\0'], 1024),
    );
    runner
        .run(&strategy, |(reference, current)| {
            let computation = compute_diff_with_options(&reference, &current, DiffOptions::default());
            let expected_skip = compare_skip_reason(&reference, &current);
            assert_eq!(computation.skip_reason, expected_skip);
            assert_eq!(computation.model.too_large, expected_skip.is_some());
            Ok(())
        })
        .unwrap();
}

#[test]
fn fuzz_regression_lone_cr_line_splitting_matches_diff_ops() {
    let reference = String::from_utf8_lossy(b"al-pha}\xe1\na");
    let current = "\r\0\0\0\0\0\0\0\n";

    let computation = compute_diff(&reference, current);

    assert_eq!(computation.skip_reason, None);
    assert!(!computation.model.too_large);
}

#[test]
fn ignored_whitespace_tail_keeps_original_line_identity() {
    let computation = assert_identity("a\n   ", "a\nb", IGNORE_WHITESPACE);

    assert_eq!(computation.presentation.reference_text, "a\n   ");
    assert_eq!(computation.presentation.current_text, "a\nb");
}

#[test]
fn ignored_whitespace_tail_keeps_identity_when_reversed() {
    let computation = assert_identity("a\nb", "a\n   ", IGNORE_WHITESPACE);

    assert_eq!(computation.presentation.reference_text, "a\nb");
    assert_eq!(computation.presentation.current_text, "a\n   ");
}

#[test]
fn ignored_whitespace_only_text_keeps_its_token_against_empty() {
    let computation = assert_identity("   ", "", IGNORE_WHITESPACE);

    assert_eq!(computation.presentation.reference_text, "   ");
}

#[test]
fn ignored_whitespace_tail_keeps_token_against_trailing_newline() {
    let computation = assert_identity("a\n   ", "a\n", IGNORE_WHITESPACE);

    assert_eq!(computation.presentation.reference_text, "a\n   ");
}

#[test]
fn normalized_lines_preserve_lf_crlf_and_lone_cr_identity() {
    for (reference, current) in [
        ("a\n   ", "a\nb"),
        ("a\r\n   ", "a\r\nb"),
        ("a\r   ", "a\rb"),
        ("a\n\n   ", "a\n\nb"),
        ("a\n\u{2003}", "a\nb"),
        ("", ""),
        ("a\n", "a"),
    ] {
        assert_identity(reference, current, IGNORE_WHITESPACE);
    }
}

#[test]
fn lone_cr_presentation_uses_one_display_row_per_original_token() {
    let computation = assert_identity("a\r   ", "a\rb", IGNORE_WHITESPACE);

    assert_eq!(computation.presentation.reference_text, "a\n   ");
    assert_eq!(computation.presentation.current_text, "a\nb");
}

#[test]
fn disabled_whitespace_option_preserves_whitespace_changes_and_identity() {
    let computation = assert_identity(" a\n\n", "a\n", DiffOptions::default());

    assert!(computation.model.changed_row_count() > 0);
    assert!(!computation.hidden_trim_whitespace_differences);
}

#[test]
fn all_original_tokens_map_once_and_roundtrip() {
    let mut runner = TestRunner::new(Config::default());
    let strategy = (
        text_of(vec!['a', ' ', '\t', '\n', '\r', '\u{2003}'], 128),
        text_of(vec!['b', ' ', '\t', '\n', '\r', '\u{2003}'], 128),
        proptest::bool::ANY,
    );
    runner
        .run(&strategy, |(reference, current, ignore_leading_trailing_whitespace)| {
            let options = DiffOptions { ignore_leading_trailing_whitespace };
            assert_identity(&reference, &current, options);
            Ok(())
        })
        .unwrap();
}

#[test]
fn split_line_ending_separates_each_ending() {
    assert_eq!(split_line_ending("a\r\n"), ("a", "\r\n"));
    assert_eq!(split_line_ending("a\n"), ("a", "\n"));
    assert_eq!(split_line_ending("a\r"), ("a", "\r"));
    assert_eq!(split_line_ending("a"), ("a", ""));
    assert_eq!(split_line_ending("\r\n"), ("", "\r\n"));
}

#[test]
fn normalized_line_trims_content_and_keeps_ending() {
    assert_eq!(normalized_line("  a b \r\n"), "a b\r\n");
    assert_eq!(normalized_line("\t x\n"), "x\n");
    assert_eq!(normalized_line("   "), "");
    assert_eq!(normalized_line(" y\r"), "y\r");
}

#[test]
fn compare_skip_reason_orders_bytes_before_lines_before_product() {
    assert_eq!(compare_skip_reason("", ""), None);
    let many = "\n".repeat(MAX_COMPARE_LINES + 1);
    assert_eq!(compare_skip_reason(&many, ""), Some(DiffSkipReason::Lines));
    let huge = "\n".repeat(MAX_COMPARE_BYTES + 1);
    assert_eq!(compare_skip_reason(&huge, ""), Some(DiffSkipReason::Bytes));
}

#[test]
fn fuzz_entry_reports_identity_for_small_inputs() {
    assert_eq!(fuzz_compute_diff("a\nb\n", "a\nc\nd\n"), (false, 2, true));
    let huge = "x".repeat(MAX_COMPARE_BYTES + 1);
    let (skipped, changed, valid) = fuzz_compute_diff(&huge, "");
    assert!(skipped);
    assert_eq!(changed, 0);
    assert!(valid);
}
