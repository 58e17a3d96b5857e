use std::time::{Duration, Instant};

use riteed::inline::{
    collect_ranges, common_prefix_len, common_suffix_len, is_identifier_token, is_separator,
    push_range, ranges_for_modify, refined_token_ranges, token_from_chars, token_values,
    tokenize_for_inline, enough_budget, split_nanos, timeout_for_remaining, ChangeKind, InlineBudget, InlineChange,
    InlineRange, InlineToken, MIN_INLINE_BUDGET_US, WORD_LIMIT,
};
use riteed::model::DiffSide;

fn token_texts(line: &str) -> Vec<String> {
    tokenize_for_inline(line).into_iter().map(|token| token.text).collect()
}

fn token(text: &str, start: usize) -> InlineToken {
    InlineToken { text: text.to_string(), start, end: start + text.chars().count() }
}

#[test]
fn inline_ranges_use_grapheme_offsets() {
    let ranges = ranges_for_modify("hello\n", "hullo\n", &InlineBudget::new());
    assert!(ranges.contains(&InlineRange { side: DiffSide::Reference, start: 1, end: 2 }));
    assert!(ranges.contains(&InlineRange { side: DiffSide::Current, start: 1, end: 2 }));
}

#[test]
fn inline_ranges_skip_very_long_lines() {
    let long = "x".repeat(WORD_LIMIT + 1);
    assert!(ranges_for_modify(&long, "y", &InlineBudget::new()).is_empty());
}

#[test]
fn inline_ranges_skip_when_budget_expired() {
    let budget = InlineBudget::expired_for_tests();
    let ranges = ranges_for_modify("compare.left_buffer\n", "compare.right_buffer\n", &budget);
    assert!(ranges.is_empty());
}

#[test]
fn inline_ranges_skip_when_remaining_budget_is_too_small() {
    let deadline = Instant::now() + Duration::from_micros(100);
    let budget = InlineBudget::with_deadline_for_tests(deadline);
    let ranges = ranges_for_modify("compare.left_buffer\n", "compare.right_buffer\n", &budget);
    assert!(ranges.is_empty());
}

#[test]
fn tokenizer_keeps_snake_case_identifiers() {
    assert_eq!(token_texts("foo_bar"), ["foo_bar"]);
    assert_eq!(token_texts("foo.bar"), ["foo", ".", "bar"]);
    assert_eq!(token_texts("Vec<T>"), ["Vec", "<", "T", ">"]);
    assert_eq!(token_texts("obj::method()"), ["obj", "::", "method", "(", ")"]);
    assert!(tokenize_for_inline("").is_empty());
    assert!(tokenize_for_inline(" \t  ").is_empty());
}

#[test]
fn tokenizer_reports_character_offsets() {
    let tokens = tokenize_for_inline(" æ::x");
    assert_eq!(tokens[0].start, 1);
    assert_eq!(tokens[0].end, 2);
    assert_eq!(tokens[1].start, 2);
    assert_eq!(tokens[1].end, 4);
}

#[test]
fn token_ranges_highlight_changed_identifier_parts() {
    let ranges = ranges_for_modify(
        "compare.left_buffer\n",
        "compare.reference_buffer\n",
        &InlineBudget::new(),
    );
    assert!(ranges.contains(&InlineRange { side: DiffSide::Reference, start: 8, end: 12 }));
    assert!(ranges.contains(&InlineRange { side: DiffSide::Current, start: 8, end: 17 }));
}

#[test]
fn separators_are_single_punctuation() {
    assert!(is_separator('.'));
    assert!(is_separator('\''));
    assert!(!is_separator('_'));
    assert!(!is_separator('a'));
}

#[test]
fn identifier_refinement_trims_common_prefix_and_suffix() {
    assert_eq!(
        refined_token_ranges(&token("left_buffer", 8), &token("reference_buffer", 8)),
        Some(((0, 4), (0, 9)))
    );
    assert_eq!(refined_token_ranges(&token("same", 0), &token("same", 0)), None);
    assert_eq!(refined_token_ranges(&token("a.b", 0), &token("a_b", 0)), None);
    assert!(is_identifier_token(&token("snake_case1", 0)));
    assert!(!is_identifier_token(&token("x-y", 0)));
}

#[test]
fn common_affixes_count_characters() {
    let a: Vec<char> = "abcXYZ".chars().collect();
    let b: Vec<char> = "abQYZ".chars().collect();
    assert_eq!(common_prefix_len(&a, &b), 2);
    assert_eq!(common_suffix_len(&a, &b, 2), 2);
    let c: Vec<char> = "aaa".chars().collect();
    assert_eq!(common_suffix_len(&c, &c, 3), 0);
}

#[test]
fn change_lengths_become_offset_ranges() {
    let changes = [
        InlineChange { kind: ChangeKind::Equal, len: 2 },
        InlineChange { kind: ChangeKind::Delete, len: 3 },
        InlineChange { kind: ChangeKind::Insert, len: 1 },
        InlineChange { kind: ChangeKind::Delete, len: 0 },
        InlineChange { kind: ChangeKind::Equal, len: 1 },
        InlineChange { kind: ChangeKind::Insert, len: 2 },
    ];
    assert_eq!(
        collect_ranges(&changes),
        vec![
            InlineRange { side: DiffSide::Reference, start: 2, end: 5 },
            InlineRange { side: DiffSide::Current, start: 2, end: 3 },
            InlineRange { side: DiffSide::Current, start: 4, end: 6 },
        ]
    );
}

#[test]
fn empty_ranges_are_not_pushed() {
    let mut ranges = Vec::new();
    push_range(&mut ranges, DiffSide::Current, 4, 0);
    assert!(ranges.is_empty());
    push_range(&mut ranges, DiffSide::Current, 4, 2);
    assert_eq!(ranges, vec![InlineRange { side: DiffSide::Current, start: 4, end: 6 }]);
}

#[test]
fn tokens_carry_their_texts() {
    let chars: Vec<char> = "ab.cd".chars().collect();
    let t = token_from_chars(&chars, 3, 5);
    assert_eq!((t.text.as_str(), t.start, t.end), ("cd", 3, 5));
    let tokens = tokenize_for_inline("ab.cd");
    assert_eq!(token_values(&tokens), vec!["ab".to_string(), ".".to_string(), "cd".to_string()]);
}

#[test]
fn budget_timeouts_are_capped() {
    let budget = InlineBudget::new();
    assert!(budget.has_work_budget());
    let timeout = budget.effective_timeout(2).expect("fresh budget has time");
    assert!(timeout <= 2_000_000);
    assert!(budget.diff_deadline().is_some());
    let expired = InlineBudget::expired_for_tests();
    assert_eq!(expired.effective_timeout(2), None);
    assert_eq!(expired.diff_deadline(), None);
    assert_eq!(expired.remaining(), 0);
}

#[test]
fn budgets_below_the_minimum_allow_no_diff() {
    let min = u128::from(MIN_INLINE_BUDGET_US) * 1_000;
    assert!(!enough_budget(min - 1));
    assert!(enough_budget(min));
    assert_eq!(timeout_for_remaining(min - 1, 5), None);
    assert_eq!(timeout_for_remaining(min, 5), Some(min));
    assert_eq!(timeout_for_remaining(4_000_123, 5), Some(4_000_123));
    assert_eq!(timeout_for_remaining(9_000_000, 5), Some(5_000_000));
    assert_eq!(timeout_for_remaining(9_000_000, u64::MAX), Some(9_000_000));
    assert_eq!(timeout_for_remaining(9_000_000, 0), Some(0));
    assert_eq!(InlineBudget::expired_for_tests().effective_timeout(5), None);
    assert!(!InlineBudget::expired_for_tests().has_work_budget());
}

#[test]
fn timeouts_split_into_seconds_and_nanoseconds() {
    assert_eq!(split_nanos(0), (0, 0));
    assert_eq!(split_nanos(2_000_000), (0, 2_000_000));
    assert_eq!(split_nanos(3_000_000_007), (3, 7));
    let budget = InlineBudget::new();
    let timeout = budget.effective_timeout(u64::MAX).expect("fresh budget has time");
    assert!(timeout <= 12_000_000);
}
