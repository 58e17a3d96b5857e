use riteed::find_in_files::{
    always_skipped_dir, buffer_line_advance, case_sensitive_ranges, char_count_i32, classify_entry,
    clearly_non_text, collect_matches, finish_summary, folded_chars, folded_ranges, format_summary,
    match_ranges, next_scan_step, should_finish, should_skip_entry, EntryAction, EntryKind, LineMatch,
    ScanStep, ScanSummary, MAX_FILE_BYTES, MAX_MATCHES, MAX_VISITED_PATHS,
};

#[test]
fn ranges_are_character_offsets_not_byte_offsets() {
    assert_eq!(case_sensitive_ranges("å alpha", "alpha"), vec![(2, 7)]);
}

#[test]
fn line_advance_matches_normalized_text_buffer_newlines() {
    assert_eq!(buffer_line_advance("ab\n"), 3);
    assert_eq!(buffer_line_advance("ab\r\n"), 3);
    assert_eq!(buffer_line_advance("ab"), 2);
}

#[test]
fn folded_ranges_find_case_insensitive_matches() {
    assert_eq!(folded_ranges("Alpha alpha", &folded_chars("alpha")), vec![(0, 5), (6, 11)]);
}

#[test]
fn folded_ranges_do_not_overlap() {
    assert_eq!(folded_ranges("aaaa", &folded_chars("aa")), vec![(0, 2), (2, 4)]);
}

#[test]
fn folded_ranges_preserve_lowercase_expansion_behavior() {
    assert!(folded_ranges("\u{0130}", &folded_chars("i")).is_empty());
    assert_eq!(folded_ranges("\u{0130}", &folded_chars("i\u{0307}")), vec![(0, 1)]);
}

#[test]
fn skip_list_applies_to_directories_only() {
    assert!(should_skip_entry(".git", true, true));
    assert!(should_skip_entry("target", true, true));
    assert!(!should_skip_entry("target", false, true));
    assert!(!should_skip_entry("build", false, true));
    assert!(should_skip_entry(".secret", false, false));
    assert!(!should_skip_entry(".secret", false, true));
}

#[test]
fn summary_is_plural_sensitive() {
    assert_eq!(
        format_summary(&ScanSummary { files_searched: 1, matches: 1, ..ScanSummary::default() }),
        "1 result in 1 file"
    );
    assert_eq!(
        format_summary(&ScanSummary { files_searched: 2, matches: 3, ..ScanSummary::default() }),
        "3 results in 2 files"
    );
}

#[test]
fn summary_reports_limits_and_skips() {
    assert_eq!(
        format_summary(&ScanSummary {
            files_searched: 1,
            skipped: 1,
            limited: true,
            ..ScanSummary::default()
        }),
        "No matches Results limited; refine the search. 1 file skipped."
    );
}

#[test]
fn case_sensitive_matches_do_not_overlap_and_empty_queries_match_everywhere() {
    assert_eq!(case_sensitive_ranges("aaaa", "aa"), vec![(0, 2), (2, 4)]);
    assert_eq!(case_sensitive_ranges("Alpha", "alpha"), vec![]);
    assert_eq!(case_sensitive_ranges("ab", ""), vec![(0, 0), (1, 1), (2, 2)]);
    assert_eq!(case_sensitive_ranges("é", ""), vec![(0, 0), (1, 1)]);
}

#[test]
fn content_types_and_directories_that_are_never_searched() {
    assert!(clearly_non_text("image/png"));
    assert!(clearly_non_text("application/zip"));
    assert!(!clearly_non_text("text/plain"));
    assert!(!clearly_non_text("application/json"));
    assert!(always_skipped_dir("node_modules"));
    assert!(!always_skipped_dir("src"));
    assert_eq!(char_count_i32("æøå"), 3);
    assert!(folded_ranges("abc", &[]).is_empty());
    assert!(ScanSummary { visited: 25_000, ..ScanSummary::default() }.visited_limit_reached());
}

fn found(line_number: u32, line_text: &str, start_offset: i32, end_offset: i32) -> LineMatch {
    LineMatch { line_number, line_text: String::from(line_text), start_offset, end_offset }
}

#[test]
fn file_matches_carry_line_numbers_text_and_buffer_offsets() {
    let text = "Foo bar\r\nfoo\nlast foo";
    let mut summary = ScanSummary::default();
    let folded = folded_chars("foo");
    let matches = collect_matches(&mut summary, text, "foo", &folded, false);
    assert_eq!(
        matches,
        vec![found(1, "Foo bar", 0, 3), found(2, "foo", 8, 11), found(3, "last foo", 17, 20)]
    );
    assert_eq!(summary.files_searched, 1);
    assert_eq!(summary.matches, 3);
    assert!(!summary.limited);

    let exact = collect_matches(&mut summary, text, "foo", &folded, true);
    assert_eq!(exact, vec![found(2, "foo", 8, 11), found(3, "last foo", 17, 20)]);
    assert_eq!(summary.files_searched, 2);
    assert_eq!(summary.matches, 5);
}

#[test]
fn file_matches_stop_at_the_match_limit() {
    let mut summary = ScanSummary { matches: MAX_MATCHES - 1, ..ScanSummary::default() };
    let matches = collect_matches(&mut summary, "a a\na", "a", &['a'], true);
    assert_eq!(matches, vec![found(1, "a a", 0, 1)]);
    assert_eq!(summary.matches, MAX_MATCHES);
    assert!(summary.limited);

    let mut exact_fit = ScanSummary { matches: MAX_MATCHES - 2, ..ScanSummary::default() };
    let matches = collect_matches(&mut exact_fit, "a a", "a", &['a'], true);
    assert_eq!(matches.len(), 2);
    assert!(!exact_fit.limited);
}

#[test]
fn match_ranges_follow_the_case_option() {
    assert_eq!(match_ranges("aAa", "a", &['a'], true), vec![(0, 1), (2, 3)]);
    assert_eq!(match_ranges("aAa", "a", &['a'], false), vec![(0, 1), (1, 2), (2, 3)]);
}

#[test]
fn entries_are_classified_and_counted() {
    let mut summary = ScanSummary::default();
    assert_eq!(classify_entry(&mut summary, "src", EntryKind::Directory, 0, None, false), EntryAction::QueueDirectory);
    assert_eq!(classify_entry(&mut summary, "target", EntryKind::Directory, 0, None, false), EntryAction::Skip);
    assert_eq!(classify_entry(&mut summary, ".env", EntryKind::Regular, 10, None, false), EntryAction::Skip);
    assert_eq!(classify_entry(&mut summary, ".env", EntryKind::Regular, 10, None, true), EntryAction::QueueFile);
    assert_eq!(
        classify_entry(&mut summary, "a.png", EntryKind::Regular, 10, Some("image/png"), false),
        EntryAction::Skip
    );
    let too_big = i64::try_from(MAX_FILE_BYTES).unwrap() + 1;
    assert_eq!(classify_entry(&mut summary, "big.txt", EntryKind::Regular, too_big, None, false), EntryAction::Skip);
    assert_eq!(classify_entry(&mut summary, "neg.txt", EntryKind::Regular, -1, None, false), EntryAction::Skip);
    assert_eq!(classify_entry(&mut summary, "link", EntryKind::Other, 0, None, false), EntryAction::Skip);
    assert_eq!(summary.visited, 8);
    assert_eq!(summary.skipped, 6);
    assert!(!summary.limited);

    let mut full = ScanSummary { visited: MAX_VISITED_PATHS, ..ScanSummary::default() };
    assert_eq!(classify_entry(&mut full, "a.txt", EntryKind::Regular, 1, None, false), EntryAction::StopAtLimit);
    assert!(full.limited);
    assert_eq!(full.visited, MAX_VISITED_PATHS);
}

#[test]
fn scans_read_files_before_listing_directories_and_finish_at_limits() {
    let summary = ScanSummary::default();
    assert_eq!(next_scan_step(false, &summary, true, true), ScanStep::ReadFile);
    assert_eq!(next_scan_step(false, &summary, false, true), ScanStep::ListDirectory);
    assert_eq!(next_scan_step(false, &summary, false, false), ScanStep::Finish);
    assert_eq!(next_scan_step(true, &summary, true, true), ScanStep::Finish);
    let at_limit = ScanSummary { matches: MAX_MATCHES, ..ScanSummary::default() };
    assert!(should_finish(false, &at_limit));
    assert_eq!(next_scan_step(false, &at_limit, true, true), ScanStep::Finish);
    assert!(finish_summary(&at_limit).limited);
    assert!(!finish_summary(&summary).limited);
}
