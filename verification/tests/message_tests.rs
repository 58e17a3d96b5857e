use riteed::banner::{banner_messages, VisibleBannerState};
use riteed::diff::{compute_diff_with_options, normalized_line, split_line_ending, DiffOptions, DiffSkipReason};
use riteed::display::hidden_message;
use riteed::error::AppError;
use riteed::i18n::Message;
use riteed::presentation::{marker_message, PlaceholderMarker, PresentationSide};
use riteed::review::{mode_message, CompareViewMode};
use riteed::review_session::skip_reason_message;
use riteed::status::{changes_message, fixed_status_message, loading_message, CompareStatus};
use riteed::text::is_whitespace;

fn parts(message: &Message) -> (Option<&str>, &str, Option<&str>, u32) {
    (message.context, message.msgid, message.plural, message.count)
}

#[test]
fn view_modes_name_their_message() {
    assert_eq!(parts(&mode_message(CompareViewMode::Adaptive)), (Some("compare mode"), "Adaptive", None, 0));
    assert_eq!(parts(&mode_message(CompareViewMode::Split)), (Some("compare mode"), "Split", None, 0));
    assert_eq!(parts(&mode_message(CompareViewMode::Unified)), (Some("compare mode"), "Unified", None, 0));
}

#[test]
fn status_messages_select_plural_forms_by_changed_lines() {
    assert_eq!(
        parts(&changes_message(3, Some(0))),
        (None, "%1$d changed line - %2$d/%3$d", Some("%1$d changed lines - %2$d/%3$d"), 3)
    );
    assert_eq!(parts(&changes_message(1, None)), (None, "%d changed line", Some("%d changed lines"), 1));
    assert_eq!(changes_message(usize::MAX, None).count, u32::MAX);
    assert_eq!(fixed_status_message(CompareStatus::TooLarge).unwrap().msgid, "Too large to compare differences.");
    assert_eq!(fixed_status_message(CompareStatus::NoDifferences).unwrap().msgid, "No differences were found.");
    assert_eq!(
        fixed_status_message(CompareStatus::OnlyTrimmedWhitespaceHidden).unwrap().msgid,
        "Only leading or trailing whitespace differences are hidden."
    );
    assert!(fixed_status_message(CompareStatus::Changes { changed_lines: 1, current_hunk: None, hunk_count: 1 })
        .is_none());
    assert_eq!(parts(&loading_message()), (Some("compare status"), "Loading Reference", None, 0));
}

#[test]
fn hidden_and_placeholder_labels_name_their_messages() {
    assert_eq!(
        parts(&hidden_message(4)),
        (None, "%d unchanged line hidden", Some("%d unchanged lines hidden"), 4)
    );
    let one = PlaceholderMarker { side: PresentationSide::Reference, run_len: 1 };
    assert_eq!(parts(&marker_message(one)), (Some("compare placeholder"), "Only in current", None, 0));
    let many = PlaceholderMarker { side: PresentationSide::Current, run_len: 5 };
    assert_eq!(
        parts(&marker_message(many)),
        (Some("compare placeholder"), "%d line only in reference", Some("%d lines only in reference"), 5)
    );
}

#[test]
fn error_messages_follow_the_error() {
    assert_eq!(parts(&AppError::Cancelled.title_message()), (Some("error title"), "Action Cancelled", None, 0));
    assert_eq!(AppError::WriteFailed("/a".into(), "x".into()).title_message().msgid, "Unable to Save the File");
    assert_eq!(AppError::FileTooBig("/a".into()).title_message().msgid, "Unable to Open the File");
    assert_eq!(
        AppError::NonLocalFile.body_message().unwrap().msgid,
        "Riteed Only Supports Local Plain Text Files in This Version."
    );
    assert!(AppError::Internal("boom".into()).body_message().is_none());
    assert!(AppError::ReadFailed("/a".into(), "x".into()).body_message().is_none());
}

#[test]
fn banner_titles_and_labels_are_not_swapped() {
    let (title, action) = banner_messages(VisibleBannerState::ReviewStale);
    assert_eq!(title.unwrap().msgid, "This review is out of date.");
    assert_eq!(action.unwrap().msgid, "Refresh Review");
    let (title, action) = banner_messages(VisibleBannerState::ReadOnly);
    assert_eq!(parts(&title.unwrap()), (Some("save safety banner"), "This File Is Read-Only.", None, 0));
    assert_eq!(parts(&action.unwrap()), (Some("save safety action"), "Save As", None, 0));
    let (title, action) = banner_messages(VisibleBannerState::AutosavePaused);
    assert!(title.is_none());
    assert_eq!(action.unwrap().msgid, "Save");
    let (title, action) = banner_messages(VisibleBannerState::Hidden);
    assert!(title.is_none() && action.is_none());
}

#[test]
fn skip_reasons_name_their_message() {
    assert_eq!(skip_reason_message(DiffSkipReason::Computation).msgid, "Diff was too large to compute fully.");
    assert_eq!(
        skip_reason_message(DiffSkipReason::Lines).msgid,
        "Diff was skipped because the files are over the compare line limit."
    );
}

#[test]
fn white_space_is_the_unicode_property() {
    for c in ['\t', '\n', '\u{b}', '\u{c}', '\r', ' ', '\u{85}', '\u{a0}', '\u{1680}', '\u{2000}', '\u{200a}',
        '\u{2028}', '\u{2029}', '\u{202f}', '\u{205f}', '\u{3000}'] {
        assert!(is_whitespace(c), "{:?}", c);
    }
    for c in ['a', '\u{180e}', '\u{200b}', '\u{feff}', '\u{1f}'] {
        assert!(!is_whitespace(c), "{:?}", c);
    }
}

#[test]
fn normalizing_a_normalized_line_changes_nothing() {
    for line in ["  a b \r\n", "\t x\n", " y \r", "  ", "z", " \r \n"] {
        let once = normalized_line(line);
        assert_eq!(normalized_line(&once), once);
        assert_eq!(split_line_ending(&once).1, split_line_ending(line).1);
    }
}

#[test]
fn comparing_a_text_with_itself_shows_no_changes() {
    for text in ["", "a\nb\n", "  x \r\ny", "same\nsame\nsame"] {
        for ignore in [false, true] {
            let c = compute_diff_with_options(
                text,
                text,
                DiffOptions { ignore_leading_trailing_whitespace: ignore },
            );
            assert_eq!(c.model.changed_row_count(), 0);
            assert!(c.model.hunks.is_empty());
            assert!(!c.hidden_trim_whitespace_differences);
        }
    }
}
