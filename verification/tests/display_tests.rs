use std::collections::BTreeSet;

use riteed::diff::compute_diff;
use riteed::display::{
    build_display_model, display_for_model, hidden_label, line_text, sanitize_display_line, strip_line_ending,
    visible_rows, CompareDisplayModel, CompareDisplayOptions, CompareDisplayRow,
};
use riteed::model::DiffRowKind;
use riteed::review::{CompareReviewSettingsSnapshot, CompareViewMode, ReviewFileId, ReviewKind};
use riteed::text::line_slices;

fn display(reference: &str, current: &str, options: &CompareDisplayOptions) -> CompareDisplayModel {
    let computation = compute_diff(reference, current);
    let reference_lines = reference.lines().collect::<Vec<_>>();
    let current_lines = current.lines().collect::<Vec<_>>();
    build_display_model(None, &computation.model, &reference_lines, &current_lines, options)
}

#[test]
fn tokenize_lines_matches_split_inclusive_for_newline_only_text() {
    for text in ["", "a", "a\n", "alpha\nbravo\ncharlie\n", "alpha\nbravo", "\n\n"] {
        assert_eq!(
            text.split_inclusive('\n').collect::<Vec<_>>(),
            line_slices(text),
            "line slicing must be byte-for-byte identical for {text:?}"
        );
    }
}

#[test]
fn lone_carriage_return_lines_render_the_changed_text() {
    let reference = "a\rb\nX\n";
    let current = "a\rb\nY\n";
    let computation = compute_diff(reference, current);
    let reference_lines = line_slices(reference);
    let current_lines = line_slices(current);
    let model = build_display_model(
        None,
        &computation.model,
        &reference_lines,
        &current_lines,
        &CompareDisplayOptions::expanded(),
    );
    let modify = model.rows.iter().find_map(|row| match row {
        CompareDisplayRow::Content(row) if row.kind == DiffRowKind::Modify => Some(row),
        CompareDisplayRow::Content(_)
        | CompareDisplayRow::FileBoundary(_)
        | CompareDisplayRow::Collapsed(_)
        | CompareDisplayRow::SkippedMarker(_) => None,
    });
    assert_eq!(modify.and_then(|row| row.reference_text.as_deref()), Some("X"));
    assert_eq!(modify.and_then(|row| row.current_text.as_deref()), Some("Y"));
}

#[test]
fn display_row_texts_contain_no_paragraph_separator_characters() {
    let reference = "a\rmid\u{2029}tail\nX\n";
    let current = "a\rmid\u{2029}tail\nY\n";
    let computation = compute_diff(reference, current);
    let reference_lines = line_slices(reference);
    let current_lines = line_slices(current);
    let model = build_display_model(
        None,
        &computation.model,
        &reference_lines,
        &current_lines,
        &CompareDisplayOptions::expanded(),
    );
    for row in &model.rows {
        if let CompareDisplayRow::Content(row) = row {
            for text in [&row.reference_text, &row.current_text].into_iter().flatten() {
                assert!(
                    !text.contains(['\r', '\u{2028}', '\u{2029}']),
                    "display text must stay one buffer line: {text:?}"
                );
            }
        }
    }
}

#[test]
fn expanded_display_preserves_logical_rows_and_line_numbers() {
    let model = display("a\nold\n", "a\nnew\n", &CompareDisplayOptions::expanded());

    assert_eq!(model.visible_row_count(), 2);
    assert_eq!(model.row_for_logical(0), Some(0));
    assert_eq!(model.row_for_logical(1), Some(1));
    let second = model.rows.get(1).and_then(|row| match row {
        CompareDisplayRow::Content(row) => Some(row),
        CompareDisplayRow::FileBoundary(_)
        | CompareDisplayRow::Collapsed(_)
        | CompareDisplayRow::SkippedMarker(_) => None,
    });
    assert_eq!(second.and_then(|row| row.reference_line), Some(2));
    assert_eq!(second.and_then(|row| row.current_line), Some(2));
    assert_eq!(second.and_then(|row| row.reference_text.as_deref()), Some("old"));
    assert_eq!(second.and_then(|row| row.current_text.as_deref()), Some("new"));
}

#[test]
fn collapse_hides_middle_equal_region_with_context() {
    let reference = "0\n1\n2\n3\n4\n5\n6\n";
    let current = "x\n1\n2\n3\n4\n5\ny\n";
    let model = display(reference, current, &CompareDisplayOptions::collapsed(1));

    assert!(model.rows.iter().any(|row| matches!(row, CompareDisplayRow::Collapsed(_))));
    assert_eq!(model.row_for_logical(0), Some(0));
    assert_eq!(model.row_for_logical(6), Some(4));
}

#[test]
fn reveal_rows_keeps_requested_unchanged_rows_visible() {
    let mut options = CompareDisplayOptions::collapsed(1);
    options.reveal_rows(&[3]);

    let model = display("0\n1\n2\n3\n4\n5\n6\n", "x\n1\n2\n3\n4\n5\ny\n", &options);

    assert!(model.row_for_logical(3).is_some());
}

#[test]
fn clipboard_projection_uses_current_content_only() {
    let model = display("a\nold\nremove\n", "a\nnew\n", &CompareDisplayOptions::expanded());

    assert_eq!(model.current_text_projection(), "a\nnew");
}

#[test]
fn hidden_label_uses_plural_forms() {
    assert_eq!(hidden_label(1), "1 unchanged line hidden");
    assert_eq!(hidden_label(2), "2 unchanged lines hidden");
}

#[test]
fn collapsed_rows_record_their_hidden_range() {
    let model = display("0\n1\n2\n3\n4\n5\n6\n", "x\n1\n2\n3\n4\n5\ny\n", &CompareDisplayOptions::collapsed(1));
    let collapsed = model.rows.iter().find_map(|row| match row {
        CompareDisplayRow::Collapsed(row) => Some(row),
        _ => None,
    });
    let collapsed = collapsed.expect("one collapsed row");
    assert_eq!((collapsed.hidden_start, collapsed.hidden_end, collapsed.hidden_count), (2, 5, 3));
    assert_eq!(collapsed.label, "3 unchanged lines hidden");
    assert_eq!(model.row_for_logical(3), None);
    assert_eq!(model.logical_row_for_display(2), Some(2));
    assert_eq!(model.logical_row_for_display(4), Some(6));
    assert_eq!(model.logical_row_for_display(9), None);
}

#[test]
fn collapsed_options_clamp_context() {
    assert_eq!(CompareDisplayOptions::collapsed(0).context_lines, 1);
    assert_eq!(CompareDisplayOptions::collapsed(25).context_lines, 10);
    assert_eq!(CompareDisplayOptions::collapsed(4).context_lines, 4);
    assert!(!CompareDisplayOptions::expanded().collapse_unchanged);
}

#[test]
fn too_large_models_display_nothing() {
    let huge = "x".repeat(1_000_001);
    let model = display(&huge, "", &CompareDisplayOptions::expanded());
    assert_eq!(model.visible_row_count(), 0);
    assert_eq!(CompareDisplayModel::empty().visible_row_count(), 0);
}

#[test]
fn visible_rows_without_hunks_show_everything() {
    let computation = compute_diff("a\nb\n", "a\nb\n");
    let visible = visible_rows(&computation.model, &CompareDisplayOptions::collapsed(1));
    assert_eq!(visible, vec![true, true]);
}

#[test]
fn display_line_text_strips_endings_and_sanitizes() {
    assert_eq!(strip_line_ending("a\r\n"), "a");
    assert_eq!(strip_line_ending("a\r"), "a");
    assert_eq!(strip_line_ending("a\n"), "a");
    assert_eq!(sanitize_display_line("a\rb\u{2028}c\u{2029}"), "a b\u{FFFD}c\u{FFFD}");
    assert_eq!(sanitize_display_line("\r").len(), 1);
    assert_eq!(line_text(&["x\r\n", "y"], Some(0)).as_deref(), Some("x"));
    assert_eq!(line_text(&["x\r\n", "y"], Some(5)).as_deref(), Some(""));
    assert_eq!(line_text(&["x"], None), None);
}

#[test]
fn display_rows_carry_the_review_file() {
    let computation = compute_diff("a\n", "b\n");
    let file_id = ReviewFileId::new(ReviewKind::Staged, b"f.txt".to_vec());
    let model = build_display_model(
        Some(&file_id),
        &computation.model,
        &["a\n"],
        &["b\n"],
        &CompareDisplayOptions::expanded(),
    );
    match &model.rows[0] {
        CompareDisplayRow::Content(row) => {
            assert_eq!(row.id.file_id.as_ref(), Some(&file_id));
            assert_eq!(row.kind, DiffRowKind::Modify);
            assert_eq!(row.logical_row, 0);
        },
        _ => panic!("expected a content row"),
    }
}

#[test]
fn the_view_display_follows_the_review_settings_and_revealed_rows() {
    let reference = "a\nb\nc\nd\ne\nf\n";
    let current = "x\nb\nc\nd\ne\ny\n";
    let model = compute_diff(reference, current).model;
    let mut settings = CompareReviewSettingsSnapshot {
        view_mode: CompareViewMode::Split,
        collapse_unchanged: true,
        context_lines: 1,
        ignore_leading_trailing_whitespace: false,
        word_wrap: false,
    };
    let mut revealed = BTreeSet::new();
    assert_eq!(display_for_model(&model, reference, current, &settings, &revealed).rows.len(), 5);
    revealed.insert(2);
    assert_eq!(display_for_model(&model, reference, current, &settings, &revealed).rows.len(), 6);
    settings.collapse_unchanged = false;
    assert_eq!(display_for_model(&model, reference, current, &settings, &revealed).rows.len(), 6);
    settings.collapse_unchanged = true;
    settings.context_lines = -1;
    // a negative setting keeps 3 rows of context: nothing is hidden
    assert_eq!(display_for_model(&model, reference, current, &settings, &BTreeSet::new()).rows.len(), 6);
}

#[test]
fn compare_display_slicing_shares_the_model_tokenizer() {
    // A lone carriage return ends a line for the row model; the display of
    // the model must slice the texts the same way, so that every row shows
    // the line its model row holds.
    let reference = "a\rb\nc\rd";
    let current = "a\rx\nc\rd";
    let model = compute_diff(reference, current).model;
    let settings = CompareReviewSettingsSnapshot {
        view_mode: CompareViewMode::Split,
        collapse_unchanged: false,
        context_lines: 3,
        ignore_leading_trailing_whitespace: false,
        word_wrap: false,
    };
    let display = display_for_model(&model, reference, current, &settings, &BTreeSet::new());
    let reference_lines = line_slices(reference);
    let current_lines = line_slices(current);
    assert_eq!(reference_lines.len(), 4);
    assert_eq!(display.rows.len(), model.rows.len());
    let mut content_rows = 0;
    for row in &display.rows {
        if let CompareDisplayRow::Content(row) = row {
            content_rows += 1;
            if let Some(line) = row.reference_line {
                let expected = sanitize_display_line(strip_line_ending(reference_lines[line - 1]));
                assert_eq!(row.reference_text.as_deref(), Some(expected.as_str()));
            }
            if let Some(line) = row.current_line {
                let expected = sanitize_display_line(strip_line_ending(current_lines[line - 1]));
                assert_eq!(row.current_text.as_deref(), Some(expected.as_str()));
            }
        }
    }
    assert_eq!(content_rows, model.rows.len());
}
