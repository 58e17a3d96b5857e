//! A review of the changed files of a Git repository: one compare per file,
//! rendered one after another into a single text, with a map from each line
//! of that text back to its file and display row, navigation between
//! changes, and reveals of collapsed unchanged rows.
use std::collections::BTreeSet;
use vstd::prelude::*;
use vstd::string::StringExecFns;
use vstd::utf8::{decode_utf8, valid_utf8};

use crate::display::{
    holds_row, insert_row, build_display_model, display_spans, displays, row_id, visible_with, CompareDisplayModel,
    CompareDisplayOptions, CompareDisplayRow, DisplayCollapsedRow, DisplayContentRow, DisplayFileBoundaryRow,
    DisplayRowId, DisplayRowIdKind, DisplaySkippedMarkerRow,
};
use crate::i18n::{
    context_message, format_count, plain_message, plural_count, plural_message, spec_format_count, translate,
    Message, MessageView,
};
use crate::minimap_diff::utf8_string;
use crate::diff::{
    compute_diff_with_options, computes, fits_usize, lemma_computed_rows_bounded, lemma_too_large_iff_skipped,
    DiffComputation, DiffOptions, DiffSkipReason, MAX_COMPARE_LINES,
};
use crate::presentation::numbered_lines;
use crate::review::{context_for_display, review_context, CompareReviewSettingsSnapshot, ReviewSnapshotFingerprint, ReviewTabSpec};
use crate::row_reveal::{reveal_rows, reveal_seq, RevealScope};
use crate::text::{join_lines, line_slices, newline, spec_join, spec_line_slices, str_eq, string_views};
use crate::model::{DiffRowKind, DiffRowModel, kinds_of};
use crate::review::{ReviewFileId, ReviewKind};

verus! {

// ---------------------------------------------------------------------------
// Files of a review
// ---------------------------------------------------------------------------

/// A file handed to a review: its identity, the badge of its Git status, its
/// two texts, or the reason it is not compared.
#[derive(Clone, Debug, PartialEq, Eq)]
pub struct ReviewFileInput {
    pub file_id: ReviewFileId,
    pub status_badge: String,
    pub reference_text: Option<String>,
    pub current_text: Option<String>,
    pub skip_reason: Option<String>,
}

impl ReviewFileInput {
    /// A file compared from its reference text to its current text.
    pub fn file(
        file_id: ReviewFileId,
        status_badge: String,
        reference_text: Option<String>,
        current_text: Option<String>,
    ) -> (input: Self)
        ensures
            input.file_id == file_id,
            input.status_badge == status_badge,
            input.reference_text == reference_text,
            input.current_text == current_text,
            input.skip_reason is None,
    {
        ReviewFileInput { file_id, status_badge, reference_text, current_text, skip_reason: None }
    }

    /// A file that is listed with `reason` in place of a compare.
    pub fn skipped(file_id: ReviewFileId, status_badge: String, reason: String) -> (input: Self)
        ensures
            input.file_id == file_id,
            input.status_badge == status_badge,
            input.reference_text is None,
            input.current_text is None,
            input.skip_reason == Some(reason),
    {
        ReviewFileInput {
            file_id,
            status_badge,
            reference_text: None,
            current_text: None,
            skip_reason: Some(reason),
        }
    }
}

/// The logical rows of a file the user revealed inside collapsed runs.
#[derive(Debug, Default)]
pub struct CollapseState {
    pub revealed_rows: BTreeSet<usize>,
}

/// A file of a review session: its input, its row model and change counts
/// once compared, and its display model.
pub struct ReviewFileEntry {
    pub file_id: ReviewFileId,
    pub status_badge: String,
    pub reference_text: Option<String>,
    pub current_text: Option<String>,
    pub diff_row_model: Option<DiffRowModel>,
    pub skip_reason: Option<String>,
    pub collapse_state: CollapseState,
    pub display_model: Option<CompareDisplayModel>,
    pub additions: usize,
    pub removals: usize,
}

// ---------------------------------------------------------------------------
// Rendered lines
// ---------------------------------------------------------------------------

/// What a line of the rendered review stands for.
#[derive(Clone, Debug, PartialEq, Eq)]
pub enum RenderedLineKind {
    FileBoundary,
    Content { display_row_id: DisplayRowId },
    Collapsed { id: DisplayRowId },
    SkippedMarker { reason: String },
}

/// The view of a display row identity.
pub type RowIdView = (Option<(ReviewKind, Seq<u8>)>, DisplayRowIdKind);

/// The view of a rendered line kind.
pub enum RenderedKindView {
    FileBoundary,
    Content(RowIdView),
    Collapsed(RowIdView),
    SkippedMarker(Seq<char>),
}

impl View for RenderedLineKind {
    type V = RenderedKindView;

    open spec fn view(&self) -> RenderedKindView {
        match self {
            RenderedLineKind::FileBoundary => RenderedKindView::FileBoundary,
            RenderedLineKind::Content { display_row_id } => RenderedKindView::Content(display_row_id@),
            RenderedLineKind::Collapsed { id } => RenderedKindView::Collapsed(id@),
            RenderedLineKind::SkippedMarker { reason } => RenderedKindView::SkippedMarker(reason@),
        }
    }
}

/// A line of the rendered review: the index and identity of its file, and what it stands for.
#[derive(Clone, Debug, PartialEq, Eq)]
pub struct ReviewRenderedLine {
    pub file_index: usize,
    pub file_id: ReviewFileId,
    pub kind: RenderedLineKind,
}

/// The view of a rendered line.
pub type RenderedLineView = (int, (ReviewKind, Seq<u8>), RenderedKindView);

impl View for ReviewRenderedLine {
    type V = RenderedLineView;

    open spec fn view(&self) -> RenderedLineView {
        (self.file_index as int, self.file_id@, self.kind@)
    }
}

/// The views of a sequence of rendered lines.
pub open spec fn line_views(lines: Seq<ReviewRenderedLine>) -> Seq<RenderedLineView> {
    Seq::new(lines.len(), |i: int| lines[i]@)
}

/// The line kind that stands for display row `row`.
pub open spec fn row_line_kind(row: CompareDisplayRow) -> RenderedKindView {
    match row {
        CompareDisplayRow::FileBoundary(_) => RenderedKindView::FileBoundary,
        CompareDisplayRow::Content(c) => RenderedKindView::Content(c.id@),
        CompareDisplayRow::Collapsed(c) => RenderedKindView::Collapsed(c.id@),
        CompareDisplayRow::SkippedMarker(m) => RenderedKindView::SkippedMarker(m.reason@),
    }
}

/// The rendered line of display row `row` of file `file_index`.
pub fn rendered_line_for_row(file_index: usize, file_id: &ReviewFileId, row: &CompareDisplayRow) -> (line:
    ReviewRenderedLine)
    ensures
        line@ == (file_index as int, file_id@, row_line_kind(*row)),
{
    let kind = match row {
        CompareDisplayRow::FileBoundary(_) => RenderedLineKind::FileBoundary,
        CompareDisplayRow::Content(row) => RenderedLineKind::Content { display_row_id: row.id.duplicate() },
        CompareDisplayRow::Collapsed(row) => RenderedLineKind::Collapsed { id: row.id.duplicate() },
        CompareDisplayRow::SkippedMarker(row) => RenderedLineKind::SkippedMarker {
            reason: row.reason.clone(),
        },
    };
    ReviewRenderedLine { file_index, file_id: file_id.duplicate(), kind }
}

// ---------------------------------------------------------------------------
// Change counts
// ---------------------------------------------------------------------------

/// Rows that add a current line: current-only and modified rows.
pub open spec fn count_additions(kinds: Seq<DiffRowKind>) -> nat
    decreases kinds.len(),
{
    if kinds.len() == 0 {
        0
    } else {
        count_additions(kinds.drop_last()) + match kinds.last() {
            DiffRowKind::CurrentOnly | DiffRowKind::Modify => 1nat,
            _ => 0nat,
        }
    }
}

/// Rows that remove a reference line: reference-only and modified rows.
pub open spec fn count_removals(kinds: Seq<DiffRowKind>) -> nat
    decreases kinds.len(),
{
    if kinds.len() == 0 {
        0
    } else {
        count_removals(kinds.drop_last()) + match kinds.last() {
            DiffRowKind::ReferenceOnly | DiffRowKind::Modify => 1nat,
            _ => 0nat,
        }
    }
}

proof fn lemma_counts_bounded(kinds: Seq<DiffRowKind>)
    ensures
        count_additions(kinds) <= kinds.len(),
        count_removals(kinds) <= kinds.len(),
    decreases kinds.len(),
{
    if kinds.len() > 0 {
        lemma_counts_bounded(kinds.drop_last());
    }
}

/// How many lines a file's changes add and remove.
#[derive(Clone, Copy, Debug, PartialEq, Eq)]
pub struct ChangeCounts {
    pub additions: usize,
    pub removals: usize,
}

/// The added and removed lines of a row model.
pub fn changed_counts(model: &DiffRowModel) -> (counts: ChangeCounts)
    ensures
        counts.additions == count_additions(kinds_of(model.rows@)),
        counts.removals == count_removals(kinds_of(model.rows@)),
{
    let mut counts = ChangeCounts { additions: 0, removals: 0 };
    let mut i: usize = 0;
    while i < model.rows.len()
        invariant
            i <= model.rows@.len(),
            counts.additions == count_additions(kinds_of(model.rows@).take(i as int)),
            counts.removals == count_removals(kinds_of(model.rows@).take(i as int)),
        decreases model.rows@.len() - i,
    {
        let ghost kinds = kinds_of(model.rows@);
        proof {
            assert(kinds.take(i + 1).drop_last() =~= kinds.take(i as int));
            lemma_counts_bounded(kinds.take(i as int));
        }
        match model.rows[i].kind {
            DiffRowKind::Equal => {},
            DiffRowKind::ReferenceOnly => counts.removals = counts.removals.saturating_add(1),
            DiffRowKind::CurrentOnly => counts.additions = counts.additions.saturating_add(1),
            DiffRowKind::Modify => {
                counts.additions = counts.additions.saturating_add(1);
                counts.removals = counts.removals.saturating_add(1);
            },
        }
        i += 1;
    }
    proof {
        assert(kinds_of(model.rows@).take(i as int) =~= kinds_of(model.rows@));
    }
    counts
}

// ---------------------------------------------------------------------------
// Text of the rendered lines
// ---------------------------------------------------------------------------

/// Names the result of `str::escape_debug` on a text: backslashes, quotes,
/// control and other unprintable characters become escape sequences, and a
/// grapheme extender is escaped only at the start of the text.
pub uninterp spec fn debug_escaped(text: Seq<char>) -> Seq<char>;

/// Calls `str::escape_debug` and collects its characters; the result is named
/// `debug_escaped`.
#[verifier::external_body]
fn escape_for_display(text: &str) -> (escaped: String)
    ensures
        escaped@ == debug_escaped(text@),
{
    text.escape_debug().to_string()
}

/// A translated text of a review: the placeholders of an empty (review limit)
/// and a non-UTF-8 path, the counts of added and removed lines in a file's
/// heading, the notice that there is nothing to review, and the descriptions
/// of change-list rows.
#[derive(Clone, Copy, Debug, PartialEq, Eq, Structural)]
pub enum ReviewText {
    ReviewLimit,
    InvalidPathEncoding,
    Additions,
    Removals,
    NothingToReview,
    ChangedFile,
    ChangedLine,
    HiddenUnchangedLines,
}

/// The message of a review text; the counts of added and removed lines have
/// their form selected by `count`.
pub open spec fn spec_review_message(text: ReviewText, count: u32) -> MessageView {
    match text {
        ReviewText::ReviewLimit => context_message("git review path"@, "Review limit"@),
        ReviewText::InvalidPathEncoding => context_message("git path fallback"@, "Invalid path encoding"@),
        ReviewText::Additions => plural_message(None, "%d addition"@, "%d additions"@, count),
        ReviewText::Removals => plural_message(None, "%d removal"@, "%d removals"@, count),
        ReviewText::NothingToReview => plain_message("No reviewable text changes were found."@),
        ReviewText::ChangedFile => context_message("change list row"@, "Changed file"@),
        ReviewText::ChangedLine => context_message("change list row"@, "Changed line"@),
        ReviewText::HiddenUnchangedLines => context_message("change list row"@, "Hidden unchanged lines"@),
    }
}

/// The message of a review text (see `spec_review_message`).
pub fn review_message(text: ReviewText, count: u32) -> (message: Message)
    ensures
        message.wf(),
        message@ == spec_review_message(text, count),
{
    proof {
        reveal_strlit("git review path");
        reveal_strlit("Review limit");
        reveal_strlit("git path fallback");
        reveal_strlit("Invalid path encoding");
        reveal_strlit("%d addition");
        reveal_strlit("%d additions");
        reveal_strlit("%d removal");
        reveal_strlit("%d removals");
        reveal_strlit("No reviewable text changes were found.");
        reveal_strlit("change list row");
        reveal_strlit("Changed file");
        reveal_strlit("Changed line");
        reveal_strlit("Hidden unchanged lines");
    }
    let row = Some("change list row");
    match text {
        ReviewText::ReviewLimit => Message { context: Some("git review path"), msgid: "Review limit", plural: None, count: 0 },
        ReviewText::InvalidPathEncoding => Message {
            context: Some("git path fallback"),
            msgid: "Invalid path encoding",
            plural: None,
            count: 0,
        },
        ReviewText::Additions => Message { context: None, msgid: "%d addition", plural: Some("%d additions"), count },
        ReviewText::Removals => Message { context: None, msgid: "%d removal", plural: Some("%d removals"), count },
        ReviewText::NothingToReview => Message {
            context: None,
            msgid: "No reviewable text changes were found.",
            plural: None,
            count: 0,
        },
        ReviewText::ChangedFile => Message { context: row, msgid: "Changed file", plural: None, count: 0 },
        ReviewText::ChangedLine => Message { context: row, msgid: "Changed line", plural: None, count: 0 },
        ReviewText::HiddenUnchangedLines => Message { context: row, msgid: "Hidden unchanged lines", plural: None, count: 0 },
    }
}

/// What a file's raw path shows as: the escaped text of a non-empty UTF-8
/// path. An empty path (the review limit) and a path that is not UTF-8 show a
/// translated placeholder.
pub open spec fn displays_path(raw_path: Seq<u8>, label: Seq<char>) -> bool {
    raw_path.len() > 0 && valid_utf8(raw_path) ==> label == debug_escaped(decode_utf8(raw_path))
}

/// The label of a file's raw path (see `displays_path`).
pub fn path_display(raw_path: &[u8]) -> (label: String)
    ensures
        displays_path(raw_path@, label@),
{
    if raw_path.len() == 0 {
        return translate(&review_message(ReviewText::ReviewLimit, 0));
    }
    match utf8_string(vstd::slice::slice_to_vec(raw_path)) {
        Some(text) => escape_for_display(text.as_str()),
        None => translate(&review_message(ReviewText::InvalidPathEncoding, 0)),
    }
}

/// A count filled into the translation of a review text's message, its form
/// selected by the count.
fn count_text(count: usize, text: ReviewText) -> (filled: String)
    ensures
        exists|template: Seq<char>| filled@ == spec_format_count(template, count as nat),
{
    let template = translate(&review_message(text, plural_count(count)));
    let filled = format_count(template.as_str(), count);
    assert(filled@ == spec_format_count(template@, count as nat));
    filled
}

/// `text` is the heading of a file: its path, then in brackets its status
/// badge and its counts of added and removed lines, each in a translated
/// template.
pub open spec fn boundary_text(path: Seq<char>, badge: Seq<char>, additions: usize, removals: usize, text: Seq<
    char,
>) -> bool {
    exists|added: Seq<char>, removed: Seq<char>|
        #![trigger spec_format_count(added, additions as nat), spec_format_count(removed, removals as nat)]
        text == path + seq![' ', '('] + badge + seq![',', ' '] + spec_format_count(added, additions as nat)
            + seq![',', ' '] + spec_format_count(removed, removals as nat) + seq![')']
}

/// The heading line of a file (see `boundary_text`).
pub fn file_boundary_label_parts(path: &str, status_badge: &str, additions: usize, removals: usize) -> (text:
    String)
    ensures
        boundary_text(path@, status_badge@, additions, removals, text@),
{
    proof {
        reveal_strlit(" (");
        reveal_strlit(", ");
        reveal_strlit(")");
    }
    let additions_text = count_text(additions, ReviewText::Additions);
    let removals_text = count_text(removals, ReviewText::Removals);
    let text = String::from_str(path).concat(" (").concat(status_badge).concat(", ").concat(
        additions_text.as_str(),
    ).concat(", ").concat(removals_text.as_str()).concat(")");
    proof {
        let added = choose|t: Seq<char>| additions_text@ == spec_format_count(t, additions as nat);
        let removed = choose|t: Seq<char>| removals_text@ == spec_format_count(t, removals as nat);
        assert(text@ == path@ + seq![' ', '('] + status_badge@ + seq![',', ' '] + spec_format_count(
            added,
            additions as nat,
        ) + seq![',', ' '] + spec_format_count(removed, removals as nat) + seq![')']);
    }
    text
}

/// The text a content row shows: its current text, else its reference text.
pub open spec fn content_text(row: DisplayContentRow) -> Seq<char> {
    match row.current_text {
        Some(t) => t@,
        None => match row.reference_text {
            Some(t) => t@,
            None => Seq::empty(),
        },
    }
}

/// Law: a content row's line is its current text when it has one; a row
/// without current text (a removed line) shows its reference text; a row
/// with neither shows nothing.
pub proof fn lemma_content_rows_show_their_line(row: DisplayContentRow, text: Seq<char>)
    requires
        shows_row_text(CompareDisplayRow::Content(row), text),
    ensures
        row.current_text matches Some(t) ==> text == t@,
        row.current_text is None ==> (row.reference_text matches Some(t) ==> text == t@),
        row.current_text is None && row.reference_text is None ==> text.len() == 0,
{
}

/// The text of a content row (see `content_text` and
/// `lemma_content_rows_show_their_line`).
pub fn content_row_text(row: &DisplayContentRow) -> (text: String)
    ensures
        text@ == content_text(*row),
        row.current_text matches Some(t) ==> text@ == t@,
        row.current_text is None ==> (row.reference_text matches Some(t) ==> text@ == t@),
        row.current_text is None && row.reference_text is None ==> text@.len() == 0,
{
    match &row.current_text {
        Some(t) => t.clone(),
        None => match &row.reference_text {
            Some(t) => t.clone(),
            None => String::new(),
        },
    }
}

/// The text of a collapsed row: its label.
pub fn collapsed_row_text(row: &DisplayCollapsedRow) -> (text: String)
    ensures
        text@ == row.label@,
{
    row.label.clone()
}

/// `text` is what display row `row` shows on its line of the review.
pub open spec fn shows_row_text(row: CompareDisplayRow, text: Seq<char>) -> bool {
    match row {
        CompareDisplayRow::FileBoundary(b) => boundary_text(
            b.path@,
            b.status_badge@,
            b.additions,
            b.removals,
            text,
        ),
        CompareDisplayRow::Content(c) => text == content_text(c),
        CompareDisplayRow::Collapsed(c) => text == c.label@,
        CompareDisplayRow::SkippedMarker(m) => text == m.reason@,
    }
}

/// Appends the line of display row `row`.
pub fn push_display_row(lines: &mut Vec<String>, row: &CompareDisplayRow)
    ensures
        final(lines)@.len() == old(lines)@.len() + 1,
        final(lines)@.take(old(lines)@.len() as int) == old(lines)@,
        shows_row_text(*row, final(lines)@.last()@),
{
    let text = match row {
        CompareDisplayRow::FileBoundary(row) => file_boundary_label_parts(
            row.path.as_str(),
            row.status_badge.as_str(),
            row.additions,
            row.removals,
        ),
        CompareDisplayRow::Content(row) => content_row_text(row),
        CompareDisplayRow::Collapsed(row) => collapsed_row_text(row),
        CompareDisplayRow::SkippedMarker(row) => row.reason.clone(),
    };
    lines.push(text);
    assert(lines@.take(old(lines)@.len() as int) =~= old(lines)@);
}

/// The heading row of a file.
pub fn file_boundary_row(file: &ReviewFileEntry) -> (row: CompareDisplayRow)
    ensures
        row matches CompareDisplayRow::FileBoundary(b) && b.id@ == (
            Some(file.file_id@),
            DisplayRowIdKind::FileBoundary,
        ) && displays_path(file.file_id.raw_path@, b.path@) && b.status_badge@ == file.status_badge@
            && b.additions == file.additions && b.removals == file.removals,
{
    CompareDisplayRow::FileBoundary(
        DisplayFileBoundaryRow {
            id: row_id(Some(&file.file_id), DisplayRowIdKind::FileBoundary),
            path: path_display(file.file_id.raw_path.as_slice()),
            status_badge: file.status_badge.clone(),
            additions: file.additions,
            removals: file.removals,
        },
    )
}

/// The marker row of a file that was not compared, with its reason.
pub fn skipped_marker_row(file: &ReviewFileEntry, reason: String) -> (row: CompareDisplayRow)
    ensures
        row matches CompareDisplayRow::SkippedMarker(m) && m.id@ == (
            Some(file.file_id@),
            DisplayRowIdKind::SkippedMarker,
        ) && m.reason == reason,
{
    CompareDisplayRow::SkippedMarker(
        DisplaySkippedMarkerRow {
            id: row_id(Some(&file.file_id), DisplayRowIdKind::SkippedMarker),
            reason,
        },
    )
}

/// The message of the reason a compare was skipped: over the byte limit, over
/// the line limit, or too large to compute fully.
pub fn skip_reason_message(reason: DiffSkipReason) -> (message: Message)
    ensures
        message.wf(),
        message@ == plain_message(
            match reason {
                DiffSkipReason::Bytes => "Diff was skipped because the files are over the compare byte limit."@,
                DiffSkipReason::Lines => "Diff was skipped because the files are over the compare line limit."@,
                DiffSkipReason::Computation => "Diff was too large to compute fully."@,
            },
        ),
{
    proof {
        reveal_strlit("Diff was skipped because the files are over the compare byte limit.");
        reveal_strlit("Diff was skipped because the files are over the compare line limit.");
        reveal_strlit("Diff was too large to compute fully.");
    }
    let msgid = match reason {
        DiffSkipReason::Bytes => "Diff was skipped because the files are over the compare byte limit.",
        DiffSkipReason::Lines => "Diff was skipped because the files are over the compare line limit.",
        DiffSkipReason::Computation => "Diff was too large to compute fully.",
    };
    Message { context: None, msgid, plural: None, count: 0 }
}

/// The translated reason a compare was skipped: `skip_reason_message`
/// translated. The text depends on the locale.
fn skip_reason_text(reason: DiffSkipReason) -> String {
    translate(&skip_reason_message(reason))
}

// ---------------------------------------------------------------------------
// Comparing and displaying one file
// ---------------------------------------------------------------------------

/// An optional text, empty when there is none.
pub open spec fn text_or_empty(text: Option<String>) -> Seq<char> {
    match text {
        Some(t) => t@,
        None => Seq::empty(),
    }
}

fn text_or_empty_str(text: &Option<String>) -> (s: &str)
    ensures
        s@ == text_or_empty(*text),
{
    match text {
        Some(t) => t.as_str(),
        None => {
            proof {
                reveal_strlit("");
            }
            ""
        },
    }
}

/// The compare options of a review's settings.
pub open spec fn review_diff_options(settings: CompareReviewSettingsSnapshot) -> DiffOptions {
    DiffOptions { ignore_leading_trailing_whitespace: settings.ignore_leading_trailing_whitespace }
}

/// `entry` holds the result of comparing its texts under `settings`, or
/// `skip_reason` when it was handed one: the row model and change counts of
/// the compare, or, when the compare was skipped for size, a reason in their
/// place.
pub open spec fn holds_compare(
    entry: ReviewFileEntry,
    skip_reason: Option<String>,
    settings: CompareReviewSettingsSnapshot,
) -> bool {
    match skip_reason {
        Some(r) => {
            &&& entry.skip_reason == Some(r)
            &&& entry.diff_row_model is None
            &&& entry.additions == 0
            &&& entry.removals == 0
        },
        None => exists|c: DiffComputation|
            #[trigger] computes(
                c,
                text_or_empty(entry.reference_text),
                text_or_empty(entry.current_text),
                review_diff_options(settings),
            ) && match c.skip_reason {
                Some(_) => {
                    &&& entry.skip_reason is Some
                    &&& entry.diff_row_model is None
                    &&& entry.additions == 0
                    &&& entry.removals == 0
                },
                None => {
                    &&& entry.skip_reason is None
                    &&& entry.diff_row_model == Some(c.model)
                    &&& entry.additions == count_additions(kinds_of(c.model.rows@))
                    &&& entry.removals == count_removals(kinds_of(c.model.rows@))
                },
            },
    }
}

/// `entry` shows its row model under `settings` and its revealed rows: no
/// display without a row model, else the display model of it.
pub open spec fn shows_file(entry: ReviewFileEntry, settings: CompareReviewSettingsSnapshot) -> bool {
    match entry.diff_row_model {
        None => entry.display_model is None,
        Some(m) => entry.display_model matches Some(d) && displays(
            d,
            display_spans(
                visible_with(
                    m,
                    settings.collapse_unchanged,
                    review_context(settings.context_lines),
                    entry.collapse_state.revealed_rows@,
                ),
                0,
            ),
            m.rows@.len(),
            Some(entry.file_id@),
            m.rows@,
            spec_line_slices(text_or_empty(entry.reference_text)),
            spec_line_slices(text_or_empty(entry.current_text)),
        ),
    }
}

impl ReviewFileEntry {
    /// The texts fit in memory, and a row model held comes from a compare
    /// that was not skipped.
    pub open spec fn wf(self) -> bool {
        &&& self.reference_text matches Some(t) ==> fits_usize(t@)
        &&& self.current_text matches Some(t) ==> fits_usize(t@)
        &&& self.diff_row_model matches Some(m) ==> {
            &&& self.skip_reason is None
            &&& !m.too_large
            &&& numbered_lines(m.rows@)
            &&& m.rows@.len() <= MAX_COMPARE_LINES
        }
    }

    /// The entry of an input: compared under `settings` unless it came with a
    /// reason, and not displayed yet.
    pub fn from_input(input: ReviewFileInput, settings: CompareReviewSettingsSnapshot) -> (entry: Self)
        requires
            input.reference_text matches Some(t) ==> fits_usize(t@),
            input.current_text matches Some(t) ==> fits_usize(t@),
        ensures
            entry.wf(),
            entry.file_id == input.file_id,
            entry.status_badge == input.status_badge,
            entry.reference_text == input.reference_text,
            entry.current_text == input.current_text,
            entry.collapse_state.revealed_rows@ == Set::<usize>::empty(),
            entry.display_model is None,
            holds_compare(entry, input.skip_reason, settings),
    {
        let mut entry = ReviewFileEntry {
            file_id: input.file_id,
            status_badge: input.status_badge,
            reference_text: input.reference_text,
            current_text: input.current_text,
            diff_row_model: None,
            skip_reason: input.skip_reason,
            collapse_state: CollapseState { revealed_rows: BTreeSet::new() },
            display_model: None,
            additions: 0,
            removals: 0,
        };
        entry.rebuild_row_model(settings);
        entry
    }

    /// Compares the texts under `settings`, unless the file already has a
    /// reason not to be compared.
    fn rebuild_row_model(&mut self, settings: CompareReviewSettingsSnapshot)
        requires
            old(self).wf(),
            old(self).diff_row_model is None,
            old(self).additions == 0,
            old(self).removals == 0,
        ensures
            final(self).wf(),
            final(self).file_id == old(self).file_id,
            final(self).status_badge == old(self).status_badge,
            final(self).reference_text == old(self).reference_text,
            final(self).current_text == old(self).current_text,
            final(self).collapse_state == old(self).collapse_state,
            final(self).display_model == old(self).display_model,
            holds_compare(*final(self), old(self).skip_reason, settings),
    {
        if self.skip_reason.is_some() {
            return;
        }
        let reference = text_or_empty_str(&self.reference_text);
        let current = text_or_empty_str(&self.current_text);
        proof {
            reveal_strlit("");
        }
        let computation = compute_diff_with_options(
            reference,
            current,
            DiffOptions {
                ignore_leading_trailing_whitespace: settings.ignore_leading_trailing_whitespace,
            },
        );
        let ghost c = computation;
        proof {
            lemma_too_large_iff_skipped(c, reference@, current@, review_diff_options(settings));
        }
        if let Some(reason) = computation.skip_reason {
            self.skip_reason = Some(skip_reason_text(reason));
            self.diff_row_model = None;
            assert(computes(c, text_or_empty(self.reference_text), text_or_empty(self.current_text), review_diff_options(settings)));
            return;
        }
        proof {
            lemma_computed_rows_bounded(c, reference@, current@, review_diff_options(settings));
        }
        let counts = changed_counts(&computation.model);
        self.additions = counts.additions;
        self.removals = counts.removals;
        self.diff_row_model = Some(computation.model);
        assert(computes(c, text_or_empty(self.reference_text), text_or_empty(self.current_text), review_diff_options(settings)));
    }

    /// Rebuilds the display model from the row model under `settings`.
    pub fn rebuild_display(&mut self, settings: CompareReviewSettingsSnapshot)
        requires
            old(self).wf(),
        ensures
            final(self).wf(),
            final(self).file_id == old(self).file_id,
            final(self).status_badge == old(self).status_badge,
            final(self).reference_text == old(self).reference_text,
            final(self).current_text == old(self).current_text,
            final(self).diff_row_model == old(self).diff_row_model,
            final(self).skip_reason == old(self).skip_reason,
            final(self).collapse_state == old(self).collapse_state,
            final(self).additions == old(self).additions,
            final(self).removals == old(self).removals,
            shows_file(*final(self), settings),
    {
        let display = match &self.diff_row_model {
            None => None,
            Some(model) => {
                let reference_lines = line_slices(text_or_empty_str(&self.reference_text));
                let current_lines = line_slices(text_or_empty_str(&self.current_text));
                let options = CompareDisplayOptions {
                    collapse_unchanged: settings.collapse_unchanged,
                    context_lines: context_for_display(settings.context_lines),
                    revealed_rows: self.collapse_state.revealed_rows.clone(),
                };
                Some(
                    build_display_model(
                        Some(&self.file_id),
                        model,
                        reference_lines.as_slice(),
                        current_lines.as_slice(),
                        &options,
                    ),
                )
            },
        };
        self.display_model = display;
    }
}

// ---------------------------------------------------------------------------
// The session
// ---------------------------------------------------------------------------

/// A review session: the review it was opened for, its files, and the lines
/// of its rendered text.
pub struct ReviewSession {
    pub review_kind: ReviewKind,
    pub repo_root: String,
    pub review_generation_at_creation: u64,
    pub fingerprint_at_creation: ReviewSnapshotFingerprint,
    pub settings_snapshot: CompareReviewSettingsSnapshot,
    pub files: Vec<ReviewFileEntry>,
    pub rendered_lines: Vec<ReviewRenderedLine>,
    pub stale: bool,
}

/// The kinds of the lines a file renders: its heading, then its skip marker,
/// or else the rows of its display model.
pub open spec fn file_line_kinds(file: ReviewFileEntry) -> Seq<RenderedKindView> {
    seq![RenderedKindView::FileBoundary] + match file.skip_reason {
        Some(r) => seq![RenderedKindView::SkippedMarker(r@)],
        None => match file.display_model {
            Some(d) => Seq::new(d.rows@.len(), |k: int| row_line_kind(d.rows@[k])),
            None => Seq::empty(),
        },
    }
}

/// The rendered lines of file `file` at index `i`.
pub open spec fn file_lines(i: int, file: ReviewFileEntry) -> Seq<RenderedLineView> {
    Seq::new(file_line_kinds(file).len(), |k: int| (i, file.file_id@, file_line_kinds(file)[k]))
}

/// The rendered lines of `files`, file after file.
pub open spec fn session_lines(files: Seq<ReviewFileEntry>) -> Seq<RenderedLineView>
    decreases files.len(),
{
    if files.len() == 0 {
        Seq::empty()
    } else {
        session_lines(files.drop_last()) + file_lines(files.len() - 1, files.last())
    }
}

/// `texts` are the lines file `file` renders (see `session_texts`).
pub open spec fn file_texts(file: ReviewFileEntry, texts: Seq<Seq<char>>) -> bool {
    &&& texts.len() == file_line_kinds(file).len()
    &&& exists|label: Seq<char>|
        #[trigger] displays_path(file.file_id.raw_path@, label) && boundary_text(
            label,
            file.status_badge@,
            file.additions,
            file.removals,
            texts[0],
        )
    &&& match file.skip_reason {
        Some(r) => texts[1] == r@,
        None => match file.display_model {
            Some(d) => forall|k: int| 0 <= k < d.rows@.len() ==> shows_row_text(#[trigger] d.rows@[k], texts[k + 1]),
            None => true,
        },
    }
}

/// Law: in the rendered review of a file, the line of each content row is its
/// current text, or for a removed line (no current text) its reference text.
pub proof fn lemma_rendered_rows_show_their_line(file: ReviewFileEntry, texts: Seq<Seq<char>>, k: int)
    requires
        file_texts(file, texts),
        file.skip_reason is None,
        file.display_model matches Some(d) && 0 <= k < d.rows@.len(),
    ensures
        match file.display_model {
            Some(d) => match d.rows@[k] {
                CompareDisplayRow::Content(c) => {
                    &&& (c.current_text matches Some(t) ==> texts[k + 1] == t@)
                    &&& (c.current_text is None ==> (c.reference_text matches Some(t) ==> texts[k + 1] == t@))
                },
                _ => true,
            },
            None => true,
        },
{
    if let Some(d) = file.display_model {
        assert(shows_row_text(d.rows@[k], texts[k + 1]));
        if let CompareDisplayRow::Content(c) = d.rows@[k] {
            lemma_content_rows_show_their_line(c, texts[k + 1]);
        }
    }
}

/// `texts` are the lines of the rendered review of `files`: for each file its
/// heading, then its skip reason or the texts of its display rows.
pub open spec fn session_texts(files: Seq<ReviewFileEntry>, texts: Seq<Seq<char>>) -> bool
    decreases files.len(),
{
    if files.len() == 0 {
        texts.len() == 0
    } else {
        let n = file_line_kinds(files.last()).len();
        &&& texts.len() >= n
        &&& session_texts(files.drop_last(), texts.take(texts.len() - n))
        &&& file_texts(files.last(), texts.skip(texts.len() - n))
    }
}

/// `after` is `before` with its display rebuilt: the same file in every other respect.
pub open spec fn same_except_display(before: ReviewFileEntry, after: ReviewFileEntry) -> bool {
    &&& after.file_id == before.file_id
    &&& after.status_badge == before.status_badge
    &&& after.reference_text == before.reference_text
    &&& after.current_text == before.current_text
    &&& after.diff_row_model == before.diff_row_model
    &&& after.skip_reason == before.skip_reason
    &&& after.collapse_state == before.collapse_state
    &&& after.additions == before.additions
    &&& after.removals == before.removals
}

/// `entry` is the entry of `input` compared under `settings`, with no row revealed.
pub open spec fn entry_of_input(
    entry: ReviewFileEntry,
    input: ReviewFileInput,
    settings: CompareReviewSettingsSnapshot,
) -> bool {
    &&& entry.file_id == input.file_id
    &&& entry.status_badge == input.status_badge
    &&& entry.reference_text == input.reference_text
    &&& entry.current_text == input.current_text
    &&& entry.collapse_state.revealed_rows@ == Set::<usize>::empty()
    &&& holds_compare(entry, input.skip_reason, settings)
}

/// The texts of an input fit in memory.
pub open spec fn input_fits(input: ReviewFileInput) -> bool {
    &&& input.reference_text matches Some(t) ==> fits_usize(t@)
    &&& input.current_text matches Some(t) ==> fits_usize(t@)
}

proof fn lemma_same_compare(
    before: ReviewFileEntry,
    after: ReviewFileEntry,
    skip_reason: Option<String>,
    settings: CompareReviewSettingsSnapshot,
)
    requires
        holds_compare(before, skip_reason, settings),
        same_except_display(before, after),
    ensures
        holds_compare(after, skip_reason, settings),
{
    if skip_reason is None {
        let c = choose|c: DiffComputation|
            #[trigger] computes(
                c,
                text_or_empty(before.reference_text),
                text_or_empty(before.current_text),
                review_diff_options(settings),
            ) && match c.skip_reason {
                Some(_) => {
                    &&& before.skip_reason is Some
                    &&& before.diff_row_model is None
                    &&& before.additions == 0
                    &&& before.removals == 0
                },
                None => {
                    &&& before.skip_reason is None
                    &&& before.diff_row_model == Some(c.model)
                    &&& before.additions == count_additions(kinds_of(c.model.rows@))
                    &&& before.removals == count_removals(kinds_of(c.model.rows@))
                },
            };
        assert(computes(
            c,
            text_or_empty(after.reference_text),
            text_or_empty(after.current_text),
            review_diff_options(settings),
        ));
    }
}

impl ReviewSession {
    /// Every file is well formed.
    pub open spec fn wf(self) -> bool {
        forall|i: int| 0 <= i < self.files@.len() ==> (#[trigger] self.files@[i]).wf()
    }

    /// A session of the review `spec` without files yet.
    pub fn from_spec(spec: &ReviewTabSpec) -> (session: Self)
        ensures
            session.wf(),
            session.review_kind == spec.review_kind,
            session.repo_root@ == spec.repo_root@,
            session.review_generation_at_creation == spec.snapshot_generation_at_creation,
            session.fingerprint_at_creation.spec_token() == spec.fingerprint_at_creation.spec_token(),
            session.settings_snapshot == spec.settings_snapshot,
            session.files@.len() == 0,
            session.rendered_lines@.len() == 0,
            !session.stale,
    {
        ReviewSession {
            review_kind: spec.review_kind,
            repo_root: spec.repo_root.clone(),
            review_generation_at_creation: spec.snapshot_generation_at_creation,
            fingerprint_at_creation: spec.fingerprint_at_creation.duplicate(),
            settings_snapshot: spec.settings_snapshot,
            files: Vec::new(),
            rendered_lines: Vec::new(),
            stale: false,
        }
    }

    /// Rebuilds the rendered lines from the files.
    fn rebuild_rendered_lines(&mut self)
        ensures
            line_views(final(self).rendered_lines@) == session_lines(old(self).files@),
            final(self).files == old(self).files,
            final(self).review_kind == old(self).review_kind,
            final(self).repo_root == old(self).repo_root,
            final(self).review_generation_at_creation == old(self).review_generation_at_creation,
            final(self).fingerprint_at_creation == old(self).fingerprint_at_creation,
            final(self).settings_snapshot == old(self).settings_snapshot,
            final(self).stale == old(self).stale,
    {
        let mut rendered: Vec<ReviewRenderedLine> = Vec::new();
        let mut file_index: usize = 0;
        while file_index < self.files.len()
            invariant
                file_index <= self.files@.len(),
                line_views(rendered@) == session_lines(self.files@.take(file_index as int)),
            decreases self.files@.len() - file_index,
        {
            let file = &self.files[file_index];
            let ghost base = line_views(rendered@);
            let ghost fl = file_lines(file_index as int, *file);
            proof {
                assert(self.files@.take(file_index + 1).drop_last() =~= self.files@.take(file_index as int));
                assert(session_lines(self.files@.take(file_index + 1)) == base + fl);
            }
            rendered.push(rendered_line_for_row(file_index, &file.file_id, &file_boundary_row(file)));
            assert(line_views(rendered@) =~= base + fl.take(1));
            match &file.skip_reason {
                Some(reason) => {
                    rendered.push(
                        rendered_line_for_row(file_index, &file.file_id, &skipped_marker_row(file, reason.clone())),
                    );
                    assert(line_views(rendered@) =~= base + fl);
                },
                None => match &file.display_model {
                    Some(display) => {
                        let mut k: usize = 0;
                        while k < display.rows.len()
                            invariant
                                k <= display.rows@.len(),
                                fl.len() == display.rows@.len() + 1,
                                fl == file_lines(file_index as int, *file),
                                file.skip_reason is None,
                                file.display_model == Some(*display),
                                line_views(rendered@) == base + fl.take(k + 1),
                            decreases display.rows@.len() - k,
                        {
                            proof {
                                let kinds = file_line_kinds(*file);
                                assert(kinds[k + 1] == row_line_kind(display.rows@[k as int]));
                                assert(fl[k + 1] == (file_index as int, file.file_id@, kinds[k + 1]));
                            }
                            let line = rendered_line_for_row(file_index, &file.file_id, &display.rows[k]);
                            let ghost before = rendered@;
                            let ghost lv = line@;
                            rendered.push(line);
                            proof {
                                assert(line_views(rendered@) =~= line_views(before).push(lv));
                                assert(fl.take(k + 2) =~= fl.take(k + 1).push(fl[k + 1]));
                            }
                            k += 1;
                        }
                        assert(fl.take(k + 1) =~= fl);
                    },
                    None => {
                        assert(fl.take(1) =~= fl);
                    },
                },
            }
            file_index += 1;
        }
        assert(self.files@.take(file_index as int) =~= self.files@);
        self.rendered_lines = rendered;
    }
}

impl ReviewSession {
    /// The session of the review `spec` with one entry per input, in order,
    /// compared and displayed under the review's settings, and rendered.
    pub fn from_inputs(spec: &ReviewTabSpec, inputs: Vec<ReviewFileInput>) -> (session: Self)
        requires
            forall|i: int| 0 <= i < inputs@.len() ==> input_fits(#[trigger] inputs@[i]),
        ensures
            session.wf(),
            session.review_kind == spec.review_kind,
            session.repo_root@ == spec.repo_root@,
            session.review_generation_at_creation == spec.snapshot_generation_at_creation,
            session.fingerprint_at_creation.spec_token() == spec.fingerprint_at_creation.spec_token(),
            session.settings_snapshot == spec.settings_snapshot,
            session.files@.len() == inputs@.len(),
            forall|i: int|
                0 <= i < inputs@.len() ==> entry_of_input(
                    #[trigger] session.files@[i],
                    inputs@[i],
                    spec.settings_snapshot,
                ) && shows_file(session.files@[i], spec.settings_snapshot),
            line_views(session.rendered_lines@) == session_lines(session.files@),
            !session.stale,
    {
        let mut session = Self::from_spec(spec);
        let settings = spec.settings_snapshot;
        let mut inputs = inputs;
        let ghost all = inputs@;
        let mut files: Vec<ReviewFileEntry> = Vec::new();
        while inputs.len() > 0
            invariant
                files@.len() + inputs@.len() == all.len(),
                inputs@ == all.skip(files@.len() as int),
                forall|j: int| 0 <= j < all.len() ==> input_fits(#[trigger] all[j]),
                forall|j: int|
                    0 <= j < files@.len() ==> entry_of_input(#[trigger] files@[j], all[j], settings)
                        && files@[j].wf(),
            decreases inputs@.len(),
        {
            let ghost k = files@.len() as int;
            let input = inputs.remove(0);
            assert(input == all[k]);
            files.push(ReviewFileEntry::from_input(input, settings));
            assert(inputs@ =~= all.skip(files@.len() as int));
        }
        session.files = files;
        session.rebuild_displays(settings);
        proof {
            assert forall|i: int| 0 <= i < all.len() implies entry_of_input(
                #[trigger] session.files@[i],
                all[i],
                settings,
            ) by {
                lemma_same_compare(files@[i], session.files@[i], all[i].skip_reason, settings);
            }
        }
        session
    }

    /// Rebuilds every file's display under `settings`, then the rendered lines.
    pub fn rebuild_displays(&mut self, settings: CompareReviewSettingsSnapshot)
        requires
            old(self).wf(),
        ensures
            final(self).wf(),
            final(self).settings_snapshot == settings,
            final(self).files@.len() == old(self).files@.len(),
            forall|i: int|
                0 <= i < old(self).files@.len() ==> same_except_display(
                    old(self).files@[i],
                    #[trigger] final(self).files@[i],
                ) && shows_file(final(self).files@[i], settings),
            line_views(final(self).rendered_lines@) == session_lines(final(self).files@),
            final(self).review_kind == old(self).review_kind,
            final(self).repo_root == old(self).repo_root,
            final(self).review_generation_at_creation == old(self).review_generation_at_creation,
            final(self).fingerprint_at_creation == old(self).fingerprint_at_creation,
            final(self).stale == old(self).stale,
    {
        self.settings_snapshot = settings;
        let mut i: usize = 0;
        while i < self.files.len()
            invariant
                i <= self.files@.len(),
                self.files@.len() == old(self).files@.len(),
                self.settings_snapshot == settings,
                self.review_kind == old(self).review_kind,
                self.repo_root == old(self).repo_root,
                self.review_generation_at_creation == old(self).review_generation_at_creation,
                self.fingerprint_at_creation == old(self).fingerprint_at_creation,
                self.stale == old(self).stale,
                old(self).wf(),
                forall|j: int|
                    0 <= j < i ==> same_except_display(old(self).files@[j], #[trigger] self.files@[j])
                        && shows_file(self.files@[j], settings) && self.files@[j].wf(),
                forall|j: int| i <= j < self.files@.len() ==> #[trigger] self.files@[j] == old(self).files@[j],
            decreases self.files@.len() - i,
        {
            assert(old(self).files@[i as int].wf());
            self.files[i].rebuild_display(settings);
            i += 1;
        }
        self.rebuild_rendered_lines();
    }
}

impl ReviewSession {
    /// The text of the review: for each file its heading line, then its skip
    /// reason or the lines of its display rows, joined by newlines. Without
    /// files it is a translated notice that there is nothing to review.
    pub fn render_text(&self) -> (text: String)
        ensures
            self.files@.len() > 0 ==> exists|texts: Seq<Seq<char>>|
                session_texts(self.files@, texts) && text@ == spec_join(texts, newline()),
    {
        if self.files.len() == 0 {
            return translate(&review_message(ReviewText::NothingToReview, 0));
        }
        let mut lines: Vec<String> = Vec::new();
        let mut file_index: usize = 0;
        while file_index < self.files.len()
            invariant
                file_index <= self.files@.len(),
                session_texts(self.files@.take(file_index as int), string_views(lines@)),
            decreases self.files@.len() - file_index,
        {
            let file = &self.files[file_index];
            let ghost base = string_views(lines@);
            let ghost base_len = lines@.len() as int;
            let boundary = file_boundary_row(file);
            let ghost label = boundary->FileBoundary_0.path@;
            push_display_row(&mut lines, &boundary);
            proof {
                assert(string_views(lines@).take(base_len) =~= base);
                assert(displays_path(file.file_id.raw_path@, label));
                assert(boundary_text(label, file.status_badge@, file.additions, file.removals, lines@[base_len]@));
            }
            match &file.skip_reason {
                Some(reason) => {
                    let ghost before = lines@;
                    push_display_row(&mut lines, &skipped_marker_row(file, reason.clone()));
                    proof {
                        assert(lines@.take(before.len() as int)[base_len] == lines@[base_len]);
                        assert forall|j: int| 0 <= j < base_len implies #[trigger] lines@[j] == before[j] by {
                            assert(lines@.take(before.len() as int)[j] == lines@[j]);
                        }
                        assert(string_views(lines@).take(base_len) =~= base);
                    }
                },
                None => match &file.display_model {
                    Some(display) => {
                        let mut k: usize = 0;
                        while k < display.rows.len()
                            invariant
                                k <= display.rows@.len(),
                                0 <= base_len,
                                lines@.len() == base_len + 1 + k,
                                string_views(lines@).take(base_len) == base,
                                boundary_text(label, file.status_badge@, file.additions, file.removals, lines@[base_len]@),
                                forall|j: int|
                                    0 <= j < k ==> shows_row_text(
                                        #[trigger] display.rows@[j],
                                        lines@[base_len + 1 + j]@,
                                    ),
                            decreases display.rows@.len() - k,
                        {
                            let ghost before = lines@;
                            push_display_row(&mut lines, &display.rows[k]);
                            proof {
                                assert(lines@.take(before.len() as int)[base_len] == lines@[base_len]);
                                assert(lines@[base_len] == before[base_len]);
                                assert forall|j: int| 0 <= j < base_len implies #[trigger] lines@[j] == before[j] by {
                                    assert(lines@.take(before.len() as int)[j] == lines@[j]);
                                }
                                assert(string_views(lines@).take(base_len) =~= string_views(before).take(base_len));
                                assert forall|j: int| 0 <= j < k + 1 implies shows_row_text(
                                    #[trigger] display.rows@[j],
                                    lines@[base_len + 1 + j]@,
                                ) by {
                                    if j < k {
                                        assert(lines@.take(before.len() as int)[base_len + 1 + j] == lines@[base_len
                                            + 1 + j]);
                                    }
                                }
                            }
                            k += 1;
                        }
                    },
                    None => {},
                },
            }
            proof {
                let texts = string_views(lines@);
                let n = file_line_kinds(*file).len();
                assert(texts.len() == base_len + n);
                assert(self.files@.take(file_index + 1).drop_last() =~= self.files@.take(file_index as int));
                assert(self.files@.take(file_index + 1).last() == *file);
                assert(texts.take(texts.len() - n) =~= base);
                let chunk = texts.skip(base_len);
                assert(chunk[0] == lines@[base_len]@);
                assert(displays_path(file.file_id.raw_path@, label) && boundary_text(
                    label,
                    file.status_badge@,
                    file.additions,
                    file.removals,
                    chunk[0],
                ));
                if file.skip_reason is Some {
                    assert(chunk[1] == lines@[base_len + 1]@);
                } else if file.display_model is Some {
                    let d = file.display_model->0;
                    assert forall|k: int| 0 <= k < d.rows@.len() implies shows_row_text(
                        #[trigger] d.rows@[k],
                        chunk[k + 1],
                    ) by {
                        assert(chunk[k + 1] == lines@[base_len + 1 + k]@);
                    }
                }
                assert(file_texts(*file, chunk));
            }
            file_index += 1;
        }
        assert(self.files@.take(file_index as int) =~= self.files@);
        join_lines(&lines)
    }
}

/// The rendered text has one line per rendered line: the texts `render_text`
/// joins for a list of files are exactly as many as the lines
/// `rebuild_rendered_lines` maps for them.
pub proof fn lemma_rendered_text_lines_align(files: Seq<ReviewFileEntry>, texts: Seq<Seq<char>>)
    requires
        session_texts(files, texts),
    ensures
        texts.len() == session_lines(files).len(),
    decreases files.len(),
{
    if files.len() > 0 {
        let n = file_line_kinds(files.last()).len();
        lemma_rendered_text_lines_align(files.drop_last(), texts.take(texts.len() - n));
    }
}

// ---------------------------------------------------------------------------
// Navigation
// ---------------------------------------------------------------------------

/// Display row `k` of `rows` is a content row with identity `id`.
pub open spec fn content_row_with_id(rows: Seq<CompareDisplayRow>, k: int, id: RowIdView) -> bool {
    rows[k] matches CompareDisplayRow::Content(c) && c.id@ == id
}

/// A rendered line is a stop of change navigation: a skip marker, or a content
/// line whose row (the first content row of its file's display with the
/// line's identity) is not unchanged.
pub open spec fn is_navigation(files: Seq<ReviewFileEntry>, line: RenderedLineView) -> bool {
    match line.2 {
        RenderedKindView::FileBoundary => false,
        RenderedKindView::Collapsed(_) => false,
        RenderedKindView::SkippedMarker(_) => true,
        RenderedKindView::Content(id) => 0 <= line.0 < files.len() && match files[line.0].display_model {
            Some(d) => first_content_changed(d.rows@, id),
            None => false,
        },
    }
}

/// The first content row of `rows` with identity `id` is not unchanged.
pub open spec fn first_content_changed(rows: Seq<CompareDisplayRow>, id: RowIdView) -> bool {
    exists|k: int|
        0 <= k < rows.len() && #[trigger] content_row_with_id(rows, k, id) && (forall|j: int|
            0 <= j < k ==> !content_row_with_id(rows, j, id)) && rows[k]->Content_0.kind != DiffRowKind::Equal
}

/// The first index at or after `from` whose flag is set.
pub open spec fn next_flag(flags: Seq<bool>, from: int) -> Option<int>
    decreases flags.len() - from,
{
    if from < 0 {
        next_flag(flags, 0)
    } else if from >= flags.len() {
        None
    } else if flags[from] {
        Some(from)
    } else {
        next_flag(flags, from + 1)
    }
}

/// The last index before `before` whose flag is set.
pub open spec fn prev_flag(flags: Seq<bool>, before: int) -> Option<int>
    decreases before,
{
    if before <= 0 {
        None
    } else if before > flags.len() {
        prev_flag(flags, flags.len() as int)
    } else if flags[before - 1] {
        Some(before - 1)
    } else {
        prev_flag(flags, before - 1)
    }
}

/// Where navigation from line `line` goes: forward, the next stop after it,
/// wrapping to the first; backward, the last stop before it, wrapping to the
/// last; nowhere when there is no stop.
pub open spec fn navigation_target(flags: Seq<bool>, line: int, forward: bool) -> Option<int> {
    if forward {
        match next_flag(flags, 0) {
            None => None,
            Some(first) => match next_flag(flags, line + 1) {
                Some(i) => Some(i),
                None => Some(first),
            },
        }
    } else {
        match prev_flag(flags, line) {
            Some(i) => Some(i),
            None => prev_flag(flags, flags.len() as int),
        }
    }
}

proof fn lemma_next_flag(flags: Seq<bool>, from: int)
    requires
        0 <= from,
    ensures
        match next_flag(flags, from) {
            Some(i) => from <= i < flags.len() && flags[i] && forall|j: int| from <= j < i ==> !flags[j],
            None => forall|j: int| from <= j < flags.len() ==> !flags[j],
        },
    decreases flags.len() - from,
{
    if from < flags.len() && !flags[from] {
        lemma_next_flag(flags, from + 1);
    }
}

proof fn lemma_prev_flag(flags: Seq<bool>, before: int)
    requires
        0 <= before <= flags.len(),
    ensures
        match prev_flag(flags, before) {
            Some(i) => 0 <= i < before && flags[i] && forall|j: int| i < j < before ==> !flags[j],
            None => forall|j: int| 0 <= j < before ==> !flags[j],
        },
    decreases before,
{
    if before > 0 && !flags[before - 1] {
        lemma_prev_flag(flags, before - 1);
    }
}

/// Change navigation lands on a stop, and on one whenever there is any.
/// Forward from a line it goes to the nearest stop after it, or, when there
/// is none after it, to the first stop; backward to the nearest stop before
/// it, or, when there is none before it, to the last stop.
pub proof fn lemma_navigation_lands_on_stops(flags: Seq<bool>, line: int, forward: bool)
    requires
        0 <= line,
    ensures
        navigation_target(flags, line, forward) matches Some(i) ==> 0 <= i < flags.len() && flags[i],
        navigation_target(flags, line, forward) is None <==> forall|j: int| 0 <= j < flags.len() ==> !flags[j],
        match navigation_target(flags, line, forward) {
            Some(i) => if forward {
                &&& line < i ==> forall|j: int| line < j < i ==> !flags[j]
                &&& i <= line ==> forall|j: int| (0 <= j < i || line < j < flags.len()) ==> !flags[j]
            } else {
                &&& i < line ==> forall|j: int| i < j < line && j < flags.len() ==> !flags[j]
                &&& line <= i ==> forall|j: int| (0 <= j < line || i < j < flags.len()) ==> !flags[j]
            },
            None => true,
        },
{
    lemma_next_flag(flags, 0);
    lemma_next_flag(flags, line + 1);
    lemma_prev_flag(flags, flags.len() as int);
    if line <= flags.len() {
        lemma_prev_flag(flags, line);
    } else {
        assert(prev_flag(flags, line) == prev_flag(flags, flags.len() as int));
    }
}

/// An optional index as an integer.
pub open spec fn index_view(index: Option<usize>) -> Option<int> {
    match index {
        Some(i) => Some(i as int),
        None => None,
    }
}

/// A line to scroll the rendered review to.
#[derive(Clone, Copy, Debug, PartialEq, Eq, Structural)]
pub struct ReviewScrollTarget {
    pub line_index: usize,
}

impl ReviewSession {
    /// For each rendered line, whether it is a stop of change navigation.
    pub open spec fn navigation_flags(self) -> Seq<bool> {
        Seq::new(self.rendered_lines@.len(), |i: int| is_navigation(self.files@, self.rendered_lines@[i]@))
    }

    /// Whether `line` is a stop of change navigation (see `is_navigation`).
    pub fn is_navigation_line(&self, line: &ReviewRenderedLine) -> (stop: bool)
        ensures
            stop == is_navigation(self.files@, line@),
    {
        match &line.kind {
            RenderedLineKind::FileBoundary => false,
            RenderedLineKind::Collapsed { .. } => false,
            RenderedLineKind::SkippedMarker { .. } => true,
            RenderedLineKind::Content { display_row_id } => {
                if line.file_index >= self.files.len() {
                    return false;
                }
                match &self.files[line.file_index].display_model {
                    None => false,
                    Some(display) => {
                        let ghost id = display_row_id@;
                        let mut k: usize = 0;
                        while k < display.rows.len()
                            invariant
                                k <= display.rows@.len(),
                                forall|j: int| 0 <= j < k ==> !content_row_with_id(display.rows@, j, id),
                                id == display_row_id@,
                                line@.2 == RenderedKindView::Content(id),
                                line.file_index < self.files@.len(),
                                self.files@[line.file_index as int].display_model == Some(*display),
                            decreases display.rows@.len() - k,
                        {
                            if let CompareDisplayRow::Content(row) = &display.rows[k] {
                                if row.id.same_as(display_row_id) {
                                    proof {
                                        let d = self.files@[line.file_index as int].display_model->0;
                                        assert(d == *display);
                                        assert(content_row_with_id(d.rows@, k as int, id));
                                        assert(d.rows@[k as int]->Content_0 == *row);
                                        assert forall|k2: int|
                                            0 <= k2 < d.rows@.len() && #[trigger] content_row_with_id(
                                                d.rows@,
                                                k2,
                                                id,
                                            ) && (forall|j: int| 0 <= j < k2 ==> !content_row_with_id(d.rows@, j, id))
                                            implies k2 == k by {
                                            if k2 > k {
                                                assert(!content_row_with_id(d.rows@, k as int, id));
                                            }
                                        }
                                        if row.kind != DiffRowKind::Equal {
                                            assert(first_content_changed(d.rows@, id));
                                        }
                                    }
                                    return row.kind != DiffRowKind::Equal;
                                }
                            }
                            k += 1;
                        }
                        false
                    },
                }
            },
        }
    }

    /// The first stop of navigation.
    fn first_navigation_line(&self) -> (line: Option<usize>)
        ensures
            index_view(line) == next_flag(self.navigation_flags(), 0),
    {
        let ghost flags = self.navigation_flags();
        let mut i: usize = 0;
        while i < self.rendered_lines.len()
            invariant
                i <= self.rendered_lines@.len(),
                flags == self.navigation_flags(),
                next_flag(flags, 0) == next_flag(flags, i as int),
            decreases self.rendered_lines@.len() - i,
        {
            if self.is_navigation_line(&self.rendered_lines[i]) {
                return Some(i);
            }
            i += 1;
        }
        None
    }

    /// The last stop of navigation.
    fn last_navigation_line(&self) -> (line: Option<usize>)
        ensures
            index_view(line) == prev_flag(self.navigation_flags(), self.rendered_lines@.len() as int),
    {
        self.last_navigation_line_before(self.rendered_lines.len())
    }

    /// The last stop of navigation before line `before`.
    fn last_navigation_line_before(&self, before: usize) -> (line: Option<usize>)
        ensures
            index_view(line) == prev_flag(self.navigation_flags(), before as int),
    {
        let ghost flags = self.navigation_flags();
        let mut i: usize = if before < self.rendered_lines.len() {
            before
        } else {
            self.rendered_lines.len()
        };
        assert(prev_flag(flags, before as int) == prev_flag(flags, i as int));
        while i > 0
            invariant
                i <= self.rendered_lines@.len(),
                flags == self.navigation_flags(),
                prev_flag(flags, before as int) == prev_flag(flags, i as int),
            decreases i,
        {
            if self.is_navigation_line(&self.rendered_lines[i - 1]) {
                return Some(i - 1);
            }
            i -= 1;
        }
        None
    }

    /// The first stop of navigation at or after line `from`.
    fn next_navigation_line_from(&self, from: usize) -> (line: Option<usize>)
        ensures
            index_view(line) == next_flag(self.navigation_flags(), from as int),
    {
        let ghost flags = self.navigation_flags();
        let mut i: usize = from;
        while i < self.rendered_lines.len()
            invariant
                from <= i,
                flags == self.navigation_flags(),
                next_flag(flags, from as int) == next_flag(flags, i as int),
            decreases self.rendered_lines@.len() - i,
        {
            if self.is_navigation_line(&self.rendered_lines[i]) {
                return Some(i);
            }
            i += 1;
        }
        None
    }

    /// Where change navigation goes from `current_line` (the first line when
    /// there is none): forward for a direction of zero or more, else backward
    /// (see `navigation_target`).
    pub fn target_for_direction(&self, current_line: Option<usize>, direction: i32) -> (target: Option<
        ReviewScrollTarget,
    >)
        ensures
            target_view(target) == navigation_target(
                self.navigation_flags(),
                match current_line {
                    Some(l) => l as int,
                    None => 0,
                },
                direction >= 0,
            ),
    {
        let line = match current_line {
            Some(l) => l,
            None => 0,
        };
        if direction >= 0 {
            let first = match self.first_navigation_line() {
                Some(first) => first,
                None => return None,
            };
            let next = if line < usize::MAX {
                match self.next_navigation_line_from(line + 1) {
                    Some(next) => next,
                    None => first,
                }
            } else {
                let n = self.rendered_lines.len();
                proof {
                    assert(n < line + 1);
                    assert(next_flag(self.navigation_flags(), line + 1) is None);
                }
                first
            };
            return Some(ReviewScrollTarget { line_index: next });
        }
        match self.last_navigation_line_before(line) {
            Some(target) => Some(ReviewScrollTarget { line_index: target }),
            None => match self.last_navigation_line() {
                Some(target) => Some(ReviewScrollTarget { line_index: target }),
                None => None,
            },
        }
    }

    /// The file of rendered line `line`, if there is such a line.
    pub fn current_file_for_line(&self, line: usize) -> (file_id: Option<ReviewFileId>)
        ensures
            match file_id {
                Some(id) => line < self.rendered_lines@.len() && id@ == self.rendered_lines@[line as int].file_id@,
                None => line >= self.rendered_lines@.len(),
            },
    {
        if line < self.rendered_lines.len() {
            Some(self.rendered_lines[line].file_id.duplicate())
        } else {
            None
        }
    }
}

// ---------------------------------------------------------------------------
// Change list, staleness, files to open
// ---------------------------------------------------------------------------

/// An entry of the change list of a review: a label, a description, and the
/// rendered line it leads to.
#[derive(Clone, Debug, PartialEq, Eq)]
pub struct ReviewChangeListItem {
    pub label: String,
    pub description: String,
    pub target: ReviewScrollTarget,
}

/// A rendered line is listed in the change list: every line but the content
/// lines that are not stops of navigation.
pub open spec fn is_listed(files: Seq<ReviewFileEntry>, line: RenderedLineView) -> bool {
    match line.2 {
        RenderedKindView::Content(_) => is_navigation(files, line),
        _ => true,
    }
}

/// The indices of the set flags, in order.
pub open spec fn flagged_indices(flags: Seq<bool>) -> Seq<int>
    decreases flags.len(),
{
    if flags.len() == 0 {
        Seq::empty()
    } else {
        flagged_indices(flags.drop_last()) + if flags.last() {
            seq![flags.len() - 1]
        } else {
            Seq::<int>::empty()
        }
    }
}

/// `item` lists rendered line `index`, `line`: it leads to that line, is
/// labelled with the line's file path and, for a skip marker, described by
/// the skip reason (other descriptions are translated).
pub open spec fn lists_line(item: ReviewChangeListItem, index: int, line: RenderedLineView) -> bool {
    &&& item.target.line_index == index
    &&& displays_path(line.1.1, item.label@)
    &&& line.2 matches RenderedKindView::SkippedMarker(r) ==> item.description@ == r
}

/// The first file at or after `from` with identity `id`.
pub open spec fn first_file_with_id(files: Seq<ReviewFileEntry>, id: (ReviewKind, Seq<u8>), from: int) -> Option<
    int,
>
    decreases files.len() - from,
{
    if from < 0 || from >= files.len() {
        None
    } else if files[from].file_id@ == id {
        Some(from)
    } else {
        first_file_with_id(files, id, from + 1)
    }
}

impl ReviewSession {
    /// For each rendered line, whether it is listed in the change list.
    pub open spec fn listed_flags(self) -> Seq<bool> {
        Seq::new(self.rendered_lines@.len(), |i: int| is_listed(self.files@, self.rendered_lines@[i]@))
    }

    /// The raw path of the file rendered line `line` opens in an editor: the
    /// first file with that line's identity, when it has a current text and
    /// was not skipped.
    pub open spec fn spec_open_target(self, line: int) -> Option<Seq<u8>> {
        if 0 <= line < self.rendered_lines@.len() {
            match first_file_with_id(self.files@, self.rendered_lines@[line].file_id@, 0) {
                Some(k) => if self.files@[k].current_text is Some && self.files@[k].skip_reason is None {
                    Some(self.files@[k].file_id.raw_path@)
                } else {
                    None
                },
                None => None,
            }
        } else {
            None
        }
    }

    /// The change list: one item per listed rendered line, in order (see `lists_line`).
    pub fn change_list_items(&self) -> (items: Vec<ReviewChangeListItem>)
        ensures
            items@.len() == flagged_indices(self.listed_flags()).len(),
            forall|j: int|
                0 <= j < items@.len() ==> lists_line(
                    #[trigger] items@[j],
                    flagged_indices(self.listed_flags())[j],
                    self.rendered_lines@[flagged_indices(self.listed_flags())[j]]@,
                ),
    {
        let ghost flags = self.listed_flags();
        let mut items: Vec<ReviewChangeListItem> = Vec::new();
        let mut index: usize = 0;
        while index < self.rendered_lines.len()
            invariant
                index <= self.rendered_lines@.len(),
                flags == self.listed_flags(),
                items@.len() == flagged_indices(flags.take(index as int)).len(),
                forall|j: int|
                    0 <= j < items@.len() ==> lists_line(
                        #[trigger] items@[j],
                        flagged_indices(flags.take(index as int))[j],
                        self.rendered_lines@[flagged_indices(flags.take(index as int))[j]]@,
                    ),
                forall|j: int|
                    0 <= j < items@.len() ==> 0 <= #[trigger] flagged_indices(flags.take(index as int))[j] < index,
            decreases self.rendered_lines@.len() - index,
        {
            let line = &self.rendered_lines[index];
            let ghost before = items@;
            let ghost prev = flagged_indices(flags.take(index as int));
            proof {
                assert(flags.take(index + 1).drop_last() =~= flags.take(index as int));
                assert(flags.take(index + 1).last() == flags[index as int]);
            }
            let target = ReviewScrollTarget { line_index: index };
            match &line.kind {
                RenderedLineKind::FileBoundary => {
                    items.push(
                        ReviewChangeListItem {
                            label: path_display(line.file_id.raw_path.as_slice()),
                            description: translate(&review_message(ReviewText::ChangedFile, 0)),
                            target,
                        },
                    );
                },
                RenderedLineKind::Content { .. } => {
                    if self.is_navigation_line(line) {
                        items.push(
                            ReviewChangeListItem {
                                label: path_display(line.file_id.raw_path.as_slice()),
                                description: translate(&review_message(ReviewText::ChangedLine, 0)),
                                target,
                            },
                        );
                    }
                },
                RenderedLineKind::Collapsed { .. } => {
                    items.push(
                        ReviewChangeListItem {
                            label: path_display(line.file_id.raw_path.as_slice()),
                            description: translate(&review_message(ReviewText::HiddenUnchangedLines, 0)),
                            target,
                        },
                    );
                },
                RenderedLineKind::SkippedMarker { reason } => {
                    items.push(
                        ReviewChangeListItem {
                            label: path_display(line.file_id.raw_path.as_slice()),
                            description: reason.clone(),
                            target,
                        },
                    );
                },
            }
            proof {
                let now = flagged_indices(flags.take(index + 1));
                if flags[index as int] {
                    assert(now == prev.push(index as int));
                    assert(items@ == before.push(items@.last()));
                } else {
                    assert(now == prev);
                    assert(items@ == before);
                }
                assert forall|j: int| 0 <= j < items@.len() implies lists_line(
                    #[trigger] items@[j],
                    now[j],
                    self.rendered_lines@[now[j]]@,
                ) && 0 <= now[j] < index + 1 by {
                    if j < before.len() {
                        assert(items@[j] == before[j]);
                        assert(now[j] == prev[j]);
                    }
                }
            }
            index += 1;
        }
        assert(flags.take(index as int) =~= flags);
        items
    }

    /// Marks the session stale when the repository changed since it was
    /// made: a staged review when the snapshot fingerprint differs, an
    /// unstaged one also when the generation differs. Returns the new state.
    pub fn mark_stale_if_mismatch(&mut self, current_fingerprint: &ReviewSnapshotFingerprint, current_generation: u64) -> (stale:
        bool)
        ensures
            stale == match old(self).review_kind {
                ReviewKind::Staged => old(self).fingerprint_at_creation.spec_token()
                    != current_fingerprint.spec_token(),
                ReviewKind::Unstaged => old(self).review_generation_at_creation != current_generation
                    || old(self).fingerprint_at_creation.spec_token() != current_fingerprint.spec_token(),
            },
            final(self).stale == stale,
            final(self).files == old(self).files,
            final(self).rendered_lines == old(self).rendered_lines,
            final(self).review_kind == old(self).review_kind,
            final(self).review_generation_at_creation == old(self).review_generation_at_creation,
            final(self).fingerprint_at_creation == old(self).fingerprint_at_creation,
            final(self).settings_snapshot == old(self).settings_snapshot,
            final(self).repo_root == old(self).repo_root,
    {
        let fingerprint_differs = !str_eq(self.fingerprint_at_creation.token(), current_fingerprint.token());
        let stale = match self.review_kind {
            ReviewKind::Staged => fingerprint_differs,
            ReviewKind::Unstaged => self.review_generation_at_creation != current_generation
                || fingerprint_differs,
        };
        self.stale = stale;
        stale
    }

    /// The raw repository path of the file rendered line `line` opens (see
    /// `spec_open_target`); the caller joins it to the repository root.
    pub fn open_target_for_line(&self, line: usize) -> (raw_path: Option<Vec<u8>>)
        ensures
            match raw_path {
                Some(p) => self.spec_open_target(line as int) == Some(p@),
                None => self.spec_open_target(line as int) is None,
            },
    {
        if line >= self.rendered_lines.len() {
            return None;
        }
        let rendered = &self.rendered_lines[line];
        let ghost id = rendered.file_id@;
        let mut k: usize = 0;
        while k < self.files.len()
            invariant
                k <= self.files@.len(),
                line < self.rendered_lines@.len(),
                *rendered == self.rendered_lines@[line as int],
                id == self.rendered_lines@[line as int].file_id@,
                first_file_with_id(self.files@, id, 0) == first_file_with_id(self.files@, id, k as int),
            decreases self.files@.len() - k,
        {
            let file = &self.files[k];
            if file.file_id.same_as(&rendered.file_id) {
                if file.current_text.is_none() || file.skip_reason.is_some() {
                    return None;
                }
                return Some(file.file_id.raw_path.clone());
            }
            k += 1;
        }
        None
    }

    /// Number of files.
    pub fn file_count(&self) -> (n: usize)
        ensures
            n == self.files@.len(),
    {
        self.files.len()
    }

    /// The repository the review is of.
    pub fn repo_root(&self) -> (root: String)
        ensures
            root@ == self.repo_root@,
    {
        self.repo_root.clone()
    }

    /// Whether the session was marked stale.
    pub fn is_stale(&self) -> (stale: bool)
        ensures
            stale == self.stale,
    {
        self.stale
    }

    /// Clears the stale mark.
    pub fn clear_stale(&mut self)
        ensures
            !final(self).stale,
            final(self).files == old(self).files,
            final(self).rendered_lines == old(self).rendered_lines,
            final(self).review_kind == old(self).review_kind,
            final(self).review_generation_at_creation == old(self).review_generation_at_creation,
            final(self).fingerprint_at_creation == old(self).fingerprint_at_creation,
            final(self).settings_snapshot == old(self).settings_snapshot,
            final(self).repo_root == old(self).repo_root,
    {
        self.stale = false;
    }
}

// ---------------------------------------------------------------------------
// Revealing collapsed rows
// ---------------------------------------------------------------------------

/// The collapsed run a rendered line stands for: its file index and hidden
/// rows, when it is a collapsed line.
pub open spec fn marker_at(line: RenderedLineView) -> Option<(int, usize, usize)> {
    match line.2 {
        RenderedKindView::Collapsed(id) => match id.1 {
            DisplayRowIdKind::Collapsed { hidden_start, hidden_end } => Some((line.0, hidden_start, hidden_end)),
            _ => None,
        },
        _ => None,
    }
}

/// The nearest collapsed run at or above line `i`.
pub open spec fn marker_at_or_above(lines: Seq<RenderedLineView>, i: int) -> Option<(int, usize, usize)>
    decreases i + 1,
{
    if i < 0 || i >= lines.len() {
        None
    } else {
        match marker_at(lines[i]) {
            Some(m) => Some(m),
            None => marker_at_or_above(lines, i - 1),
        }
    }
}

/// The first collapsed line at or after `from` of file `file_index` whose
/// run lies within `start..end`.
pub open spec fn remaining_marker_from(
    lines: Seq<RenderedLineView>,
    file_index: int,
    start: usize,
    end: usize,
    from: int,
) -> Option<int>
    decreases lines.len() - from,
{
    if from < 0 || from >= lines.len() {
        None
    } else if lines[from].0 == file_index && (marker_at(lines[from]) matches Some(m) && m.1 >= start && m.2
        <= end) {
        Some(from)
    } else {
        remaining_marker_from(lines, file_index, start, end, from + 1)
    }
}

/// An optional scroll target as a line index.
pub open spec fn target_view(target: Option<ReviewScrollTarget>) -> Option<int> {
    match target {
        Some(t) => Some(t.line_index as int),
        None => None,
    }
}

/// `after` is `before` with `rows` revealed in file `file_index`, every
/// display rebuilt under the session's settings, and the lines rendered anew.
pub open spec fn revealed_and_rebuilt(
    before: ReviewSession,
    after: ReviewSession,
    file_index: int,
    rows: Set<usize>,
) -> bool {
    &&& after.wf()
    &&& after.files@.len() == before.files@.len()
    &&& forall|i: int|
        0 <= i < before.files@.len() ==> {
            let b = before.files@[i];
            let a = #[trigger] after.files@[i];
            &&& a.file_id == b.file_id
            &&& a.status_badge == b.status_badge
            &&& a.reference_text == b.reference_text
            &&& a.current_text == b.current_text
            &&& a.diff_row_model == b.diff_row_model
            &&& a.skip_reason == b.skip_reason
            &&& a.additions == b.additions
            &&& a.removals == b.removals
            &&& a.collapse_state.revealed_rows@ == if i == file_index {
                b.collapse_state.revealed_rows@ + rows
            } else {
                b.collapse_state.revealed_rows@
            }
            &&& shows_file(a, before.settings_snapshot)
        }
    &&& line_views(after.rendered_lines@) == session_lines(after.files@)
    &&& after.settings_snapshot == before.settings_snapshot
    &&& after.review_kind == before.review_kind
    &&& after.repo_root == before.repo_root
    &&& after.review_generation_at_creation == before.review_generation_at_creation
    &&& after.fingerprint_at_creation == before.fingerprint_at_creation
    &&& after.stale == before.stale
}

/// A reveal of `scope` from `current_line` takes `before` to `after` and
/// answers `target`: nothing changes and there is no target when no
/// collapsed run lies at or above the line, the run's file is missing, or its
/// rows to reveal are empty or all revealed already; else they are revealed,
/// the session rebuilt, and the target is the first collapsed line of that
/// file still within the run.
pub open spec fn reveals(
    before: ReviewSession,
    after: ReviewSession,
    current_line: Option<usize>,
    scope: RevealScope,
    target: Option<ReviewScrollTarget>,
) -> bool {
    match before.current_marker(current_line) {
        None => target is None && after == before,
        Some(m) => {
            let rows = reveal_seq(m.1, m.2, before.settings_snapshot.context_lines, scope);
            if rows.len() == 0 || m.0 >= before.files@.len() || rows.to_set().subset_of(
                before.files@[m.0].collapse_state.revealed_rows@,
            ) {
                target is None && after == before
            } else {
                &&& revealed_and_rebuilt(before, after, m.0, rows.to_set())
                &&& target_view(target) == remaining_marker_from(
                    line_views(after.rendered_lines@),
                    m.0,
                    m.1,
                    m.2,
                    0,
                )
            }
        },
    }
}

/// A collapsed run of a file, named by a rendered line.
struct CollapsedMarkerTarget {
    file_index: usize,
    hidden_start: usize,
    hidden_end: usize,
}

impl ReviewFileEntry {
    /// Whether every row of `rows` is revealed already.
    fn reveals_all(&self, rows: &Vec<usize>) -> (all: bool)
        ensures
            all == rows@.to_set().subset_of(self.collapse_state.revealed_rows@),
    {
        let mut i: usize = 0;
        while i < rows.len()
            invariant
                i <= rows@.len(),
                forall|j: int| 0 <= j < i ==> self.collapse_state.revealed_rows@.contains(#[trigger] rows@[j]),
            decreases rows@.len() - i,
        {
            if !holds_row(&self.collapse_state.revealed_rows, rows[i]) {
                assert(rows@.to_set().contains(rows@[i as int]));
                return false;
            }
            i += 1;
        }
        assert forall|r: usize| rows@.to_set().contains(r) implies self.collapse_state.revealed_rows@.contains(r) by {
            let j = choose|j: int| 0 <= j < rows@.len() && rows@[j] == r;
            assert(self.collapse_state.revealed_rows@.contains(rows@[j]));
        }
        true
    }

    /// Reveals `rows`.
    fn reveal_rows(&mut self, rows: &Vec<usize>)
        ensures
            final(self).collapse_state.revealed_rows@ == old(self).collapse_state.revealed_rows@
                + rows@.to_set(),
            final(self).file_id == old(self).file_id,
            final(self).status_badge == old(self).status_badge,
            final(self).reference_text == old(self).reference_text,
            final(self).current_text == old(self).current_text,
            final(self).diff_row_model == old(self).diff_row_model,
            final(self).skip_reason == old(self).skip_reason,
            final(self).display_model == old(self).display_model,
            final(self).additions == old(self).additions,
            final(self).removals == old(self).removals,
    {
        let ghost base = self.collapse_state.revealed_rows@;
        let mut i: usize = 0;
        while i < rows.len()
            invariant
                i <= rows@.len(),
                base == old(self).collapse_state.revealed_rows@,
                self.collapse_state.revealed_rows@ == base + rows@.take(i as int).to_set(),
                self.file_id == old(self).file_id,
                self.status_badge == old(self).status_badge,
                self.reference_text == old(self).reference_text,
                self.current_text == old(self).current_text,
                self.diff_row_model == old(self).diff_row_model,
                self.skip_reason == old(self).skip_reason,
                self.display_model == old(self).display_model,
                self.additions == old(self).additions,
                self.removals == old(self).removals,
            decreases rows@.len() - i,
        {
            insert_row(&mut self.collapse_state.revealed_rows, rows[i]);
            proof {
                assert(rows@.take(i + 1) =~= rows@.take(i as int).push(rows@[i as int]));
                rows@.take(i as int).lemma_push_to_set_commute(rows@[i as int]);
                assert(self.collapse_state.revealed_rows@ =~= base + rows@.take(i + 1).to_set());
            }
            i += 1;
        }
        assert(rows@.take(i as int) =~= rows@);
    }
}

impl ReviewSession {
    /// The collapsed run at or above `current_line` (clamped to the last
    /// line), if any.
    pub open spec fn current_marker(self, current_line: Option<usize>) -> Option<(int, usize, usize)> {
        match current_line {
            None => None,
            Some(l) => if self.rendered_lines@.len() == 0 {
                None
            } else {
                marker_at_or_above(
                    line_views(self.rendered_lines@),
                    if l < self.rendered_lines@.len() {
                        l as int
                    } else {
                        self.rendered_lines@.len() - 1
                    },
                )
            },
        }
    }

    fn current_collapsed_marker(&self, current_line: Option<usize>) -> (marker: Option<CollapsedMarkerTarget>)
        ensures
            match marker {
                Some(m) => self.current_marker(current_line) == Some(
                    (m.file_index as int, m.hidden_start, m.hidden_end),
                ),
                None => self.current_marker(current_line) is None,
            },
    {
        let requested = match current_line {
            Some(l) => l,
            None => return None,
        };
        let n = self.rendered_lines.len();
        if n == 0 {
            return None;
        }
        let ghost lines = line_views(self.rendered_lines@);
        let mut line = if requested < n {
            requested
        } else {
            n - 1
        };
        loop
            invariant
                line < n,
                n == self.rendered_lines@.len(),
                lines == line_views(self.rendered_lines@),
                self.current_marker(current_line) == marker_at_or_above(lines, line as int),
            decreases line,
        {
            let rendered = &self.rendered_lines[line];
            assert(lines[line as int] == rendered@);
            if let RenderedLineKind::Collapsed { id } = &rendered.kind {
                if let DisplayRowIdKind::Collapsed { hidden_start, hidden_end } = id.kind {
                    return Some(
                        CollapsedMarkerTarget { file_index: rendered.file_index, hidden_start, hidden_end },
                    );
                }
            }
            if line == 0 {
                return None;
            }
            line -= 1;
        }
    }

    fn line_for_remaining_marker(&self, file_index: usize, old_start: usize, old_end: usize) -> (line: Option<usize>)
        ensures
            index_view(line) == remaining_marker_from(
                line_views(self.rendered_lines@),
                file_index as int,
                old_start,
                old_end,
                0,
            ),
    {
        let ghost lines = line_views(self.rendered_lines@);
        let mut i: usize = 0;
        while i < self.rendered_lines.len()
            invariant
                i <= self.rendered_lines@.len(),
                lines == line_views(self.rendered_lines@),
                remaining_marker_from(lines, file_index as int, old_start, old_end, 0)
                    == remaining_marker_from(lines, file_index as int, old_start, old_end, i as int),
            decreases self.rendered_lines@.len() - i,
        {
            let rendered = &self.rendered_lines[i];
            assert(lines[i as int] == rendered@);
            if rendered.file_index == file_index {
                if let RenderedLineKind::Collapsed { id } = &rendered.kind {
                    if let DisplayRowIdKind::Collapsed { hidden_start, hidden_end } = id.kind {
                        if hidden_start >= old_start && hidden_end <= old_end {
                            return Some(i);
                        }
                    }
                }
            }
            i += 1;
        }
        None
    }

    /// Whether a collapsed run lies at or above `current_line`.
    pub fn can_reveal_context(&self, current_line: Option<usize>) -> (can: bool)
        ensures
            can == self.current_marker(current_line) is Some,
    {
        self.current_collapsed_marker(current_line).is_some()
    }

    /// Reveals rows at the top of the collapsed run at or above `current_line` (see `reveals`).
    pub fn reveal_above(&mut self, current_line: Option<usize>) -> (target: Option<ReviewScrollTarget>)
        requires
            old(self).wf(),
        ensures
            reveals(*old(self), *final(self), current_line, RevealScope::Above, target),
    {
        self.reveal_context(current_line, RevealScope::Above)
    }

    /// Reveals rows at the bottom of the collapsed run at or above `current_line` (see `reveals`).
    pub fn reveal_below(&mut self, current_line: Option<usize>) -> (target: Option<ReviewScrollTarget>)
        requires
            old(self).wf(),
        ensures
            reveals(*old(self), *final(self), current_line, RevealScope::Below, target),
    {
        self.reveal_context(current_line, RevealScope::Below)
    }

    /// Reveals the whole collapsed run at or above `current_line` (see `reveals`).
    pub fn reveal_current_all(&mut self, current_line: Option<usize>) -> (target: Option<ReviewScrollTarget>)
        requires
            old(self).wf(),
        ensures
            reveals(*old(self), *final(self), current_line, RevealScope::All, target),
    {
        self.reveal_context(current_line, RevealScope::All)
    }

    fn reveal_context(&mut self, current_line: Option<usize>, scope: RevealScope) -> (target: Option<
        ReviewScrollTarget,
    >)
        requires
            old(self).wf(),
        ensures
            reveals(*old(self), *final(self), current_line, scope, target),
    {
        let marker = match self.current_collapsed_marker(current_line) {
            Some(marker) => marker,
            None => return None,
        };
        let rows = reveal_rows(
            marker.hidden_start,
            marker.hidden_end,
            self.settings_snapshot.context_lines,
            scope,
        );
        proof {
            assert(rows@ == reveal_seq(
                marker.hidden_start,
                marker.hidden_end,
                self.settings_snapshot.context_lines,
                scope,
            ));
        }
        if rows.len() == 0 {
            return None;
        }
        if marker.file_index >= self.files.len() {
            return None;
        }
        if self.files[marker.file_index].reveals_all(&rows) {
            return None;
        }
        let ghost before = *self;
        self.files[marker.file_index].reveal_rows(&rows);
        proof {
            assert forall|i: int| 0 <= i < self.files@.len() implies (#[trigger] self.files@[i]).wf() by {
                assert(before.files@[i].wf());
            }
        }
        let ghost mid = *self;
        let settings = self.settings_snapshot;
        self.rebuild_displays(settings);
        proof {
            assert forall|i: int| 0 <= i < before.files@.len() implies {
                let b = before.files@[i];
                let a = #[trigger] self.files@[i];
                &&& a.file_id == b.file_id
                &&& a.status_badge == b.status_badge
                &&& a.reference_text == b.reference_text
                &&& a.current_text == b.current_text
                &&& a.diff_row_model == b.diff_row_model
                &&& a.skip_reason == b.skip_reason
                &&& a.additions == b.additions
                &&& a.removals == b.removals
                &&& a.collapse_state.revealed_rows@ == if i == marker.file_index {
                    b.collapse_state.revealed_rows@ + rows@.to_set()
                } else {
                    b.collapse_state.revealed_rows@
                }
                &&& shows_file(a, before.settings_snapshot)
            } by {
                assert(same_except_display(mid.files@[i], self.files@[i]));
                if i != marker.file_index {
                    assert(mid.files@[i] == before.files@[i]);
                }
            }
        }
        match self.line_for_remaining_marker(marker.file_index, marker.hidden_start, marker.hidden_end) {
            Some(line_index) => Some(ReviewScrollTarget { line_index }),
            None => None,
        }
    }
}

} // verus!
