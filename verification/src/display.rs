//! The display model of a compare view: the logical rows that are shown, with
//! runs of unchanged rows far from any change collapsed into one row.
use std::collections::BTreeSet;
use vstd::prelude::*;

use crate::i18n::{
    format_count, plural_count, plural_message, spec_format_count, spec_plural_count, translate, Message,
};
use crate::inline::InlineRange;
use crate::model::{DiffRow, DiffRowKind, DiffRowModel, kinds_of};
pub use crate::presentation::strip_line_ending;
use crate::presentation::{numbered_lines, presented_number, spec_strip_newline};
use crate::review::{context_for_display, review_context, CompareReviewSettingsSnapshot, ReviewFileId, ReviewKind, file_id_view};
use crate::text::{
    chars_of, join_lines, line_slices, newline, spec_join, spec_line_slices, str_views, string_from_chars,
    string_views,
};

verus! {

/// How a compare view shows a row model: whether unchanged rows far from a
/// change are collapsed, how many rows around a change stay visible, and which
/// rows the user revealed.
#[derive(Clone, Debug, PartialEq, Eq)]
pub struct CompareDisplayOptions {
    pub collapse_unchanged: bool,
    pub context_lines: usize,
    pub revealed_rows: BTreeSet<usize>,
}

impl CompareDisplayOptions {
    /// Every row shown.
    pub fn expanded() -> (options: Self)
        ensures
            !options.collapse_unchanged,
            options.context_lines == 3,
            options.revealed_rows@ == Set::<usize>::empty(),
    {
        CompareDisplayOptions { collapse_unchanged: false, context_lines: 3, revealed_rows: BTreeSet::new() }
    }

    /// Unchanged rows collapsed, keeping `context_lines` (clamped to 1..=10)
    /// rows around each change.
    pub fn collapsed(context_lines: usize) -> (options: Self)
        ensures
            options.collapse_unchanged,
            options.context_lines == if context_lines < 1 {
                1
            } else if context_lines > 10 {
                10
            } else {
                context_lines
            },
            options.revealed_rows@ == Set::<usize>::empty(),
    {
        let context_lines = if context_lines < 1 {
            1
        } else if context_lines > 10 {
            10
        } else {
            context_lines
        };
        CompareDisplayOptions { collapse_unchanged: true, context_lines, revealed_rows: BTreeSet::new() }
    }

    /// Keeps the given rows visible from now on.
    pub fn reveal_rows(&mut self, rows: &[usize])
        ensures
            final(self).collapse_unchanged == old(self).collapse_unchanged,
            final(self).context_lines == old(self).context_lines,
            final(self).revealed_rows@ == old(self).revealed_rows@ + rows@.to_set(),
    {
        let ghost base = self.revealed_rows@;
        let mut i: usize = 0;
        while i < rows.len()
            invariant
                i <= rows@.len(),
                self.collapse_unchanged == old(self).collapse_unchanged,
                self.context_lines == old(self).context_lines,
                base == old(self).revealed_rows@,
                self.revealed_rows@ == base + rows@.take(i as int).to_set(),
            decreases rows@.len() - i,
        {
            let ghost before = self.revealed_rows@;
            insert_row(&mut self.revealed_rows, rows[i]);
            proof {
                assert(rows@.take(i + 1) =~= rows@.take(i as int).push(rows@[i as int]));
                rows@.take(i as int).lemma_push_to_set_commute(rows@[i as int]);
                assert(self.revealed_rows@ =~= base + rows@.take(i + 1).to_set());
            }
            i += 1;
        }
        assert(rows@.take(i as int) =~= rows@);
    }
}

/// Adds `row` to a set of rows.
pub(crate) fn insert_row(set: &mut BTreeSet<usize>, row: usize)
    ensures
        final(set)@ == old(set)@.insert(row),
{
    broadcast use vstd::laws_cmp::group_laws_cmp;

    set.insert(row);
}

/// Whether a set of rows holds `row`.
pub(crate) fn holds_row(set: &BTreeSet<usize>, row: usize) -> (b: bool)
    ensures
        b == set@.contains(row),
{
    broadcast use vstd::laws_cmp::group_laws_cmp;
    broadcast use vstd::std_specs::btree::group_btree_axioms;

    set.contains(&row)
}

/// What a display row stands for.
#[derive(Clone, Copy, Debug, PartialEq, Eq, Hash, Structural)]
pub enum DisplayRowIdKind {
    FileBoundary,
    Logical { row: usize },
    Collapsed { hidden_start: usize, hidden_end: usize },
    SkippedMarker,
}

/// The identity of a display row: the review file it belongs to, if any, and what it stands for.
#[derive(Clone, Debug, PartialEq, Eq, Hash)]
pub struct DisplayRowId {
    pub file_id: Option<ReviewFileId>,
    pub kind: DisplayRowIdKind,
}

impl View for DisplayRowId {
    type V = (Option<(ReviewKind, Seq<u8>)>, DisplayRowIdKind);

    open spec fn view(&self) -> (Option<(ReviewKind, Seq<u8>)>, DisplayRowIdKind) {
        (file_id_view(self.file_id), self.kind)
    }
}

impl DisplayRowId {
    /// Whether two identities are equal.
    pub fn same_as(&self, other: &DisplayRowId) -> (same: bool)
        ensures
            same == (self@ == other@),
    {
        if self.kind != other.kind {
            return false;
        }
        match (&self.file_id, &other.file_id) {
            (Some(a), Some(b)) => a.same_as(b),
            (None, None) => true,
            _ => false,
        }
    }

    /// A copy of the identity.
    pub fn duplicate(&self) -> (id: Self)
        ensures
            id@ == self@,
    {
        let file_id = match &self.file_id {
            Some(f) => Some(f.duplicate()),
            None => None,
        };
        DisplayRowId { file_id, kind: self.kind }
    }
}

/// The identity of a row of `file_id` that stands for `kind`.
pub fn row_id(file_id: Option<&ReviewFileId>, kind: DisplayRowIdKind) -> (id: DisplayRowId)
    ensures
        id@ == (
            match file_id {
                Some(f) => Some(f@),
                None => None,
            },
            kind,
        ),
{
    let file_id = match file_id {
        Some(f) => Some(f.duplicate()),
        None => None,
    };
    DisplayRowId { file_id, kind }
}

#[derive(Clone, Debug, PartialEq, Eq)]
pub struct DisplayFileBoundaryRow {
    pub id: DisplayRowId,
    pub path: String,
    pub status_badge: String,
    pub additions: usize,
    pub removals: usize,
}

/// A shown logical row: its kind, 1-based line numbers, texts and inline highlights.
#[derive(Clone, Debug, PartialEq, Eq)]
pub struct DisplayContentRow {
    pub id: DisplayRowId,
    pub logical_row: usize,
    pub kind: DiffRowKind,
    pub reference_line: Option<usize>,
    pub current_line: Option<usize>,
    pub reference_text: Option<String>,
    pub current_text: Option<String>,
    pub inline_ranges: Vec<InlineRange>,
}

/// A run `hidden_start..hidden_end` of hidden logical rows, shown as one labelled row.
#[derive(Clone, Debug, PartialEq, Eq)]
pub struct DisplayCollapsedRow {
    pub id: DisplayRowId,
    pub hidden_start: usize,
    pub hidden_end: usize,
    pub hidden_count: usize,
    pub label: String,
}

#[derive(Clone, Debug, PartialEq, Eq)]
pub struct DisplaySkippedMarkerRow {
    pub id: DisplayRowId,
    pub reason: String,
}

#[derive(Clone, Debug, PartialEq, Eq)]
pub enum CompareDisplayRow {
    FileBoundary(DisplayFileBoundaryRow),
    Content(DisplayContentRow),
    Collapsed(DisplayCollapsedRow),
    SkippedMarker(DisplaySkippedMarkerRow),
}

/// The shown rows, and for each logical row the display row that shows it.
#[derive(Clone, Debug, PartialEq, Eq)]
pub struct CompareDisplayModel {
    pub rows: Vec<CompareDisplayRow>,
    pub logical_to_display: Vec<Option<usize>>,
}

// ---------------------------------------------------------------------------
// Which rows are visible
// ---------------------------------------------------------------------------

/// Some row below `bound` other than an unchanged one lies within `context` rows of row `i`.
pub open spec fn near_change(kinds: Seq<DiffRowKind>, bound: int, i: int, context: int) -> bool {
    exists|j: int|
        0 <= j < bound && j < kinds.len() && #[trigger] kinds[j] != DiffRowKind::Equal && j
            - context <= i <= j + context
}

/// Which logical rows are shown: all of them unless unchanged rows are
/// collapsed and there are hunks; else the rows within `context_lines` of a
/// change, and the revealed rows.
pub open spec fn spec_visible(model: DiffRowModel, options: CompareDisplayOptions) -> Seq<bool> {
    visible_with(
        model,
        options.collapse_unchanged,
        options.context_lines as int,
        options.revealed_rows@,
    )
}

/// `spec_visible` with the options given as plain values.
pub open spec fn visible_with(model: DiffRowModel, collapse_unchanged: bool, context: int, revealed: Set<usize>) -> Seq<bool> {
    let kinds = kinds_of(model.rows@);
    Seq::new(
        model.rows@.len(),
        |i: int|
            !collapse_unchanged || model.hunks@.len() == 0 || near_change(
                kinds,
                kinds.len() as int,
                i,
                context,
            ) || revealed.contains(i as usize),
    )
}

/// `n` copies of `value`.
fn filled(n: usize, value: bool) -> (v: Vec<bool>)
    ensures
        v@ == Seq::new(n as nat, |i: int| value),
{
    let mut v: Vec<bool> = Vec::new();
    let mut i: usize = 0;
    while i < n
        invariant
            i <= n,
            v@ == Seq::new(i as nat, |k: int| value),
        decreases n - i,
    {
        v.push(value);
        i += 1;
        assert(v@ =~= Seq::new(i as nat, |k: int| value));
    }
    v
}

/// Which logical rows of `model` are shown (see `spec_visible`).
pub fn visible_rows(model: &DiffRowModel, options: &CompareDisplayOptions) -> (visible: Vec<bool>)
    requires
        model.rows@.len() + options.context_lines <= usize::MAX,
    ensures
        visible@ == spec_visible(*model, *options),
{
    let n = model.rows.len();
    let ghost kinds = kinds_of(model.rows@);
    if !options.collapse_unchanged || model.hunks.len() == 0 {
        let visible = filled(n, true);
        assert(visible@ =~= spec_visible(*model, *options));
        return visible;
    }
    let context = options.context_lines;
    let mut visible = filled(n, false);
    let mut row_index: usize = 0;
    while row_index < n
        invariant
            n == model.rows@.len(),
            kinds == kinds_of(model.rows@),
            context == options.context_lines,
            n + context <= usize::MAX,
            row_index <= n,
            visible@.len() == n,
            forall|i: int|
                0 <= i < n ==> #[trigger] visible@[i] == near_change(
                    kinds,
                    row_index as int,
                    i,
                    context as int,
                ),
        decreases n - row_index,
    {
        if model.rows[row_index].kind != DiffRowKind::Equal {
            let start = row_index.saturating_sub(context);
            let end = if row_index + context + 1 < n {
                row_index + context + 1
            } else {
                n
            };
            let mut slot: usize = start;
            while slot < end
                invariant
                    n == model.rows@.len(),
                    kinds == kinds_of(model.rows@),
                    row_index < n,
                    kinds[row_index as int] != DiffRowKind::Equal,
                    start == if row_index >= context {
                        row_index - context
                    } else {
                        0
                    },
                    end <= n,
                    start <= slot,
                    slot <= end || start > end,
                    end == if row_index + context + 1 < n {
                        row_index + context + 1
                    } else {
                        n as int
                    },
                    visible@.len() == n,
                    forall|i: int|
                        0 <= i < n ==> #[trigger] visible@[i] == (near_change(
                            kinds,
                            row_index as int,
                            i,
                            context as int,
                        ) || (start <= i < slot)),
                decreases end - slot,
            {
                visible.set(slot, true);
                slot += 1;
            }
            proof {
                assert forall|i: int| 0 <= i < n implies #[trigger] visible@[i] == near_change(
                    kinds,
                    row_index + 1,
                    i,
                    context as int,
                ) by {
                    if start <= i < end {
                        assert(kinds[row_index as int] != DiffRowKind::Equal);
                    } else if near_change(kinds, row_index + 1, i, context as int) {
                        let j = choose|j: int|
                            0 <= j < row_index + 1 && j < kinds.len() && #[trigger] kinds[j]
                                != DiffRowKind::Equal && j - context <= i <= j + context;
                        assert(j != row_index);
                    }
                }
            }
        } else {
            proof {
                assert forall|i: int| 0 <= i < n implies #[trigger] visible@[i] == near_change(
                    kinds,
                    row_index + 1,
                    i,
                    context as int,
                ) by {
                    if near_change(kinds, row_index + 1, i, context as int) {
                        let j = choose|j: int|
                            0 <= j < row_index + 1 && j < kinds.len() && #[trigger] kinds[j]
                                != DiffRowKind::Equal && j - context <= i <= j + context;
                        assert(j != row_index);
                    }
                }
            }
        }
        row_index += 1;
    }
    let mut row: usize = 0;
    while row < n
        invariant
            n == model.rows@.len(),
            kinds == kinds_of(model.rows@),
            context == options.context_lines,
            options.collapse_unchanged,
            model.hunks@.len() != 0,
            row <= n,
            visible@.len() == n,
            forall|i: int|
                0 <= i < n ==> #[trigger] visible@[i] == (near_change(
                    kinds,
                    n as int,
                    i,
                    context as int,
                ) || (i < row && options.revealed_rows@.contains(i as usize))),
        decreases n - row,
    {
        if holds_row(&options.revealed_rows, row) {
            visible.set(row, true);
        }
        row += 1;
    }
    assert(visible@ =~= spec_visible(*model, *options));
    visible
}

// ---------------------------------------------------------------------------
// Row texts
// ---------------------------------------------------------------------------

/// A character that would break a buffer line, replaced by one of the same
/// UTF-8 width: `\r` by a space, the line and paragraph separators by U+FFFD.
pub open spec fn display_char(ch: char) -> char {
    if ch == '\r' {
        ' '
    } else if ch == '\u{2028}' || ch == '\u{2029}' {
        '\u{FFFD}'
    } else {
        ch
    }
}

pub open spec fn spec_sanitize(text: Seq<char>) -> Seq<char> {
    Seq::new(text.len(), |i: int| display_char(text[i]))
}

/// The text with every `\r`, U+2028 and U+2029 replaced (see `display_char`),
/// so that it stays one line of a text buffer.
pub fn sanitize_display_line(text: &str) -> (r: String)
    ensures
        r@ == spec_sanitize(text@),
{
    let chars = chars_of(text);
    let mut out: Vec<char> = Vec::new();
    let mut i: usize = 0;
    while i < chars.len()
        invariant
            chars@ == text@,
            i <= chars@.len(),
            out@ == spec_sanitize(chars@.take(i as int)),
        decreases chars@.len() - i,
    {
        let ch = chars[i];
        let shown = if ch == '\r' {
            ' '
        } else if ch == '\u{2028}' || ch == '\u{2029}' {
            '\u{FFFD}'
        } else {
            ch
        };
        out.push(shown);
        i += 1;
        assert(out@ =~= spec_sanitize(chars@.take(i as int)));
    }
    assert(chars@.take(i as int) =~= chars@);
    string_from_chars(&out)
}

/// The text shown for `line` of `lines`: none without a line; else the line
/// without its line ending (nothing past the end of `lines`), sanitized.
pub open spec fn spec_line_text(lines: Seq<Seq<char>>, line: Option<usize>) -> Option<Seq<char>> {
    match line {
        None => None,
        Some(l) => Some(
            spec_sanitize(
                if l < lines.len() {
                    spec_strip_newline(lines[l as int])
                } else {
                    Seq::empty()
                },
            ),
        ),
    }
}

pub open spec fn text_view(text: Option<String>) -> Option<Seq<char>> {
    match text {
        Some(t) => Some(t@),
        None => None,
    }
}

/// The text shown for `line` of `lines` (see `spec_line_text`).
pub fn line_text(lines: &[&str], line: Option<usize>) -> (text: Option<String>)
    ensures
        text_view(text) == spec_line_text(str_views(lines@), line),
{
    let line = match line {
        Some(line) => line,
        None => return None,
    };
    proof {
        reveal_strlit("");
    }
    let text: &str = if line < lines.len() {
        strip_line_ending(lines[line])
    } else {
        ""
    };
    Some(sanitize_display_line(text))
}

/// The message of the label of a collapsed run of `hidden_count` rows: "N
/// unchanged lines hidden", its form selected by `hidden_count`.
pub fn hidden_message(hidden_count: usize) -> (message: Message)
    ensures
        message.wf(),
        message@ == plural_message(
            None,
            "%d unchanged line hidden"@,
            "%d unchanged lines hidden"@,
            spec_plural_count(hidden_count),
        ),
{
    proof {
        reveal_strlit("%d unchanged line hidden");
        reveal_strlit("%d unchanged lines hidden");
    }
    Message {
        context: None,
        msgid: "%d unchanged line hidden",
        plural: Some("%d unchanged lines hidden"),
        count: plural_count(hidden_count),
    }
}

/// The label of a collapsed run of `hidden_count` rows: `hidden_message`
/// translated, with the count filled in by `format_count`. The template
/// depends on the locale.
pub fn hidden_label(hidden_count: usize) -> (label: String)
    ensures
        exists|template: Seq<char>| label@ == spec_format_count(template, hidden_count as nat),
{
    let template = translate(&hidden_message(hidden_count));
    let label = format_count(template.as_str(), hidden_count);
    assert(label@ == spec_format_count(template@, hidden_count as nat));
    label
}

// ---------------------------------------------------------------------------
// Building the display model
// ---------------------------------------------------------------------------

/// End of the run of hidden rows that starts at `i`.
pub open spec fn hidden_run_end(visible: Seq<bool>, i: int) -> int
    decreases visible.len() - i,
{
    if 0 <= i < visible.len() && !visible[i] {
        hidden_run_end(visible, i + 1)
    } else {
        i
    }
}

pub proof fn lemma_hidden_run_end(visible: Seq<bool>, i: int)
    requires
        0 <= i <= visible.len(),
    ensures
        i <= hidden_run_end(visible, i) <= visible.len(),
        forall|k: int| i <= k < hidden_run_end(visible, i) ==> !#[trigger] visible[k],
        hidden_run_end(visible, i) < visible.len() ==> visible[hidden_run_end(visible, i)],
    decreases visible.len() - i,
{
    if i < visible.len() && !visible[i] {
        lemma_hidden_run_end(visible, i + 1);
    }
}

/// The display rows from logical row `i` on, as `(shown, start, end)`: each
/// visible row `(true, i, i + 1)` on its own, each maximal run of hidden rows
/// as one collapsed row `(false, start, end)`.
pub open spec fn display_spans(visible: Seq<bool>, i: int) -> Seq<(bool, int, int)>
    decreases visible.len() - i,
{
    if i < 0 || i >= visible.len() {
        Seq::empty()
    } else if visible[i] {
        seq![(true, i, i + 1)] + display_spans(visible, i + 1)
    } else {
        let end = hidden_run_end(visible, i);
        proof {
            lemma_hidden_run_end(visible, i + 1);
        }
        seq![(false, i, end)] + display_spans(visible, end)
    }
}

/// `row` shows logical row `i` of `rows`, of the file `file_id`.
pub open spec fn shows_row(
    row: DisplayContentRow,
    file_id: Option<(ReviewKind, Seq<u8>)>,
    rows: Seq<DiffRow>,
    reference: Seq<Seq<char>>,
    current: Seq<Seq<char>>,
    i: int,
) -> bool {
    &&& row.id@ == (file_id, DisplayRowIdKind::Logical { row: i as usize })
    &&& row.logical_row == i
    &&& row.kind == rows[i].kind
    &&& row.reference_line == presented_number(rows[i].reference_line)
    &&& row.current_line == presented_number(rows[i].current_line)
    &&& text_view(row.reference_text) == spec_line_text(reference, rows[i].reference_line)
    &&& text_view(row.current_text) == spec_line_text(current, rows[i].current_line)
    &&& row.inline_ranges@ == rows[i].inline_ranges@
}

/// `row` collapses the logical rows `start..end` of the file `file_id`, and
/// its label counts them in a translated template.
pub open spec fn collapses_rows(
    row: DisplayCollapsedRow,
    file_id: Option<(ReviewKind, Seq<u8>)>,
    start: int,
    end: int,
) -> bool {
    &&& row.id@ == (
        file_id,
        DisplayRowIdKind::Collapsed { hidden_start: start as usize, hidden_end: end as usize },
    )
    &&& row.hidden_start == start
    &&& row.hidden_end == end
    &&& row.hidden_count == end - start
    &&& exists|template: Seq<char>| row.label@ == spec_format_count(template, row.hidden_count as nat)
}

/// `row` is the display row of `span` (see `display_spans`).
pub open spec fn displays_span(
    row: CompareDisplayRow,
    span: (bool, int, int),
    file_id: Option<(ReviewKind, Seq<u8>)>,
    rows: Seq<DiffRow>,
    reference: Seq<Seq<char>>,
    current: Seq<Seq<char>>,
) -> bool {
    if span.0 {
        row matches CompareDisplayRow::Content(c) && shows_row(c, file_id, rows, reference, current, span.1)
    } else {
        row matches CompareDisplayRow::Collapsed(c) && collapses_rows(c, file_id, span.1, span.2)
    }
}

/// `display` shows `spans`, and maps each logical row to the display row
/// that shows it alone, if one does.
pub open spec fn displays(
    display: CompareDisplayModel,
    spans: Seq<(bool, int, int)>,
    n: nat,
    file_id: Option<(ReviewKind, Seq<u8>)>,
    rows: Seq<DiffRow>,
    reference: Seq<Seq<char>>,
    current: Seq<Seq<char>>,
) -> bool {
    &&& display.rows@.len() == spans.len()
    &&& forall|k: int|
        0 <= k < spans.len() ==> #[trigger] displays_span(
            display.rows@[k],
            spans[k],
            file_id,
            rows,
            reference,
            current,
        )
    &&& display.logical_to_display@.len() == n
    &&& forall|i: int|
        0 <= i < n ==> match #[trigger] display.logical_to_display@[i] {
            Some(k) => k < spans.len() && spans[k as int] == (true, i, i + 1),
            None => !spans.contains((true, i, i + 1)),
        }
}

/// The display row of logical row `row`.
pub fn content_row(
    file_id: Option<&ReviewFileId>,
    model: &DiffRowModel,
    reference_lines: &[&str],
    current_lines: &[&str],
    logical_row: usize,
) -> (row: DisplayContentRow)
    requires
        logical_row < model.rows@.len(),
        numbered_lines(model.rows@),
    ensures
        shows_row(
            row,
            match file_id {
                Some(f) => Some(f@),
                None => None,
            },
            model.rows@,
            str_views(reference_lines@),
            str_views(current_lines@),
            logical_row as int,
        ),
{
    let source = &model.rows[logical_row];
    proof {
        assert(numbered_lines(model.rows@));
        assert(model.rows@[logical_row as int].reference_line matches Some(l) ==> l < usize::MAX);
    }
    let reference_line = match source.reference_line {
        Some(line) => Some(line + 1),
        None => None,
    };
    let current_line = match source.current_line {
        Some(line) => Some(line + 1),
        None => None,
    };
    let mut inline_ranges: Vec<InlineRange> = Vec::new();
    let mut i: usize = 0;
    while i < source.inline_ranges.len()
        invariant
            i <= source.inline_ranges@.len(),
            inline_ranges@ == source.inline_ranges@.take(i as int),
        decreases source.inline_ranges@.len() - i,
    {
        inline_ranges.push(source.inline_ranges[i]);
        i += 1;
        assert(inline_ranges@ =~= source.inline_ranges@.take(i as int));
    }
    assert(inline_ranges@ =~= source.inline_ranges@);
    DisplayContentRow {
        id: row_id(file_id, DisplayRowIdKind::Logical { row: logical_row }),
        logical_row,
        kind: source.kind,
        reference_line,
        current_line,
        reference_text: line_text(reference_lines, source.reference_line),
        current_text: line_text(current_lines, source.current_line),
        inline_ranges,
    }
}

/// The collapsed row of the hidden logical rows `hidden_start..hidden_end`.
pub fn collapsed_row(file_id: Option<&ReviewFileId>, hidden_start: usize, hidden_end: usize) -> (row:
    DisplayCollapsedRow)
    requires
        hidden_start <= hidden_end,
    ensures
        collapses_rows(
            row,
            match file_id {
                Some(f) => Some(f@),
                None => None,
            },
            hidden_start as int,
            hidden_end as int,
        ),
{
    let hidden_count = hidden_end - hidden_start;
    DisplayCollapsedRow {
        id: row_id(file_id, DisplayRowIdKind::Collapsed { hidden_start, hidden_end }),
        hidden_start,
        hidden_end,
        hidden_count,
        label: hidden_label(hidden_count),
    }
}

/// `n` entries of `None`.
fn nones(n: usize) -> (v: Vec<Option<usize>>)
    ensures
        v@ == Seq::new(n as nat, |i: int| None::<usize>),
{
    let mut v: Vec<Option<usize>> = Vec::new();
    let mut i: usize = 0;
    while i < n
        invariant
            i <= n,
            v@ == Seq::new(i as nat, |k: int| None::<usize>),
        decreases n - i,
    {
        v.push(None);
        i += 1;
        assert(v@ =~= Seq::new(i as nat, |k: int| None::<usize>));
    }
    v
}

/// The first row at or after `start` that is visible, or the end.
fn hidden_end_from(visible: &Vec<bool>, start: usize) -> (end: usize)
    requires
        start <= visible@.len(),
    ensures
        end == hidden_run_end(visible@, start as int),
{
    let mut end = start;
    while end < visible.len() && !visible[end]
        invariant
            start <= end <= visible@.len(),
            hidden_run_end(visible@, start as int) == hidden_run_end(visible@, end as int),
        decreases visible@.len() - end,
    {
        end += 1;
    }
    end
}

/// Builds the display model of `model` under `options`: nothing for a model
/// too large to compare; else one content row per visible logical row and one
/// collapsed row per run of hidden ones, in order (see `display_spans`), and
/// for each logical row the index of the row that shows it.
pub fn build_display_model(
    file_id: Option<&ReviewFileId>,
    model: &DiffRowModel,
    reference_lines: &[&str],
    current_lines: &[&str],
    options: &CompareDisplayOptions,
) -> (display: CompareDisplayModel)
    requires
        model.rows@.len() + options.context_lines <= usize::MAX,
        numbered_lines(model.rows@),
    ensures
        model.too_large ==> display.rows@.len() == 0 && display.logical_to_display@.len() == 0,
        !model.too_large ==> displays(
            display,
            display_spans(spec_visible(*model, *options), 0),
            model.rows@.len(),
            match file_id {
                Some(f) => Some(f@),
                None => None,
            },
            model.rows@,
            str_views(reference_lines@),
            str_views(current_lines@),
        ),
{
    if model.too_large {
        return CompareDisplayModel { rows: Vec::new(), logical_to_display: Vec::new() };
    }
    let visible = visible_rows(model, options);
    let n = model.rows.len();
    let ghost fid = match file_id {
        Some(f) => Some(f@),
        None => None,
    };
    let ghost reference = str_views(reference_lines@);
    let ghost current = str_views(current_lines@);
    let ghost all = display_spans(visible@, 0);
    let ghost mut done: Seq<(bool, int, int)> = Seq::empty();
    let mut rows: Vec<CompareDisplayRow> = Vec::new();
    let mut logical_to_display = nones(n);
    let mut row_index: usize = 0;
    while row_index < n
        invariant
            n == model.rows@.len(),
            visible@.len() == n,
            numbered_lines(model.rows@),
            fid == match file_id {
                Some(f) => Some(f@),
                None => None,
            },
            reference == str_views(reference_lines@),
            current == str_views(current_lines@),
            all == display_spans(visible@, 0),
            row_index <= n,
            done + display_spans(visible@, row_index as int) == all,
            rows@.len() == done.len(),
            forall|k: int|
                0 <= k < done.len() ==> #[trigger] displays_span(
                    rows@[k],
                    done[k],
                    fid,
                    model.rows@,
                    reference,
                    current,
                ),
            forall|k: int| 0 <= k < done.len() ==> #[trigger] done[k].2 <= row_index,
            logical_to_display@.len() == n,
            forall|i: int|
                0 <= i < row_index ==> match #[trigger] logical_to_display@[i] {
                    Some(k) => k < done.len() && done[k as int] == (true, i, i + 1),
                    None => !done.contains((true, i, i + 1)),
                },
            forall|i: int| row_index <= i < n ==> #[trigger] logical_to_display@[i] is None,
        decreases n - row_index,
    {
        let ghost before = done;
        if visible[row_index] {
            let display_index = rows.len();
            logical_to_display.set(row_index, Some(display_index));
            let row = content_row(file_id, model, reference_lines, current_lines, row_index);
            rows.push(CompareDisplayRow::Content(row));
            proof {
                let span = (true, row_index as int, row_index + 1);
                done = before.push(span);
                assert(display_spans(visible@, row_index as int) == seq![span] + display_spans(
                    visible@,
                    row_index + 1,
                ));
                assert(done + display_spans(visible@, row_index + 1) =~= before + display_spans(
                    visible@,
                    row_index as int,
                ));
                assert forall|k: int| 0 <= k < done.len() implies #[trigger] displays_span(
                    rows@[k],
                    done[k],
                    fid,
                    model.rows@,
                    reference,
                    current,
                ) by {
                }
                assert forall|i: int| 0 <= i < row_index + 1 implies match #[trigger] logical_to_display@[i] {
                    Some(k) => k < done.len() && done[k as int] == (true, i, i + 1),
                    None => !done.contains((true, i, i + 1)),
                } by {
                    if i < row_index && logical_to_display@[i] is None {
                        if done.contains((true, i, i + 1)) {
                            let k = choose|k: int| 0 <= k < done.len() && done[k] == (true, i, i + 1);
                            if k < before.len() {
                                assert(before[k] == done[k]);
                            }
                        }
                    }
                }
            }
            row_index += 1;
        } else {
            proof {
                lemma_hidden_run_end(visible@, row_index as int);
            }
            let hidden_start = row_index;
            row_index = hidden_end_from(&visible, hidden_start);
            let row = collapsed_row(file_id, hidden_start, row_index);
            rows.push(CompareDisplayRow::Collapsed(row));
            proof {
                let span = (false, hidden_start as int, row_index as int);
                done = before.push(span);
                assert(display_spans(visible@, hidden_start as int) == seq![span] + display_spans(
                    visible@,
                    row_index as int,
                ));
                assert(done + display_spans(visible@, row_index as int) =~= before + display_spans(
                    visible@,
                    hidden_start as int,
                ));
                assert forall|k: int| 0 <= k < done.len() implies #[trigger] displays_span(
                    rows@[k],
                    done[k],
                    fid,
                    model.rows@,
                    reference,
                    current,
                ) by {
                }
                assert forall|i: int| 0 <= i < row_index implies match #[trigger] logical_to_display@[i] {
                    Some(k) => k < done.len() && done[k as int] == (true, i, i + 1),
                    None => !done.contains((true, i, i + 1)),
                } by {
                    if logical_to_display@[i] is None {
                        if done.contains((true, i, i + 1)) {
                            let k = choose|k: int| 0 <= k < done.len() && done[k] == (true, i, i + 1);
                            if k < before.len() {
                                assert(before[k] == done[k]);
                                assert(before[k].2 <= hidden_start);
                            }
                        }
                    }
                }
            }
        }
    }
    proof {
        assert(display_spans(visible@, row_index as int) =~= Seq::<(bool, int, int)>::empty());
        assert(done =~= all);
        assert(visible@ == spec_visible(*model, *options));
    }
    CompareDisplayModel { rows, logical_to_display }
}

/// The display model a compare view shows for `model` of `reference_text`
/// and `current_text` under the review settings and the revealed rows: the
/// texts sliced into lines as the diff slices them, unchanged rows collapsed
/// as the settings say (with `context_for_display` rows of context).
pub fn display_for_model(
    model: &DiffRowModel,
    reference_text: &str,
    current_text: &str,
    settings: &CompareReviewSettingsSnapshot,
    revealed_rows: &BTreeSet<usize>,
) -> (display: CompareDisplayModel)
    requires
        model.rows@.len() + 10 <= usize::MAX,
        numbered_lines(model.rows@),
    ensures
        model.too_large ==> display.rows@.len() == 0 && display.logical_to_display@.len() == 0,
        !model.too_large ==> displays(
            display,
            display_spans(
                visible_with(
                    *model,
                    settings.collapse_unchanged,
                    review_context(settings.context_lines),
                    revealed_rows@,
                ),
                0,
            ),
            model.rows@.len(),
            None,
            model.rows@,
            spec_line_slices(reference_text@),
            spec_line_slices(current_text@),
        ),
{
    let reference_lines = line_slices(reference_text);
    let current_lines = line_slices(current_text);
    let options = CompareDisplayOptions {
        collapse_unchanged: settings.collapse_unchanged,
        context_lines: context_for_display(settings.context_lines),
        revealed_rows: revealed_rows.clone(),
    };
    build_display_model(None, model, reference_lines.as_slice(), current_lines.as_slice(), &options)
}

impl CompareDisplayModel {
    /// A model without rows.
    pub fn empty() -> (display: Self)
        ensures
            display.rows@.len() == 0,
            display.logical_to_display@.len() == 0,
    {
        CompareDisplayModel { rows: Vec::new(), logical_to_display: Vec::new() }
    }

    /// Number of display rows.
    pub fn visible_row_count(&self) -> (n: usize)
        ensures
            n == self.rows@.len(),
    {
        self.rows.len()
    }

    /// The display row that shows logical row `row` alone, if any.
    pub fn row_for_logical(&self, row: usize) -> (display_row: Option<usize>)
        ensures
            display_row == crate::presentation::entry(self.logical_to_display@, row as int),
    {
        if row < self.logical_to_display.len() {
            self.logical_to_display[row]
        } else {
            None
        }
    }

    /// The logical row display row `row` stands for: the row it shows, or the
    /// first row it collapses; none for other rows and past the end.
    pub fn logical_row_for_display(&self, row: usize) -> (logical: Option<usize>)
        ensures
            logical == spec_logical_row_for_display(self.rows@, row as int),
    {
        if row >= self.rows.len() {
            return None;
        }
        match &self.rows[row] {
            CompareDisplayRow::Content(c) => Some(c.logical_row),
            CompareDisplayRow::Collapsed(c) => Some(c.hidden_start),
            CompareDisplayRow::FileBoundary(_) => None,
            CompareDisplayRow::SkippedMarker(_) => None,
        }
    }

    /// The current-side texts of the content rows, one per line.
    pub fn current_text_projection(&self) -> (text: String)
        ensures
            text@ == spec_join(current_texts(self.rows@), newline()),
    {
        let mut texts: Vec<String> = Vec::new();
        let mut i: usize = 0;
        while i < self.rows.len()
            invariant
                i <= self.rows@.len(),
                string_views(texts@) == current_texts(self.rows@.take(i as int)),
            decreases self.rows@.len() - i,
        {
            proof {
                assert(self.rows@.take(i + 1).drop_last() =~= self.rows@.take(i as int));
            }
            let ghost before = texts@;
            match &self.rows[i] {
                CompareDisplayRow::Content(c) => match &c.current_text {
                    Some(t) => {
                        texts.push(t.clone());
                        assert(string_views(texts@) =~= string_views(before).push(t@));
                    },
                    None => {},
                },
                _ => {},
            }
            i += 1;
        }
        assert(self.rows@.take(i as int) =~= self.rows@);
        join_lines(&texts)
    }
}

/// The logical row display row `row` of `rows` stands for: the row it shows,
/// or the first row it collapses; none for other rows and past the end.
pub open spec fn spec_logical_row_for_display(rows: Seq<CompareDisplayRow>, row: int) -> Option<usize> {
    if 0 <= row < rows.len() {
        match rows[row] {
            CompareDisplayRow::Content(c) => Some(c.logical_row),
            CompareDisplayRow::Collapsed(c) => Some(c.hidden_start),
            _ => None,
        }
    } else {
        None
    }
}

/// The current-side texts of the content rows that have one, in order.
pub open spec fn current_texts(rows: Seq<CompareDisplayRow>) -> Seq<Seq<char>>
    decreases rows.len(),
{
    if rows.len() == 0 {
        Seq::empty()
    } else {
        let prev = current_texts(rows.drop_last());
        match rows.last() {
            CompareDisplayRow::Content(c) => match c.current_text {
                Some(t) => prev.push(t@),
                None => prev,
            },
            _ => prev,
        }
    }
}

// ---------------------------------------------------------------------------
// Laws
// ---------------------------------------------------------------------------

/// Collapsing never drops or reorders logical rows: the display spans from
/// row `i` on are contiguous, start at `i` and end at the last row; a shown
/// span is one visible row, a collapsed span a run of hidden rows.
pub proof fn lemma_display_spans_partition(visible: Seq<bool>, i: int)
    requires
        0 <= i <= visible.len(),
    ensures
        (display_spans(visible, i).len() == 0) == (i == visible.len()),
        display_spans(visible, i).len() > 0 ==> display_spans(visible, i)[0].1 == i
            && display_spans(visible, i).last().2 == visible.len(),
        forall|k: int|
            0 <= k < display_spans(visible, i).len() - 1 ==> #[trigger] display_spans(visible, i)[k].2
                == display_spans(visible, i)[k + 1].1,
        forall|k: int|
            #![trigger display_spans(visible, i)[k]]
            0 <= k < display_spans(visible, i).len() ==> {
                let span = display_spans(visible, i)[k];
                &&& i <= span.1 < span.2 <= visible.len()
                &&& span.0 ==> span.2 == span.1 + 1 && visible[span.1]
                &&& !span.0 ==> forall|t: int| span.1 <= t < span.2 ==> !#[trigger] visible[t]
            },
    decreases visible.len() - i,
{
    let s = display_spans(visible, i);
    if i < visible.len() {
        if visible[i] {
            lemma_display_spans_partition(visible, i + 1);
            let rest = display_spans(visible, i + 1);
            assert(s == seq![(true, i, i + 1)] + rest);
            assert forall|k: int| 0 <= k < s.len() - 1 implies #[trigger] s[k].2 == s[k + 1].1 by {
                assert(s[k + 1] == rest[k]);
                if k > 0 {
                    assert(s[k] == rest[k - 1]);
                }
            }
            assert forall|k: int|
                #![trigger s[k]]
                0 <= k < s.len() implies {
                    let span = s[k];
                    &&& i <= span.1 < span.2 <= visible.len()
                    &&& span.0 ==> span.2 == span.1 + 1 && visible[span.1]
                    &&& !span.0 ==> forall|t: int| span.1 <= t < span.2 ==> !#[trigger] visible[t]
                } by {
                if k > 0 {
                    assert(s[k] == rest[k - 1]);
                }
            }
        } else {
            lemma_hidden_run_end(visible, i);
            lemma_hidden_run_end(visible, i + 1);
            let end = hidden_run_end(visible, i);
            lemma_display_spans_partition(visible, end);
            let rest = display_spans(visible, end);
            assert(s == seq![(false, i, end)] + rest);
            assert forall|k: int| 0 <= k < s.len() - 1 implies #[trigger] s[k].2 == s[k + 1].1 by {
                assert(s[k + 1] == rest[k]);
                if k > 0 {
                    assert(s[k] == rest[k - 1]);
                }
            }
            assert forall|k: int|
                #![trigger s[k]]
                0 <= k < s.len() implies {
                    let span = s[k];
                    &&& i <= span.1 < span.2 <= visible.len()
                    &&& span.0 ==> span.2 == span.1 + 1 && visible[span.1]
                    &&& !span.0 ==> forall|t: int| span.1 <= t < span.2 ==> !#[trigger] visible[t]
                } by {
                if k > 0 {
                    assert(s[k] == rest[k - 1]);
                }
            }
        }
    }
}

/// Every visible row from row `i` on is shown by a span of its own.
pub proof fn lemma_visible_row_has_span(visible: Seq<bool>, i: int, row: int)
    requires
        0 <= i <= row < visible.len(),
        visible[row],
    ensures
        display_spans(visible, i).contains((true, row, row + 1)),
    decreases visible.len() - i,
{
    let s = display_spans(visible, i);
    if visible[i] {
        let rest = display_spans(visible, i + 1);
        assert(s == seq![(true, i, i + 1)] + rest);
        if row == i {
            assert(s[0] == (true, row, row + 1));
        } else {
            lemma_visible_row_has_span(visible, i + 1, row);
            let k = choose|k: int| 0 <= k < rest.len() && rest[k] == (true, row, row + 1);
            assert(s[k + 1] == rest[k]);
        }
    } else {
        lemma_hidden_run_end(visible, i);
        lemma_hidden_run_end(visible, i + 1);
        let end = hidden_run_end(visible, i);
        let rest = display_spans(visible, end);
        assert(s == seq![(false, i, end)] + rest);
        assert(end <= row);
        lemma_visible_row_has_span(visible, end, row);
        let k = choose|k: int| 0 <= k < rest.len() && rest[k] == (true, row, row + 1);
        assert(s[k + 1] == rest[k]);
    }
}

/// Every logical row the options show (those near a change, the revealed
/// ones, or all of them when nothing is collapsed) has a display row, which
/// the logical-to-display map finds and which shows that row.
pub proof fn lemma_shown_rows_are_found(
    display: CompareDisplayModel,
    model: DiffRowModel,
    options: CompareDisplayOptions,
    file_id: Option<(ReviewKind, Seq<u8>)>,
    reference: Seq<Seq<char>>,
    current: Seq<Seq<char>>,
    row: int,
)
    requires
        displays(
            display,
            display_spans(spec_visible(model, options), 0),
            model.rows@.len(),
            file_id,
            model.rows@,
            reference,
            current,
        ),
        0 <= row < model.rows@.len(),
        spec_visible(model, options)[row],
    ensures
        display.logical_to_display@[row] matches Some(k) && k < display.rows@.len() && (
        display.rows@[k as int] matches CompareDisplayRow::Content(c) && c.logical_row == row
            && c.kind == model.rows@[row].kind),
{
    let visible = spec_visible(model, options);
    let spans = display_spans(visible, 0);
    lemma_visible_row_has_span(visible, 0, row);
    assert(display.logical_to_display@[row] is Some);
    let k = display.logical_to_display@[row]->0;
    assert(displays_span(display.rows@[k as int], spans[k as int], file_id, model.rows@, reference, current));
}

/// Rows the user revealed stay visible, however the rest is collapsed.
pub proof fn lemma_revealed_rows_are_visible(model: DiffRowModel, options: CompareDisplayOptions, row: int)
    requires
        0 <= row < model.rows@.len(),
        options.revealed_rows@.contains(row as usize),
    ensures
        spec_visible(model, options)[row],
{
}

/// Rows within `context_lines` of a change stay visible.
pub proof fn lemma_context_rows_are_visible(
    model: DiffRowModel,
    options: CompareDisplayOptions,
    changed: int,
    row: int,
)
    requires
        0 <= row < model.rows@.len(),
        0 <= changed < model.rows@.len(),
        model.rows@[changed].kind != DiffRowKind::Equal,
        changed - options.context_lines <= row <= changed + options.context_lines,
    ensures
        spec_visible(model, options)[row],
{
    assert(kinds_of(model.rows@)[changed] != DiffRowKind::Equal);
}

/// Without collapsing, every logical row is shown on its own, in order.
pub proof fn lemma_expanded_display_shows_every_row(model: DiffRowModel, options: CompareDisplayOptions)
    requires
        !options.collapse_unchanged,
    ensures
        display_spans(spec_visible(model, options), 0) == Seq::new(
            model.rows@.len(),
            |i: int| (true, i, i + 1),
        ),
{
    let visible = spec_visible(model, options);
    let n = model.rows@.len();
    lemma_all_visible_spans(visible, 0);
    assert(display_spans(visible, 0) =~= Seq::new(n, |i: int| (true, i, i + 1)));
}

proof fn lemma_all_visible_spans(visible: Seq<bool>, i: int)
    requires
        0 <= i <= visible.len(),
        forall|t: int| 0 <= t < visible.len() ==> #[trigger] visible[t],
    ensures
        display_spans(visible, i) =~= Seq::new((visible.len() - i) as nat, |k: int| (true, i + k, i + k + 1)),
    decreases visible.len() - i,
{
    if i < visible.len() {
        lemma_all_visible_spans(visible, i + 1);
        let rest = display_spans(visible, i + 1);
        assert(display_spans(visible, i) == seq![(true, i, i + 1)] + rest);
    }
}

} // verus!
