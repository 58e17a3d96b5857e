//! The side-by-side presentation of a display model: one buffer line per
//! display row on each side, collapsed rows as labels on both sides.
use vstd::prelude::*;

use crate::display::{CompareDisplayModel, CompareDisplayRow, DisplayContentRow};
use crate::model::DiffRowKind;
use crate::presentation::{
    DiffPresentation, PlaceholderMarker, PresentationSide, marker_text, push_placeholder,
};
use crate::text::{join_lines, newline, spec_join, string_views};

verus! {

// ---------------------------------------------------------------------------
// What the presentation of a display model holds
// ---------------------------------------------------------------------------

/// The kind of a content row; none for the other rows.
pub open spec fn content_kind(row: CompareDisplayRow) -> Option<DiffRowKind> {
    match row {
        CompareDisplayRow::Content(c) => Some(c.kind),
        _ => None,
    }
}

pub open spec fn display_kinds(rows: Seq<CompareDisplayRow>) -> Seq<Option<DiffRowKind>> {
    Seq::new(rows.len(), |i: int| content_kind(rows[i]))
}

/// Length of the run of content rows of `kind` that starts at row `i`.
pub open spec fn run_from(kinds: Seq<Option<DiffRowKind>>, i: int, kind: DiffRowKind) -> nat
    decreases kinds.len() - i,
{
    if 0 <= i < kinds.len() && kinds[i] == Some(kind) {
        1 + run_from(kinds, i + 1, kind)
    } else {
        0
    }
}

/// Row `i` is the first row or differs in kind from the row before it.
pub open spec fn display_starts_run(kinds: Seq<Option<DiffRowKind>>, i: int) -> bool {
    i == 0 || kinds[i - 1] != kinds[i]
}

/// The marker of row `i`: the first row of a run of one-sided content rows
/// carries one, on the side without lines, with the run's length.
pub open spec fn display_marker(kinds: Seq<Option<DiffRowKind>>, i: int) -> Option<PlaceholderMarker> {
    if kinds[i] == Some(DiffRowKind::ReferenceOnly) && display_starts_run(kinds, i) {
        Some(
            PlaceholderMarker {
                side: PresentationSide::Current,
                run_len: run_from(kinds, i, DiffRowKind::ReferenceOnly) as usize,
            },
        )
    } else if kinds[i] == Some(DiffRowKind::CurrentOnly) && display_starts_run(kinds, i) {
        Some(
            PlaceholderMarker {
                side: PresentationSide::Reference,
                run_len: run_from(kinds, i, DiffRowKind::CurrentOnly) as usize,
            },
        )
    } else {
        None
    }
}

/// Row `i` carries a marker label on `side`.
pub open spec fn display_labelled_on(kinds: Seq<Option<DiffRowKind>>, i: int, side: PresentationSide) -> bool {
    display_marker(kinds, i) matches Some(m) && m.side == side
}

/// The number the reference side shows on row `i`: the content row's
/// reference line unless the row exists only in the current file.
pub open spec fn reference_number_of(rows: Seq<CompareDisplayRow>, i: int) -> Option<usize> {
    match rows[i] {
        CompareDisplayRow::Content(c) => if c.kind == DiffRowKind::CurrentOnly {
            None
        } else {
            c.reference_line
        },
        _ => None,
    }
}

/// The number the current side shows on row `i`.
pub open spec fn current_number_of(rows: Seq<CompareDisplayRow>, i: int) -> Option<usize> {
    match rows[i] {
        CompareDisplayRow::Content(c) => if c.kind == DiffRowKind::ReferenceOnly {
            None
        } else {
            c.current_line
        },
        _ => None,
    }
}

/// The text of a line shown with number `line`: none without a number.
pub open spec fn shown_text(text: Option<String>, line: Option<usize>) -> Seq<char> {
    match line {
        None => Seq::empty(),
        Some(_) => match text {
            Some(t) => t@,
            None => Seq::empty(),
        },
    }
}

/// The label of a row that is not a content row.
pub open spec fn metadata_label(row: CompareDisplayRow) -> Seq<char> {
    match row {
        CompareDisplayRow::Content(_) => Seq::empty(),
        CompareDisplayRow::Collapsed(c) => c.label@,
        CompareDisplayRow::FileBoundary(b) => b.path@,
        CompareDisplayRow::SkippedMarker(m) => m.reason@,
    }
}

/// The text the reference side shows on row `i`, unless a marker label goes there.
pub open spec fn reference_text_of(rows: Seq<CompareDisplayRow>, i: int) -> Seq<char> {
    match rows[i] {
        CompareDisplayRow::Content(c) => if c.kind == DiffRowKind::CurrentOnly {
            Seq::empty()
        } else {
            shown_text(c.reference_text, c.reference_line)
        },
        _ => metadata_label(rows[i]),
    }
}

/// The text the current side shows on row `i`, unless a marker label goes there.
pub open spec fn current_text_of(rows: Seq<CompareDisplayRow>, i: int) -> Seq<char> {
    match rows[i] {
        CompareDisplayRow::Content(c) => if c.kind == DiffRowKind::ReferenceOnly {
            Seq::empty()
        } else {
            shown_text(c.current_text, c.current_line)
        },
        _ => metadata_label(rows[i]),
    }
}

/// Placeholders a row adds: one per side of a content row that shows no line.
pub open spec fn row_placeholders(row: CompareDisplayRow) -> nat {
    match row {
        CompareDisplayRow::Content(c) => (if c.kind == DiffRowKind::CurrentOnly
            || c.reference_line is None {
            1nat
        } else {
            0nat
        }) + (if c.kind == DiffRowKind::ReferenceOnly || c.current_line is None {
            1nat
        } else {
            0nat
        }),
        _ => 0,
    }
}

pub open spec fn placeholders_of(rows: Seq<CompareDisplayRow>) -> nat
    decreases rows.len(),
{
    if rows.len() == 0 {
        0
    } else {
        placeholders_of(rows.drop_last()) + row_placeholders(rows.last())
    }
}

/// `text` joins one entry per row, each as expected except where a marker label goes.
pub open spec fn joins_display_rows(
    text: Seq<char>,
    kinds: Seq<Option<DiffRowKind>>,
    side: PresentationSide,
    expected: spec_fn(int) -> Seq<char>,
) -> bool {
    exists|entries: Seq<Seq<char>>|
        #![trigger spec_join(entries, newline())]
        entries.len() == kinds.len() && (forall|i: int|
            0 <= i < kinds.len() && !display_labelled_on(kinds, i, side) ==> #[trigger] entries[i]
                == expected(i)) && text == spec_join(entries, newline())
}

/// `p` presents the display rows: per row each side's number, the markers,
/// which rows are labels, the placeholders, and both texts joined per row.
pub open spec fn presents_display(p: DiffPresentation, rows: Seq<CompareDisplayRow>) -> bool {
    let n = rows.len();
    let kinds = display_kinds(rows);
    &&& p.reference_line_numbers@ == Seq::new(n, |i: int| reference_number_of(rows, i))
    &&& p.current_line_numbers@ == Seq::new(n, |i: int| current_number_of(rows, i))
    &&& p.placeholder_markers@ == Seq::new(n, |i: int| display_marker(kinds, i))
    &&& p.metadata_rows@ == Seq::new(n, |i: int| content_kind(rows[i]) is None)
    &&& p.placeholder_count == placeholders_of(rows)
    &&& joins_display_rows(
        p.reference_text@,
        kinds,
        PresentationSide::Reference,
        |i: int| reference_text_of(rows, i),
    )
    &&& joins_display_rows(
        p.current_text@,
        kinds,
        PresentationSide::Current,
        |i: int| current_text_of(rows, i),
    )
}

proof fn lemma_placeholders_step(rows: Seq<CompareDisplayRow>, k: int)
    requires
        0 <= k < rows.len(),
    ensures
        placeholders_of(rows.take(k + 1)) == placeholders_of(rows.take(k)) + row_placeholders(
            rows[k],
        ),
{
    assert(rows.take(k + 1).drop_last() =~= rows.take(k));
}

proof fn lemma_placeholders_bound(rows: Seq<CompareDisplayRow>)
    ensures
        placeholders_of(rows) <= 2 * rows.len(),
    decreases rows.len(),
{
    if rows.len() > 0 {
        lemma_placeholders_bound(rows.drop_last());
    }
}

proof fn lemma_run_from(kinds: Seq<Option<DiffRowKind>>, i: int, kind: DiffRowKind)
    requires
        0 <= i <= kinds.len(),
    ensures
        i + run_from(kinds, i, kind) <= kinds.len(),
        forall|t: int| 0 <= t < run_from(kinds, i, kind) ==> #[trigger] kinds[i + t] == Some(kind),
        i + run_from(kinds, i, kind) < kinds.len() ==> kinds[i + run_from(kinds, i, kind)]
            != Some(kind),
    decreases kinds.len() - i,
{
    if i < kinds.len() && kinds[i] == Some(kind) {
        lemma_run_from(kinds, i + 1, kind);
        assert forall|t: int| 0 <= t < run_from(kinds, i, kind) implies #[trigger] kinds[i + t]
            == Some(kind) by {
            if t > 0 {
                assert(kinds[(i + 1) + (t - 1)] == Some(kind));
            }
        }
    }
}

// ---------------------------------------------------------------------------
// Rows under construction
// ---------------------------------------------------------------------------

/// The presentation being built, one row per display row.
pub struct PresentationRows {
    pub reference_rows: Vec<String>,
    pub current_rows: Vec<String>,
    pub reference_numbers: Vec<Option<usize>>,
    pub current_numbers: Vec<Option<usize>>,
    pub placeholder_markers: Vec<Option<PlaceholderMarker>>,
    pub metadata_rows: Vec<bool>,
    pub placeholder_count: usize,
}

impl PresentationRows {
    /// The rows hold the presentation of the first `k` display rows of `rows`.
    pub open spec fn holds_prefix(self, rows: Seq<CompareDisplayRow>, k: int) -> bool {
        let kinds = display_kinds(rows);
        &&& 0 <= k <= rows.len()
        &&& self.reference_numbers@ == Seq::new(k as nat, |i: int| reference_number_of(rows, i))
        &&& self.current_numbers@ == Seq::new(k as nat, |i: int| current_number_of(rows, i))
        &&& self.placeholder_markers@ == Seq::new(k as nat, |i: int| display_marker(kinds, i))
        &&& self.metadata_rows@ == Seq::new(k as nat, |i: int| content_kind(rows[i]) is None)
        &&& self.reference_rows@.len() == k
        &&& self.current_rows@.len() == k
        &&& forall|i: int|
            0 <= i < k && !display_labelled_on(kinds, i, PresentationSide::Reference)
                ==> #[trigger] string_views(self.reference_rows@)[i] == reference_text_of(rows, i)
        &&& forall|i: int|
            0 <= i < k && !display_labelled_on(kinds, i, PresentationSide::Current)
                ==> #[trigger] string_views(self.current_rows@)[i] == current_text_of(rows, i)
        &&& self.placeholder_count == placeholders_of(rows.take(k))
    }

    /// No rows yet, room for `capacity`.
    pub fn new(capacity: usize) -> (rows: Self)
        ensures
            rows.reference_rows@.len() == 0,
            rows.current_rows@.len() == 0,
            rows.reference_numbers@.len() == 0,
            rows.current_numbers@.len() == 0,
            rows.placeholder_markers@.len() == 0,
            rows.metadata_rows@.len() == 0,
            rows.placeholder_count == 0,
    {
        PresentationRows {
            reference_rows: Vec::with_capacity(capacity),
            current_rows: Vec::with_capacity(capacity),
            reference_numbers: Vec::with_capacity(capacity),
            current_numbers: Vec::with_capacity(capacity),
            placeholder_markers: Vec::with_capacity(capacity),
            metadata_rows: Vec::with_capacity(capacity),
            placeholder_count: 0,
        }
    }

    /// The presentation: each side's rows joined by newlines, and the rest as built.
    pub fn finish(self) -> (p: DiffPresentation)
        ensures
            p.reference_text@ == spec_join(string_views(self.reference_rows@), newline()),
            p.current_text@ == spec_join(string_views(self.current_rows@), newline()),
            p.reference_line_numbers@ == self.reference_numbers@,
            p.current_line_numbers@ == self.current_numbers@,
            p.placeholder_markers@ == self.placeholder_markers@,
            p.metadata_rows@ == self.metadata_rows@,
            p.placeholder_count == self.placeholder_count,
    {
        let reference_text = join_lines(&self.reference_rows);
        let current_text = join_lines(&self.current_rows);
        DiffPresentation::from_parts(
            reference_text,
            current_text,
            self.reference_numbers,
            self.current_numbers,
            self.placeholder_markers,
            self.metadata_rows,
            self.placeholder_count,
        )
    }

    /// Appends a label row: the label on both sides, no numbers, no marker.
    pub fn push_metadata(&mut self, label: &str)
        ensures
            final(self).reference_rows@.len() == old(self).reference_rows@.len() + 1,
            final(self).current_rows@.len() == old(self).current_rows@.len() + 1,
            forall|i: int|
                0 <= i < old(self).reference_rows@.len() ==> final(self).reference_rows@[i]
                    == old(self).reference_rows@[i],
            forall|i: int|
                0 <= i < old(self).current_rows@.len() ==> final(self).current_rows@[i]
                    == old(self).current_rows@[i],
            final(self).reference_rows@.last()@ == label@,
            final(self).current_rows@.last()@ == label@,
            final(self).reference_numbers@ == old(self).reference_numbers@.push(None),
            final(self).current_numbers@ == old(self).current_numbers@.push(None),
            final(self).placeholder_markers@ == old(self).placeholder_markers@.push(None),
            final(self).metadata_rows@ == old(self).metadata_rows@.push(true),
            final(self).placeholder_count == old(self).placeholder_count,
    {
        self.reference_rows.push(label.to_string());
        self.current_rows.push(label.to_string());
        self.reference_numbers.push(None);
        self.current_numbers.push(None);
        self.push_row_metadata(None, true);
    }

    /// Appends a row's marker and whether it is a label row.
    pub fn push_row_metadata(&mut self, marker: Option<PlaceholderMarker>, metadata: bool)
        ensures
            final(self).placeholder_markers@ == old(self).placeholder_markers@.push(marker),
            final(self).metadata_rows@ == old(self).metadata_rows@.push(metadata),
            final(self).reference_rows == old(self).reference_rows,
            final(self).current_rows == old(self).current_rows,
            final(self).reference_numbers == old(self).reference_numbers,
            final(self).current_numbers == old(self).current_numbers,
            final(self).placeholder_count == old(self).placeholder_count,
    {
        self.placeholder_markers.push(marker);
        self.metadata_rows.push(metadata);
    }
}

/// The text of an optional string.
fn text_of(text: &Option<String>) -> (r: Option<&str>)
    ensures
        match text {
            Some(t) => r matches Some(s) && s@ == t@,
            None => r is None,
        },
{
    match text {
        Some(t) => Some(t.as_str()),
        None => None,
    }
}

/// Appends a shown line: its text (nothing when absent) and its number; a
/// missing line is a placeholder (empty text, no number, counted).
pub fn push_display_line(
    rows: &mut Vec<String>,
    numbers: &mut Vec<Option<usize>>,
    text: Option<&str>,
    line: Option<usize>,
    placeholder_count: &mut usize,
)
    requires
        line is None ==> *old(placeholder_count) < usize::MAX,
    ensures
        final(rows)@.len() == old(rows)@.len() + 1,
        forall|i: int| 0 <= i < old(rows)@.len() ==> final(rows)@[i] == old(rows)@[i],
        final(rows)@.last()@ == match line {
            None => Seq::<char>::empty(),
            Some(_) => match text {
                Some(t) => t@,
                None => Seq::<char>::empty(),
            },
        },
        final(numbers)@ == old(numbers)@.push(line),
        *final(placeholder_count) == *old(placeholder_count) + if line is None {
            1nat
        } else {
            0nat
        },
{
    let line = match line {
        Some(line) => line,
        None => {
            push_placeholder(rows, numbers, placeholder_count, None);
            return;
        },
    };
    let value: &str = match text {
        Some(t) => t,
        None => "",
    };
    proof {
        reveal_strlit("");
    }
    rows.push(value.to_string());
    numbers.push(Some(line));
}

/// The content row at `row`, if that row is one.
pub fn display_content_row(display: &CompareDisplayModel, row: usize) -> (c: Option<&DisplayContentRow>)
    ensures
        match c {
            Some(c) => row < display.rows@.len() && display.rows@[row as int]
                == CompareDisplayRow::Content(*c),
            None => row >= display.rows@.len() || !(display.rows@[row as int] is Content),
        },
{
    if row >= display.rows.len() {
        return None;
    }
    match &display.rows[row] {
        CompareDisplayRow::Content(c) => Some(c),
        _ => None,
    }
}

/// Whether `row` is a content row of `kind`.
fn is_content_of_kind(row: &CompareDisplayRow, kind: DiffRowKind) -> (b: bool)
    ensures
        b == (content_kind(*row) == Some(kind)),
{
    match row {
        CompareDisplayRow::Content(c) => c.kind == kind,
        _ => false,
    }
}

/// Length of the run of content rows of `kind` starting at row `start`.
pub fn same_display_kind_run_len(display: &CompareDisplayModel, start: usize, kind: DiffRowKind) -> (n: usize)
    requires
        start <= display.rows@.len(),
    ensures
        n == run_from(display_kinds(display.rows@), start as int, kind),
{
    let ghost kinds = display_kinds(display.rows@);
    let len = display.rows.len();
    let mut n: usize = 0;
    while start + n < len && is_content_of_kind(&display.rows[start + n], kind)
        invariant
            len == display.rows@.len(),
            start + n <= len,
            kinds == display_kinds(display.rows@),
            run_from(kinds, start as int, kind) == n + run_from(kinds, start + n, kind),
        decreases len - start - n,
    {
        n += 1;
    }
    n
}

impl PresentationRows {
    /// Appends a row that pairs a reference line with a current line.
    pub fn push_paired_content(&mut self, row: &DisplayContentRow)
        requires
            old(self).placeholder_count + 2 <= usize::MAX,
        ensures
            final(self).reference_rows@.len() == old(self).reference_rows@.len() + 1,
            final(self).current_rows@.len() == old(self).current_rows@.len() + 1,
            forall|i: int|
                0 <= i < old(self).reference_rows@.len() ==> final(self).reference_rows@[i]
                    == old(self).reference_rows@[i],
            forall|i: int|
                0 <= i < old(self).current_rows@.len() ==> final(self).current_rows@[i]
                    == old(self).current_rows@[i],
            final(self).reference_rows@.last()@ == shown_text(row.reference_text, row.reference_line),
            final(self).current_rows@.last()@ == shown_text(row.current_text, row.current_line),
            final(self).reference_numbers@ == old(self).reference_numbers@.push(row.reference_line),
            final(self).current_numbers@ == old(self).current_numbers@.push(row.current_line),
            final(self).placeholder_markers@ == old(self).placeholder_markers@.push(None),
            final(self).metadata_rows@ == old(self).metadata_rows@.push(false),
            final(self).placeholder_count == old(self).placeholder_count + (if row.reference_line is None {
                1nat
            } else {
                0nat
            }) + (if row.current_line is None {
                1nat
            } else {
                0nat
            }),
    {
        push_display_line(
            &mut self.reference_rows,
            &mut self.reference_numbers,
            text_of(&row.reference_text),
            row.reference_line,
            &mut self.placeholder_count,
        );
        push_display_line(
            &mut self.current_rows,
            &mut self.current_numbers,
            text_of(&row.current_text),
            row.current_line,
            &mut self.placeholder_count,
        );
        self.push_row_metadata(None, false);
    }

    /// Appends the run of `run_len` rows that exist only in the reference file
    /// and start at display row `start`: their reference lines beside
    /// placeholders, the first placeholder labelled with the run's marker.
    pub fn push_reference_only_run(&mut self, display: &CompareDisplayModel, start: usize, run_len: usize)
        requires
            old(self).holds_prefix(display.rows@, start as int),
            display.rows@.len() <= usize::MAX / 2,
            0 < run_len,
            run_len == run_from(display_kinds(display.rows@), start as int, DiffRowKind::ReferenceOnly),
            display_starts_run(display_kinds(display.rows@), start as int),
        ensures
            final(self).holds_prefix(display.rows@, start + run_len),
    {
        let ghost rows = display.rows@;
        let ghost kinds = display_kinds(rows);
        proof {
            lemma_run_from(kinds, start as int, DiffRowKind::ReferenceOnly);
        }
        let mut offset: usize = 0;
        while offset < run_len
            invariant
                rows == display.rows@,
                kinds == display_kinds(rows),
                rows.len() <= usize::MAX / 2,
                0 < run_len,
                start + run_len <= rows.len(),
                run_len == run_from(kinds, start as int, DiffRowKind::ReferenceOnly),
                forall|t: int| 0 <= t < run_len ==> #[trigger] kinds[start + t] == Some(DiffRowKind::ReferenceOnly),
                display_starts_run(kinds, start as int),
                offset <= run_len,
                self.holds_prefix(rows, start + offset),
            decreases run_len - offset,
        {
            let i = start + offset;
            let ghost before = *self;
            proof {
                lemma_placeholders_bound(rows.take(i as int));
                lemma_placeholders_step(rows, i as int);
                assert(kinds[start + offset as int] == Some(DiffRowKind::ReferenceOnly));
                if offset > 0 {
                    assert(kinds[start + (offset - 1)] == Some(DiffRowKind::ReferenceOnly));
                }
            }
            let row = display_content_row(display, i);
            let (text, line) = match row {
                Some(c) => (text_of(&c.reference_text), c.reference_line),
                None => (None, None),
            };
            push_display_line(
                &mut self.reference_rows,
                &mut self.reference_numbers,
                text,
                line,
                &mut self.placeholder_count,
            );
            let marker = if offset == 0 {
                Some(PlaceholderMarker { side: PresentationSide::Current, run_len })
            } else {
                None
            };
            match marker {
                Some(m) => {
                    let label = marker_text(m);
                    push_placeholder(
                        &mut self.current_rows,
                        &mut self.current_numbers,
                        &mut self.placeholder_count,
                        Some(label.as_str()),
                    );
                },
                None => {
                    push_placeholder(
                        &mut self.current_rows,
                        &mut self.current_numbers,
                        &mut self.placeholder_count,
                        None,
                    );
                },
            }
            self.push_row_metadata(marker, false);
            proof {
                let k = i as int;
                assert(self.reference_numbers@ =~= Seq::new((k + 1) as nat, |j: int| reference_number_of(rows, j)));
                assert(self.current_numbers@ =~= Seq::new((k + 1) as nat, |j: int| current_number_of(rows, j)));
                assert(self.placeholder_markers@ =~= Seq::new((k + 1) as nat, |j: int| display_marker(kinds, j)));
                assert(self.metadata_rows@ =~= Seq::new((k + 1) as nat, |j: int| content_kind(rows[j]) is None));
                assert forall|j: int|
                    0 <= j < k + 1 && !display_labelled_on(kinds, j, PresentationSide::Reference)
                        implies #[trigger] string_views(self.reference_rows@)[j] == reference_text_of(rows, j) by {
                    if j < k {
                        assert(string_views(before.reference_rows@)[j] == reference_text_of(rows, j));
                    }
                }
                assert forall|j: int|
                    0 <= j < k + 1 && !display_labelled_on(kinds, j, PresentationSide::Current)
                        implies #[trigger] string_views(self.current_rows@)[j] == current_text_of(rows, j) by {
                    if j < k {
                        assert(string_views(before.current_rows@)[j] == current_text_of(rows, j));
                    }
                }
            }
            offset += 1;
        }
    }

    /// Appends the run of `run_len` rows that exist only in the current file
    /// and start at display row `start`: placeholders beside their current
    /// lines, the first placeholder labelled with the run's marker.
    pub fn push_current_only_run(&mut self, display: &CompareDisplayModel, start: usize, run_len: usize)
        requires
            old(self).holds_prefix(display.rows@, start as int),
            display.rows@.len() <= usize::MAX / 2,
            0 < run_len,
            run_len == run_from(display_kinds(display.rows@), start as int, DiffRowKind::CurrentOnly),
            display_starts_run(display_kinds(display.rows@), start as int),
        ensures
            final(self).holds_prefix(display.rows@, start + run_len),
    {
        let ghost rows = display.rows@;
        let ghost kinds = display_kinds(rows);
        proof {
            lemma_run_from(kinds, start as int, DiffRowKind::CurrentOnly);
        }
        let mut offset: usize = 0;
        while offset < run_len
            invariant
                rows == display.rows@,
                kinds == display_kinds(rows),
                rows.len() <= usize::MAX / 2,
                0 < run_len,
                start + run_len <= rows.len(),
                run_len == run_from(kinds, start as int, DiffRowKind::CurrentOnly),
                forall|t: int| 0 <= t < run_len ==> #[trigger] kinds[start + t] == Some(DiffRowKind::CurrentOnly),
                display_starts_run(kinds, start as int),
                offset <= run_len,
                self.holds_prefix(rows, start + offset),
            decreases run_len - offset,
        {
            let i = start + offset;
            let ghost before = *self;
            proof {
                lemma_placeholders_bound(rows.take(i as int));
                lemma_placeholders_step(rows, i as int);
                assert(kinds[start + offset as int] == Some(DiffRowKind::CurrentOnly));
                if offset > 0 {
                    assert(kinds[start + (offset - 1)] == Some(DiffRowKind::CurrentOnly));
                }
            }
            let row = display_content_row(display, i);
            let marker = if offset == 0 {
                Some(PlaceholderMarker { side: PresentationSide::Reference, run_len })
            } else {
                None
            };
            match marker {
                Some(m) => {
                    let label = marker_text(m);
                    push_placeholder(
                        &mut self.reference_rows,
                        &mut self.reference_numbers,
                        &mut self.placeholder_count,
                        Some(label.as_str()),
                    );
                },
                None => {
                    push_placeholder(
                        &mut self.reference_rows,
                        &mut self.reference_numbers,
                        &mut self.placeholder_count,
                        None,
                    );
                },
            }
            let (text, line) = match row {
                Some(c) => (text_of(&c.current_text), c.current_line),
                None => (None, None),
            };
            push_display_line(
                &mut self.current_rows,
                &mut self.current_numbers,
                text,
                line,
                &mut self.placeholder_count,
            );
            self.push_row_metadata(marker, false);
            proof {
                let k = i as int;
                assert(self.reference_numbers@ =~= Seq::new((k + 1) as nat, |j: int| reference_number_of(rows, j)));
                assert(self.current_numbers@ =~= Seq::new((k + 1) as nat, |j: int| current_number_of(rows, j)));
                assert(self.placeholder_markers@ =~= Seq::new((k + 1) as nat, |j: int| display_marker(kinds, j)));
                assert(self.metadata_rows@ =~= Seq::new((k + 1) as nat, |j: int| content_kind(rows[j]) is None));
                assert forall|j: int|
                    0 <= j < k + 1 && !display_labelled_on(kinds, j, PresentationSide::Reference)
                        implies #[trigger] string_views(self.reference_rows@)[j] == reference_text_of(rows, j) by {
                    if j < k {
                        assert(string_views(before.reference_rows@)[j] == reference_text_of(rows, j));
                    }
                }
                assert forall|j: int|
                    0 <= j < k + 1 && !display_labelled_on(kinds, j, PresentationSide::Current)
                        implies #[trigger] string_views(self.current_rows@)[j] == current_text_of(rows, j) by {
                    if j < k {
                        assert(string_views(before.current_rows@)[j] == current_text_of(rows, j));
                    }
                }
            }
            offset += 1;
        }
    }
}

/// One row more: a label row after the rows of a prefix.
proof fn lemma_metadata_step(
    before: PresentationRows,
    after: PresentationRows,
    rows: Seq<CompareDisplayRow>,
    k: int,
)
    requires
        before.holds_prefix(rows, k),
        0 <= k < rows.len(),
        !(rows[k] is Content),
        after.reference_rows@.len() == before.reference_rows@.len() + 1,
        after.current_rows@.len() == before.current_rows@.len() + 1,
        forall|i: int|
            0 <= i < before.reference_rows@.len() ==> after.reference_rows@[i]
                == before.reference_rows@[i],
        forall|i: int|
            0 <= i < before.current_rows@.len() ==> after.current_rows@[i]
                == before.current_rows@[i],
        after.reference_rows@.last()@ == metadata_label(rows[k]),
        after.current_rows@.last()@ == metadata_label(rows[k]),
        after.reference_numbers@ == before.reference_numbers@.push(None),
        after.current_numbers@ == before.current_numbers@.push(None),
        after.placeholder_markers@ == before.placeholder_markers@.push(None),
        after.metadata_rows@ == before.metadata_rows@.push(true),
        after.placeholder_count == before.placeholder_count,
    ensures
        after.holds_prefix(rows, k + 1),
{
    let kinds = display_kinds(rows);
    lemma_placeholders_step(rows, k);
    assert(after.reference_numbers@ =~= Seq::new((k + 1) as nat, |j: int| reference_number_of(rows, j)));
    assert(after.current_numbers@ =~= Seq::new((k + 1) as nat, |j: int| current_number_of(rows, j)));
    assert(after.placeholder_markers@ =~= Seq::new((k + 1) as nat, |j: int| display_marker(kinds, j)));
    assert(after.metadata_rows@ =~= Seq::new((k + 1) as nat, |j: int| content_kind(rows[j]) is None));
    assert forall|j: int|
        0 <= j < k + 1 && !display_labelled_on(kinds, j, PresentationSide::Reference)
            implies #[trigger] string_views(after.reference_rows@)[j] == reference_text_of(rows, j) by {
        if j < k {
            assert(string_views(before.reference_rows@)[j] == reference_text_of(rows, j));
        }
    }
    assert forall|j: int|
        0 <= j < k + 1 && !display_labelled_on(kinds, j, PresentationSide::Current)
            implies #[trigger] string_views(after.current_rows@)[j] == current_text_of(rows, j) by {
        if j < k {
            assert(string_views(before.current_rows@)[j] == current_text_of(rows, j));
        }
    }
}

impl PresentationRows {
    /// Appends content row `row_index`: alone when it pairs two lines, else
    /// with the whole run of one-sided rows it starts. Returns how many
    /// display rows it appended.
    pub fn push_content(&mut self, display: &CompareDisplayModel, row_index: usize, row: &DisplayContentRow) -> (n: usize)
        requires
            old(self).holds_prefix(display.rows@, row_index as int),
            display.rows@.len() <= usize::MAX / 2,
            row_index < display.rows@.len(),
            display.rows@[row_index as int] == CompareDisplayRow::Content(*row),
            row.kind == DiffRowKind::ReferenceOnly || row.kind == DiffRowKind::CurrentOnly
                ==> display_starts_run(display_kinds(display.rows@), row_index as int),
        ensures
            0 < n,
            row_index + n <= display.rows@.len(),
            final(self).holds_prefix(display.rows@, row_index + n),
            row_index + n < display.rows@.len() && display_kinds(display.rows@)[row_index + n - 1]
                == display_kinds(display.rows@)[row_index + n] ==> !(display_kinds(
                display.rows@,
            )[row_index + n] == Some(DiffRowKind::ReferenceOnly) || display_kinds(
                display.rows@,
            )[row_index + n] == Some(DiffRowKind::CurrentOnly)),
    {
        let ghost rows = display.rows@;
        let ghost kinds = display_kinds(rows);
        match row.kind {
            DiffRowKind::Equal | DiffRowKind::Modify => {
                let ghost before = *self;
                proof {
                    lemma_placeholders_bound(rows.take(row_index as int));
                    lemma_placeholders_step(rows, row_index as int);
                }
                self.push_paired_content(row);
                proof {
                    let k = row_index as int;
                    assert(self.reference_numbers@ =~= Seq::new((k + 1) as nat, |j: int| reference_number_of(rows, j)));
                    assert(self.current_numbers@ =~= Seq::new((k + 1) as nat, |j: int| current_number_of(rows, j)));
                    assert(self.placeholder_markers@ =~= Seq::new((k + 1) as nat, |j: int| display_marker(kinds, j)));
                    assert(self.metadata_rows@ =~= Seq::new((k + 1) as nat, |j: int| content_kind(rows[j]) is None));
                    assert forall|j: int|
                        0 <= j < k + 1 && !display_labelled_on(kinds, j, PresentationSide::Reference)
                            implies #[trigger] string_views(self.reference_rows@)[j] == reference_text_of(rows, j) by {
                        if j < k {
                            assert(string_views(before.reference_rows@)[j] == reference_text_of(rows, j));
                        }
                    }
                    assert forall|j: int|
                        0 <= j < k + 1 && !display_labelled_on(kinds, j, PresentationSide::Current)
                            implies #[trigger] string_views(self.current_rows@)[j] == current_text_of(rows, j) by {
                        if j < k {
                            assert(string_views(before.current_rows@)[j] == current_text_of(rows, j));
                        }
                    }
                }
                1
            },
            DiffRowKind::ReferenceOnly => {
                let run_len = same_display_kind_run_len(display, row_index, DiffRowKind::ReferenceOnly);
                proof {
                    lemma_run_from(kinds, row_index as int, DiffRowKind::ReferenceOnly);
                    assert(kinds[row_index as int] == Some(DiffRowKind::ReferenceOnly));
                    assert(kinds[row_index + (run_len - 1)] == Some(DiffRowKind::ReferenceOnly));
                }
                self.push_reference_only_run(display, row_index, run_len);
                run_len
            },
            DiffRowKind::CurrentOnly => {
                let run_len = same_display_kind_run_len(display, row_index, DiffRowKind::CurrentOnly);
                proof {
                    lemma_run_from(kinds, row_index as int, DiffRowKind::CurrentOnly);
                    assert(kinds[row_index as int] == Some(DiffRowKind::CurrentOnly));
                    assert(kinds[row_index + (run_len - 1)] == Some(DiffRowKind::CurrentOnly));
                }
                self.push_current_only_run(display, row_index, run_len);
                run_len
            },
        }
    }
}

/// Builds the side-by-side presentation of a display model: one row per
/// display row (see `presents_display`); no rows give the empty presentation.
pub fn build_presentation_from_display(display: &CompareDisplayModel) -> (p: DiffPresentation)
    requires
        display.rows@.len() <= usize::MAX / 2,
    ensures
        display.rows@.len() == 0 ==> p.reference_text@.len() == 0 && p.current_text@.len() == 0
            && p.reference_line_numbers@.len() == 0 && p.current_line_numbers@.len() == 0
            && p.placeholder_markers@.len() == 0 && p.metadata_rows@.len() == 0
            && p.placeholder_count == 0,
        display.rows@.len() > 0 ==> presents_display(p, display.rows@),
{
    if display.rows.len() == 0 {
        return DiffPresentation::empty();
    }
    let ghost all = display.rows@;
    let ghost kinds = display_kinds(all);
    let mut rows = PresentationRows::new(display.rows.len());
    proof {
        assert(rows.reference_numbers@ =~= Seq::new(0, |j: int| reference_number_of(all, j)));
        assert(rows.current_numbers@ =~= Seq::new(0, |j: int| current_number_of(all, j)));
        assert(rows.placeholder_markers@ =~= Seq::new(0, |j: int| display_marker(kinds, j)));
        assert(rows.metadata_rows@ =~= Seq::new(0, |j: int| content_kind(all[j]) is None));
        assert(all.take(0) =~= Seq::<CompareDisplayRow>::empty());
    }
    let mut row_index: usize = 0;
    while row_index < display.rows.len()
        invariant
            all == display.rows@,
            kinds == display_kinds(all),
            all.len() <= usize::MAX / 2,
            row_index <= all.len(),
            rows.holds_prefix(all, row_index as int),
            0 < row_index < all.len() && kinds[row_index - 1] == kinds[row_index as int] ==> !(
            kinds[row_index as int] == Some(DiffRowKind::ReferenceOnly) || kinds[row_index as int]
                == Some(DiffRowKind::CurrentOnly)),
        decreases all.len() - row_index,
    {
        let ghost before = rows;
        match &display.rows[row_index] {
            CompareDisplayRow::Content(row) => {
                let n = rows.push_content(display, row_index, row);
                row_index += n;
            },
            CompareDisplayRow::Collapsed(row) => {
                rows.push_metadata(row.label.as_str());
                proof {
                    lemma_metadata_step(before, rows, all, row_index as int);
                }
                row_index += 1;
            },
            CompareDisplayRow::FileBoundary(row) => {
                rows.push_metadata(row.path.as_str());
                proof {
                    lemma_metadata_step(before, rows, all, row_index as int);
                }
                row_index += 1;
            },
            CompareDisplayRow::SkippedMarker(row) => {
                rows.push_metadata(row.reason.as_str());
                proof {
                    lemma_metadata_step(before, rows, all, row_index as int);
                }
                row_index += 1;
            },
        }
    }
    let ghost built = rows;
    let p = rows.finish();
    proof {
        assert(all.take(all.len() as int) =~= all);
        let re = string_views(built.reference_rows@);
        let ce = string_views(built.current_rows@);
        assert(spec_join(re, newline()) == p.reference_text@);
        assert(spec_join(ce, newline()) == p.current_text@);
    }
    p
}

} // verus!
