//! The side-by-side presentation of a row model: one buffer line per row on
//! each side, with placeholders where a side has no line.
use vstd::prelude::*;

use crate::i18n::{
    context_message, format_count, plural_count, plural_message, spec_format_count, spec_plural_count,
    translate, Message, MessageView,
};
use crate::model::{DiffRow, DiffRowKind, DiffRowModel, kinds_of};
use crate::text::{
    has_suffix, join_lines, newline, spec_join, str_views, string_views, strip_suffix,
};

verus! {

#[derive(Clone, Copy, Debug, PartialEq, Eq, Structural)]
pub enum PresentationSide {
    Reference,
    Current,
}

/// Marks the first placeholder row of a run of one-sided rows, on the side
/// that has no lines, with the length of the run.
#[derive(Clone, Copy, Debug, PartialEq, Eq, Structural)]
pub struct PlaceholderMarker {
    pub side: PresentationSide,
    pub run_len: usize,
}

#[derive(Clone, Debug, Default, PartialEq, Eq)]
pub struct DiffPresentation {
    pub reference_text: String,
    pub current_text: String,
    pub reference_line_numbers: Vec<Option<usize>>,
    pub current_line_numbers: Vec<Option<usize>>,
    pub placeholder_markers: Vec<Option<PlaceholderMarker>>,
    pub metadata_rows: Vec<bool>,
    pub placeholder_count: usize,
}

/// `s` without at most one `\r\n`, `\n` or `\r` at its end.
pub open spec fn spec_strip_newline(s: Seq<char>) -> Seq<char> {
    if has_suffix(s, seq!['\r', '\n']) {
        s.take(s.len() - 2)
    } else if has_suffix(s, seq!['\n']) || has_suffix(s, seq!['\r']) {
        s.take(s.len() - 1)
    } else {
        s
    }
}

/// Removes one trailing `\r\n`, `\n` or `\r`, so that each line token of
/// the diff is one buffer row.
pub fn strip_line_ending(line: &str) -> (r: &str)
    ensures
        r@ == spec_strip_newline(line@),
{
    proof {
        reveal_strlit("\r\n");
        reveal_strlit("\n");
        reveal_strlit("\r");
        assert("\r\n"@ =~= seq!['\r', '\n']);
        assert("\n"@ =~= seq!['\n']);
        assert("\r"@ =~= seq!['\r']);
    }
    match strip_suffix(line, "\r\n") {
        Some(content) => content,
        None => match strip_suffix(line, "\n") {
            Some(content) => content,
            None => match strip_suffix(line, "\r") {
                Some(content) => content,
                None => line,
            },
        },
    }
}

/// Number of `None` entries.
pub open spec fn count_none(s: Seq<Option<usize>>) -> nat
    decreases s.len(),
{
    if s.len() == 0 {
        0
    } else {
        count_none(s.drop_last()) + if s.last() is None {
            1nat
        } else {
            0nat
        }
    }
}

/// Largest `Some` entry, or 1 when there is none.
pub open spec fn max_number(s: Seq<Option<usize>>) -> nat
    decreases s.len(),
{
    if s.len() == 0 {
        1
    } else {
        let rest = max_number(s.drop_last());
        match s.last() {
            Some(n) => if count_some(s.drop_last()) == 0 || n > rest {
                n as nat
            } else {
                rest
            },
            None => rest,
        }
    }
}

/// Number of `Some` entries.
pub open spec fn count_some(s: Seq<Option<usize>>) -> nat {
    (s.len() - count_none(s)) as nat
}

/// The numbers of one side of the rows.
pub open spec fn side_numbers(p: DiffPresentation, side: PresentationSide) -> Seq<Option<usize>> {
    match side {
        PresentationSide::Reference => p.reference_line_numbers@,
        PresentationSide::Current => p.current_line_numbers@,
    }
}

/// Entry `row` of a sequence, or `None` past its end.
pub open spec fn entry<T>(s: Seq<Option<T>>, row: int) -> Option<T> {
    if 0 <= row < s.len() {
        s[row]
    } else {
        None
    }
}

impl DiffPresentation {
    /// A presentation without rows.
    pub fn empty() -> (p: Self)
        ensures
            p.reference_text@.len() == 0,
            p.current_text@.len() == 0,
            p.reference_line_numbers@.len() == 0,
            p.current_line_numbers@.len() == 0,
            p.placeholder_markers@.len() == 0,
            p.metadata_rows@.len() == 0,
            p.placeholder_count == 0,
    {
        DiffPresentation {
            reference_text: String::new(),
            current_text: String::new(),
            reference_line_numbers: Vec::new(),
            current_line_numbers: Vec::new(),
            placeholder_markers: Vec::new(),
            metadata_rows: Vec::new(),
            placeholder_count: 0,
        }
    }

    /// A presentation from its parts.
    pub fn from_parts(
        reference_text: String,
        current_text: String,
        reference_line_numbers: Vec<Option<usize>>,
        current_line_numbers: Vec<Option<usize>>,
        placeholder_markers: Vec<Option<PlaceholderMarker>>,
        metadata_rows: Vec<bool>,
        placeholder_count: usize,
    ) -> (p: Self)
        ensures
            p.reference_text == reference_text,
            p.current_text == current_text,
            p.reference_line_numbers == reference_line_numbers,
            p.current_line_numbers == current_line_numbers,
            p.placeholder_markers == placeholder_markers,
            p.metadata_rows == metadata_rows,
            p.placeholder_count == placeholder_count,
    {
        DiffPresentation {
            reference_text,
            current_text,
            reference_line_numbers,
            current_line_numbers,
            placeholder_markers,
            metadata_rows,
            placeholder_count,
        }
    }

    /// The 1-based document line number `row` shows on `side`, if any.
    pub fn line_number(&self, side: PresentationSide, row: usize) -> (n: Option<usize>)
        ensures
            n == entry(side_numbers(*self, side), row as int),
    {
        let numbers = match side {
            PresentationSide::Reference => &self.reference_line_numbers,
            PresentationSide::Current => &self.current_line_numbers,
        };
        if row < numbers.len() {
            numbers[row]
        } else {
            None
        }
    }

    /// The side to hatch on `row`: the one side that shows no line while the other does.
    pub fn hatch_side_for_row(&self, row: usize) -> (side: Option<PresentationSide>)
        ensures
            side == if row < self.reference_line_numbers@.len() && row
                < self.current_line_numbers@.len() {
                let reference = self.reference_line_numbers@[row as int];
                let current = self.current_line_numbers@[row as int];
                if reference is None && current is Some {
                    Some(PresentationSide::Reference)
                } else if reference is Some && current is None {
                    Some(PresentationSide::Current)
                } else {
                    None
                }
            } else {
                None
            },
    {
        if row >= self.reference_line_numbers.len() || row >= self.current_line_numbers.len() {
            return None;
        }
        let reference = self.reference_line_numbers[row];
        let current = self.current_line_numbers[row];
        match (reference.is_none(), current.is_none()) {
            (true, false) => Some(PresentationSide::Reference),
            (false, true) => Some(PresentationSide::Current),
            _ => None,
        }
    }

    /// The marker on `row`, when it is on `side`.
    pub fn placeholder_marker(&self, side: PresentationSide, row: usize) -> (marker: Option<
        PlaceholderMarker,
    >)
        ensures
            marker == match entry(self.placeholder_markers@, row as int) {
                Some(m) => if m.side == side {
                    Some(m)
                } else {
                    None
                },
                None => None,
            },
    {
        if row < self.placeholder_markers.len() {
            match self.placeholder_markers[row] {
                Some(marker) => if marker.side == side {
                    Some(marker)
                } else {
                    None
                },
                None => None,
            }
        } else {
            None
        }
    }

    /// Whether `row` is a metadata row (a label spanning both sides).
    pub fn is_metadata_row(&self, row: usize) -> (b: bool)
        ensures
            b == (row < self.metadata_rows@.len() && self.metadata_rows@[row as int]),
    {
        row < self.metadata_rows.len() && self.metadata_rows[row]
    }

    /// The largest line number shown on `side`, or 1 when it shows none.
    pub fn max_line_number(&self, side: PresentationSide) -> (n: usize)
        ensures
            n == max_number(side_numbers(*self, side)),
    {
        let numbers = match side {
            PresentationSide::Reference => &self.reference_line_numbers,
            PresentationSide::Current => &self.current_line_numbers,
        };
        let mut max: Option<usize> = None;
        let mut i: usize = 0;
        while i < numbers.len()
            invariant
                i <= numbers@.len(),
                numbers@ == side_numbers(*self, side),
                match max {
                    Some(m) => count_some(numbers@.take(i as int)) > 0 && m == max_number(
                        numbers@.take(i as int),
                    ),
                    None => count_some(numbers@.take(i as int)) == 0,
                },
            decreases numbers@.len() - i,
        {
            let ghost prefix = numbers@.take(i as int);
            assert(numbers@.take(i + 1).drop_last() =~= prefix);
            proof {
                lemma_count_none_bound(prefix);
                lemma_count_none_bound(numbers@.take(i + 1));
            }
            if let Some(n) = numbers[i] {
                match max {
                    Some(m) => if n > m {
                        max = Some(n);
                    },
                    None => {
                        max = Some(n);
                    },
                }
            }
            i += 1;
        }
        assert(numbers@.take(i as int) =~= numbers@);
        match max {
            Some(m) => m,
            None => {
                proof {
                    lemma_max_without_numbers(numbers@);
                }
                1
            },
        }
    }

    /// Number of rows.
    pub fn line_count(&self) -> (n: usize)
        ensures
            n == self.reference_line_numbers@.len(),
    {
        self.reference_line_numbers.len()
    }
}

proof fn lemma_max_without_numbers(s: Seq<Option<usize>>)
    requires
        count_some(s) == 0,
    ensures
        max_number(s) == 1,
    decreases s.len(),
{
    if s.len() > 0 {
        lemma_count_none_bound(s.drop_last());
        lemma_max_without_numbers(s.drop_last());
    }
}

proof fn lemma_count_none_bound(s: Seq<Option<usize>>)
    ensures
        count_none(s) <= s.len(),
    decreases s.len(),
{
    if s.len() > 0 {
        lemma_count_none_bound(s.drop_last());
    }
}


// ---------------------------------------------------------------------------
// Building the presentation of a row model
// ---------------------------------------------------------------------------

/// Length of the run of rows of `kind` that starts at row `i`.
pub open spec fn run_len_from(kinds: Seq<DiffRowKind>, i: int, kind: DiffRowKind) -> nat
    decreases kinds.len() - i,
{
    if 0 <= i < kinds.len() && kinds[i] == kind {
        1 + run_len_from(kinds, i + 1, kind)
    } else {
        0
    }
}

/// Row `i` starts a run: it is the first row or its kind differs from the row before.
pub open spec fn starts_run(kinds: Seq<DiffRowKind>, i: int) -> bool {
    i == 0 || kinds[i - 1] != kinds[i]
}

/// The marker of row `i`: the first row of a run of one-sided rows carries one,
/// on the side without lines, with the run's length.
pub open spec fn row_marker(kinds: Seq<DiffRowKind>, i: int) -> Option<PlaceholderMarker> {
    if kinds[i] == DiffRowKind::ReferenceOnly && starts_run(kinds, i) {
        Some(
            PlaceholderMarker {
                side: PresentationSide::Current,
                run_len: run_len_from(kinds, i, kinds[i]) as usize,
            },
        )
    } else if kinds[i] == DiffRowKind::CurrentOnly && starts_run(kinds, i) {
        Some(
            PlaceholderMarker {
                side: PresentationSide::Reference,
                run_len: run_len_from(kinds, i, kinds[i]) as usize,
            },
        )
    } else {
        None
    }
}

/// The 1-based number shown for a 0-based line.
pub open spec fn presented_number(line: Option<usize>) -> Option<usize> {
    match line {
        Some(l) => Some((l + 1) as usize),
        None => None,
    }
}

/// The text shown for a line: the line without its newline, or nothing.
pub open spec fn presented_text(source: Seq<Seq<char>>, line: Option<usize>) -> Seq<char> {
    match line {
        Some(l) => if l < source.len() {
            spec_strip_newline(source[l as int])
        } else {
            Seq::empty()
        },
        None => Seq::empty(),
    }
}

/// The number the reference side shows on row `i`.
pub open spec fn reference_number_at(rows: Seq<DiffRow>, i: int) -> Option<usize> {
    if rows[i].kind == DiffRowKind::CurrentOnly {
        None
    } else {
        presented_number(rows[i].reference_line)
    }
}

/// The number the current side shows on row `i`.
pub open spec fn current_number_at(rows: Seq<DiffRow>, i: int) -> Option<usize> {
    if rows[i].kind == DiffRowKind::ReferenceOnly {
        None
    } else {
        presented_number(rows[i].current_line)
    }
}

/// The text the reference side shows on row `i`, unless a marker label goes there.
pub open spec fn reference_text_at(rows: Seq<DiffRow>, source: Seq<Seq<char>>, i: int) -> Seq<char> {
    if rows[i].kind == DiffRowKind::CurrentOnly {
        Seq::empty()
    } else {
        presented_text(source, rows[i].reference_line)
    }
}

/// The text the current side shows on row `i`, unless a marker label goes there.
pub open spec fn current_text_at(rows: Seq<DiffRow>, source: Seq<Seq<char>>, i: int) -> Seq<char> {
    if rows[i].kind == DiffRowKind::ReferenceOnly {
        Seq::empty()
    } else {
        presented_text(source, rows[i].current_line)
    }
}

/// Row `i` carries a marker label on `side`.
pub open spec fn labelled_on(kinds: Seq<DiffRowKind>, i: int, side: PresentationSide) -> bool {
    row_marker(kinds, i) matches Some(m) && m.side == side
}

/// `entry` is the label of `marker` as far as the locale lets it be stated:
/// the translation of `spec_marker_message(marker)`, which for a run of other
/// than one line has the run's length filled into its template.
pub open spec fn labels_marker(entry: Seq<char>, marker: PlaceholderMarker) -> bool {
    marker.run_len != 1 ==> exists|template: Seq<char>|
        entry == spec_format_count(template, marker.run_len as nat)
}

/// `text` joins one entry per row, each entry as expected except where a
/// marker label goes, and there the marker's label.
pub open spec fn joins_rows(
    text: Seq<char>,
    kinds: Seq<DiffRowKind>,
    side: PresentationSide,
    expected: spec_fn(int) -> Seq<char>,
) -> bool {
    exists|entries: Seq<Seq<char>>|
        #![trigger spec_join(entries, newline())]
        entries.len() == kinds.len() && (forall|i: int|
            0 <= i < kinds.len() && !labelled_on(kinds, i, side) ==> #[trigger] entries[i]
                == expected(i)) && (forall|i: int|
            0 <= i < kinds.len() && labelled_on(kinds, i, side) ==> #[trigger] labels_marker(
                entries[i],
                row_marker(kinds, i)->0,
            )) && text == spec_join(entries, newline())
}

/// `p` presents `rows` over the given line texts: per row, each side's number,
/// the markers, no metadata rows, one placeholder per side without a line, and
/// both texts joined from the rows' texts.
pub open spec fn presents(
    p: DiffPresentation,
    rows: Seq<DiffRow>,
    reference: Seq<Seq<char>>,
    current: Seq<Seq<char>>,
) -> bool {
    let n = rows.len();
    let kinds = kinds_of(rows);
    &&& p.reference_line_numbers@ == Seq::new(n, |i: int| reference_number_at(rows, i))
    &&& p.current_line_numbers@ == Seq::new(n, |i: int| current_number_at(rows, i))
    &&& p.placeholder_markers@ == Seq::new(n, |i: int| row_marker(kinds, i))
    &&& p.metadata_rows@ == Seq::new(n, |i: int| false)
    &&& p.placeholder_count == count_none(p.reference_line_numbers@) + count_none(
        p.current_line_numbers@,
    )
    &&& joins_rows(
        p.reference_text@,
        kinds,
        PresentationSide::Reference,
        |i: int| reference_text_at(rows, reference, i),
    )
    &&& joins_rows(
        p.current_text@,
        kinds,
        PresentationSide::Current,
        |i: int| current_text_at(rows, current, i),
    )
}

/// Every line a row holds is below `usize::MAX`, so its 1-based number exists.
pub open spec fn numbered_lines(rows: Seq<DiffRow>) -> bool {
    forall|i: int|
        0 <= i < rows.len() ==> (#[trigger] rows[i].reference_line matches Some(l) ==> l
            < usize::MAX) && (rows[i].current_line matches Some(l) ==> l < usize::MAX)
}

/// Builds the side-by-side presentation of a model; a model too large to
/// compare, or without rows, gives the empty presentation.
pub fn build_presentation(model: &DiffRowModel, reference_lines: &[&str], current_lines: &[&str]) -> (p:
    DiffPresentation)
    requires
        model.rows@.len() <= usize::MAX / 2,
        numbered_lines(model.rows@),
    ensures
        if model.too_large || model.rows@.len() == 0 {
            p.reference_text@.len() == 0 && p.current_text@.len() == 0
                && p.reference_line_numbers@.len() == 0 && p.current_line_numbers@.len() == 0
                && p.placeholder_markers@.len() == 0 && p.metadata_rows@.len() == 0
                && p.placeholder_count == 0
        } else {
            presents(p, model.rows@, str_views(reference_lines@), str_views(current_lines@))
        },
{
    if model.too_large || model.rows.len() == 0 {
        return DiffPresentation::empty();
    }
    let ghost rows = model.rows@;
    let ghost kinds = kinds_of(rows);
    let ghost reference = str_views(reference_lines@);
    let ghost current = str_views(current_lines@);
    let n = model.rows.len();
    let mut reference_rows: Vec<String> = Vec::new();
    let mut current_rows: Vec<String> = Vec::new();
    let mut reference_numbers: Vec<Option<usize>> = Vec::new();
    let mut current_numbers: Vec<Option<usize>> = Vec::new();
    let mut placeholder_markers: Vec<Option<PlaceholderMarker>> = Vec::new();
    let mut placeholder_count: usize = 0;
    let mut row_index: usize = 0;
    while row_index < n
        invariant
            n == rows.len(),
            rows == model.rows@,
            kinds == kinds_of(rows),
            reference == str_views(reference_lines@),
            current == str_views(current_lines@),
            n <= usize::MAX / 2,
            numbered_lines(rows),
            row_index <= n,
            0 < row_index < n && kinds[row_index - 1] == kinds[row_index as int] ==> (kinds[row_index as int]
                == DiffRowKind::Equal || kinds[row_index as int] == DiffRowKind::Modify),
            reference_numbers@ == Seq::new(row_index as nat, |i: int| reference_number_at(rows, i)),
            current_numbers@ == Seq::new(row_index as nat, |i: int| current_number_at(rows, i)),
            placeholder_markers@ == Seq::new(row_index as nat, |i: int| row_marker(kinds, i)),
            reference_rows@.len() == row_index,
            current_rows@.len() == row_index,
            forall|i: int|
                0 <= i < row_index && !labelled_on(kinds, i, PresentationSide::Reference)
                    ==> #[trigger] string_views(reference_rows@)[i] == reference_text_at(
                    rows,
                    reference,
                    i,
                ),
            forall|i: int|
                0 <= i < row_index && !labelled_on(kinds, i, PresentationSide::Current)
                    ==> #[trigger] string_views(current_rows@)[i] == current_text_at(
                    rows,
                    current,
                    i,
                ),
            forall|i: int|
                0 <= i < row_index && labelled_on(kinds, i, PresentationSide::Reference) ==> #[trigger] labels_marker(
                    string_views(reference_rows@)[i],
                    row_marker(kinds, i)->0,
                ),
            forall|i: int|
                0 <= i < row_index && labelled_on(kinds, i, PresentationSide::Current) ==> #[trigger] labels_marker(
                    string_views(current_rows@)[i],
                    row_marker(kinds, i)->0,
                ),
            placeholder_count == count_none(reference_numbers@) + count_none(current_numbers@),
        decreases n - row_index,
    {
        proof {
            lemma_count_none_bound(reference_numbers@);
            lemma_count_none_bound(current_numbers@);
        }
        let kind = model.rows[row_index].kind;
        match kind {
            DiffRowKind::Equal | DiffRowKind::Modify => {
                let ghost before = (
                    reference_rows@,
                    current_rows@,
                    reference_numbers@,
                    current_numbers@,
                );
                push_line(
                    &mut reference_rows,
                    &mut reference_numbers,
                    reference_lines,
                    model.rows[row_index].reference_line,
                    &mut placeholder_count,
                );
                proof {
                    lemma_count_none_bound(current_numbers@);
                }
                push_line(
                    &mut current_rows,
                    &mut current_numbers,
                    current_lines,
                    model.rows[row_index].current_line,
                    &mut placeholder_count,
                );
                placeholder_markers.push(None);
                proof {
                    lemma_count_none_push(before.2, reference_number_at(rows, row_index as int));
                    lemma_count_none_push(before.3, current_number_at(rows, row_index as int));
                    lemma_string_views_push(before.0, reference_rows@);
                    lemma_string_views_push(before.1, current_rows@);
                }
                row_index += 1;
                assert(reference_numbers@ =~= Seq::new(
                    row_index as nat,
                    |i: int| reference_number_at(rows, i),
                ));
                assert(current_numbers@ =~= Seq::new(
                    row_index as nat,
                    |i: int| current_number_at(rows, i),
                ));
                assert(placeholder_markers@ =~= Seq::new(
                    row_index as nat,
                    |i: int| row_marker(kinds, i),
                ));
            },
            DiffRowKind::ReferenceOnly => {
                let run_len = same_kind_run_len(model, row_index, DiffRowKind::ReferenceOnly);
                proof {
                    lemma_run_len(kinds, row_index as int, DiffRowKind::ReferenceOnly);
                }
                let mut offset: usize = 0;
                while offset < run_len
                    invariant
                        n == rows.len(),
                        rows == model.rows@,
                        kinds == kinds_of(rows),
                        reference == str_views(reference_lines@),
                        current == str_views(current_lines@),
                        n <= usize::MAX / 2,
                        numbered_lines(rows),
                        row_index < n,
                        0 < run_len,
                        row_index + run_len <= n,
                        run_len == run_len_from(kinds, row_index as int, DiffRowKind::ReferenceOnly),
                        forall|t: int|
                            0 <= t < run_len ==> #[trigger] kinds[row_index + t]
                                == DiffRowKind::ReferenceOnly,
                        starts_run(kinds, row_index as int),
                        offset <= run_len,
                        reference_numbers@ == Seq::new(
                            (row_index + offset) as nat,
                            |i: int| reference_number_at(rows, i),
                        ),
                        current_numbers@ == Seq::new(
                            (row_index + offset) as nat,
                            |i: int| current_number_at(rows, i),
                        ),
                        placeholder_markers@ == Seq::new(
                            (row_index + offset) as nat,
                            |i: int| row_marker(kinds, i),
                        ),
                        reference_rows@.len() == row_index + offset,
                        current_rows@.len() == row_index + offset,
                        forall|i: int|
                            0 <= i < row_index + offset && !labelled_on(
                                kinds,
                                i,
                                PresentationSide::Reference,
                            ) ==> #[trigger] string_views(reference_rows@)[i] == reference_text_at(
                                rows,
                                reference,
                                i,
                            ),
                        forall|i: int|
                            0 <= i < row_index + offset && !labelled_on(
                                kinds,
                                i,
                                PresentationSide::Current,
                            ) ==> #[trigger] string_views(current_rows@)[i] == current_text_at(
                                rows,
                                current,
                                i,
                            ),
                        forall|i: int|
                            0 <= i < row_index + offset && labelled_on(kinds, i, PresentationSide::Reference) ==> #[trigger] labels_marker(
                                string_views(reference_rows@)[i],
                                row_marker(kinds, i)->0,
                            ),
                        forall|i: int|
                            0 <= i < row_index + offset && labelled_on(kinds, i, PresentationSide::Current) ==> #[trigger] labels_marker(
                                string_views(current_rows@)[i],
                                row_marker(kinds, i)->0,
                            ),
                        placeholder_count == count_none(reference_numbers@) + count_none(
                            current_numbers@,
                        ),
                    decreases run_len - offset,
                {
                    let i = row_index + offset;
                    proof {
                        lemma_count_none_bound(reference_numbers@);
                        lemma_count_none_bound(current_numbers@);
                        assert(kinds[i as int] == DiffRowKind::ReferenceOnly);
                        if offset > 0 {
                            assert(kinds[row_index + (offset - 1)] == DiffRowKind::ReferenceOnly);
                        }
                    }
                    let ghost before = (
                        reference_rows@,
                        current_rows@,
                        reference_numbers@,
                        current_numbers@,
                    );
                    push_line(
                        &mut reference_rows,
                        &mut reference_numbers,
                        reference_lines,
                        model.rows[i].reference_line,
                        &mut placeholder_count,
                    );
                    proof {
                        lemma_count_none_bound(reference_numbers@);
                    }
                    let marker = if offset == 0 {
                        Some(PlaceholderMarker { side: PresentationSide::Current, run_len })
                    } else {
                        None
                    };
                    match marker {
                        Some(m) => {
                            let label = marker_text(m);
                            push_placeholder(
                                &mut current_rows,
                                &mut current_numbers,
                                &mut placeholder_count,
                                Some(label.as_str()),
                            );
                        },
                        None => {
                            push_placeholder(
                                &mut current_rows,
                                &mut current_numbers,
                                &mut placeholder_count,
                                None,
                            );
                        },
                    }
                    placeholder_markers.push(marker);
                    proof {
                        lemma_count_none_push(before.2, reference_number_at(rows, i as int));
                        lemma_count_none_push(before.3, current_number_at(rows, i as int));
                        lemma_string_views_push(before.0, reference_rows@);
                        lemma_string_views_push(before.1, current_rows@);
                    }
                    offset += 1;
                    assert(reference_numbers@ =~= Seq::new(
                        (row_index + offset) as nat,
                        |i: int| reference_number_at(rows, i),
                    ));
                    assert(current_numbers@ =~= Seq::new(
                        (row_index + offset) as nat,
                        |i: int| current_number_at(rows, i),
                    ));
                    assert(placeholder_markers@ =~= Seq::new(
                        (row_index + offset) as nat,
                        |i: int| row_marker(kinds, i),
                    ));
                }
                proof {
                    assert(kinds[row_index + (run_len - 1)] == DiffRowKind::ReferenceOnly);
                }
                row_index += run_len;
            },
            DiffRowKind::CurrentOnly => {
                let run_len = same_kind_run_len(model, row_index, DiffRowKind::CurrentOnly);
                proof {
                    lemma_run_len(kinds, row_index as int, DiffRowKind::CurrentOnly);
                }
                let mut offset: usize = 0;
                while offset < run_len
                    invariant
                        n == rows.len(),
                        rows == model.rows@,
                        kinds == kinds_of(rows),
                        reference == str_views(reference_lines@),
                        current == str_views(current_lines@),
                        n <= usize::MAX / 2,
                        numbered_lines(rows),
                        row_index < n,
                        0 < run_len,
                        row_index + run_len <= n,
                        run_len == run_len_from(kinds, row_index as int, DiffRowKind::CurrentOnly),
                        forall|t: int|
                            0 <= t < run_len ==> #[trigger] kinds[row_index + t]
                                == DiffRowKind::CurrentOnly,
                        starts_run(kinds, row_index as int),
                        offset <= run_len,
                        reference_numbers@ == Seq::new(
                            (row_index + offset) as nat,
                            |i: int| reference_number_at(rows, i),
                        ),
                        current_numbers@ == Seq::new(
                            (row_index + offset) as nat,
                            |i: int| current_number_at(rows, i),
                        ),
                        placeholder_markers@ == Seq::new(
                            (row_index + offset) as nat,
                            |i: int| row_marker(kinds, i),
                        ),
                        reference_rows@.len() == row_index + offset,
                        current_rows@.len() == row_index + offset,
                        forall|i: int|
                            0 <= i < row_index + offset && !labelled_on(
                                kinds,
                                i,
                                PresentationSide::Reference,
                            ) ==> #[trigger] string_views(reference_rows@)[i] == reference_text_at(
                                rows,
                                reference,
                                i,
                            ),
                        forall|i: int|
                            0 <= i < row_index + offset && !labelled_on(
                                kinds,
                                i,
                                PresentationSide::Current,
                            ) ==> #[trigger] string_views(current_rows@)[i] == current_text_at(
                                rows,
                                current,
                                i,
                            ),
                        forall|i: int|
                            0 <= i < row_index + offset && labelled_on(kinds, i, PresentationSide::Reference) ==> #[trigger] labels_marker(
                                string_views(reference_rows@)[i],
                                row_marker(kinds, i)->0,
                            ),
                        forall|i: int|
                            0 <= i < row_index + offset && labelled_on(kinds, i, PresentationSide::Current) ==> #[trigger] labels_marker(
                                string_views(current_rows@)[i],
                                row_marker(kinds, i)->0,
                            ),
                        placeholder_count == count_none(reference_numbers@) + count_none(
                            current_numbers@,
                        ),
                    decreases run_len - offset,
                {
                    let i = row_index + offset;
                    proof {
                        lemma_count_none_bound(reference_numbers@);
                        lemma_count_none_bound(current_numbers@);
                        assert(kinds[i as int] == DiffRowKind::CurrentOnly);
                        if offset > 0 {
                            assert(kinds[row_index + (offset - 1)] == DiffRowKind::CurrentOnly);
                        }
                    }
                    let ghost before = (
                        reference_rows@,
                        current_rows@,
                        reference_numbers@,
                        current_numbers@,
                    );
                    let marker = if offset == 0 {
                        Some(PlaceholderMarker { side: PresentationSide::Reference, run_len })
                    } else {
                        None
                    };
                    match marker {
                        Some(m) => {
                            let label = marker_text(m);
                            push_placeholder(
                                &mut reference_rows,
                                &mut reference_numbers,
                                &mut placeholder_count,
                                Some(label.as_str()),
                            );
                        },
                        None => {
                            push_placeholder(
                                &mut reference_rows,
                                &mut reference_numbers,
                                &mut placeholder_count,
                                None,
                            );
                        },
                    }
                    placeholder_markers.push(marker);
                    proof {
                        lemma_count_none_bound(reference_numbers@);
                        lemma_count_none_bound(current_numbers@);
                    }
                    push_line(
                        &mut current_rows,
                        &mut current_numbers,
                        current_lines,
                        model.rows[i].current_line,
                        &mut placeholder_count,
                    );
                    proof {
                        lemma_count_none_push(before.2, reference_number_at(rows, i as int));
                        lemma_count_none_push(before.3, current_number_at(rows, i as int));
                        lemma_string_views_push(before.0, reference_rows@);
                        lemma_string_views_push(before.1, current_rows@);
                    }
                    offset += 1;
                    assert(reference_numbers@ =~= Seq::new(
                        (row_index + offset) as nat,
                        |i: int| reference_number_at(rows, i),
                    ));
                    assert(current_numbers@ =~= Seq::new(
                        (row_index + offset) as nat,
                        |i: int| current_number_at(rows, i),
                    ));
                    assert(placeholder_markers@ =~= Seq::new(
                        (row_index + offset) as nat,
                        |i: int| row_marker(kinds, i),
                    ));
                }
                proof {
                    assert(kinds[row_index + (run_len - 1)] == DiffRowKind::CurrentOnly);
                }
                row_index += run_len;
            },
        }
    }
    let mut metadata_rows: Vec<bool> = Vec::new();
    let mut i: usize = 0;
    while i < n
        invariant
            i <= n,
            metadata_rows@ == Seq::new(i as nat, |j: int| false),
        decreases n - i,
    {
        metadata_rows.push(false);
        i += 1;
        assert(metadata_rows@ =~= Seq::new(i as nat, |j: int| false));
    }
    let reference_text = join_lines(&reference_rows);
    let current_text = join_lines(&current_rows);
    let p = DiffPresentation {
        reference_text,
        current_text,
        reference_line_numbers: reference_numbers,
        current_line_numbers: current_numbers,
        placeholder_markers,
        metadata_rows,
        placeholder_count,
    };
    proof {
        let re = string_views(reference_rows@);
        let ce = string_views(current_rows@);
        assert(spec_join(re, newline()) == p.reference_text@);
        assert(spec_join(ce, newline()) == p.current_text@);
    }
    p
}

proof fn lemma_count_none_push(s: Seq<Option<usize>>, x: Option<usize>)
    ensures
        count_none(s.push(x)) == count_none(s) + if x is None {
            1nat
        } else {
            0nat
        },
{
    assert(s.push(x).drop_last() =~= s);
}

proof fn lemma_string_views_push(before: Seq<String>, after: Seq<String>)
    requires
        after.len() == before.len() + 1,
        forall|i: int| 0 <= i < before.len() ==> after[i] == before[i],
    ensures
        forall|i: int| 0 <= i < before.len() ==> #[trigger] string_views(after)[i] == string_views(before)[i],
{
}

proof fn lemma_run_len(kinds: Seq<DiffRowKind>, i: int, kind: DiffRowKind)
    requires
        0 <= i <= kinds.len(),
    ensures
        i + run_len_from(kinds, i, kind) <= kinds.len(),
        forall|t: int| 0 <= t < run_len_from(kinds, i, kind) ==> #[trigger] kinds[i + t] == kind,
        i + run_len_from(kinds, i, kind) < kinds.len() ==> kinds[i + run_len_from(kinds, i, kind)]
            != kind,
    decreases kinds.len() - i,
{
    if i < kinds.len() && kinds[i] == kind {
        lemma_run_len(kinds, i + 1, kind);
        assert forall|t: int| 0 <= t < run_len_from(kinds, i, kind) implies #[trigger] kinds[i + t]
            == kind by {
            if t > 0 {
                assert(kinds[(i + 1) + (t - 1)] == kind);
            }
        }
    }
}

/// Appends the text and number of one line of `source`; a missing line is a
/// placeholder (empty text, no number, counted).
pub fn push_line(
    rows: &mut Vec<String>,
    numbers: &mut Vec<Option<usize>>,
    source: &[&str],
    line: Option<usize>,
    placeholder_count: &mut usize,
)
    requires
        line matches Some(l) ==> l < usize::MAX,
        line is None ==> *old(placeholder_count) < usize::MAX,
    ensures
        final(rows)@.len() == old(rows)@.len() + 1,
        forall|i: int| 0 <= i < old(rows)@.len() ==> final(rows)@[i] == old(rows)@[i],
        final(rows)@.last()@ == presented_text(str_views(source@), line),
        final(numbers)@ == old(numbers)@.push(presented_number(line)),
        *final(placeholder_count) == *old(placeholder_count) + if line is None {
            1nat
        } else {
            0nat
        },
{
    match line {
        None => {
            push_placeholder(rows, numbers, placeholder_count, None);
        },
        Some(line) => {
            let text: &str = if line < source.len() {
                strip_line_ending(source[line])
            } else {
                ""
            };
            proof {
                reveal_strlit("");
            }
            rows.push(text.to_owned());
            numbers.push(Some(line + 1));
        },
    }
}

/// Appends a placeholder: the given label (or nothing), no number, counted.
pub fn push_placeholder(
    rows: &mut Vec<String>,
    numbers: &mut Vec<Option<usize>>,
    placeholder_count: &mut usize,
    text: Option<&str>,
)
    requires
        *old(placeholder_count) < usize::MAX,
    ensures
        final(rows)@.len() == old(rows)@.len() + 1,
        forall|i: int| 0 <= i < old(rows)@.len() ==> final(rows)@[i] == old(rows)@[i],
        final(rows)@.last()@ == match text {
            Some(t) => t@,
            None => Seq::<char>::empty(),
        },
        final(numbers)@ == old(numbers)@.push(None),
        *final(placeholder_count) == *old(placeholder_count) + 1,
{
    let value: &str = match text {
        Some(t) => t,
        None => "",
    };
    proof {
        reveal_strlit("");
    }
    rows.push(value.to_owned());
    numbers.push(None);
    *placeholder_count += 1;
}

/// Length of the run of rows of `kind` starting at row `start`.
pub fn same_kind_run_len(model: &DiffRowModel, start: usize, kind: DiffRowKind) -> (n: usize)
    requires
        start <= model.rows@.len(),
    ensures
        n == run_len_from(kinds_of(model.rows@), start as int, kind),
{
    let ghost kinds = kinds_of(model.rows@);
    let len = model.rows.len();
    let mut n: usize = 0;
    while start + n < len && model.rows[start + n].kind == kind
        invariant
            len == model.rows@.len(),
            start + n <= len,
            kinds == kinds_of(model.rows@),
            run_len_from(kinds, start as int, kind) == n + run_len_from(
                kinds,
                start + n,
                kind,
            ),
        decreases model.rows@.len() - start - n,
    {
        n += 1;
    }
    n
}

/// The message of a placeholder marker's label, in the context "compare
/// placeholder": on the reference side "Only in current" for one line, else
/// "N lines only in current" with its form selected by the run's length; the
/// same with "reference" on the current side.
pub open spec fn spec_marker_message(marker: PlaceholderMarker) -> MessageView {
    let context = "compare placeholder"@;
    match marker.side {
        PresentationSide::Reference => if marker.run_len == 1 {
            context_message(context, "Only in current"@)
        } else {
            plural_message(
                Some(context),
                "%d line only in current"@,
                "%d lines only in current"@,
                spec_plural_count(marker.run_len),
            )
        },
        PresentationSide::Current => if marker.run_len == 1 {
            context_message(context, "Only in reference"@)
        } else {
            plural_message(
                Some(context),
                "%d line only in reference"@,
                "%d lines only in reference"@,
                spec_plural_count(marker.run_len),
            )
        },
    }
}

/// The message of a placeholder marker's label (see `spec_marker_message`).
pub fn marker_message(marker: PlaceholderMarker) -> (message: Message)
    ensures
        message.wf(),
        message@ == spec_marker_message(marker),
{
    proof {
        reveal_strlit("compare placeholder");
        reveal_strlit("Only in current");
        reveal_strlit("Only in reference");
        reveal_strlit("%d line only in current");
        reveal_strlit("%d lines only in current");
        reveal_strlit("%d line only in reference");
        reveal_strlit("%d lines only in reference");
    }
    let context = Some("compare placeholder");
    let count = plural_count(marker.run_len);
    match (marker.side, marker.run_len) {
        (PresentationSide::Reference, 1) => Message { context, msgid: "Only in current", plural: None, count: 0 },
        // TRANSLATORS: Shown once on the empty reference side for a run of
        // lines that exists only in the current file.
        (PresentationSide::Reference, _) => Message {
            context,
            msgid: "%d line only in current",
            plural: Some("%d lines only in current"),
            count,
        },
        (PresentationSide::Current, 1) => Message { context, msgid: "Only in reference", plural: None, count: 0 },
        // TRANSLATORS: Shown once on the empty current side for a run of
        // lines that exists only in the reference file.
        (PresentationSide::Current, _) => Message {
            context,
            msgid: "%d line only in reference",
            plural: Some("%d lines only in reference"),
            count,
        },
    }
}

/// The label of a placeholder marker: `marker_message` translated, and for a
/// run of other than one line with the run's length filling the `%d` of the
/// template the locale gives.
pub fn marker_text(marker: PlaceholderMarker) -> (text: String)
    ensures
        marker.run_len != 1 ==> exists|template: Seq<char>|
            text@ == spec_format_count(template, marker.run_len as nat),
{
    let template = translate(&marker_message(marker));
    if marker.run_len == 1 {
        template
    } else {
        let text = format_count(template.as_str(), marker.run_len);
        assert(text@ == spec_format_count(template@, marker.run_len as nat));
        text
    }
}

} // verus!
