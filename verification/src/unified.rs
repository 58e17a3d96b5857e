//! The unified presentation of a display model: one flow of lines, removals
//! before additions, collapsed rows as label lines; and the collapsed runs a
//! cursor in that flow can reveal.
use vstd::prelude::*;

use crate::display::{CompareDisplayModel, CompareDisplayRow, DisplayRowId, DisplayRowIdKind};
use crate::inline::InlineRange;
use crate::model::{DiffRowKind, DiffSide};
use crate::review::ReviewKind;
use crate::text::{join_lines, newline, spec_join, string_views};

verus! {

#[derive(Clone, Copy, Debug, PartialEq, Eq, Structural)]
pub enum UnifiedLineSide {
    Context,
    Removal,
    Addition,
    Collapsed,
}

/// One line of the unified flow.
#[derive(Clone, Debug, PartialEq, Eq)]
pub struct UnifiedLine {
    pub display_row_id: DisplayRowId,
    pub logical_row: Option<usize>,
    pub side: UnifiedLineSide,
    pub reference_line: Option<usize>,
    pub current_line: Option<usize>,
    pub text: String,
    pub inline_ranges: Vec<InlineRange>,
}

/// What a unified line holds: its row identity, logical row, side, line
/// numbers, text and highlights.
pub type UnifiedLineView = (
    (Option<(ReviewKind, Seq<u8>)>, DisplayRowIdKind),
    Option<usize>,
    UnifiedLineSide,
    Option<usize>,
    Option<usize>,
    Seq<char>,
    Seq<InlineRange>,
);

impl View for UnifiedLine {
    type V = UnifiedLineView;

    open spec fn view(&self) -> UnifiedLineView {
        (
            self.display_row_id@,
            self.logical_row,
            self.side,
            self.reference_line,
            self.current_line,
            self.text@,
            self.inline_ranges@,
        )
    }
}

#[derive(Clone, Debug, Default, PartialEq, Eq)]
pub struct UnifiedPresentation {
    pub lines: Vec<UnifiedLine>,
}

pub open spec fn line_views(lines: Seq<UnifiedLine>) -> Seq<UnifiedLineView> {
    Seq::new(lines.len(), |i: int| lines[i]@)
}

/// The ranges of `ranges` on `side`, in order.
pub open spec fn ranges_on_side(ranges: Seq<InlineRange>, side: DiffSide) -> Seq<InlineRange>
    decreases ranges.len(),
{
    if ranges.len() == 0 {
        Seq::empty()
    } else {
        let prev = ranges_on_side(ranges.drop_last(), side);
        if ranges.last().side == side {
            prev.push(ranges.last())
        } else {
            prev
        }
    }
}

/// The text of an optional string, or nothing.
pub open spec fn text_or_empty(text: Option<String>) -> Seq<char> {
    match text {
        Some(t) => t@,
        None => Seq::empty(),
    }
}

/// The unified lines of one display row: a label line for each row that is
/// not content; a context line (the current text, else the reference text)
/// for an unchanged row; a removal, an addition, or a removal then an
/// addition with each side's highlights for a modified row.
pub open spec fn row_lines(row: CompareDisplayRow) -> Seq<UnifiedLineView> {
    match row {
        CompareDisplayRow::FileBoundary(b) => seq![
            (b.id@, None, UnifiedLineSide::Collapsed, None, None, b.path@, Seq::empty()),
        ],
        CompareDisplayRow::Collapsed(c) => seq![
            (c.id@, None, UnifiedLineSide::Collapsed, None, None, c.label@, Seq::empty()),
        ],
        CompareDisplayRow::SkippedMarker(m) => seq![
            (m.id@, None, UnifiedLineSide::Collapsed, None, None, m.reason@, Seq::empty()),
        ],
        CompareDisplayRow::Content(c) => {
            let removal = (
                c.id@,
                Some(c.logical_row),
                UnifiedLineSide::Removal,
                c.reference_line,
                None,
                text_or_empty(c.reference_text),
                if c.kind == DiffRowKind::Modify {
                    ranges_on_side(c.inline_ranges@, DiffSide::Reference)
                } else {
                    Seq::empty()
                },
            );
            let addition = (
                c.id@,
                Some(c.logical_row),
                UnifiedLineSide::Addition,
                None,
                c.current_line,
                text_or_empty(c.current_text),
                if c.kind == DiffRowKind::Modify {
                    ranges_on_side(c.inline_ranges@, DiffSide::Current)
                } else {
                    Seq::empty()
                },
            );
            match c.kind {
                DiffRowKind::Equal => seq![
                    (
                        c.id@,
                        Some(c.logical_row),
                        UnifiedLineSide::Context,
                        c.reference_line,
                        c.current_line,
                        match c.current_text {
                            Some(t) => t@,
                            None => text_or_empty(c.reference_text),
                        },
                        Seq::empty(),
                    ),
                ],
                DiffRowKind::ReferenceOnly => seq![removal],
                DiffRowKind::CurrentOnly => seq![addition],
                DiffRowKind::Modify => seq![removal, addition],
            }
        },
    }
}

/// Every highlight of a unified line lies on the side the line shows: a
/// removal line's highlights are reference-side, an addition line's are
/// current-side, and context and collapsed lines have none.
pub open spec fn highlights_on_own_side(line: UnifiedLineView) -> bool {
    match line.2 {
        UnifiedLineSide::Removal => forall|t: int| 0 <= t < line.6.len() ==> (#[trigger] line.6[t]).side == DiffSide::Reference,
        UnifiedLineSide::Addition => forall|t: int| 0 <= t < line.6.len() ==> (#[trigger] line.6[t]).side == DiffSide::Current,
        _ => line.6.len() == 0,
    }
}

/// Law: the ranges kept for a side are all on that side, each is one of the
/// given ranges, and every given range on that side is kept.
pub proof fn lemma_ranges_on_side_keeps_exactly_that_side(ranges: Seq<InlineRange>, side: DiffSide)
    ensures
        forall|t: int| 0 <= t < ranges_on_side(ranges, side).len() ==> (#[trigger] ranges_on_side(ranges, side)[t]).side
            == side && ranges.contains(ranges_on_side(ranges, side)[t]),
        forall|i: int| 0 <= i < ranges.len() && (#[trigger] ranges[i]).side == side ==> ranges_on_side(
            ranges,
            side,
        ).contains(ranges[i]),
    decreases ranges.len(),
{
    if ranges.len() > 0 {
        let init = ranges.drop_last();
        lemma_ranges_on_side_keeps_exactly_that_side(init, side);
        let kept = ranges_on_side(ranges, side);
        let prev = ranges_on_side(init, side);
        assert forall|t: int| 0 <= t < kept.len() implies (#[trigger] kept[t]).side == side && ranges.contains(
            kept[t],
        ) by {
            if t < prev.len() {
                assert(kept[t] == prev[t]);
                let i = choose|i: int| 0 <= i < init.len() && init[i] == prev[t];
                assert(ranges[i] == init[i]);
            } else {
                assert(kept[t] == ranges.last());
                assert(ranges[ranges.len() - 1] == ranges.last());
            }
        }
        assert forall|i: int| 0 <= i < ranges.len() && (#[trigger] ranges[i]).side == side implies kept.contains(
            ranges[i],
        ) by {
            if i < init.len() {
                assert(init[i] == ranges[i]);
                assert(prev.contains(init[i]));
                let t = choose|t: int| 0 <= t < prev.len() && prev[t] == init[i];
                assert(kept[t] == prev[t]);
            } else {
                assert(kept[kept.len() - 1] == ranges.last());
            }
        }
    }
}

/// Law: every unified line of a display row carries only the highlights of
/// the side it shows, and the removal and addition lines of a modified row
/// carry every highlight of their side.
pub proof fn lemma_row_lines_highlight_their_own_side(row: CompareDisplayRow)
    ensures
        forall|j: int| 0 <= j < row_lines(row).len() ==> #[trigger] highlights_on_own_side(row_lines(row)[j]),
        match row {
            CompareDisplayRow::Content(c) => c.kind == DiffRowKind::Modify ==> {
            &&& row_lines(row).len() == 2
            &&& row_lines(row)[0].2 == UnifiedLineSide::Removal
            &&& row_lines(row)[1].2 == UnifiedLineSide::Addition
            &&& forall|i: int|
                0 <= i < c.inline_ranges@.len() && (#[trigger] c.inline_ranges@[i]).side == DiffSide::Reference
                    ==> row_lines(row)[0].6.contains(c.inline_ranges@[i])
            &&& forall|i: int|
                0 <= i < c.inline_ranges@.len() && (#[trigger] c.inline_ranges@[i]).side == DiffSide::Current
                    ==> row_lines(row)[1].6.contains(c.inline_ranges@[i])
            },
            _ => true,
        },
{
    if let CompareDisplayRow::Content(c) = row {
        lemma_ranges_on_side_keeps_exactly_that_side(c.inline_ranges@, DiffSide::Reference);
        lemma_ranges_on_side_keeps_exactly_that_side(c.inline_ranges@, DiffSide::Current);
    }
}

/// The unified lines of display rows, row after row.
pub open spec fn unified_lines(rows: Seq<CompareDisplayRow>) -> Seq<UnifiedLineView>
    decreases rows.len(),
{
    if rows.len() == 0 {
        Seq::empty()
    } else {
        unified_lines(rows.drop_last()) + row_lines(rows.last())
    }
}

/// The ranges of `ranges` on `side`.
pub fn inline_ranges_for_side(ranges: &[InlineRange], side: DiffSide) -> (r: Vec<InlineRange>)
    ensures
        r@ == ranges_on_side(ranges@, side),
{
    let mut r: Vec<InlineRange> = Vec::new();
    let mut i: usize = 0;
    while i < ranges.len()
        invariant
            i <= ranges@.len(),
            r@ == ranges_on_side(ranges@.take(i as int), side),
        decreases ranges@.len() - i,
    {
        proof {
            assert(ranges@.take(i + 1).drop_last() =~= ranges@.take(i as int));
        }
        if ranges[i].side == side {
            r.push(ranges[i]);
        }
        i += 1;
    }
    assert(ranges@.take(i as int) =~= ranges@);
    r
}

/// The text of an optional string, or an empty string.
fn text_or_default(text: &Option<String>) -> (r: String)
    ensures
        r@ == text_or_empty(*text),
{
    match text {
        Some(t) => t.clone(),
        None => String::new(),
    }
}

/// Appends the unified lines of one display row (see `row_lines`).
pub fn push_row_lines(lines: &mut Vec<UnifiedLine>, row: &CompareDisplayRow)
    ensures
        line_views(final(lines)@) == line_views(old(lines)@) + row_lines(*row),
        forall|j: int|
            old(lines)@.len() <= j < final(lines)@.len() ==> #[trigger] highlights_on_own_side(final(lines)@[j]@),
        match *row {
            CompareDisplayRow::Content(c) => c.kind == DiffRowKind::Modify ==> {
            &&& final(lines)@.len() == old(lines)@.len() + 2
            &&& forall|i: int|
                0 <= i < c.inline_ranges@.len() && (#[trigger] c.inline_ranges@[i]).side == DiffSide::Reference
                    ==> final(lines)@[old(lines)@.len() as int].inline_ranges@.contains(c.inline_ranges@[i])
            &&& forall|i: int|
                0 <= i < c.inline_ranges@.len() && (#[trigger] c.inline_ranges@[i]).side == DiffSide::Current
                    ==> final(lines)@[old(lines)@.len() + 1int].inline_ranges@.contains(c.inline_ranges@[i])
            },
            _ => true,
        },
{
    let ghost before = lines@;
    match row {
        CompareDisplayRow::FileBoundary(b) => {
            lines.push(UnifiedLine {
                display_row_id: b.id.duplicate(),
                logical_row: None,
                side: UnifiedLineSide::Collapsed,
                reference_line: None,
                current_line: None,
                text: b.path.clone(),
                inline_ranges: Vec::new(),
            });
        },
        CompareDisplayRow::Collapsed(c) => {
            lines.push(UnifiedLine {
                display_row_id: c.id.duplicate(),
                logical_row: None,
                side: UnifiedLineSide::Collapsed,
                reference_line: None,
                current_line: None,
                text: c.label.clone(),
                inline_ranges: Vec::new(),
            });
        },
        CompareDisplayRow::SkippedMarker(m) => {
            lines.push(UnifiedLine {
                display_row_id: m.id.duplicate(),
                logical_row: None,
                side: UnifiedLineSide::Collapsed,
                reference_line: None,
                current_line: None,
                text: m.reason.clone(),
                inline_ranges: Vec::new(),
            });
        },
        CompareDisplayRow::Content(c) => match c.kind {
            DiffRowKind::Equal => {
                let text = match &c.current_text {
                    Some(t) => t.clone(),
                    None => text_or_default(&c.reference_text),
                };
                lines.push(UnifiedLine {
                    display_row_id: c.id.duplicate(),
                    logical_row: Some(c.logical_row),
                    side: UnifiedLineSide::Context,
                    reference_line: c.reference_line,
                    current_line: c.current_line,
                    text,
                    inline_ranges: Vec::new(),
                });
            },
            DiffRowKind::ReferenceOnly => {
                lines.push(UnifiedLine {
                    display_row_id: c.id.duplicate(),
                    logical_row: Some(c.logical_row),
                    side: UnifiedLineSide::Removal,
                    reference_line: c.reference_line,
                    current_line: None,
                    text: text_or_default(&c.reference_text),
                    inline_ranges: Vec::new(),
                });
            },
            DiffRowKind::CurrentOnly => {
                lines.push(UnifiedLine {
                    display_row_id: c.id.duplicate(),
                    logical_row: Some(c.logical_row),
                    side: UnifiedLineSide::Addition,
                    reference_line: None,
                    current_line: c.current_line,
                    text: text_or_default(&c.current_text),
                    inline_ranges: Vec::new(),
                });
            },
            DiffRowKind::Modify => {
                lines.push(UnifiedLine {
                    display_row_id: c.id.duplicate(),
                    logical_row: Some(c.logical_row),
                    side: UnifiedLineSide::Removal,
                    reference_line: c.reference_line,
                    current_line: None,
                    text: text_or_default(&c.reference_text),
                    inline_ranges: inline_ranges_for_side(c.inline_ranges.as_slice(), DiffSide::Reference),
                });
                lines.push(UnifiedLine {
                    display_row_id: c.id.duplicate(),
                    logical_row: Some(c.logical_row),
                    side: UnifiedLineSide::Addition,
                    reference_line: None,
                    current_line: c.current_line,
                    text: text_or_default(&c.current_text),
                    inline_ranges: inline_ranges_for_side(c.inline_ranges.as_slice(), DiffSide::Current),
                });
            },
        },
    }
    assert(line_views(lines@) =~= line_views(before) + row_lines(*row));
    proof {
        lemma_row_lines_highlight_their_own_side(*row);
        assert forall|j: int| before.len() <= j < lines@.len() implies #[trigger] highlights_on_own_side(lines@[j]@) by {
            assert(line_views(lines@)[j] == lines@[j]@);
            assert(line_views(lines@)[j] == row_lines(*row)[j - before.len()]);
        }
        if let CompareDisplayRow::Content(c) = row {
            if c.kind == DiffRowKind::Modify {
                assert(line_views(lines@)[before.len() as int] == lines@[before.len() as int]@);
                assert(line_views(lines@)[before.len() + 1int] == lines@[before.len() + 1int]@);
                assert(line_views(lines@)[before.len() as int] == row_lines(*row)[0]);
                assert(line_views(lines@)[before.len() + 1int] == row_lines(*row)[1]);
            }
        }
    }
}

/// Builds the unified presentation of a display model (see `unified_lines`).
pub fn build_unified_presentation(display: &CompareDisplayModel) -> (p: UnifiedPresentation)
    ensures
        line_views(p.lines@) == unified_lines(display.rows@),
        forall|j: int| 0 <= j < p.lines@.len() ==> #[trigger] highlights_on_own_side(p.lines@[j]@),
{
    let mut lines: Vec<UnifiedLine> = Vec::new();
    let mut k: usize = 0;
    while k < display.rows.len()
        invariant
            k <= display.rows@.len(),
            line_views(lines@) == unified_lines(display.rows@.take(k as int)),
            forall|j: int| 0 <= j < lines@.len() ==> #[trigger] highlights_on_own_side(lines@[j]@),
        decreases display.rows@.len() - k,
    {
        proof {
            assert(display.rows@.take(k + 1).drop_last() =~= display.rows@.take(k as int));
        }
        let ghost before = lines@;
        push_row_lines(&mut lines, &display.rows[k]);
        proof {
            assert forall|j: int| 0 <= j < lines@.len() implies #[trigger] highlights_on_own_side(lines@[j]@) by {
                if j < before.len() {
                    assert(line_views(lines@)[j] == lines@[j]@);
                    assert(line_views(before)[j] == before[j]@);
                    assert(highlights_on_own_side(before[j]@));
                }
            }
        }
        k += 1;
    }
    assert(display.rows@.take(k as int) =~= display.rows@);
    UnifiedPresentation { lines }
}

impl UnifiedPresentation {
    /// Number of lines.
    pub fn line_count(&self) -> (n: usize)
        ensures
            n == self.lines@.len(),
    {
        self.lines.len()
    }

    /// The texts of the lines, one per line.
    pub fn text(&self) -> (text: String)
        ensures
            text@ == spec_join(Seq::new(self.lines@.len(), |i: int| self.lines@[i].text@), newline()),
    {
        let mut texts: Vec<String> = Vec::new();
        let mut i: usize = 0;
        while i < self.lines.len()
            invariant
                i <= self.lines@.len(),
                string_views(texts@) == Seq::new(i as nat, |j: int| self.lines@[j].text@),
            decreases self.lines@.len() - i,
        {
            let ghost before = texts@;
            let text = self.lines[i].text.clone();
            texts.push(text);
            proof {
                assert(string_views(texts@) =~= string_views(before).push(self.lines@[i as int].text@));
            }
            i += 1;
            assert(string_views(texts@) =~= Seq::new(i as nat, |j: int| self.lines@[j].text@));
        }
        join_lines(&texts)
    }
}

/// The collapsed run a unified line stands for, if it is a collapsed line.
pub open spec fn unified_marker(line: UnifiedLine) -> Option<(usize, usize)> {
    match line.display_row_id.kind {
        DisplayRowIdKind::Collapsed { hidden_start, hidden_end } => Some((hidden_start, hidden_end)),
        _ => None,
    }
}

/// The nearest collapsed run at or above line `i`.
pub open spec fn unified_marker_at_or_above(lines: Seq<UnifiedLine>, i: int) -> Option<(usize, usize)>
    decreases i + 1,
{
    if i < 0 || i >= lines.len() {
        None
    } else {
        match unified_marker(lines[i]) {
            Some(m) => Some(m),
            None => unified_marker_at_or_above(lines, i - 1),
        }
    }
}

/// The collapsed run at or above line `cursor` (clamped to the last line)
/// of a unified flow, as its hidden rows.
pub open spec fn cursor_marker(lines: Seq<UnifiedLine>, cursor: usize) -> Option<(usize, usize)> {
    if lines.len() == 0 {
        None
    } else {
        unified_marker_at_or_above(
            lines,
            if cursor < lines.len() {
                cursor as int
            } else {
                lines.len() - 1
            },
        )
    }
}

/// The collapsed run at or above the cursor's line (see `cursor_marker`);
/// none when there is none.
pub fn current_collapsed_marker(presentation: &UnifiedPresentation, cursor: usize) -> (marker: Option<(usize, usize)>)
    ensures
        marker == cursor_marker(presentation.lines@, cursor),
{
    let n = presentation.lines.len();
    if n == 0 {
        return None;
    }
    let mut line_index = if cursor < n {
        cursor
    } else {
        n - 1
    };
    loop
        invariant
            line_index < n,
            n == presentation.lines@.len(),
            unified_marker_at_or_above(
                presentation.lines@,
                if cursor < n {
                    cursor as int
                } else {
                    n - 1
                },
            ) == unified_marker_at_or_above(presentation.lines@, line_index as int),
        decreases line_index,
    {
        if let DisplayRowIdKind::Collapsed { hidden_start, hidden_end } = presentation.lines[line_index].display_row_id.kind {
            return Some((hidden_start, hidden_end));
        }
        if line_index == 0 {
            assert(unified_marker_at_or_above(presentation.lines@, -1) is None);
            return None;
        }
        line_index -= 1;
    }
}

/// The first collapsed line at or after `from` whose run lies within `start..end`.
pub open spec fn unified_remaining_from(lines: Seq<UnifiedLine>, start: usize, end: usize, from: int) -> Option<int>
    decreases lines.len() - from,
{
    if from < 0 || from >= lines.len() {
        None
    } else if unified_marker(lines[from]) matches Some(m) && m.0 >= start && m.1 <= end {
        Some(from)
    } else {
        unified_remaining_from(lines, start, end, from + 1)
    }
}

/// After a reveal in the run `old_start..old_end`, the line of the first
/// collapsed run that remains of it, if any.
pub fn remaining_marker_line(presentation: &UnifiedPresentation, old_start: usize, old_end: usize) -> (line: Option<
    usize,
>)
    ensures
        match line {
            Some(l) => unified_remaining_from(presentation.lines@, old_start, old_end, 0) == Some(l as int),
            None => unified_remaining_from(presentation.lines@, old_start, old_end, 0) is None,
        },
{
    let mut i: usize = 0;
    while i < presentation.lines.len()
        invariant
            i <= presentation.lines@.len(),
            unified_remaining_from(presentation.lines@, old_start, old_end, 0) == unified_remaining_from(
                presentation.lines@,
                old_start,
                old_end,
                i as int,
            ),
        decreases presentation.lines@.len() - i,
    {
        if let DisplayRowIdKind::Collapsed { hidden_start, hidden_end } = presentation.lines[i].display_row_id.kind {
            if hidden_start >= old_start && hidden_end <= old_end {
                return Some(i);
            }
        }
        i += 1;
    }
    None
}

} // verus!
