//! The row model of a line diff: one row per aligned pair of lines, with dense
//! maps between rows and document lines, and hunks of nearby changes.
use std::ops::Range;
use vstd::prelude::*;

use crate::inline::{ranges_for_modify, ranges_within, InlineBudget, InlineRange};
use crate::text::str_views;

verus! {

/// Unchanged rows that may separate two changes of one hunk.
pub const HUNK_CONTEXT_ROWS: usize = 3;

#[derive(Clone, Copy, Debug, PartialEq, Eq, Structural)]
pub enum DiffSide {
    Reference,
    Current,
}

#[derive(Clone, Copy, Debug, PartialEq, Eq, Structural)]
pub enum DiffRowKind {
    Equal,
    ReferenceOnly,
    CurrentOnly,
    Modify,
}

#[derive(Clone, Debug, PartialEq, Eq)]
pub struct DiffRow {
    pub reference_line: Option<usize>,
    pub current_line: Option<usize>,
    pub kind: DiffRowKind,
    pub inline_ranges: Vec<InlineRange>,
}

#[derive(Clone, Debug, PartialEq, Eq)]
pub struct DiffHunk {
    pub first_row: usize,
    pub rows: Vec<usize>,
}

#[derive(Clone, Debug, PartialEq, Eq)]
pub struct DiffRowModel {
    pub too_large: bool,
    pub rows: Vec<DiffRow>,
    pub row_to_reference_line: Vec<Option<usize>>,
    pub row_to_current_line: Vec<Option<usize>>,
    pub reference_line_to_row: Vec<Option<usize>>,
    pub current_line_to_row: Vec<Option<usize>>,
    pub hunks: Vec<DiffHunk>,
}

#[derive(Clone, Copy, Debug, PartialEq, Eq, Structural)]
pub enum DiffLineTag {
    Equal,
    Delete,
    Insert,
    Replace,
}

/// One operation of a line diff: `reference_range` of the reference lines and
/// `current_range` of the current lines are equal, deleted, inserted or replaced.
#[derive(Debug, PartialEq, Eq)]
pub struct DiffLineOp {
    pub tag: DiffLineTag,
    pub reference_range: Range<usize>,
    pub current_range: Range<usize>,
}

/// What a row says about alignment: its reference line, its current line and its kind.
pub type RowShape = (Option<usize>, Option<usize>, DiffRowKind);

impl DiffRow {
    pub open spec fn shape(self) -> RowShape {
        (self.reference_line, self.current_line, self.kind)
    }

    /// Inline ranges only on modified rows, and each of them non-empty.
    pub open spec fn inline_ok(self) -> bool {
        &&& (self.kind != DiffRowKind::Modify ==> self.inline_ranges@.len() == 0)
        &&& forall|j: int|
            0 <= j < self.inline_ranges@.len() ==> #[trigger] self.inline_ranges@[j].start
                < self.inline_ranges@[j].end
    }

    pub fn new(reference_line: Option<usize>, current_line: Option<usize>, kind: DiffRowKind) -> (row: Self)
        ensures
            row.reference_line == reference_line,
            row.current_line == current_line,
            row.kind == kind,
            row.inline_ranges@.len() == 0,
    {
        DiffRow { reference_line, current_line, kind, inline_ranges: Vec::new() }
    }
}

pub open spec fn shapes(rows: Seq<DiffRow>) -> Seq<RowShape> {
    Seq::new(rows.len(), |i: int| rows[i].shape())
}

pub open spec fn rows_inline_ok(rows: Seq<DiffRow>) -> bool {
    forall|i: int| 0 <= i < rows.len() ==> #[trigger] rows[i].inline_ok()
}

/// Number of indices a range covers (none when it is reversed).
pub open spec fn range_len(r: Range<usize>) -> nat {
    if r.start <= r.end {
        (r.end - r.start) as nat
    } else {
        0nat
    }
}

pub open spec fn min_nat(a: nat, b: nat) -> nat {
    if a <= b {
        a
    } else {
        b
    }
}

/// `n` rows pairing reference line `a + t` with current line `b + t`.
pub open spec fn paired_rows(a: int, b: int, n: nat, kind: DiffRowKind) -> Seq<RowShape> {
    Seq::new(n, |t: int| (Some((a + t) as usize), Some((b + t) as usize), kind))
}

/// `n` rows holding reference lines `a..a + n` only.
pub open spec fn reference_only_rows(a: int, n: nat) -> Seq<RowShape> {
    Seq::new(n, |t: int| (Some((a + t) as usize), None, DiffRowKind::ReferenceOnly))
}

/// `n` rows holding current lines `b..b + n` only.
pub open spec fn current_only_rows(b: int, n: nat) -> Seq<RowShape> {
    Seq::new(n, |t: int| (None, Some((b + t) as usize), DiffRowKind::CurrentOnly))
}

/// The rows one operation contributes: equal lines pair up (as far as both
/// ranges go), deletions and insertions give one-sided rows, and a replacement
/// pairs lines into modified rows before its surplus lines on either side.
pub open spec fn op_rows(op: DiffLineOp) -> Seq<RowShape> {
    let a = op.reference_range.start as int;
    let b = op.current_range.start as int;
    let la = range_len(op.reference_range);
    let lb = range_len(op.current_range);
    let p = min_nat(la, lb);
    match op.tag {
        DiffLineTag::Equal => paired_rows(a, b, p, DiffRowKind::Equal),
        DiffLineTag::Delete => reference_only_rows(a, la),
        DiffLineTag::Insert => current_only_rows(b, lb),
        DiffLineTag::Replace => paired_rows(a, b, p, DiffRowKind::Modify) + reference_only_rows(
            a + p,
            (la - p) as nat,
        ) + current_only_rows(b + p, (lb - p) as nat),
    }
}

/// The rows of a whole operation list, in order.
pub open spec fn ops_rows(ops: Seq<DiffLineOp>) -> Seq<RowShape>
    decreases ops.len(),
{
    if ops.len() == 0 {
        Seq::empty()
    } else {
        ops_rows(ops.drop_last()) + op_rows(ops.last())
    }
}

/// The lines a replacement pairs exist on both sides, so their texts can be read.
pub open spec fn replace_pairs_in_bounds(ops: Seq<DiffLineOp>, n_ref: nat, n_cur: nat) -> bool {
    forall|k: int|
        0 <= k < ops.len() && #[trigger] ops[k].tag == DiffLineTag::Replace ==> {
            let p = min_nat(range_len(ops[k].reference_range), range_len(ops[k].current_range));
            p == 0 || (ops[k].reference_range.start + p <= n_ref && ops[k].current_range.start + p
                <= n_cur)
        }
}

/// Rows `push_replace_rows` appends for the given line lists.
pub open spec fn replace_rows(reference_lines: Seq<usize>, current_lines: Seq<usize>) -> Seq<
    RowShape,
> {
    let p = min_nat(reference_lines.len(), current_lines.len());
    Seq::new(p, |i: int| (Some(reference_lines[i]), Some(current_lines[i]), DiffRowKind::Modify))
        + Seq::new(
        (reference_lines.len() - p) as nat,
        |i: int| (Some(reference_lines[p + i]), None, DiffRowKind::ReferenceOnly),
    ) + Seq::new(
        (current_lines.len() - p) as nat,
        |i: int| (None, Some(current_lines[p + i]), DiffRowKind::CurrentOnly),
    )
}

proof fn lemma_replace_rows_at(reference_lines: Seq<usize>, current_lines: Seq<usize>, i: int)
    requires
        0 <= i < reference_lines.len() + current_lines.len() - min_nat(
            reference_lines.len(),
            current_lines.len(),
        ),
    ensures
        ({
            let p = min_nat(reference_lines.len(), current_lines.len());
            replace_rows(reference_lines, current_lines)[i] == if i < p {
                (Some(reference_lines[i]), Some(current_lines[i]), DiffRowKind::Modify)
            } else if i < reference_lines.len() {
                (Some(reference_lines[i]), None, DiffRowKind::ReferenceOnly)
            } else {
                (None, Some(current_lines[i - reference_lines.len() + p]), DiffRowKind::CurrentOnly)
            }
        }),
        replace_rows(reference_lines, current_lines).len() == reference_lines.len()
            + current_lines.len() - min_nat(reference_lines.len(), current_lines.len()),
{
}

/// Appends the rows of a replacement: modified rows for the lines both sides
/// pair (with inline ranges), then the surplus reference lines, then the
/// surplus current lines.
pub fn push_replace_rows(
    rows: &mut Vec<DiffRow>,
    reference_lines: &[usize],
    current_lines: &[usize],
    reference: &[&str],
    current: &[&str],
    inline_budget: &InlineBudget,
)
    requires
        forall|i: int|
            0 <= i < min_nat(reference_lines@.len(), current_lines@.len()) ==> reference_lines@[i]
                < reference@.len() && current_lines@[i] < current@.len(),
    ensures
        shapes(final(rows)@) == shapes(old(rows)@) + replace_rows(reference_lines@, current_lines@),
        rows_inline_ok(old(rows)@) ==> rows_inline_ok(final(rows)@),
        rows_ranges_fit(old(rows)@, str_views(reference@), str_views(current@)) ==> rows_ranges_fit(final(rows)@, str_views(reference@), str_views(current@)),
{
    let ghost base = old(rows)@;
    let paired = if reference_lines.len() <= current_lines.len() {
        reference_lines.len()
    } else {
        current_lines.len()
    };
    let ghost spec_rows = replace_rows(reference_lines@, current_lines@);
    let mut index: usize = 0;
    while index < paired
        invariant
            index <= paired,
            paired == min_nat(reference_lines@.len(), current_lines@.len()),
            forall|i: int|
                0 <= i < paired ==> reference_lines@[i] < reference@.len() && current_lines@[i]
                    < current@.len(),
            rows@.len() == base.len() + index,
            shapes(rows@) == shapes(base) + spec_rows.take(index as int),
            rows_inline_ok(base) ==> rows_inline_ok(rows@),
            rows_ranges_fit(base, str_views(reference@), str_views(current@)) ==> rows_ranges_fit(rows@, str_views(reference@), str_views(current@)),
            spec_rows == replace_rows(reference_lines@, current_lines@),
        decreases paired - index,
    {
        let reference_line = reference_lines[index];
        let current_line = current_lines[index];
        let mut row = DiffRow::new(Some(reference_line), Some(current_line), DiffRowKind::Modify);
        row.inline_ranges = ranges_for_modify(
            reference[reference_line],
            current[current_line],
            inline_budget,
        );
        let ghost prev = rows@;
        let ghost shape = row.shape();
        let ghost pushed = row;
        rows.push(row);
        proof {
            lemma_push_fits(prev, pushed, str_views(reference@), str_views(current@));
            lemma_replace_rows_at(reference_lines@, current_lines@, index as int);
            assert(shapes(rows@) =~= shapes(prev).push(shape));
            assert(spec_rows.take(index + 1) =~= spec_rows.take(index as int).push(spec_rows[index as int]));
            if rows_inline_ok(base) {
                assert forall|i: int| 0 <= i < rows@.len() implies #[trigger] rows@[i].inline_ok() by {
                    if i < prev.len() {
                        assert(rows@[i] == prev[i]);
                    }
                }
            }
        }
        index += 1;
    }
    let mut index: usize = paired;
    while index < reference_lines.len()
        invariant
            paired <= index <= reference_lines@.len(),
            paired == min_nat(reference_lines@.len(), current_lines@.len()),
            rows@.len() == base.len() + index,
            shapes(rows@) == shapes(base) + spec_rows.take(index as int),
            rows_inline_ok(base) ==> rows_inline_ok(rows@),
            rows_ranges_fit(base, str_views(reference@), str_views(current@)) ==> rows_ranges_fit(rows@, str_views(reference@), str_views(current@)),
            spec_rows == replace_rows(reference_lines@, current_lines@),
        decreases reference_lines@.len() - index,
    {
        let row = DiffRow::new(Some(reference_lines[index]), None, DiffRowKind::ReferenceOnly);
        let ghost prev = rows@;
        let ghost shape = row.shape();
        let ghost pushed = row;
        rows.push(row);
        proof {
            lemma_push_fits(prev, pushed, str_views(reference@), str_views(current@));
            lemma_replace_rows_at(reference_lines@, current_lines@, index as int);
            assert(shapes(rows@) =~= shapes(prev).push(shape));
            assert(spec_rows.take(index + 1) =~= spec_rows.take(index as int).push(spec_rows[index as int]));
            if rows_inline_ok(base) {
                assert forall|i: int| 0 <= i < rows@.len() implies #[trigger] rows@[i].inline_ok() by {
                    if i < prev.len() {
                        assert(rows@[i] == prev[i]);
                    }
                }
            }
        }
        index += 1;
    }
    let mut index: usize = paired;
    while index < current_lines.len()
        invariant
            paired <= index <= current_lines@.len(),
            paired == min_nat(reference_lines@.len(), current_lines@.len()),
            rows@.len() == base.len() + reference_lines@.len() + (index - paired),
            shapes(rows@) == shapes(base) + spec_rows.take(
                reference_lines@.len() + (index - paired),
            ),
            rows_inline_ok(base) ==> rows_inline_ok(rows@),
            rows_ranges_fit(base, str_views(reference@), str_views(current@)) ==> rows_ranges_fit(rows@, str_views(reference@), str_views(current@)),
            spec_rows == replace_rows(reference_lines@, current_lines@),
        decreases current_lines@.len() - index,
    {
        let row = DiffRow::new(None, Some(current_lines[index]), DiffRowKind::CurrentOnly);
        let ghost prev = rows@;
        let ghost shape = row.shape();
        let ghost pushed = row;
        let ghost pos: int = reference_lines@.len() + (index - paired);
        rows.push(row);
        proof {
            lemma_push_fits(prev, pushed, str_views(reference@), str_views(current@));
            lemma_replace_rows_at(reference_lines@, current_lines@, pos);
            assert(shapes(rows@) =~= shapes(prev).push(shape));
            assert(spec_rows.take(pos + 1) =~= spec_rows.take(pos).push(spec_rows[pos]));
            if rows_inline_ok(base) {
                assert forall|i: int| 0 <= i < rows@.len() implies #[trigger] rows@[i].inline_ok() by {
                    if i < prev.len() {
                        assert(rows@[i] == prev[i]);
                    }
                }
            }
        }
        index += 1;
    }
    proof {
        if reference_lines@.len() + current_lines@.len() - paired > 0 {
            lemma_replace_rows_at(reference_lines@, current_lines@, 0);
        }
        assert(spec_rows.take(spec_rows.len() as int) =~= spec_rows);
    }
}


// ---------------------------------------------------------------------------
// Building the model
// ---------------------------------------------------------------------------

/// `len` consecutive indices starting at `start`.
fn range_vec(start: usize, len: usize) -> (v: Vec<usize>)
    requires
        start + len <= usize::MAX,
    ensures
        v@ == Seq::new(len as nat, |t: int| (start + t) as usize),
{
    let mut v: Vec<usize> = Vec::new();
    let mut t: usize = 0;
    while t < len
        invariant
            t <= len,
            start + len <= usize::MAX,
            v@ == Seq::new(t as nat, |i: int| (start + i) as usize),
        decreases len - t,
    {
        v.push(start + t);
        t += 1;
        assert(v@ =~= Seq::new(t as nat, |i: int| (start + i) as usize));
    }
    v
}

proof fn lemma_ops_rows_step(ops: Seq<DiffLineOp>, k: int)
    requires
        0 <= k < ops.len(),
    ensures
        ops_rows(ops.take(k + 1)) == ops_rows(ops.take(k)) + op_rows(ops[k]),
{
    assert(ops.take(k + 1).drop_last() =~= ops.take(k));
    assert(ops.take(k + 1).last() == ops[k]);
}

/// A modified row's inline ranges lie within its two lines: each range ends
/// within the character count of the line on its side.
pub open spec fn row_ranges_fit(row: DiffRow, reference: Seq<Seq<char>>, current: Seq<Seq<char>>) -> bool {
    (row.kind == DiffRowKind::Modify && row.reference_line is Some && row.current_line is Some
        && row.reference_line->0 < reference.len() && row.current_line->0 < current.len()) ==> ranges_within(
        row.inline_ranges@,
        reference[row.reference_line->0 as int].len(),
        current[row.current_line->0 as int].len(),
    )
}

/// Every modified row's inline ranges lie within its two lines.
pub open spec fn rows_ranges_fit(rows: Seq<DiffRow>, reference: Seq<Seq<char>>, current: Seq<Seq<char>>) -> bool {
    forall|i: int| 0 <= i < rows.len() ==> #[trigger] row_ranges_fit(rows[i], reference, current)
}

proof fn lemma_push_fits(rows: Seq<DiffRow>, row: DiffRow, reference: Seq<Seq<char>>, current: Seq<Seq<char>>)
    ensures
        row.inline_ranges@.len() == 0 ==> row_ranges_fit(row, reference, current),
        rows_ranges_fit(rows, reference, current) && row_ranges_fit(row, reference, current)
            ==> rows_ranges_fit(rows.push(row), reference, current),
{
    if rows_ranges_fit(rows, reference, current) && row_ranges_fit(row, reference, current) {
        assert forall|i: int| 0 <= i < rows.push(row).len() implies #[trigger] row_ranges_fit(
            rows.push(row)[i],
            reference,
            current,
        ) by {
            if i < rows.len() {
                assert(rows.push(row)[i] == rows[i]);
            }
        }
    }
}

proof fn lemma_push_shape(rows: Seq<DiffRow>, row: DiffRow)
    ensures
        shapes(rows.push(row)) == shapes(rows).push(row.shape()),
        rows_inline_ok(rows) && row.inline_ok() ==> rows_inline_ok(rows.push(row)),
{
    assert(shapes(rows.push(row)) =~= shapes(rows).push(row.shape()));
    if rows_inline_ok(rows) && row.inline_ok() {
        assert forall|i: int| 0 <= i < rows.push(row).len() implies #[trigger] rows.push(
            row,
        )[i].inline_ok() by {
            if i < rows.len() {
                assert(rows.push(row)[i] == rows[i]);
            }
        }
    }
}

/// Builds the row model of a line diff: the rows of every operation in order,
/// then the line maps and hunks (see `finish_model`).
pub fn build_row_model(ops: &[DiffLineOp], reference: &[&str], current: &[&str]) -> (model:
    DiffRowModel)
    requires
        replace_pairs_in_bounds(ops@, reference@.len() as nat, current@.len() as nat),
    ensures
        shapes(model.rows@) == ops_rows(ops@),
        rows_inline_ok(model.rows@),
        rows_ranges_fit(model.rows@, str_views(reference@), str_views(current@)),
        model.finished(reference@.len() as nat, current@.len() as nat),
        ops_align(ops@, reference@.len() as nat, current@.len() as nat) ==> complete_line_identity(
            model,
            reference@.len() as nat,
            current@.len() as nat,
        ),
{
    let mut rows: Vec<DiffRow> = Vec::new();
    let inline_budget = InlineBudget::new();
    let mut k: usize = 0;
    while k < ops.len()
        invariant
            k <= ops@.len(),
            shapes(rows@) == ops_rows(ops@.take(k as int)),
            rows_inline_ok(rows@),
            rows_ranges_fit(rows@, str_views(reference@), str_views(current@)),
            replace_pairs_in_bounds(ops@, reference@.len() as nat, current@.len() as nat),
        decreases ops@.len() - k,
    {
        let op = &ops[k];
        let a = op.reference_range.start;
        let ae = op.reference_range.end;
        let b = op.current_range.start;
        let be = op.current_range.end;
        let la: usize = if a <= ae { ae - a } else { 0 };
        let lb: usize = if b <= be { be - b } else { 0 };
        let p: usize = if la <= lb { la } else { lb };
        let ghost before = rows@;
        match op.tag {
            DiffLineTag::Equal => {
                let mut t: usize = 0;
                while t < p
                    invariant
                        t <= p,
                        p <= la,
                        p <= lb,
                        a + la <= usize::MAX,
                        b + lb <= usize::MAX,
                        shapes(rows@) == shapes(before) + paired_rows(
                            a as int,
                            b as int,
                            t as nat,
                            DiffRowKind::Equal,
                        ),
                        rows_inline_ok(rows@),
                        rows_ranges_fit(rows@, str_views(reference@), str_views(current@)),
                    decreases p - t,
                {
                    let row = DiffRow::new(Some(a + t), Some(b + t), DiffRowKind::Equal);
                    proof {
                        lemma_push_shape(rows@, row);
                        lemma_push_fits(rows@, row, str_views(reference@), str_views(current@));
                    }
                    rows.push(row);
                    t += 1;
                    assert(shapes(rows@) =~= shapes(before) + paired_rows(
                        a as int,
                        b as int,
                        t as nat,
                        DiffRowKind::Equal,
                    ));
                }
            },
            DiffLineTag::Delete => {
                let mut t: usize = 0;
                while t < la
                    invariant
                        t <= la,
                        a + la <= usize::MAX,
                        shapes(rows@) == shapes(before) + reference_only_rows(a as int, t as nat),
                        rows_inline_ok(rows@),
                        rows_ranges_fit(rows@, str_views(reference@), str_views(current@)),
                    decreases la - t,
                {
                    let row = DiffRow::new(Some(a + t), None, DiffRowKind::ReferenceOnly);
                    proof {
                        lemma_push_shape(rows@, row);
                        lemma_push_fits(rows@, row, str_views(reference@), str_views(current@));
                    }
                    rows.push(row);
                    t += 1;
                    assert(shapes(rows@) =~= shapes(before) + reference_only_rows(
                        a as int,
                        t as nat,
                    ));
                }
            },
            DiffLineTag::Insert => {
                let mut t: usize = 0;
                while t < lb
                    invariant
                        t <= lb,
                        b + lb <= usize::MAX,
                        shapes(rows@) == shapes(before) + current_only_rows(b as int, t as nat),
                        rows_inline_ok(rows@),
                        rows_ranges_fit(rows@, str_views(reference@), str_views(current@)),
                    decreases lb - t,
                {
                    let row = DiffRow::new(None, Some(b + t), DiffRowKind::CurrentOnly);
                    proof {
                        lemma_push_shape(rows@, row);
                        lemma_push_fits(rows@, row, str_views(reference@), str_views(current@));
                    }
                    rows.push(row);
                    t += 1;
                    assert(shapes(rows@) =~= shapes(before) + current_only_rows(
                        b as int,
                        t as nat,
                    ));
                }
            },
            DiffLineTag::Replace => {
                let reference_lines = range_vec(a, la);
                let current_lines = range_vec(b, lb);
                proof {
                    assert(ops@[k as int].tag == DiffLineTag::Replace);
                }
                push_replace_rows(
                    &mut rows,
                    &reference_lines,
                    &current_lines,
                    reference,
                    current,
                    &inline_budget,
                );
                assert(replace_rows(reference_lines@, current_lines@) =~= op_rows(ops@[k as int]));
            },
        }
        proof {
            lemma_ops_rows_step(ops@, k as int);
            assert(shapes(rows@) =~= ops_rows(ops@.take(k + 1)));
        }
        k += 1;
    }
    assert(ops@.take(ops@.len() as int) =~= ops@);
    let model = finish_model(rows, reference.len(), current.len());
    proof {
        if ops_align(ops@, reference@.len() as nat, current@.len() as nat) {
            lemma_aligned_ops_give_line_identity(
                ops@,
                model,
                reference@.len() as nat,
                current@.len() as nat,
            );
        }
    }
    model
}

/// Whether a row's line entry is `line`.
pub open spec fn holds(entry: Option<usize>, line: int) -> bool {
    entry is Some && entry->0 == line
}

/// Index of the last of the first `k` rows that holds `line`, if any.
pub open spec fn last_row_with(row_lines: Seq<Option<usize>>, line: int, k: int) -> Option<usize>
    decreases k,
{
    if k <= 0 {
        None
    } else if holds(row_lines[k - 1], line) {
        Some((k - 1) as usize)
    } else {
        last_row_with(row_lines, line, k - 1)
    }
}

/// The reference line of every row.
pub open spec fn reference_lines_of(rows: Seq<DiffRow>) -> Seq<Option<usize>> {
    Seq::new(rows.len(), |i: int| rows[i].reference_line)
}

/// The current line of every row.
pub open spec fn current_lines_of(rows: Seq<DiffRow>) -> Seq<Option<usize>> {
    Seq::new(rows.len(), |i: int| rows[i].current_line)
}

/// The kind of every row.
pub open spec fn kinds_of(rows: Seq<DiffRow>) -> Seq<DiffRowKind> {
    Seq::new(rows.len(), |i: int| rows[i].kind)
}

/// The dense map from the `n` lines of one side to the last row holding each.
pub open spec fn line_to_row_spec(row_lines: Seq<Option<usize>>, n: nat) -> Seq<Option<usize>> {
    Seq::new(n, |line: int| last_row_with(row_lines, line, row_lines.len() as int))
}

/// Result of the grouping scan after the first `k` rows: closed hunks, the
/// open hunk and the run of unchanged rows since its last change.
pub open spec fn hunk_scan(kinds: Seq<DiffRowKind>, k: nat) -> (Seq<Seq<usize>>, Seq<usize>, nat)
    decreases k,
{
    if k == 0 {
        (Seq::empty(), Seq::empty(), 0nat)
    } else {
        let (hunks, open, gap) = hunk_scan(kinds, (k - 1) as nat);
        let i = k - 1;
        if kinds[i] == DiffRowKind::Equal {
            if open.len() == 0 {
                (hunks, open, gap)
            } else if gap + 1 > HUNK_CONTEXT_ROWS {
                (hunks.push(open), Seq::empty(), 0nat)
            } else {
                (hunks, open, gap + 1)
            }
        } else {
            (hunks, open.push(i as usize), 0nat)
        }
    }
}

/// The hunks of a row sequence: changed rows grouped while at most
/// `HUNK_CONTEXT_ROWS` unchanged rows separate them.
pub open spec fn spec_hunks(kinds: Seq<DiffRowKind>) -> Seq<Seq<usize>> {
    let (hunks, open, _gap) = hunk_scan(kinds, kinds.len());
    if open.len() == 0 {
        hunks
    } else {
        hunks.push(open)
    }
}

/// The row lists of the hunks.
pub open spec fn hunk_rows(hunks: Seq<DiffHunk>) -> Seq<Seq<usize>> {
    Seq::new(hunks.len(), |i: int| hunks[i].rows@)
}

/// Every hunk is non-empty and starts at its first row.
pub open spec fn hunks_well_formed(hunks: Seq<DiffHunk>) -> bool {
    forall|i: int|
        0 <= i < hunks.len() ==> #[trigger] hunks[i].rows@.len() > 0 && hunks[i].first_row
            == hunks[i].rows@[0]
}

impl DiffRowModel {
    /// The state `finish_model` leaves: the row maps list each row's lines,
    /// each line of the `n_ref` (`n_cur`) lines maps to the last row holding
    /// it, and the hunks group the changed rows.
    pub open spec fn finished(self, n_ref: nat, n_cur: nat) -> bool {
        &&& !self.too_large
        &&& self.row_to_reference_line@ == reference_lines_of(self.rows@)
        &&& self.row_to_current_line@ == current_lines_of(self.rows@)
        &&& self.reference_line_to_row@ == line_to_row_spec(self.row_to_reference_line@, n_ref)
        &&& self.current_line_to_row@ == line_to_row_spec(self.row_to_current_line@, n_cur)
        &&& hunk_rows(self.hunks@) == spec_hunks(kinds_of(self.rows@))
        &&& hunks_well_formed(self.hunks@)
    }
}

/// For each of `n` lines, the last row that holds it.
fn line_to_row_map(row_lines: &Vec<Option<usize>>, n: usize) -> (map: Vec<Option<usize>>)
    ensures
        map@ == line_to_row_spec(row_lines@, n as nat),
{
    let mut map: Vec<Option<usize>> = Vec::new();
    let mut line: usize = 0;
    while line < n
        invariant
            line <= n,
            map@ == Seq::new(line as nat, |l: int| None::<usize>),
        decreases n - line,
    {
        map.push(None);
        line += 1;
        assert(map@ =~= Seq::new(line as nat, |l: int| None::<usize>));
    }
    let mut row_index: usize = 0;
    while row_index < row_lines.len()
        invariant
            row_index <= row_lines@.len(),
            map@.len() == n,
            forall|l: int| 0 <= l < n ==> #[trigger] map@[l] == last_row_with(row_lines@, l, row_index as int),
        decreases row_lines@.len() - row_index,
    {
        if let Some(line) = row_lines[row_index] {
            if line < map.len() {
                map[line] = Some(row_index);
            }
        }
        row_index += 1;
    }
    assert(map@ =~= line_to_row_spec(row_lines@, n as nat));
    map
}

/// The reference line of every row, in row order.
fn row_reference_lines(rows: &Vec<DiffRow>) -> (v: Vec<Option<usize>>)
    ensures
        v@ == reference_lines_of(rows@),
{
    let mut v: Vec<Option<usize>> = Vec::new();
    let mut i: usize = 0;
    while i < rows.len()
        invariant
            i <= rows@.len(),
            v@ == reference_lines_of(rows@).take(i as int),
        decreases rows@.len() - i,
    {
        v.push(rows[i].reference_line);
        i += 1;
        assert(v@ =~= reference_lines_of(rows@).take(i as int));
    }
    assert(reference_lines_of(rows@).take(i as int) =~= reference_lines_of(rows@));
    v
}

/// The current line of every row, in row order.
fn row_current_lines(rows: &Vec<DiffRow>) -> (v: Vec<Option<usize>>)
    ensures
        v@ == current_lines_of(rows@),
{
    let mut v: Vec<Option<usize>> = Vec::new();
    let mut i: usize = 0;
    while i < rows.len()
        invariant
            i <= rows@.len(),
            v@ == current_lines_of(rows@).take(i as int),
        decreases rows@.len() - i,
    {
        v.push(rows[i].current_line);
        i += 1;
        assert(v@ =~= current_lines_of(rows@).take(i as int));
    }
    assert(current_lines_of(rows@).take(i as int) =~= current_lines_of(rows@));
    v
}

/// Completes a model from its rows: the row-to-line maps, the dense
/// line-to-row maps of the given line counts, and the hunks.
pub fn finish_model(rows: Vec<DiffRow>, reference_lines: usize, current_lines: usize) -> (model:
    DiffRowModel)
    ensures
        model.rows@ == rows@,
        model.finished(reference_lines as nat, current_lines as nat),
{
    let row_to_reference_line = row_reference_lines(&rows);
    let row_to_current_line = row_current_lines(&rows);
    let reference_line_to_row = line_to_row_map(&row_to_reference_line, reference_lines);
    let current_line_to_row = line_to_row_map(&row_to_current_line, current_lines);
    let hunks = hunks_for_rows(&rows);
    DiffRowModel {
        too_large: false,
        rows,
        row_to_reference_line,
        row_to_current_line,
        reference_line_to_row,
        current_line_to_row,
        hunks,
    }
}

/// Groups the changed rows into hunks (see `spec_hunks`).
pub fn hunks_for_rows(rows: &[DiffRow]) -> (hunks: Vec<DiffHunk>)
    ensures
        hunk_rows(hunks@) == spec_hunks(kinds_of(rows@)),
        hunks_well_formed(hunks@),
{
    let ghost kinds = kinds_of(rows@);
    let mut hunks: Vec<DiffHunk> = Vec::new();
    let mut current: Vec<usize> = Vec::new();
    let mut equal_gap: usize = 0;
    let mut index: usize = 0;
    while index < rows.len()
        invariant
            index <= rows@.len(),
            kinds == kinds_of(rows@),
            (hunk_rows(hunks@), current@, equal_gap as nat) == hunk_scan(kinds, index as nat),
            hunks_well_formed(hunks@),
            equal_gap <= HUNK_CONTEXT_ROWS,
            forall|j: int| 0 <= j < current@.len() ==> current@[j] < index,
        decreases rows@.len() - index,
    {
        if rows[index].kind == DiffRowKind::Equal {
            if current.len() > 0 {
                equal_gap += 1;
                if equal_gap > HUNK_CONTEXT_ROWS {
                    push_hunk(&mut hunks, &current);
                    current.clear();
                    equal_gap = 0;
                }
            }
        } else {
            equal_gap = 0;
            current.push(index);
        }
        index += 1;
    }
    push_hunk(&mut hunks, &current);
    hunks
}

/// Closes a hunk: appends it when it holds at least one row.
pub fn push_hunk(hunks: &mut Vec<DiffHunk>, rows: &[usize])
    requires
        hunks_well_formed(old(hunks)@),
    ensures
        hunk_rows(final(hunks)@) == if rows@.len() == 0 {
            hunk_rows(old(hunks)@)
        } else {
            hunk_rows(old(hunks)@).push(rows@)
        },
        hunks_well_formed(final(hunks)@),
{
    if rows.len() == 0 {
        return;
    }
    let first_row = rows[0];
    let hunk = DiffHunk { first_row, rows: vstd::slice::slice_to_vec(rows) };
    let ghost prev = hunks@;
    hunks.push(hunk);
    assert(hunk_rows(hunks@) =~= hunk_rows(prev).push(rows@));
    assert forall|i: int| 0 <= i < hunks@.len() implies #[trigger] hunks@[i].rows@.len() > 0
        && hunks@[i].first_row == hunks@[i].rows@[0] by {
        if i < prev.len() {
            assert(hunks@[i] == prev[i]);
        }
    }
}


// ---------------------------------------------------------------------------
// Queries
// ---------------------------------------------------------------------------

/// Number of rows that are not `Equal`.
pub open spec fn count_changed(kinds: Seq<DiffRowKind>) -> nat
    decreases kinds.len(),
{
    if kinds.len() == 0 {
        0
    } else {
        count_changed(kinds.drop_last()) + if kinds.last() == DiffRowKind::Equal {
            0nat
        } else {
            1nat
        }
    }
}

/// The map of one side from lines to rows, or from rows to lines.
pub open spec fn map_lookup(map: Seq<Option<usize>>, index: int) -> Option<usize> {
    if 0 <= index < map.len() {
        map[index]
    } else {
        None
    }
}

impl DiffRowModel {
    /// A model with no rows.
    pub fn empty() -> (model: Self)
        ensures
            !model.too_large,
            model.rows@.len() == 0,
            model.row_to_reference_line@.len() == 0,
            model.row_to_current_line@.len() == 0,
            model.reference_line_to_row@.len() == 0,
            model.current_line_to_row@.len() == 0,
            model.hunks@.len() == 0,
    {
        DiffRowModel {
            too_large: false,
            rows: Vec::new(),
            row_to_reference_line: Vec::new(),
            row_to_current_line: Vec::new(),
            reference_line_to_row: Vec::new(),
            current_line_to_row: Vec::new(),
            hunks: Vec::new(),
        }
    }

    /// The model of a compare that was skipped for its size: no rows, marked too large.
    pub fn too_large() -> (model: Self)
        ensures
            model.too_large,
            model.rows@.len() == 0,
            model.row_to_reference_line@.len() == 0,
            model.row_to_current_line@.len() == 0,
            model.reference_line_to_row@.len() == 0,
            model.current_line_to_row@.len() == 0,
            model.hunks@.len() == 0,
    {
        DiffRowModel { too_large: true, ..Self::empty() }
    }

    /// Number of changed (not `Equal`) rows.
    pub fn changed_row_count(&self) -> (n: usize)
        ensures
            n == count_changed(kinds_of(self.rows@)),
    {
        let mut n: usize = 0;
        let mut i: usize = 0;
        while i < self.rows.len()
            invariant
                i <= self.rows@.len(),
                n == count_changed(kinds_of(self.rows@).take(i as int)),
                n <= i,
            decreases self.rows@.len() - i,
        {
            assert(kinds_of(self.rows@).take(i + 1).drop_last() =~= kinds_of(self.rows@).take(
                i as int,
            ));
            if self.rows[i].kind != DiffRowKind::Equal {
                n += 1;
            }
            i += 1;
        }
        assert(kinds_of(self.rows@).take(i as int) =~= kinds_of(self.rows@));
        n
    }

    /// The row that shows `line` of `side`, if that line has one.
    pub fn row_for_line(&self, side: DiffSide, line: usize) -> (row: Option<usize>)
        ensures
            row == map_lookup(
                match side {
                    DiffSide::Reference => self.reference_line_to_row@,
                    DiffSide::Current => self.current_line_to_row@,
                },
                line as int,
            ),
    {
        let map = match side {
            DiffSide::Reference => &self.reference_line_to_row,
            DiffSide::Current => &self.current_line_to_row,
        };
        if line < map.len() {
            map[line]
        } else {
            None
        }
    }

    /// The line of `side` that `row` shows, if it shows one.
    pub fn line_for_row(&self, side: DiffSide, row: usize) -> (line: Option<usize>)
        ensures
            line == map_lookup(
                match side {
                    DiffSide::Reference => self.row_to_reference_line@,
                    DiffSide::Current => self.row_to_current_line@,
                },
                row as int,
            ),
    {
        let map = match side {
            DiffSide::Reference => &self.row_to_reference_line,
            DiffSide::Current => &self.row_to_current_line,
        };
        if row < map.len() {
            map[row]
        } else {
            None
        }
    }

    /// Whether both sides have a complete line identity (see `side_identity`).
    pub fn has_complete_line_identity(&self, reference_lines: usize, current_lines: usize) -> (ok:
        bool)
        ensures
            ok == complete_line_identity(*self, reference_lines as nat, current_lines as nat),
    {
        side_identity_holds(&self.row_to_reference_line, &self.reference_line_to_row, reference_lines)
            && side_identity_holds(&self.row_to_current_line, &self.current_line_to_row, current_lines)
    }
}

// ---------------------------------------------------------------------------
// Line identity
// ---------------------------------------------------------------------------

/// One side's maps are a complete identity for `n` lines: every line maps to a
/// row that maps back to it, no two rows hold the same line, and every line a
/// row holds is one of the `n` lines.
pub open spec fn side_identity(row_to_line: Seq<Option<usize>>, line_to_row: Seq<Option<usize>>, n: nat) -> bool {
    &&& line_to_row.len() == n
    &&& forall|line: int|
        #![trigger line_to_row[line]]
        0 <= line < n ==> (line_to_row[line] matches Some(row) && row < row_to_line.len()
            && holds(row_to_line[row as int], line))
    &&& forall|r1: int, r2: int|
        #![trigger row_to_line[r1], row_to_line[r2]]
        0 <= r1 < row_to_line.len() && 0 <= r2 < row_to_line.len() && row_to_line[r1] is Some
            && row_to_line[r1] == row_to_line[r2] ==> r1 == r2
    &&& forall|row: int|
        #![trigger row_to_line[row]]
        0 <= row < row_to_line.len() && row_to_line[row] is Some ==> row_to_line[row]->0 < n
}

pub open spec fn complete_line_identity(model: DiffRowModel, n_ref: nat, n_cur: nat) -> bool {
    &&& side_identity(model.row_to_reference_line@, model.reference_line_to_row@, n_ref)
    &&& side_identity(model.row_to_current_line@, model.current_line_to_row@, n_cur)
}

/// Checks `side_identity` for one side.
fn side_identity_holds(row_to_line: &Vec<Option<usize>>, line_to_row: &Vec<Option<usize>>, n: usize) -> (ok: bool)
    ensures
        ok == side_identity(row_to_line@, line_to_row@, n as nat),
{
    if line_to_row.len() != n {
        return false;
    }
    // Every row's line is in range, and no line is held by two rows.
    let mut seen: Vec<Option<usize>> = Vec::new();
    let mut line: usize = 0;
    while line < n
        invariant
            line <= n,
            seen@ == Seq::new(line as nat, |l: int| None::<usize>),
        decreases n - line,
    {
        seen.push(None);
        line += 1;
        assert(seen@ =~= Seq::new(line as nat, |l: int| None::<usize>));
    }
    let mut row: usize = 0;
    while row < row_to_line.len()
        invariant
            row <= row_to_line@.len(),
            seen@.len() == n,
            forall|r: int|
                0 <= r < row && row_to_line@[r] is Some ==> row_to_line@[r]->0 < n,
            forall|r1: int, r2: int|
                0 <= r1 < row && 0 <= r2 < row && row_to_line@[r1] is Some && row_to_line@[r1]
                    == row_to_line@[r2] ==> r1 == r2,
            forall|l: int|
                #![trigger seen@[l]]
                0 <= l < n ==> (seen@[l] matches Some(r) ==> r < row && holds(row_to_line@[r as int], l)),
            forall|r: int|
                0 <= r < row && row_to_line@[r] is Some ==> seen@[row_to_line@[r]->0 as int] == Some(r as usize),
        decreases row_to_line@.len() - row,
    {
        if let Some(l) = row_to_line[row] {
            if l >= n {
                return false;
            }
            if seen[l].is_some() {
                let ghost other = seen@[l as int]->0;
                assert(row_to_line@[other as int] == row_to_line@[row as int]);
                return false;
            }
            seen[l] = Some(row);
        }
        row += 1;
    }
    // Every line maps to a row that maps back to it.
    let mut line: usize = 0;
    while line < n
        invariant
            line <= n,
            line_to_row@.len() == n,
            forall|l: int|
                #![trigger line_to_row@[l]]
                0 <= l < line ==> (line_to_row@[l] matches Some(r) && r < row_to_line@.len()
                    && holds(row_to_line@[r as int], l)),
        decreases n - line,
    {
        match line_to_row[line] {
            Some(r) => {
                if r >= row_to_line.len() {
                    return false;
                }
                match row_to_line[r] {
                    Some(l) => {
                        if l != line {
                            return false;
                        }
                    },
                    None => {
                        return false;
                    },
                }
            },
            None => {
                return false;
            },
        }
        line += 1;
    }
    true
}


// ---------------------------------------------------------------------------
// Aligned operations give a complete line identity
// ---------------------------------------------------------------------------

/// Where the reference lines of operation `k` must start: where operation `k - 1` ended.
pub open spec fn reference_end(ops: Seq<DiffLineOp>, k: int) -> int {
    if k <= 0 {
        0
    } else {
        ops[k - 1].reference_range.end as int
    }
}

/// Where the current lines of operation `k` must start: where operation `k - 1` ended.
pub open spec fn current_end(ops: Seq<DiffLineOp>, k: int) -> int {
    if k <= 0 {
        0
    } else {
        ops[k - 1].current_range.end as int
    }
}

/// Operation `k` continues the script: its ranges are ordered, start where the
/// previous operation ended, and fit its tag (equal ranges have one length, a
/// deletion inserts nothing, an insertion deletes nothing).
pub open spec fn op_continues(ops: Seq<DiffLineOp>, k: int) -> bool {
    let op = ops[k];
    &&& op.reference_range.start <= op.reference_range.end
    &&& op.current_range.start <= op.current_range.end
    &&& op.reference_range.start == reference_end(ops, k)
    &&& op.current_range.start == current_end(ops, k)
    &&& (op.tag == DiffLineTag::Equal ==> range_len(op.reference_range) == range_len(
        op.current_range,
    ))
    &&& (op.tag == DiffLineTag::Delete ==> range_len(op.current_range) == 0)
    &&& (op.tag == DiffLineTag::Insert ==> range_len(op.reference_range) == 0)
}

/// The operations form an edit script from `n_ref` reference lines to `n_cur`
/// current lines: consecutive, in order, covering both sides exactly.
pub open spec fn ops_align(ops: Seq<DiffLineOp>, n_ref: nat, n_cur: nat) -> bool {
    &&& forall|k: int| 0 <= k < ops.len() ==> #[trigger] op_continues(ops, k)
    &&& reference_end(ops, ops.len() as int) == n_ref
    &&& current_end(ops, ops.len() as int) == n_cur
}

/// An equal operation pairs equal items: its reference items are the
/// current items it is paired with, in order.
pub open spec fn op_pairs_equal<T>(op: DiffLineOp, old: Seq<T>, new: Seq<T>) -> bool {
    op.tag == DiffLineTag::Equal ==> old.subrange(
        op.reference_range.start as int,
        op.reference_range.end as int,
    ) == new.subrange(op.current_range.start as int, op.current_range.end as int)
}

/// Every equal operation of `ops` pairs equal items of `old` and `new`.
pub open spec fn equal_ops_pair_equal<T>(ops: Seq<DiffLineOp>, old: Seq<T>, new: Seq<T>) -> bool {
    forall|k: int| 0 <= k < ops.len() ==> #[trigger] op_pairs_equal(ops[k], old, new)
}

/// The number of leading items `a` and `b` share.
pub open spec fn seq_common_prefix<T>(a: Seq<T>, b: Seq<T>) -> nat
    decreases a.len(),
{
    if a.len() > 0 && b.len() > 0 && a[0] == b[0] {
        1 + seq_common_prefix(a.drop_first(), b.drop_first())
    } else {
        0
    }
}

/// The number of trailing items `a` and `b` share.
pub open spec fn seq_common_suffix<T>(a: Seq<T>, b: Seq<T>) -> nat
    decreases a.len(),
{
    if a.len() > 0 && b.len() > 0 && a.last() == b.last() {
        1 + seq_common_suffix(a.drop_last(), b.drop_last())
    } else {
        0
    }
}

/// How many items of one side the operations that are not equal take: the
/// reference side when `reference` holds, else the current side.
pub open spec fn changed_len(ops: Seq<DiffLineOp>, reference: bool) -> nat
    decreases ops.len(),
{
    if ops.len() == 0 {
        0
    } else {
        let op = ops.last();
        changed_len(ops.drop_last(), reference) + if op.tag == DiffLineTag::Equal {
            0nat
        } else if reference {
            range_len(op.reference_range)
        } else {
            range_len(op.current_range)
        }
    }
}

/// The changes of `ops` leave alone the leading items both sides share and,
/// after those, the trailing items both share: on each side they take at most
/// the items between.
pub open spec fn changes_within_middle<T>(ops: Seq<DiffLineOp>, old: Seq<T>, new: Seq<T>) -> bool {
    let p = seq_common_prefix(old, new);
    let s = seq_common_suffix(old.skip(p as int), new.skip(p as int));
    &&& changed_len(ops, true) + p + s <= old.len()
    &&& changed_len(ops, false) + p + s <= new.len()
}

/// Every operation of `ops` is an equal one.
pub open spec fn all_ops_equal(ops: Seq<DiffLineOp>) -> bool {
    forall|k: int| 0 <= k < ops.len() ==> (#[trigger] ops[k]).tag == DiffLineTag::Equal
}

/// Operations that are all equal give only equal rows.
pub proof fn lemma_equal_ops_give_equal_rows(ops: Seq<DiffLineOp>)
    requires
        all_ops_equal(ops),
    ensures
        forall|i: int| 0 <= i < ops_rows(ops).len() ==> (#[trigger] ops_rows(ops)[i]).2 == DiffRowKind::Equal,
    decreases ops.len(),
{
    if ops.len() > 0 {
        let init = ops.drop_last();
        assert(all_ops_equal(init)) by {
            assert forall|k: int| 0 <= k < init.len() implies (#[trigger] init[k]).tag == DiffLineTag::Equal by {
                assert(init[k] == ops[k]);
            }
        }
        lemma_equal_ops_give_equal_rows(init);
        assert(ops.last() == ops[ops.len() - 1]);
        let rows = ops_rows(ops);
        assert forall|i: int| 0 <= i < rows.len() implies (#[trigger] rows[i]).2 == DiffRowKind::Equal by {
            if i < ops_rows(init).len() {
                assert(rows[i] == ops_rows(init)[i]);
            } else {
                assert(rows[i] == op_rows(ops.last())[i - ops_rows(init).len()]);
            }
        }
    }
}

/// An equal row pairs equal items of `old` and `new`.
pub open spec fn equal_row_pairs_equal<T>(row: RowShape, old: Seq<T>, new: Seq<T>) -> bool {
    row.2 == DiffRowKind::Equal ==> {
        &&& row.0 is Some
        &&& row.1 is Some
        &&& row.0->0 < old.len()
        &&& row.1->0 < new.len()
        &&& old[row.0->0 as int] == new[row.1->0 as int]
    }
}

/// When equal operations pair equal items, so do the equal rows they give.
pub proof fn lemma_equal_rows_pair_equal_items<T>(ops: Seq<DiffLineOp>, old: Seq<T>, new: Seq<T>)
    requires
        forall|k: int| 0 <= k < ops.len() ==> #[trigger] op_continues(ops, k),
        reference_end(ops, ops.len() as int) <= old.len(),
        current_end(ops, ops.len() as int) <= new.len(),
        equal_ops_pair_equal(ops, old, new),
    ensures
        forall|i: int| 0 <= i < ops_rows(ops).len() ==> #[trigger] equal_row_pairs_equal(ops_rows(ops)[i], old, new),
    decreases ops.len(),
{
    if ops.len() > 0 {
        let n = ops.len() - 1;
        let init = ops.drop_last();
        assert forall|k: int| 0 <= k < init.len() implies #[trigger] op_continues(init, k) by {
            assert(op_continues(ops, k));
            assert(init[k] == ops[k]);
            if k > 0 {
                assert(init[k - 1] == ops[k - 1]);
            }
        }
        assert(op_continues(ops, n));
        if n > 0 {
            assert(init[n - 1] == ops[n - 1]);
        }
        assert forall|k: int| 0 <= k < init.len() implies #[trigger] op_pairs_equal(init[k], old, new) by {
            assert(init[k] == ops[k]);
            assert(op_pairs_equal(ops[k], old, new));
        }
        lemma_equal_rows_pair_equal_items(init, old, new);
        let op = ops[n];
        assert(ops.last() == op);
        assert(op_pairs_equal(op, old, new));
        let rows = ops_rows(ops);
        let first = ops_rows(init);
        assert forall|i: int| 0 <= i < rows.len() implies #[trigger] equal_row_pairs_equal(rows[i], old, new) by {
            if i < first.len() {
                assert(rows[i] == first[i]);
            } else {
                let t = i - first.len();
                assert(rows[i] == op_rows(op)[t]);
                if op.tag == DiffLineTag::Equal {
                    let a = op.reference_range.start as int;
                    let b = op.current_range.start as int;
                    assert(old.subrange(a, op.reference_range.end as int)[t] == old[a + t]);
                    assert(new.subrange(b, op.current_range.end as int)[t] == new[b + t]);
                }
            }
        }
    }
}

/// Number of changed kinds in the first `k` kinds, as the changed rows count them.
pub proof fn lemma_changed_rows_len(kinds: Seq<DiffRowKind>, k: int)
    requires
        0 <= k <= kinds.len(),
    ensures
        changed_rows(kinds, k).len() == count_changed(kinds.take(k)),
    decreases k,
{
    if k > 0 {
        lemma_changed_rows_len(kinds, k - 1);
        assert(kinds.take(k).drop_last() =~= kinds.take(k - 1));
        assert(kinds.take(k).last() == kinds[k - 1]);
    } else {
        assert(kinds.take(k).len() == 0);
    }
}

/// Kinds that are all equal count no changes.
proof fn lemma_equal_kinds_count_none(kinds: Seq<DiffRowKind>)
    requires
        forall|i: int| 0 <= i < kinds.len() ==> #[trigger] kinds[i] == DiffRowKind::Equal,
    ensures
        count_changed(kinds) == 0,
    decreases kinds.len(),
{
    if kinds.len() > 0 {
        let init = kinds.drop_last();
        assert forall|i: int| 0 <= i < init.len() implies #[trigger] init[i] == DiffRowKind::Equal by {
            assert(init[i] == kinds[i]);
        }
        lemma_equal_kinds_count_none(init);
    }
}

/// The number of rows of all hunks together.
pub open spec fn hunk_lengths(hunks: Seq<Seq<usize>>) -> nat
    decreases hunks.len(),
{
    if hunks.len() == 0 {
        0
    } else {
        hunk_lengths(hunks.drop_last()) + hunks.last().len()
    }
}

proof fn lemma_concat_hunks_len(hunks: Seq<Seq<usize>>)
    ensures
        concat_hunks(hunks).len() == hunk_lengths(hunks),
    decreases hunks.len(),
{
    if hunks.len() > 0 {
        lemma_concat_hunks_len(hunks.drop_last());
    }
}

/// Law: the hunk lengths of a finished model add up to its changed row count.
pub proof fn lemma_hunk_lengths_sum_to_changed_count(model: DiffRowModel, n_ref: nat, n_cur: nat)
    requires
        model.finished(n_ref, n_cur),
    ensures
        hunk_lengths(hunk_rows(model.hunks@)) == count_changed(kinds_of(model.rows@)),
{
    let kinds = kinds_of(model.rows@);
    lemma_model_hunks_hold_changed_rows(model, n_ref, n_cur);
    lemma_concat_hunks_len(hunk_rows(model.hunks@));
    lemma_changed_rows_len(kinds, kinds.len() as int);
    assert(kinds.take(kinds.len() as int) =~= kinds);
}

/// A finished model whose rows all have the given shapes of equal operations
/// has no changed rows and no hunks.
pub proof fn lemma_equal_ops_model_has_no_changes(model: DiffRowModel, ops: Seq<DiffLineOp>, n_ref: nat, n_cur: nat)
    requires
        model.finished(n_ref, n_cur),
        shapes(model.rows@) == ops_rows(ops),
        all_ops_equal(ops),
    ensures
        count_changed(kinds_of(model.rows@)) == 0,
        model.hunks@.len() == 0,
{
    let kinds = kinds_of(model.rows@);
    lemma_equal_ops_give_equal_rows(ops);
    assert forall|i: int| 0 <= i < kinds.len() implies #[trigger] kinds[i] == DiffRowKind::Equal by {
        assert(shapes(model.rows@)[i] == model.rows@[i].shape());
        assert(ops_rows(ops)[i].2 == DiffRowKind::Equal);
    }
    lemma_equal_kinds_count_none(kinds);
    lemma_hunk_lengths_sum_to_changed_count(model, n_ref, n_cur);
    let hunks = hunk_rows(model.hunks@);
    if model.hunks@.len() > 0 {
        lemma_hunk_lengths_positive(hunks);
        assert(hunks[hunks.len() - 1] == model.hunks@[hunks.len() - 1].rows@);
    }
}

/// Hunks that are each non-empty have a positive total length when there is one.
proof fn lemma_hunk_lengths_positive(hunks: Seq<Seq<usize>>)
    requires
        hunks.len() > 0,
    ensures
        hunk_lengths(hunks) >= hunks.last().len(),
{
}

/// The lines held by the rows of `s` are exactly `lo..hi`, each once, in increasing order.
pub open spec fn covers_range(s: Seq<Option<usize>>, lo: int, hi: int) -> bool {
    &&& lo <= hi
    &&& forall|i: int| 0 <= i < s.len() && #[trigger] s[i] is Some ==> lo <= s[i]->0 < hi
    &&& forall|i: int, j: int|
        0 <= i < j < s.len() && #[trigger] s[i] is Some && #[trigger] s[j] is Some ==> s[i]->0
            < s[j]->0
    &&& forall|l: int| lo <= l < hi ==> #[trigger] holds_line(s, l)
}

/// Some row of `s` holds `line`.
pub open spec fn holds_line(s: Seq<Option<usize>>, line: int) -> bool {
    exists|i: int| 0 <= i < s.len() && holds(#[trigger] s[i], line)
}

pub open spec fn reference_projection(shapes: Seq<RowShape>) -> Seq<Option<usize>> {
    Seq::new(shapes.len(), |i: int| shapes[i].0)
}

pub open spec fn current_projection(shapes: Seq<RowShape>) -> Seq<Option<usize>> {
    Seq::new(shapes.len(), |i: int| shapes[i].1)
}

proof fn lemma_covers_concat(a: Seq<Option<usize>>, b: Seq<Option<usize>>, lo: int, mid: int, hi: int)
    requires
        covers_range(a, lo, mid),
        covers_range(b, mid, hi),
    ensures
        covers_range(a + b, lo, hi),
{
    let c = a + b;
    assert forall|i: int| 0 <= i < c.len() && #[trigger] c[i] is Some implies lo <= c[i]->0 < hi by {
        if i < a.len() {
            assert(c[i] == a[i]);
        } else {
            assert(c[i] == b[i - a.len()]);
        }
    }
    assert forall|i: int, j: int|
        0 <= i < j < c.len() && #[trigger] c[i] is Some && #[trigger] c[j] is Some implies c[i]->0
            < c[j]->0 by {
        if j < a.len() {
            assert(c[i] == a[i] && c[j] == a[j]);
        } else if i >= a.len() {
            assert(c[i] == b[i - a.len()] && c[j] == b[j - a.len()]);
        } else {
            assert(c[i] == a[i] && c[j] == b[j - a.len()]);
        }
    }
    assert forall|l: int| lo <= l < hi implies #[trigger] holds_line(c, l) by {
        assert(holds_line(a, l) || holds_line(b, l));
        if l < mid {
            let i = choose|i: int| 0 <= i < a.len() && holds(#[trigger] a[i], l);
            assert(c[i] == a[i]);
        } else {
            let j = choose|j: int| 0 <= j < b.len() && holds(#[trigger] b[j], l);
            assert(c[a.len() + j] == b[j]);
        }
    }
}

proof fn lemma_covers_ascending(s: Seq<Option<usize>>, lo: int, n: nat)
    requires
        0 <= lo,
        lo + n <= usize::MAX,
        s == Seq::new(n, |t: int| Some((lo + t) as usize)),
    ensures
        covers_range(s, lo, lo + n),
{
    assert forall|l: int| lo <= l < lo + n implies #[trigger] holds_line(s, l) by {
        assert(holds(s[l - lo], l));
    }
}

proof fn lemma_covers_none(s: Seq<Option<usize>>, lo: int)
    requires
        forall|i: int| 0 <= i < s.len() ==> s[i] is None,
    ensures
        covers_range(s, lo, lo),
{
}

proof fn lemma_op_rows_cover(op: DiffLineOp)
    requires
        op.reference_range.start <= op.reference_range.end,
        op.current_range.start <= op.current_range.end,
        op.tag == DiffLineTag::Equal ==> range_len(op.reference_range) == range_len(
            op.current_range,
        ),
        op.tag == DiffLineTag::Delete ==> range_len(op.current_range) == 0,
        op.tag == DiffLineTag::Insert ==> range_len(op.reference_range) == 0,
    ensures
        covers_range(
            reference_projection(op_rows(op)),
            op.reference_range.start as int,
            op.reference_range.end as int,
        ),
        covers_range(
            current_projection(op_rows(op)),
            op.current_range.start as int,
            op.current_range.end as int,
        ),
{
    let a = op.reference_range.start as int;
    let b = op.current_range.start as int;
    let la = range_len(op.reference_range);
    let lb = range_len(op.current_range);
    let p = min_nat(la, lb);
    let rows = op_rows(op);
    match op.tag {
        DiffLineTag::Equal => {
            assert(reference_projection(rows) =~= Seq::new(la, |t: int| Some((a + t) as usize)));
            assert(current_projection(rows) =~= Seq::new(lb, |t: int| Some((b + t) as usize)));
            lemma_covers_ascending(reference_projection(rows), a, la);
            lemma_covers_ascending(current_projection(rows), b, lb);
        },
        DiffLineTag::Delete => {
            assert(reference_projection(rows) =~= Seq::new(la, |t: int| Some((a + t) as usize)));
            lemma_covers_ascending(reference_projection(rows), a, la);
            lemma_covers_none(current_projection(rows), b);
        },
        DiffLineTag::Insert => {
            assert(current_projection(rows) =~= Seq::new(lb, |t: int| Some((b + t) as usize)));
            lemma_covers_none(reference_projection(rows), a);
            lemma_covers_ascending(current_projection(rows), b, lb);
        },
        DiffLineTag::Replace => {
            let pr = paired_rows(a, b, p, DiffRowKind::Modify);
            let rr = reference_only_rows(a + p, (la - p) as nat);
            let cr = current_only_rows(b + p, (lb - p) as nat);
            assert(reference_projection(rows) =~= reference_projection(pr) + reference_projection(rr)
                + reference_projection(cr));
            assert(current_projection(rows) =~= current_projection(pr) + current_projection(rr)
                + current_projection(cr));
            assert(reference_projection(pr) =~= Seq::new(p, |t: int| Some((a + t) as usize)));
            assert(reference_projection(rr) =~= Seq::new(
                (la - p) as nat,
                |t: int| Some((a + p + t) as usize),
            ));
            assert(current_projection(pr) =~= Seq::new(p, |t: int| Some((b + t) as usize)));
            assert(current_projection(cr) =~= Seq::new(
                (lb - p) as nat,
                |t: int| Some((b + p + t) as usize),
            ));
            lemma_covers_ascending(reference_projection(pr), a, p);
            lemma_covers_ascending(reference_projection(rr), a + p, (la - p) as nat);
            lemma_covers_none(reference_projection(cr), a + la);
            lemma_covers_concat(reference_projection(pr), reference_projection(rr), a, a + p, a + la);
            lemma_covers_concat(
                reference_projection(pr) + reference_projection(rr),
                reference_projection(cr),
                a,
                a + la,
                a + la,
            );
            lemma_covers_ascending(current_projection(pr), b, p);
            lemma_covers_none(current_projection(rr), b + p);
            lemma_covers_ascending(current_projection(cr), b + p, (lb - p) as nat);
            lemma_covers_concat(current_projection(pr), current_projection(rr), b, b + p, b + p);
            lemma_covers_concat(
                current_projection(pr) + current_projection(rr),
                current_projection(cr),
                b,
                b + p,
                b + lb,
            );
        },
    }
}

proof fn lemma_ops_rows_cover(ops: Seq<DiffLineOp>)
    requires
        forall|k: int| 0 <= k < ops.len() ==> #[trigger] op_continues(ops, k),
    ensures
        covers_range(reference_projection(ops_rows(ops)), 0, reference_end(ops, ops.len() as int)),
        covers_range(current_projection(ops_rows(ops)), 0, current_end(ops, ops.len() as int)),
    decreases ops.len(),
{
    if ops.len() == 0 {
        lemma_covers_none(reference_projection(ops_rows(ops)), 0);
        lemma_covers_none(current_projection(ops_rows(ops)), 0);
    } else {
        let init = ops.drop_last();
        let n = ops.len() - 1;
        assert forall|k: int| 0 <= k < init.len() implies #[trigger] op_continues(init, k) by {
            assert(op_continues(ops, k));
            assert(init[k] == ops[k]);
            if k > 0 {
                assert(init[k - 1] == ops[k - 1]);
            }
        }
        lemma_ops_rows_cover(init);
        assert(op_continues(ops, n));
        let last = ops.last();
        lemma_op_rows_cover(last);
        assert(reference_end(init, init.len() as int) == reference_end(ops, n));
        assert(current_end(init, init.len() as int) == current_end(ops, n));
        assert(reference_projection(ops_rows(ops)) =~= reference_projection(ops_rows(init))
            + reference_projection(op_rows(last)));
        assert(current_projection(ops_rows(ops)) =~= current_projection(ops_rows(init))
            + current_projection(op_rows(last)));
        lemma_covers_concat(
            reference_projection(ops_rows(init)),
            reference_projection(op_rows(last)),
            0,
            reference_end(ops, n),
            reference_end(ops, ops.len() as int),
        );
        lemma_covers_concat(
            current_projection(ops_rows(init)),
            current_projection(op_rows(last)),
            0,
            current_end(ops, n),
            current_end(ops, ops.len() as int),
        );
    }
}

proof fn lemma_last_row_with_found(s: Seq<Option<usize>>, line: int, k: int, i: int)
    requires
        0 <= i < k <= s.len(),
        s.len() <= usize::MAX,
        0 <= line,
        holds(s[i], line),
    ensures
        last_row_with(s, line, k) matches Some(j) && i <= j < k && holds(s[j as int], line),
    decreases k,
{
    if !holds(s[k - 1], line) {
        lemma_last_row_with_found(s, line, k - 1, i);
    }
}

proof fn lemma_cover_gives_identity(s: Seq<Option<usize>>, n: nat)
    requires
        covers_range(s, 0, n as int),
        s.len() <= usize::MAX,
    ensures
        side_identity(s, line_to_row_spec(s, n), n),
{
    let m = line_to_row_spec(s, n);
    assert forall|line: int| 0 <= line < n implies (#[trigger] m[line] matches Some(row) && row
        < s.len() && holds(s[row as int], line)) by {
        assert(holds_line(s, line));
        let i = choose|i: int| 0 <= i < s.len() && holds(#[trigger] s[i], line);
        lemma_last_row_with_found(s, line, s.len() as int, i);
    }
    assert forall|r1: int, r2: int|
        0 <= r1 < s.len() && 0 <= r2 < s.len() && #[trigger] s[r1] is Some && s[r1] == #[trigger] s[r2] implies r1
            == r2 by {
        if r1 < r2 {
            assert(s[r1]->0 < s[r2]->0);
        } else if r2 < r1 {
            assert(s[r2]->0 < s[r1]->0);
        }
    }
}

/// Law: when the operations form an edit script of the `n_ref` reference and
/// `n_cur` current lines, the model built from them maps every document line
/// of either side to exactly one row, and that row back to the line.
pub proof fn lemma_aligned_ops_give_line_identity(
    ops: Seq<DiffLineOp>,
    model: DiffRowModel,
    n_ref: nat,
    n_cur: nat,
)
    requires
        ops_align(ops, n_ref, n_cur),
        shapes(model.rows@) == ops_rows(ops),
        model.finished(n_ref, n_cur),
    ensures
        complete_line_identity(model, n_ref, n_cur),
{
    lemma_ops_rows_cover(ops);
    assert(model.row_to_reference_line@ =~= reference_projection(ops_rows(ops)));
    assert(model.row_to_current_line@ =~= current_projection(ops_rows(ops)));
    assert(model.row_to_reference_line@.len() == model.row_to_reference_line.len());
    assert(model.row_to_current_line@.len() == model.row_to_current_line.len());
    lemma_cover_gives_identity(model.row_to_reference_line@, n_ref);
    lemma_cover_gives_identity(model.row_to_current_line@, n_cur);
}


/// Every row of an edit script holds at least one line, so there are at most
/// as many rows as lines on both sides together.
pub proof fn lemma_ops_rows_len(ops: Seq<DiffLineOp>)
    requires
        forall|k: int| 0 <= k < ops.len() ==> #[trigger] op_continues(ops, k),
    ensures
        ops_rows(ops).len() <= reference_end(ops, ops.len() as int) + current_end(
            ops,
            ops.len() as int,
        ),
    decreases ops.len(),
{
    if ops.len() > 0 {
        let init = ops.drop_last();
        assert forall|k: int| 0 <= k < init.len() implies #[trigger] op_continues(init, k) by {
            assert(op_continues(ops, k));
            assert(init[k] == ops[k]);
            if k > 0 {
                assert(init[k - 1] == ops[k - 1]);
            }
        }
        lemma_ops_rows_len(init);
        assert(op_continues(ops, ops.len() - 1));
    }
}


proof fn lemma_ends_ordered(ops: Seq<DiffLineOp>, k: int, j: int)
    requires
        forall|i: int| 0 <= i < ops.len() ==> #[trigger] op_continues(ops, i),
        0 <= k <= j < ops.len(),
    ensures
        ops[k].reference_range.end <= ops[j].reference_range.end,
        ops[k].current_range.end <= ops[j].current_range.end,
    decreases j - k,
{
    if k < j {
        lemma_ends_ordered(ops, k, j - 1);
        assert(op_continues(ops, j));
    } else {
        assert(op_continues(ops, j));
    }
}

/// Every operation of an edit script stays within the lines of both sides.
pub proof fn lemma_aligned_op_in_bounds(ops: Seq<DiffLineOp>, n_ref: nat, n_cur: nat, k: int)
    requires
        ops_align(ops, n_ref, n_cur),
        0 <= k < ops.len(),
    ensures
        ops[k].reference_range.start <= ops[k].reference_range.end <= n_ref,
        ops[k].current_range.start <= ops[k].current_range.end <= n_cur,
{
    lemma_ends_ordered(ops, k, ops.len() - 1);
    assert(op_continues(ops, k));
}

/// The changed (not `Equal`) rows among the first `k`, in ascending order.
pub open spec fn changed_rows(kinds: Seq<DiffRowKind>, k: int) -> Seq<usize>
    decreases k,
{
    if k <= 0 {
        Seq::empty()
    } else if kinds[k - 1] != DiffRowKind::Equal {
        changed_rows(kinds, k - 1).push((k - 1) as usize)
    } else {
        changed_rows(kinds, k - 1)
    }
}

/// The rows of the hunks, hunk after hunk.
pub open spec fn concat_hunks(hunks: Seq<Seq<usize>>) -> Seq<usize>
    decreases hunks.len(),
{
    if hunks.len() == 0 {
        Seq::empty()
    } else {
        concat_hunks(hunks.drop_last()) + hunks.last()
    }
}

proof fn lemma_hunk_scan_partition(kinds: Seq<DiffRowKind>, k: nat)
    requires
        k <= kinds.len(),
    ensures
        ({
            let (hunks, open, _gap) = hunk_scan(kinds, k);
            &&& concat_hunks(hunks) + open == changed_rows(kinds, k as int)
            &&& forall|h: int| 0 <= h < hunks.len() ==> #[trigger] hunks[h].len() > 0
        }),
    decreases k,
{
    if k > 0 {
        lemma_hunk_scan_partition(kinds, (k - 1) as nat);
        let (hunks, open, gap) = hunk_scan(kinds, (k - 1) as nat);
        let i = k - 1;
        if kinds[i as int] == DiffRowKind::Equal {
            if open.len() != 0 && gap + 1 > HUNK_CONTEXT_ROWS {
                let closed = hunks.push(open);
                assert(closed.drop_last() =~= hunks);
                assert(concat_hunks(closed) + Seq::<usize>::empty() =~= concat_hunks(hunks) + open);
                assert forall|h: int| 0 <= h < closed.len() implies #[trigger] closed[h].len() > 0 by {
                    if h < hunks.len() {
                        assert(closed[h] == hunks[h]);
                    }
                }
            }
        } else {
            assert(concat_hunks(hunks) + open.push(i as usize) =~= (concat_hunks(hunks) + open).push(
                i as usize,
            ));
        }
    }
}

/// Hunks partition the changed rows: every changed row is in exactly one
/// hunk, hunks and their rows come in ascending order, and no hunk is empty.
pub proof fn lemma_hunks_partition_changed_rows(kinds: Seq<DiffRowKind>)
    ensures
        concat_hunks(spec_hunks(kinds)) == changed_rows(kinds, kinds.len() as int),
        forall|h: int| 0 <= h < spec_hunks(kinds).len() ==> #[trigger] spec_hunks(kinds)[h].len() > 0,
{
    lemma_hunk_scan_partition(kinds, kinds.len());
    let (hunks, open, _gap) = hunk_scan(kinds, kinds.len());
    if open.len() != 0 {
        let all = hunks.push(open);
        assert(all.drop_last() =~= hunks);
        assert forall|h: int| 0 <= h < all.len() implies #[trigger] all[h].len() > 0 by {
            if h < hunks.len() {
                assert(all[h] == hunks[h]);
            }
        }
    } else {
        assert(concat_hunks(hunks) + open =~= concat_hunks(hunks));
    }
}

/// The hunks of a finished model hold its changed rows, each once, in order.
pub proof fn lemma_model_hunks_hold_changed_rows(model: DiffRowModel, n_ref: nat, n_cur: nat)
    requires
        model.finished(n_ref, n_cur),
    ensures
        concat_hunks(hunk_rows(model.hunks@)) == changed_rows(
            kinds_of(model.rows@),
            model.rows@.len() as int,
        ),
{
    lemma_hunks_partition_changed_rows(kinds_of(model.rows@));
}

/// Consecutive rows of a hunk are at most `HUNK_CONTEXT_ROWS + 1` apart.
pub open spec fn hunk_is_close(h: Seq<usize>) -> bool {
    forall|j: int| 0 <= j < h.len() - 1 ==> #[trigger] h[j] < h[j + 1] <= h[j] + HUNK_CONTEXT_ROWS + 1
}

/// Consecutive hunks are more than `HUNK_CONTEXT_ROWS + 1` rows apart.
pub open spec fn hunks_are_apart(hunks: Seq<Seq<usize>>) -> bool {
    forall|t: int|
        0 <= t < hunks.len() - 1 ==> #[trigger] hunks[t].last() + HUNK_CONTEXT_ROWS + 1 < hunks[t
            + 1][0]
}

/// What the grouping scan keeps after the first `k` rows: closed hunks that
/// are close inside and apart from each other, an open hunk that is close
/// and ends `gap` rows before `k`, and room after the last closed hunk.
pub open spec fn scan_spacing(hunks: Seq<Seq<usize>>, open: Seq<usize>, gap: nat, k: int) -> bool {
    &&& forall|t: int| 0 <= t < hunks.len() ==> hunk_is_close(#[trigger] hunks[t])
    &&& forall|t: int| 0 <= t < hunks.len() ==> #[trigger] hunks[t].len() > 0
    &&& hunks_are_apart(hunks)
    &&& hunk_is_close(open)
    &&& open.len() > 0 ==> open.last() + 1 + gap == k && gap <= HUNK_CONTEXT_ROWS
    &&& open.len() == 0 ==> gap == 0
    &&& open.len() == 0 && hunks.len() > 0 ==> hunks.last().last() + HUNK_CONTEXT_ROWS + 2 <= k
    &&& open.len() > 0 && hunks.len() > 0 ==> hunks.last().last() + HUNK_CONTEXT_ROWS + 1 < open[0]
}

proof fn lemma_close_push(open: Seq<usize>, row: usize)
    requires
        hunk_is_close(open),
        open.len() > 0 ==> open.last() < row <= open.last() + HUNK_CONTEXT_ROWS + 1,
    ensures
        hunk_is_close(open.push(row)),
{
    let extended = open.push(row);
    assert forall|j: int| 0 <= j < extended.len() - 1 implies #[trigger] extended[j] < extended[j + 1]
        <= extended[j] + HUNK_CONTEXT_ROWS + 1 by {
        assert(extended[j] == open[j]);
        if j + 1 < open.len() {
            assert(extended[j + 1] == open[j + 1]);
        }
    }
}

proof fn lemma_close_hunk(hunks: Seq<Seq<usize>>, open: Seq<usize>, k: int)
    requires
        forall|t: int| 0 <= t < hunks.len() ==> hunk_is_close(#[trigger] hunks[t]),
        forall|t: int| 0 <= t < hunks.len() ==> #[trigger] hunks[t].len() > 0,
        hunks_are_apart(hunks),
        hunk_is_close(open),
        open.len() > 0,
        hunks.len() > 0 ==> hunks.last().last() + HUNK_CONTEXT_ROWS + 1 < open[0],
    ensures
        forall|t: int| 0 <= t < hunks.push(open).len() ==> hunk_is_close(#[trigger] hunks.push(open)[t]),
        forall|t: int| 0 <= t < hunks.push(open).len() ==> #[trigger] hunks.push(open)[t].len() > 0,
        hunks_are_apart(hunks.push(open)),
{
    let closed = hunks.push(open);
    assert forall|t: int| 0 <= t < closed.len() implies hunk_is_close(#[trigger] closed[t]) by {
        if t < hunks.len() {
            assert(closed[t] == hunks[t]);
        }
    }
    assert forall|t: int| 0 <= t < closed.len() implies #[trigger] closed[t].len() > 0 by {
        if t < hunks.len() {
            assert(closed[t] == hunks[t]);
        }
    }
    assert forall|t: int| 0 <= t < closed.len() - 1 implies #[trigger] closed[t].last()
        + HUNK_CONTEXT_ROWS + 1 < closed[t + 1][0] by {
        assert(closed[t] == hunks[t]);
        if t + 1 < hunks.len() {
            assert(closed[t + 1] == hunks[t + 1]);
        }
    }
}

proof fn lemma_hunk_scan_spacing(kinds: Seq<DiffRowKind>, k: nat)
    requires
        k <= kinds.len(),
        kinds.len() <= usize::MAX,
    ensures
        scan_spacing(hunk_scan(kinds, k).0, hunk_scan(kinds, k).1, hunk_scan(kinds, k).2, k as int),
    decreases k,
{
    if k > 0 {
        lemma_hunk_scan_spacing(kinds, (k - 1) as nat);
        let prev = hunk_scan(kinds, (k - 1) as nat);
        let hunks = prev.0;
        let open = prev.1;
        let gap = prev.2;
        let i = k - 1;
        if kinds[i as int] == DiffRowKind::Equal {
            if open.len() != 0 && gap + 1 > HUNK_CONTEXT_ROWS {
                lemma_close_hunk(hunks, open, i as int);
                assert(hunk_is_close(Seq::<usize>::empty()));
            }
        } else {
            lemma_close_push(open, i as usize);
        }
    }
}

/// Nearby changes share a hunk: within a hunk, consecutive changed rows have
/// at most `HUNK_CONTEXT_ROWS` unchanged rows between them; between hunks
/// there are more.
pub proof fn lemma_hunks_group_nearby_changes(kinds: Seq<DiffRowKind>)
    requires
        kinds.len() <= usize::MAX,
    ensures
        forall|t: int| 0 <= t < spec_hunks(kinds).len() ==> hunk_is_close(#[trigger] spec_hunks(kinds)[t]),
        hunks_are_apart(spec_hunks(kinds)),
{
    lemma_hunk_scan_spacing(kinds, kinds.len());
    let scan = hunk_scan(kinds, kinds.len());
    let hunks = scan.0;
    let open = scan.1;
    if open.len() != 0 {
        lemma_close_hunk(hunks, open, kinds.len() as int);
    }
}

} // verus!
