//! Which hidden rows a reveal action shows, and revealing them from the
//! cursor of a unified compare view.
use std::collections::BTreeSet;
use vstd::prelude::*;

use crate::display::{holds_row, insert_row};
use crate::unified::{cursor_marker, current_collapsed_marker, UnifiedPresentation};

verus! {

/// Which part of a collapsed run to reveal.
#[derive(Clone, Copy, Debug, PartialEq, Eq, Structural)]
pub enum RevealScope {
    Above,
    Below,
    All,
}

/// Rows revealed at a time: the setting `context_lines` (3 when negative)
/// clamped to 1..=10, and at most the `hidden_count` rows that are hidden.
pub open spec fn reveal_context(context_lines: i32, hidden_count: int) -> int {
    let setting: int = if context_lines < 0 {
        3
    } else {
        context_lines as int
    };
    let clamped: int = if setting < 1 {
        1
    } else if setting > 10 {
        10
    } else {
        setting
    };
    if clamped < hidden_count {
        clamped
    } else {
        hidden_count
    }
}

/// The rows revealed in the run `hidden_start..hidden_end`: the first
/// `reveal_context` rows (`Above`), the last ones (`Below`) or all of them.
pub open spec fn spec_reveal_range(hidden_start: int, hidden_end: int, context_lines: i32, scope: RevealScope) -> (int, int) {
    let context = reveal_context(context_lines, hidden_end - hidden_start);
    match scope {
        RevealScope::Above => (hidden_start, hidden_start + context),
        RevealScope::Below => (hidden_end - context, hidden_end),
        RevealScope::All => (hidden_start, hidden_end),
    }
}

/// The rows a reveal of `scope` shows in the run `hidden_start..hidden_end`
/// (see `reveal_rows`).
pub open spec fn reveal_seq(hidden_start: usize, hidden_end: usize, context_lines: i32, scope: RevealScope) -> Seq<
    usize,
> {
    if hidden_end <= hidden_start {
        Seq::empty()
    } else {
        let (lo, hi) = spec_reveal_range(hidden_start as int, hidden_end as int, context_lines, scope);
        Seq::new((hi - lo) as nat, |i: int| (lo + i) as usize)
    }
}

/// The rows a reveal shows, in ascending order; none for an empty run.
pub fn reveal_rows(hidden_start: usize, hidden_end: usize, context_lines: i32, scope: RevealScope) -> (rows: Vec<usize>)
    ensures
        rows@ == reveal_seq(hidden_start, hidden_end, context_lines, scope),
{
    let hidden_count = hidden_end.saturating_sub(hidden_start);
    if hidden_count == 0 {
        return Vec::new();
    }
    let setting: usize = if context_lines < 0 {
        3
    } else {
        context_lines as usize
    };
    let clamped: usize = if setting < 1 {
        1
    } else if setting > 10 {
        10
    } else {
        setting
    };
    let context = if clamped < hidden_count {
        clamped
    } else {
        hidden_count
    };
    let (lo, hi) = match scope {
        RevealScope::Above => (hidden_start, hidden_start.saturating_add(context)),
        RevealScope::Below => (hidden_end.saturating_sub(context), hidden_end),
        RevealScope::All => (hidden_start, hidden_end),
    };
    let mut rows: Vec<usize> = Vec::new();
    let mut row = lo;
    while row < hi
        invariant
            lo <= row <= hi,
            rows@ == Seq::new((row - lo) as nat, |i: int| (lo + i) as usize),
        decreases hi - row,
    {
        rows.push(row);
        row += 1;
        assert(rows@ =~= Seq::new((row - lo) as nat, |i: int| (lo + i) as usize));
    }
    rows
}


/// Reveals the part `scope` of the collapsed run at or above the cursor's
/// line of a unified view (see `cursor_marker`) in the view's revealed rows.
/// Returns whether a row was not revealed before, so that the display must
/// be rebuilt; without a run, or when its rows to reveal are all revealed,
/// nothing changes.
pub fn reveal_at_cursor(
    revealed_rows: &mut BTreeSet<usize>,
    presentation: &UnifiedPresentation,
    cursor: usize,
    context_lines: i32,
    scope: RevealScope,
) -> (changed: bool)
    ensures
        match cursor_marker(presentation.lines@, cursor) {
            None => !changed && final(revealed_rows)@ == old(revealed_rows)@,
            Some(m) => {
                let rows = reveal_seq(m.0, m.1, context_lines, scope).to_set();
                &&& changed == !rows.subset_of(old(revealed_rows)@)
                &&& final(revealed_rows)@ == old(revealed_rows)@ + rows
            },
        },
{
    let marker = match current_collapsed_marker(presentation, cursor) {
        Some(marker) => marker,
        None => return false,
    };
    let rows = reveal_rows(marker.0, marker.1, context_lines, scope);
    let ghost base = revealed_rows@;
    let mut all_revealed = true;
    let mut i: usize = 0;
    while i < rows.len()
        invariant
            i <= rows@.len(),
            revealed_rows@ == base,
            base == old(revealed_rows)@,
            all_revealed == forall|j: int| 0 <= j < i ==> base.contains(#[trigger] rows@[j]),
        decreases rows@.len() - i,
    {
        if !holds_row(revealed_rows, rows[i]) {
            all_revealed = false;
        }
        i += 1;
    }
    if all_revealed {
        proof {
            assert forall|r: usize| rows@.to_set().contains(r) implies base.contains(r) by {
                let j = choose|j: int| 0 <= j < rows@.len() && rows@[j] == r;
                assert(base.contains(rows@[j]));
            }
            assert(base + rows@.to_set() =~= base);
        }
        return false;
    }
    proof {
        let j = choose|j: int| 0 <= j < rows@.len() && !base.contains(rows@[j]);
        assert(rows@.to_set().contains(rows@[j]));
    }
    let mut k: usize = 0;
    while k < rows.len()
        invariant
            k <= rows@.len(),
            base == old(revealed_rows)@,
            revealed_rows@ == base + rows@.take(k as int).to_set(),
        decreases rows@.len() - k,
    {
        insert_row(revealed_rows, rows[k]);
        proof {
            assert(rows@.take(k + 1) =~= rows@.take(k as int).push(rows@[k as int]));
            rows@.take(k as int).lemma_push_to_set_commute(rows@[k as int]);
            assert(revealed_rows@ =~= base + rows@.take(k + 1).to_set());
        }
        k += 1;
    }
    assert(rows@.take(k as int) =~= rows@);
    true
}

/// A reveal shows only hidden rows of its run, at most ten at a time unless
/// it reveals the whole run, and at least one.
pub proof fn lemma_reveal_stays_in_run(hidden_start: int, hidden_end: int, context_lines: i32, scope: RevealScope)
    requires
        hidden_start < hidden_end,
    ensures
        hidden_start <= spec_reveal_range(hidden_start, hidden_end, context_lines, scope).0,
        spec_reveal_range(hidden_start, hidden_end, context_lines, scope).0 < spec_reveal_range(
            hidden_start,
            hidden_end,
            context_lines,
            scope,
        ).1,
        spec_reveal_range(hidden_start, hidden_end, context_lines, scope).1 <= hidden_end,
        scope != RevealScope::All ==> spec_reveal_range(hidden_start, hidden_end, context_lines, scope).1
            - spec_reveal_range(hidden_start, hidden_end, context_lines, scope).0 <= 10,
{
}

} // verus!
