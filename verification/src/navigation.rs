//! Moving between hunks from the top visible row of a compare view, and the
//! display row of the selected hunk.
use vstd::prelude::*;

use crate::display::{spec_logical_row_for_display, CompareDisplayModel};
use crate::model::{DiffHunk, DiffRowModel};
use crate::presentation::entry;

verus! {

/// The last hunk before index `k` that starts above `row`.
pub open spec fn last_hunk_above(hunks: Seq<DiffHunk>, row: usize, k: int) -> Option<usize>
    decreases k,
{
    if k <= 0 {
        None
    } else if hunks[k - 1].first_row < row {
        Some((k - 1) as usize)
    } else {
        last_hunk_above(hunks, row, k - 1)
    }
}

/// The first hunk from index `k` on that starts below `row`.
pub open spec fn first_hunk_below(hunks: Seq<DiffHunk>, row: usize, k: int) -> Option<usize>
    decreases hunks.len() - k,
{
    if k < 0 || k >= hunks.len() {
        None
    } else if hunks[k].first_row > row {
        Some(k as usize)
    } else {
        first_hunk_below(hunks, row, k + 1)
    }
}

/// The hunk navigation moves to from `top_visible_row`: none without hunks
/// or for a model too large to compare; backwards (negative `direction`) the
/// last hunk that starts above the row, else the last hunk; forwards the
/// first hunk that starts below the row, else the first hunk.
pub open spec fn spec_navigation_target(model: DiffRowModel, top_visible_row: usize, direction: i32) -> Option<usize> {
    if model.hunks@.len() == 0 || model.too_large {
        None
    } else if direction < 0 {
        match last_hunk_above(model.hunks@, top_visible_row, model.hunks@.len() as int) {
            Some(k) => Some(k),
            None => Some((model.hunks@.len() - 1) as usize),
        }
    } else {
        match first_hunk_below(model.hunks@, top_visible_row, 0) {
            Some(k) => Some(k),
            None => Some(0usize),
        }
    }
}

/// `target` is where hunk navigation from `top_visible_row` lands, said of
/// the hunks themselves: nothing without hunks or for a model too large to
/// compare; backwards, the greatest hunk that starts above the row, or the
/// last hunk when none does; forwards, the least hunk that starts below the
/// row, or the first hunk when none does.
pub open spec fn lands_on_nearest_hunk(model: DiffRowModel, top_visible_row: usize, direction: i32, target: Option<
    usize,
>) -> bool {
    let hunks = model.hunks@;
    if hunks.len() == 0 || model.too_large {
        target is None
    } else if direction < 0 {
        target matches Some(k) && k < hunks.len() && ((hunks[k as int].first_row < top_visible_row && forall|
            j: int,
        |
            k < j < hunks.len() ==> #[trigger] hunks[j].first_row >= top_visible_row) || ((forall|j: int|
            0 <= j < hunks.len() ==> #[trigger] hunks[j].first_row >= top_visible_row) && k == hunks.len() - 1))
    } else {
        target matches Some(k) && k < hunks.len() && ((hunks[k as int].first_row > top_visible_row && forall|
            j: int,
        |
            0 <= j < k ==> #[trigger] hunks[j].first_row <= top_visible_row) || ((forall|j: int|
            0 <= j < hunks.len() ==> #[trigger] hunks[j].first_row <= top_visible_row) && k == 0))
    }
}

/// `last_hunk_above` finds the greatest hunk before index `k` that starts
/// above `row`, and finds none only when no hunk before `k` does.
proof fn lemma_last_hunk_above_is_greatest(hunks: Seq<DiffHunk>, row: usize, k: int)
    requires
        k <= hunks.len(),
        hunks.len() <= usize::MAX,
    ensures
        match last_hunk_above(hunks, row, k) {
            Some(t) => 0 <= t < k && hunks[t as int].first_row < row && forall|j: int|
                t < j < k ==> #[trigger] hunks[j].first_row >= row,
            None => forall|j: int| 0 <= j < k ==> #[trigger] hunks[j].first_row >= row,
        },
    decreases k,
{
    if k > 0 {
        lemma_last_hunk_above_is_greatest(hunks, row, k - 1);
    }
}

/// `first_hunk_below` finds the least hunk from index `k` on that starts below
/// `row`, and finds none only when no hunk from `k` on does.
proof fn lemma_first_hunk_below_is_least(hunks: Seq<DiffHunk>, row: usize, k: int)
    requires
        0 <= k <= hunks.len(),
        hunks.len() <= usize::MAX,
    ensures
        match first_hunk_below(hunks, row, k) {
            Some(t) => k <= t < hunks.len() && hunks[t as int].first_row > row && forall|j: int|
                k <= j < t ==> #[trigger] hunks[j].first_row <= row,
            None => forall|j: int| k <= j < hunks.len() ==> #[trigger] hunks[j].first_row <= row,
        },
    decreases hunks.len() - k,
{
    if k < hunks.len() {
        lemma_first_hunk_below_is_least(hunks, row, k + 1);
    }
}

/// Law: navigating backwards lands on the greatest hunk that starts above the
/// top visible row (the last hunk when none does), forwards on the least hunk
/// that starts below it (the first hunk when none does).
pub proof fn lemma_navigation_lands_on_nearest_hunk(model: DiffRowModel, top_visible_row: usize, direction: i32)
    requires
        model.hunks@.len() <= usize::MAX,
    ensures
        lands_on_nearest_hunk(
            model,
            top_visible_row,
            direction,
            spec_navigation_target(model, top_visible_row, direction),
        ),
{
    let hunks = model.hunks@;
    lemma_last_hunk_above_is_greatest(hunks, top_visible_row, hunks.len() as int);
    lemma_first_hunk_below_is_least(hunks, top_visible_row, 0);
}

/// The hunk navigation moves to from `top_visible_row` (see
/// `spec_navigation_target` and `lands_on_nearest_hunk`).
pub fn target_hunk_for_navigation(model: &DiffRowModel, top_visible_row: usize, direction: i32) -> (target: Option<usize>)
    ensures
        target == spec_navigation_target(*model, top_visible_row, direction),
        lands_on_nearest_hunk(*model, top_visible_row, direction, target),
{
    let n = model.hunks.len();
    proof {
        lemma_navigation_lands_on_nearest_hunk(*model, top_visible_row, direction);
    }
    if n == 0 || model.too_large {
        return None;
    }
    if direction < 0 {
        let mut k = n;
        while k > 0
            invariant
                k <= n,
                n == model.hunks@.len(),
                n > 0,
                !model.too_large,
                direction < 0,
                lands_on_nearest_hunk(*model, top_visible_row, direction, spec_navigation_target(*model, top_visible_row, direction)),
                last_hunk_above(model.hunks@, top_visible_row, n as int) == last_hunk_above(
                    model.hunks@,
                    top_visible_row,
                    k as int,
                ),
            decreases k,
        {
            if model.hunks[k - 1].first_row < top_visible_row {
                assert(last_hunk_above(model.hunks@, top_visible_row, k as int) == Some((k - 1) as usize));
                return Some(k - 1);
            }
            k -= 1;
        }
        assert(last_hunk_above(model.hunks@, top_visible_row, 0) is None);
        return Some(n - 1);
    }
    let mut k: usize = 0;
    while k < n
        invariant
            k <= n,
            n == model.hunks@.len(),
            n > 0,
            !model.too_large,
            direction >= 0,
            lands_on_nearest_hunk(*model, top_visible_row, direction, spec_navigation_target(*model, top_visible_row, direction)),
            first_hunk_below(model.hunks@, top_visible_row, 0) == first_hunk_below(
                model.hunks@,
                top_visible_row,
                k as int,
            ),
        decreases n - k,
    {
        if model.hunks[k].first_row > top_visible_row {
            assert(first_hunk_below(model.hunks@, top_visible_row, k as int) == Some(k));
            return Some(k);
        }
        k += 1;
    }
    assert(first_hunk_below(model.hunks@, top_visible_row, n as int) is None);
    Some(0)
}


/// The display row at the top of a view, from the buffer line shown there:
/// 0 for an empty display or a negative line, else the line clamped to the
/// last row.
pub fn top_visible_row(line_at_top: i32, row_count: usize) -> (row: usize)
    ensures
        row == if row_count == 0 || line_at_top < 0 {
            0
        } else if (line_at_top as int) < row_count {
            line_at_top as int
        } else {
            row_count - 1
        },
{
    if row_count == 0 || line_at_top < 0 {
        return 0;
    }
    let line = line_at_top as usize;
    if line < row_count {
        line
    } else {
        row_count - 1
    }
}

/// The logical row hunk navigation starts from: the first row of the current
/// hunk when it lies at or below the top visible row, else the top visible
/// row, that is the logical row display row `display_top_row` stands for (or
/// that index itself).
pub open spec fn navigation_base(
    model: DiffRowModel,
    display: CompareDisplayModel,
    display_top_row: usize,
    current_hunk: Option<usize>,
) -> usize {
    let top_row = match spec_logical_row_for_display(display.rows@, display_top_row as int) {
        Some(r) => r,
        None => display_top_row,
    };
    match current_hunk {
        Some(i) => if i < model.hunks@.len() && model.hunks@[i as int].first_row >= top_row {
            model.hunks@[i as int].first_row
        } else {
            top_row
        },
        None => top_row,
    }
}

/// The hunk a move in `direction` selects: none without hunks or for a model
/// too large to compare; else the navigation target from `navigation_base`.
pub fn hunk_after_move(
    model: &DiffRowModel,
    display: &CompareDisplayModel,
    display_top_row: usize,
    current_hunk: Option<usize>,
    direction: i32,
) -> (next: Option<usize>)
    ensures
        next == spec_navigation_target(
            *model,
            navigation_base(*model, *display, display_top_row, current_hunk),
            direction,
        ),
{
    if model.hunks.len() == 0 || model.too_large {
        return None;
    }
    let top_row = match display.logical_row_for_display(display_top_row) {
        Some(row) => row,
        None => display_top_row,
    };
    let base_row = match current_hunk {
        Some(index) => if index < model.hunks.len() && model.hunks[index].first_row >= top_row {
            model.hunks[index].first_row
        } else {
            top_row
        },
        None => top_row,
    };
    target_hunk_for_navigation(model, base_row, direction)
}

/// The display row of the current hunk's first row: the row that shows it,
/// or that logical row index itself; none without a current hunk or past the hunks.
pub fn current_hunk_row(current_hunk: Option<usize>, model: &DiffRowModel, display: &CompareDisplayModel) -> (row:
    Option<usize>)
    ensures
        row == match current_hunk {
            Some(i) => if i < model.hunks@.len() {
                match entry(display.logical_to_display@, model.hunks@[i as int].first_row as int) {
                    Some(d) => Some(d),
                    None => Some(model.hunks@[i as int].first_row),
                }
            } else {
                None
            },
            None => None,
        },
{
    let index = match current_hunk {
        Some(index) => index,
        None => return None,
    };
    if index >= model.hunks.len() {
        return None;
    }
    let first_row = model.hunks[index].first_row;
    match display.row_for_logical(first_row) {
        Some(row) => Some(row),
        None => Some(first_row),
    }
}

/// The row to scroll to after a recompute: the first hunk's row when the
/// first hunk is selected, else none.
pub fn recompute_scroll_row(current_hunk: Option<usize>, model: &DiffRowModel, display: &CompareDisplayModel) -> (row:
    Option<usize>)
    ensures
        row == if current_hunk == Some(0usize) {
            if 0 < model.hunks@.len() {
                match entry(display.logical_to_display@, model.hunks@[0].first_row as int) {
                    Some(d) => Some(d),
                    None => Some(model.hunks@[0].first_row),
                }
            } else {
                None
            }
        } else {
            None
        },
{
    if current_hunk == Some(0usize) {
        current_hunk_row(current_hunk, model, display)
    } else {
        None
    }
}

/// Navigation always lands on an existing hunk when there is one.
pub proof fn lemma_navigation_target_exists(hunks: Seq<DiffHunk>, row: usize)
    requires
        hunks.len() <= usize::MAX,
    ensures
        forall|k: int| 0 <= k <= hunks.len() ==> (#[trigger] last_hunk_above(hunks, row, k) matches Some(t)
            ==> t < k),
        first_hunk_below(hunks, row, 0) matches Some(t) ==> t < hunks.len(),
{
    assert forall|k: int| 0 <= k <= hunks.len() implies (#[trigger] last_hunk_above(hunks, row, k) matches Some(t)
        ==> t < k) by {
        lemma_last_hunk_above_bound(hunks, row, k);
    }
    lemma_first_hunk_below_bound(hunks, row, 0);
}

proof fn lemma_last_hunk_above_bound(hunks: Seq<DiffHunk>, row: usize, k: int)
    requires
        k <= usize::MAX + 1,
    ensures
        last_hunk_above(hunks, row, k) matches Some(t) ==> 0 <= t < k,
    decreases k,
{
    if k > 0 {
        lemma_last_hunk_above_bound(hunks, row, k - 1);
    }
}

proof fn lemma_first_hunk_below_bound(hunks: Seq<DiffHunk>, row: usize, k: int)
    requires
        hunks.len() <= usize::MAX,
    ensures
        first_hunk_below(hunks, row, k) matches Some(t) ==> k <= t < hunks.len(),
    decreases hunks.len() - k,
{
    if 0 <= k < hunks.len() {
        lemma_first_hunk_below_bound(hunks, row, k + 1);
    }
}

} // verus!
