//! The rows a compare minimap draws: per row of the line diff, its lines and
//! whether it is unchanged, removed, added or modified.
use vstd::prelude::*;

use crate::diff::{
    DiffOptions, DiffSkipReason, compute_diff_with_options, fits_usize, spec_line_ops,
    spec_skip_reason,
};
use crate::model::{DiffRowKind, RowShape, ops_rows, shapes};

verus! {

#[derive(Clone, Copy, Debug, PartialEq, Eq, Structural)]
pub enum MinimapRowKind {
    Equal,
    Removed,
    Added,
    Modified,
}

#[derive(Clone, Copy, Debug, PartialEq, Eq, Structural)]
pub struct MinimapRow {
    pub reference_line: Option<usize>,
    pub current_line: Option<usize>,
    pub kind: MinimapRowKind,
}

#[derive(Debug, PartialEq, Eq)]
pub struct MinimapRows {
    pub rows: Vec<MinimapRow>,
    pub skip_reason: Option<DiffSkipReason>,
}

pub open spec fn minimap_kind(kind: DiffRowKind) -> MinimapRowKind {
    match kind {
        DiffRowKind::Equal => MinimapRowKind::Equal,
        DiffRowKind::ReferenceOnly => MinimapRowKind::Removed,
        DiffRowKind::CurrentOnly => MinimapRowKind::Added,
        DiffRowKind::Modify => MinimapRowKind::Modified,
    }
}

/// The minimap row of a diff row's shape.
pub open spec fn minimap_row(shape: RowShape) -> MinimapRow {
    MinimapRow { reference_line: shape.0, current_line: shape.1, kind: minimap_kind(shape.2) }
}

/// The minimap rows of a compare with the default options: none and the skip
/// reason when the compare is skipped for its size, else one per row of the
/// line diff.
pub fn compute(reference_text: &str, current_text: &str) -> (minimap: MinimapRows)
    requires
        fits_usize(reference_text@),
        fits_usize(current_text@),
    ensures
        minimap.skip_reason == spec_skip_reason(reference_text@, current_text@),
        minimap.skip_reason is Some ==> minimap.rows@.len() == 0,
        minimap.skip_reason is None ==> {
            let rows = ops_rows(spec_line_ops(reference_text@, current_text@, false));
            minimap.rows@ == Seq::new(rows.len(), |i: int| minimap_row(rows[i]))
        },
{
    let computation = compute_diff_with_options(reference_text, current_text, DiffOptions::default());
    if let Some(skip_reason) = computation.skip_reason {
        return MinimapRows { rows: Vec::new(), skip_reason: Some(skip_reason) };
    }
    let ghost diff_rows = computation.model.rows@;
    let mut rows: Vec<MinimapRow> = Vec::new();
    let mut i: usize = 0;
    while i < computation.model.rows.len()
        invariant
            diff_rows == computation.model.rows@,
            i <= diff_rows.len(),
            rows@ == Seq::new(i as nat, |j: int| minimap_row(shapes(diff_rows)[j])),
        decreases diff_rows.len() - i,
    {
        let row = &computation.model.rows[i];
        let kind = match row.kind {
            DiffRowKind::Equal => MinimapRowKind::Equal,
            DiffRowKind::ReferenceOnly => MinimapRowKind::Removed,
            DiffRowKind::CurrentOnly => MinimapRowKind::Added,
            DiffRowKind::Modify => MinimapRowKind::Modified,
        };
        rows.push(MinimapRow { reference_line: row.reference_line, current_line: row.current_line, kind });
        i += 1;
        assert(rows@ =~= Seq::new(i as nat, |j: int| minimap_row(shapes(diff_rows)[j])));
    }
    MinimapRows { rows, skip_reason: None }
}

} // verus!
