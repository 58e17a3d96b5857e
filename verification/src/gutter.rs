//! The cells of the compare gutters: the line numbers of each side, change markers,
//! and the widths the number and marker columns ask for.
use vstd::prelude::*;

use crate::model::{DiffRowKind, DiffRowModel};
use crate::presentation::{DiffPresentation, PresentationSide, entry, max_number, side_numbers};
use crate::text::{decimal_string, push_char, spec_decimal};
use crate::unified::{UnifiedLine, UnifiedLineSide};

verus! {

/// The marker cell of an unchanged line: a no-break space, so that the cell keeps its width.
pub const EMPTY_MARKER: char = '\u{00A0}';

pub const NUMBER_XPAD: i32 = 6;

pub const MARKER_XPAD: i32 = 3;

/// Width of one digit when the font cannot be measured.
pub const FALLBACK_DIGIT_WIDTH: i32 = 10;

/// The number cell of `row` on `side`: its 1-based line number, or nothing.
pub fn gutter_number_for_row(presentation: &DiffPresentation, side: PresentationSide, row: usize) -> (cell: String)
    ensures
        cell@ == match entry(side_numbers(*presentation, side), row as int) {
            Some(n) => spec_decimal(n as nat),
            None => Seq::<char>::empty(),
        },
{
    match presentation.line_number(side, row) {
        Some(line_number) => decimal_string(line_number),
        None => String::new(),
    }
}

/// The marker of a row of `kind` on `side`: `-` for removed and modified
/// reference lines, `+` for added and modified current lines, else blank.
pub open spec fn spec_marker(side: PresentationSide, kind: DiffRowKind) -> char {
    match (side, kind) {
        (PresentationSide::Reference, DiffRowKind::ReferenceOnly) => '-',
        (PresentationSide::Reference, DiffRowKind::Modify) => '-',
        (PresentationSide::Current, DiffRowKind::CurrentOnly) => '+',
        (PresentationSide::Current, DiffRowKind::Modify) => '+',
        _ => EMPTY_MARKER,
    }
}

/// Law: a row is marked `-` exactly on the reference side of a removed or
/// modified row, `+` exactly on the current side of an added or modified row,
/// and blank everywhere else; in particular an unchanged row is blank on both
/// sides.
pub proof fn lemma_markers_show_changes(side: PresentationSide, kind: DiffRowKind)
    ensures
        (spec_marker(side, kind) == '-') <==> (side == PresentationSide::Reference && (kind
            == DiffRowKind::ReferenceOnly || kind == DiffRowKind::Modify)),
        (spec_marker(side, kind) == '+') <==> (side == PresentationSide::Current && (kind
            == DiffRowKind::CurrentOnly || kind == DiffRowKind::Modify)),
        spec_marker(side, kind) == '-' || spec_marker(side, kind) == '+' || spec_marker(side, kind)
            == EMPTY_MARKER,
        kind == DiffRowKind::Equal ==> spec_marker(side, kind) == EMPTY_MARKER,
{
}

/// The marker of a row of `kind` on `side` (see `spec_marker` and
/// `lemma_markers_show_changes`).
pub fn marker_for_kind(side: PresentationSide, kind: DiffRowKind) -> (marker: char)
    ensures
        marker == spec_marker(side, kind),
        kind == DiffRowKind::Equal ==> marker == EMPTY_MARKER,
        (marker == '+') <==> (side == PresentationSide::Current && (kind == DiffRowKind::CurrentOnly
            || kind == DiffRowKind::Modify)),
        (marker == '-') <==> (side == PresentationSide::Reference && (kind == DiffRowKind::ReferenceOnly
            || kind == DiffRowKind::Modify)),
{
    proof {
        lemma_markers_show_changes(side, kind);
    }
    match (side, kind) {
        (PresentationSide::Reference, DiffRowKind::ReferenceOnly) => '-',
        (PresentationSide::Reference, DiffRowKind::Modify) => '-',
        (PresentationSide::Current, DiffRowKind::CurrentOnly) => '+',
        (PresentationSide::Current, DiffRowKind::Modify) => '+',
        _ => EMPTY_MARKER,
    }
}

/// The marker cell of `row` on `side`: nothing where the side shows no
/// line; else the row's marker (blank past the model's rows).
pub fn gutter_marker_for_row(
    presentation: &DiffPresentation,
    model: &DiffRowModel,
    side: PresentationSide,
    row: usize,
) -> (cell: String)
    ensures
        cell@ == if entry(side_numbers(*presentation, side), row as int) is None {
            Seq::<char>::empty()
        } else if row < model.rows@.len() {
            seq![spec_marker(side, model.rows@[row as int].kind)]
        } else {
            seq![EMPTY_MARKER]
        },
        row < model.rows@.len() && model.rows@[row as int].kind == DiffRowKind::Equal ==> cell@.len() == 0
            || cell@ == seq![EMPTY_MARKER],
{
    proof {
        if row < model.rows@.len() {
            lemma_markers_show_changes(side, model.rows@[row as int].kind);
        }
    }
    let mut cell = String::new();
    if presentation.line_number(side, row).is_none() {
        return cell;
    }
    let marker = if row < model.rows.len() {
        marker_for_kind(side, model.rows[row].kind)
    } else {
        EMPTY_MARKER
    };
    push_char(&mut cell, marker);
    cell
}

/// The reference number a unified line shows: context and removed lines have one.
pub fn unified_reference_number(line: &UnifiedLine) -> (n: Option<usize>)
    ensures
        n == match line.side {
            UnifiedLineSide::Context | UnifiedLineSide::Removal => line.reference_line,
            _ => None,
        },
{
    match line.side {
        UnifiedLineSide::Context | UnifiedLineSide::Removal => line.reference_line,
        UnifiedLineSide::Addition | UnifiedLineSide::Collapsed => None,
    }
}

/// The current number a unified line shows: context and added lines have one.
pub fn unified_current_number(line: &UnifiedLine) -> (n: Option<usize>)
    ensures
        n == match line.side {
            UnifiedLineSide::Context | UnifiedLineSide::Addition => line.current_line,
            _ => None,
        },
{
    match line.side {
        UnifiedLineSide::Context | UnifiedLineSide::Addition => line.current_line,
        UnifiedLineSide::Removal | UnifiedLineSide::Collapsed => None,
    }
}

/// The marker of a unified line: `-` removed, `+` added, else blank.
pub fn unified_marker(line: &UnifiedLine) -> (marker: char)
    ensures
        marker == match line.side {
            UnifiedLineSide::Removal => '-',
            UnifiedLineSide::Addition => '+',
            _ => EMPTY_MARKER,
        },
{
    match line.side {
        UnifiedLineSide::Removal => '-',
        UnifiedLineSide::Addition => '+',
        UnifiedLineSide::Context | UnifiedLineSide::Collapsed => EMPTY_MARKER,
    }
}

/// The largest line number either side shows (1 when none does).
pub fn shared_max_line_number(presentation: &DiffPresentation) -> (n: usize)
    ensures
        n == if max_number(presentation.reference_line_numbers@) >= max_number(
            presentation.current_line_numbers@,
        ) {
            max_number(presentation.reference_line_numbers@)
        } else {
            max_number(presentation.current_line_numbers@)
        },
{
    let reference = presentation.max_line_number(PresentationSide::Reference);
    let current = presentation.max_line_number(PresentationSide::Current);
    if reference >= current {
        reference
    } else {
        current
    }
}

/// Number of decimal digits of `value`, counting 0 as 1.
pub fn line_number_digits(value: usize) -> (digits: usize)
    ensures
        digits == spec_decimal(if value >= 1 {
            value as nat
        } else {
            1nat
        }).len(),
{
    let mut rest: usize = if value >= 1 {
        value
    } else {
        1
    };
    let ghost start = rest as nat;
    let mut digits: usize = 1;
    while rest >= 10
        invariant
            1 <= rest,
            digits + rest <= start + 1,
            start <= usize::MAX,
            spec_decimal(start).len() == digits - 1 + spec_decimal(rest as nat).len(),
        decreases rest,
    {
        proof {
            lemma_decimal_len_step(rest as nat);
        }
        rest = rest / 10;
        digits += 1;
    }
    proof {
        lemma_decimal_len_one(rest as nat);
    }
    digits
}

proof fn lemma_decimal_len_step(n: nat)
    requires
        n >= 10,
    ensures
        spec_decimal(n).len() == spec_decimal(n / 10).len() + 1,
{
    reveal_with_fuel(spec_decimal, 2);
}

proof fn lemma_decimal_len_one(n: nat)
    requires
        1 <= n < 10,
    ensures
        spec_decimal(n).len() == 1,
{
    reveal_with_fuel(spec_decimal, 2);
}

/// The text a number column is measured with: `digits` eights (at least one).
pub fn number_width_samples(digits: usize) -> (samples: [String; 1])
    ensures
        samples[0]@ == Seq::new(if digits >= 1 {
            digits as nat
        } else {
            1nat
        }, |i: int| '8'),
{
    let count = if digits >= 1 {
        digits
    } else {
        1
    };
    let mut sample = String::new();
    let mut i: usize = 0;
    while i < count
        invariant
            i <= count,
            sample@ == Seq::new(i as nat, |k: int| '8'),
        decreases count - i,
    {
        push_char(&mut sample, '8');
        i += 1;
        assert(sample@ =~= Seq::new(i as nat, |k: int| '8'));
    }
    [sample]
}

/// The texts a marker column is measured with: both markers and the blank one.
pub fn marker_width_samples() -> (samples: [String; 3])
    ensures
        samples[0]@ == seq!['+'],
        samples[1]@ == seq!['-'],
        samples[2]@ == seq![EMPTY_MARKER],
{
    let mut plus = String::new();
    push_char(&mut plus, '+');
    let mut minus = String::new();
    push_char(&mut minus, '-');
    let mut blank = String::new();
    push_char(&mut blank, EMPTY_MARKER);
    [plus, minus, blank]
}

/// `a + b`, at most `i32::MAX`.
pub open spec fn sat_add_i32(a: int, b: int) -> int {
    if a + b > i32::MAX {
        i32::MAX as int
    } else {
        a + b
    }
}

/// The width a number column asks for: the measured width, at least
/// `FALLBACK_DIGIT_WIDTH` per digit (saturating), plus padding on both sides.
pub fn number_width_request_for_digits(measured_width: i32, digits: usize) -> (width: i32)
    ensures
        width == ({
            let fallback: int = if digits > i32::MAX {
                i32::MAX as int
            } else {
                sat_add_i32(0, digits * FALLBACK_DIGIT_WIDTH)
            };
            let base: int = if measured_width >= fallback {
                measured_width as int
            } else {
                fallback
            };
            if base + NUMBER_XPAD * 2 > i32::MAX {
                i32::MAX as int
            } else {
                base + NUMBER_XPAD * 2
            }
        }),
{
    let fallback: i32 = if digits > i32::MAX as usize {
        i32::MAX
    } else {
        let product: i64 = digits as i64 * FALLBACK_DIGIT_WIDTH as i64;
        if product > i32::MAX as i64 {
            i32::MAX
        } else {
            product as i32
        }
    };
    let base = if measured_width >= fallback {
        measured_width
    } else {
        fallback
    };
    if base > i32::MAX - NUMBER_XPAD * 2 {
        i32::MAX
    } else {
        base + NUMBER_XPAD * 2
    }
}

/// The width a marker column asks for: the measured width, at least
/// `FALLBACK_DIGIT_WIDTH`, plus padding on both sides.
pub fn marker_width_request(measured_width: i32) -> (width: i32)
    ensures
        width == sat_add_i32(
            if measured_width >= FALLBACK_DIGIT_WIDTH {
                measured_width as int
            } else {
                FALLBACK_DIGIT_WIDTH as int
            },
            MARKER_XPAD * 2,
        ),
{
    let base = if measured_width >= FALLBACK_DIGIT_WIDTH {
        measured_width
    } else {
        FALLBACK_DIGIT_WIDTH
    };
    if base > i32::MAX - MARKER_XPAD * 2 {
        i32::MAX
    } else {
        base + MARKER_XPAD * 2
    }
}

} // verus!
