//! Editor zoom: the allowed zoom range, font sizes scaled by it, the margin
//! that lets a view scroll past its end, and escaping a font family for CSS.
use vstd::prelude::*;

use crate::text::{chars_of, replace_all, spec_replace};

verus! {

/// Units of a Pango font size per point.
pub const PANGO_SCALE: i32 = 1024;

pub const DEFAULT_FONT_SIZE_PT: i32 = 11;

pub const DEFAULT_ZOOM_PERCENT: i32 = 100;

pub const MIN_ZOOM_PERCENT: i32 = 50;

pub const MAX_ZOOM_PERCENT: i32 = 200;

/// The smallest bottom margin of a view, in pixels.
pub const DEFAULT_VIEW_MARGIN_PX: i32 = 12;

/// How many lines a view can scroll past its end.
pub const SCROLL_PAST_END_LINES: i32 = 10;

/// The zoom percent kept within `MIN_ZOOM_PERCENT..=MAX_ZOOM_PERCENT`.
pub fn clamp_zoom_percent(percent: i32) -> (clamped: i32)
    ensures
        clamped == if percent < MIN_ZOOM_PERCENT {
            MIN_ZOOM_PERCENT
        } else if percent > MAX_ZOOM_PERCENT {
            MAX_ZOOM_PERCENT
        } else {
            percent
        },
{
    if percent < MIN_ZOOM_PERCENT {
        MIN_ZOOM_PERCENT
    } else if percent > MAX_ZOOM_PERCENT {
        MAX_ZOOM_PERCENT
    } else {
        percent
    }
}

/// `a / b` rounded towards zero, as Rust divides.
pub open spec fn div_toward_zero(a: int, b: int) -> int {
    if a >= 0 {
        a / b
    } else {
        -((-a) / b)
    }
}

/// A font size scaled by `percent` (rounded towards zero); the default size
/// when the result does not fit in an `i32`.
pub fn scale_font_size(size: i32, percent: i32) -> (scaled: i32)
    ensures
        scaled == ({
            let exact = div_toward_zero(size * percent, DEFAULT_ZOOM_PERCENT as int);
            if i32::MIN <= exact <= i32::MAX {
                exact
            } else {
                DEFAULT_FONT_SIZE_PT * PANGO_SCALE
            }
        }),
{
    assert(-0x4000_0000_0000_0000 <= (size as int) * (percent as int) <= 0x4000_0000_0000_0000)
        by (nonlinear_arith)
        requires
            i32::MIN <= size <= i32::MAX,
            i32::MIN <= percent <= i32::MAX,
    ;
    let product: i64 = size as i64 * percent as i64;
    let quotient: i64 = if product >= 0 {
        product / 100
    } else {
        -((-product) / 100)
    };
    if i32::MIN as i64 <= quotient && quotient <= i32::MAX as i64 {
        quotient as i32
    } else {
        DEFAULT_FONT_SIZE_PT * PANGO_SCALE
    }
}

/// A font family named `requested` matches `candidate` when the names are
/// equal or `requested` is `candidate` followed by a space and a style.
pub open spec fn spec_family_matches(requested: Seq<char>, candidate: Seq<char>) -> bool {
    requested == candidate || (requested.len() > candidate.len() && requested.take(
        candidate.len() as int,
    ) == candidate && requested[candidate.len() as int] == ' ')
}

pub fn font_family_name_matches(requested: &str, candidate: &str) -> (matches: bool)
    ensures
        matches == spec_family_matches(requested@, candidate@),
{
    let r = chars_of(requested);
    let c = chars_of(candidate);
    if r.len() < c.len() {
        return false;
    }
    let mut i: usize = 0;
    while i < c.len()
        invariant
            r@ == requested@,
            c@ == candidate@,
            c@.len() <= r@.len(),
            i <= c@.len(),
            forall|k: int| 0 <= k < i ==> r@[k] == c@[k],
        decreases c@.len() - i,
    {
        if r[i] != c[i] {
            proof {
                assert(r@.take(c@.len() as int)[i as int] != c@[i as int]);
            }
            return false;
        }
        i += 1;
    }
    assert(r@.take(c@.len() as int) =~= c@);
    if r.len() == c.len() {
        assert(r@ =~= c@);
        return true;
    }
    r[c.len()] == ' '
}

/// A font size in Pango units, or the default size when it is unset (not positive).
pub fn normalized_font_size(size: i32) -> (normalized: i32)
    ensures
        normalized == if size > 0 {
            size as int
        } else {
            DEFAULT_FONT_SIZE_PT * PANGO_SCALE
        },
{
    if size > 0 {
        size
    } else {
        DEFAULT_FONT_SIZE_PT * PANGO_SCALE
    }
}

/// The bottom margin that lets a view scroll `SCROLL_PAST_END_LINES` lines
/// past its end for a font of `size` Pango units: that many line heights
/// (the size in whole points, at least 1), and at least `DEFAULT_VIEW_MARGIN_PX`.
pub open spec fn spec_scroll_past_end_margin(size: i32) -> int {
    let normalized: int = if size > 0 {
        size as int
    } else {
        DEFAULT_FONT_SIZE_PT * PANGO_SCALE
    };
    let points = normalized / (PANGO_SCALE as int);
    let line_height = if points < 1 {
        1
    } else {
        points
    };
    let margin = line_height * SCROLL_PAST_END_LINES;
    if margin < DEFAULT_VIEW_MARGIN_PX {
        DEFAULT_VIEW_MARGIN_PX as int
    } else {
        margin
    }
}

/// The bottom margin for scrolling past the end (see `spec_scroll_past_end_margin`).
pub fn scroll_past_end_bottom_margin(size: i32) -> (margin: i32)
    ensures
        margin == spec_scroll_past_end_margin(size),
{
    let normalized = normalized_font_size(size);
    let points = normalized / PANGO_SCALE;
    let line_height = if points < 1 {
        1
    } else {
        points
    };
    assert(line_height <= i32::MAX / 1024);
    let margin = line_height * SCROLL_PAST_END_LINES;
    if margin < DEFAULT_VIEW_MARGIN_PX {
        DEFAULT_VIEW_MARGIN_PX
    } else {
        margin
    }
}

/// A font family escaped for a CSS string: each backslash doubled, then each
/// double quote preceded by a backslash.
pub fn css_escape(value: &str) -> (escaped: String)
    ensures
        escaped@ == spec_replace(
            spec_replace(value@, seq!['\\'], seq!['\\', '\\']),
            seq!['"'],
            seq!['\\', '"'],
        ),
{
    proof {
        reveal_strlit("\\");
        reveal_strlit("\\\\");
        reveal_strlit("\"");
        reveal_strlit("\\\"");
        assert("\\"@ =~= seq!['\\']);
        assert("\\\\"@ =~= seq!['\\', '\\']);
        assert("\""@ =~= seq!['"']);
        assert("\\\""@ =~= seq!['\\', '"']);
    }
    let backslashes = replace_all(value, "\\", "\\\\");
    replace_all(backslashes.as_str(), "\"", "\\\"")
}

} // verus!
