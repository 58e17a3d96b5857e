//! Splitting a document's text into chunks that end on character boundaries.
use vstd::prelude::*;
use vstd::string::StringSliceAdditionalSpecFns;
use vstd::utf8::is_char_boundary;

use crate::diff::fits_usize;

verus! {

/// The last position at or before `end` that is a character boundary of
/// `bytes`, not going below `start` (`start` when there is none above it).
pub open spec fn back_to_boundary(bytes: Seq<u8>, start: int, end: int) -> int
    decreases end - start,
{
    if end > start && !is_char_boundary(bytes, end) {
        back_to_boundary(bytes, start, end - 1)
    } else {
        end
    }
}

/// End of the chunk that starts at byte `start` and holds at most `target`
/// bytes: the last character boundary at or before `start + target` (and the
/// text's end), or `start` when the chunk could not hold a whole character.
pub fn chunk_end_at_char_boundary(text: &str, start: usize, target: usize) -> (end: usize)
    requires
        fits_usize(text@),
    ensures
        end == back_to_boundary(
            text.spec_bytes(),
            start as int,
            if start + target > usize::MAX {
                text.spec_bytes().len() as int
            } else if start + target < text.spec_bytes().len() {
                start + target
            } else {
                text.spec_bytes().len() as int
            },
        ),
{
    let sum = start.saturating_add(target);
    let len = text.len();
    let mut end = if sum < len {
        sum
    } else {
        len
    };
    proof {
        if start + target > usize::MAX {
            assert(sum == usize::MAX);
            assert(len <= usize::MAX);
        }
    }
    let ghost first = end;
    while end > start && !text.is_char_boundary(end)
        invariant
            back_to_boundary(text.spec_bytes(), start as int, first as int) == back_to_boundary(
                text.spec_bytes(),
                start as int,
                end as int,
            ),
        decreases end,
    {
        end = end - 1;
    }
    assert(back_to_boundary(text.spec_bytes(), start as int, end as int) == end as int);
    end
}


/// A chunk never grows past its target or the text, and ends where a
/// character ends (or is empty).
pub proof fn lemma_chunk_end_on_boundary(bytes: Seq<u8>, start: int, end: int)
    requires
        start <= end,
    ensures
        start <= back_to_boundary(bytes, start, end) <= end,
        back_to_boundary(bytes, start, end) == start || is_char_boundary(
            bytes,
            back_to_boundary(bytes, start, end),
        ),
    decreases end - start,
{
    if end > start && !is_char_boundary(bytes, end) {
        lemma_chunk_end_on_boundary(bytes, start, end - 1);
    }
}

} // verus!
