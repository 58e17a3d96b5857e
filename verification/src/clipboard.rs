//! Copying from a unified compare view: only current content is copied.
use vstd::prelude::*;
use vstd::string::{StrSliceExecFns, StringExecFns};

use crate::text::{newline, push_char, spec_join};
use crate::unified::{UnifiedLineSide, UnifiedPresentation};

verus! {

/// Appends one copied line: a newline first unless it is the first line.
pub fn append_projected_line(output: &mut String, wrote: &mut bool, segment: &str)
    ensures
        final(output)@ == old(output)@ + (if *old(wrote) {
            seq!['\n']
        } else {
            Seq::<char>::empty()
        }) + segment@,
        *final(wrote),
{
    let ghost before = output@;
    if *wrote {
        push_char(output, '\n');
    }
    *wrote = true;
    output.append(segment);
    proof {
        if *old(wrote) {
            assert(output@ =~= before + seq!['\n'] + segment@);
        } else {
            assert(output@ =~= before + Seq::<char>::empty() + segment@);
        }
    }
}

/// Whether line `row` of the unified view is copied: context and additions
/// are the current file's content; removals and labels are not.
pub fn copies_line(presentation: &UnifiedPresentation, row: usize) -> (copied: bool)
    ensures
        copied == (row < presentation.lines@.len() && (presentation.lines@[row as int].side
            == UnifiedLineSide::Context || presentation.lines@[row as int].side
            == UnifiedLineSide::Addition)),
{
    if row >= presentation.lines.len() {
        return false;
    }
    match presentation.lines[row].side {
        UnifiedLineSide::Context | UnifiedLineSide::Addition => true,
        _ => false,
    }
}

/// The copied part `start..end` of buffer line `line` (whose text ends at
/// `line_end`) in a selection from `(start_line, start_offset)` to
/// `(end_line, end_offset)`: the selection's offsets on its first and last
/// line, clamped into the line; the whole line in between.
pub fn selection_segment(
    line: i32,
    line_end: i32,
    start_line: i32,
    start_offset: i32,
    end_line: i32,
    end_offset: i32,
) -> (segment: (i32, i32))
    requires
        0 <= line_end,
    ensures
        segment.0 == if line == start_line {
            if start_offset < 0 {
                0
            } else if start_offset > line_end {
                line_end
            } else {
                start_offset
            }
        } else {
            0
        },
        segment.1 == if line == end_line {
            if end_offset < 0 {
                0
            } else if end_offset > line_end {
                line_end
            } else {
                end_offset
            }
        } else {
            line_end
        },
{
    let start = if line == start_line {
        if start_offset < 0 {
            0
        } else if start_offset > line_end {
            line_end
        } else {
            start_offset
        }
    } else {
        0
    };
    let end = if line == end_line {
        if end_offset < 0 {
            0
        } else if end_offset > line_end {
            line_end
        } else {
            end_offset
        }
    } else {
        line_end
    };
    (start, end)
}

/// Line `row` of the unified view shows current content: context or an addition.
pub open spec fn copies(presentation: UnifiedPresentation, row: int) -> bool {
    0 <= row < presentation.lines@.len() && (presentation.lines@[row].side == UnifiedLineSide::Context
        || presentation.lines@[row].side == UnifiedLineSide::Addition)
}

/// `value` clamped to `0..=high`.
pub open spec fn clamp_offset(value: int, high: int) -> int {
    if value < 0 {
        0
    } else if value > high {
        high
    } else {
        value
    }
}

/// The part of buffer line `line`, of text `text`, that a selection from
/// `(start_line, start_offset)` to `(end_line, end_offset)` covers (see
/// `selection_segment`); empty when it covers no character.
pub open spec fn spec_segment(
    text: Seq<char>,
    line: int,
    start_line: int,
    start_offset: int,
    end_line: int,
    end_offset: int,
) -> Seq<char> {
    let line_end = text.len() as int;
    let s = if line == start_line {
        clamp_offset(start_offset, line_end)
    } else {
        0
    };
    let e = if line == end_line {
        clamp_offset(end_offset, line_end)
    } else {
        line_end
    };
    if e > s {
        text.subrange(s, e)
    } else {
        Seq::empty()
    }
}

/// The copied segments of the selected lines `start_line..=upto`: one per
/// line that shows current content, in order.
pub open spec fn selection_segments(
    texts: Seq<Seq<char>>,
    presentation: UnifiedPresentation,
    start_line: int,
    start_offset: int,
    end_line: int,
    end_offset: int,
    upto: int,
) -> Seq<Seq<char>>
    decreases upto + 1 - start_line,
{
    if upto < start_line {
        Seq::empty()
    } else {
        selection_segments(texts, presentation, start_line, start_offset, end_line, end_offset, upto - 1)
            + if copies(presentation, upto) {
            seq![spec_segment(texts[upto], upto, start_line, start_offset, end_line, end_offset)]
        } else {
            Seq::<Seq<char>>::empty()
        }
    }
}

/// A selection cannot be copied: it starts on a negative line, or a line
/// it copies is not in the buffer.
pub open spec fn selection_fails(
    line_count: int,
    presentation: UnifiedPresentation,
    start_line: int,
    end_line: int,
) -> bool {
    start_line <= end_line && (start_line < 0 || exists|l: int|
        start_line <= l <= end_line && #[trigger] copies(presentation, l) && l >= line_count)
}

/// The text copied from a selection of a unified view, given the buffer's
/// lines (without their line breaks): the covered parts of the selected lines
/// that show current content, joined by newlines; none when the selection
/// cannot be copied (see `selection_fails`).
pub fn filtered_selection_text(
    line_texts: &Vec<String>,
    presentation: &UnifiedPresentation,
    start_line: i32,
    start_offset: i32,
    end_line: i32,
    end_offset: i32,
) -> (text: Option<String>)
    requires
        forall|i: int| 0 <= i < line_texts@.len() ==> (#[trigger] line_texts@[i])@.len() <= i32::MAX,
    ensures
        text is None <==> selection_fails(line_texts@.len() as int, *presentation, start_line as int, end_line as int),
        text matches Some(t) ==> t@ == spec_join(
            selection_segments(
                Seq::new(line_texts@.len(), |i: int| line_texts@[i]@),
                *presentation,
                start_line as int,
                start_offset as int,
                end_line as int,
                end_offset as int,
                end_line as int,
            ),
            newline(),
        ),
{
    let ghost texts = Seq::new(line_texts@.len(), |i: int| line_texts@[i]@);
    let mut output = String::new();
    let mut wrote = false;
    if start_line > end_line {
        proof {
            assert(output@ =~= spec_join(Seq::<Seq<char>>::empty(), newline()));
        }
        return Some(output);
    }
    let mut line = start_line;
    loop
        invariant
            start_line <= line <= end_line,
            texts == Seq::new(line_texts@.len(), |i: int| line_texts@[i]@),
            forall|i: int| 0 <= i < line_texts@.len() ==> (#[trigger] line_texts@[i])@.len() <= i32::MAX,
            output@ == spec_join(
                selection_segments(
                    texts,
                    *presentation,
                    start_line as int,
                    start_offset as int,
                    end_line as int,
                    end_offset as int,
                    line - 1,
                ),
                newline(),
            ),
            wrote == (selection_segments(
                texts,
                *presentation,
                start_line as int,
                start_offset as int,
                end_line as int,
                end_offset as int,
                line - 1,
            ).len() > 0),
            line > start_line ==> start_line >= 0,
            forall|l: int| start_line <= l < line ==> !(#[trigger] copies(*presentation, l) && l >= line_texts@.len()),
        decreases end_line - line,
    {
        let ghost before = selection_segments(
            texts,
            *presentation,
            start_line as int,
            start_offset as int,
            end_line as int,
            end_offset as int,
            line - 1,
        );
        if line < 0 {
            return None;
        }
        let row = line as usize;
        if copies_line(presentation, row) {
            if row >= line_texts.len() {
                assert(copies(*presentation, line as int));
                return None;
            }
            let text = line_texts[row].as_str();
            let line_end = text.unicode_len() as i32;
            let (s, e) = selection_segment(line, line_end, start_line, start_offset, end_line, end_offset);
            let ghost segment = spec_segment(texts[line as int], line as int, start_line as int, start_offset as int, end_line as int, end_offset as int);
            if e > s {
                append_projected_line(&mut output, &mut wrote, text.substring_char(s as usize, e as usize));
            } else {
                proof {
                    reveal_strlit("");
                }
                append_projected_line(&mut output, &mut wrote, "");
            }
            proof {
                assert(segment == if e > s { texts[line as int].subrange(s as int, e as int) } else { Seq::<char>::empty() });
                let now = before.push(segment);
                if before.len() == 0 {
                    assert(now.len() == 1);
                    assert(spec_join(now, newline()) == now[0]);
                } else {
                    assert(now.drop_last() =~= before);
                }
                assert(output@ == spec_join(now, newline()));
                assert(selection_segments(
                    texts,
                    *presentation,
                    start_line as int,
                    start_offset as int,
                    end_line as int,
                    end_offset as int,
                    line as int,
                ) =~= now);
            }
        } else {
            proof {
                assert(!copies(*presentation, line as int));
                assert(selection_segments(
                    texts,
                    *presentation,
                    start_line as int,
                    start_offset as int,
                    end_line as int,
                    end_offset as int,
                    line as int,
                ) =~= before);
            }
        }
        if line == end_line {
            return Some(output);
        }
        line += 1;
    }
}

} // verus!
