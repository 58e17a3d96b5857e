//! The line diff of a compare: size guards, line operations from `similar`,
//! and the row model and presentation built from them.
use similar::{DiffTag, TextDiff};
use vstd::prelude::*;
use vstd::utf8::encode_utf8;

use crate::model::{
    build_row_model, complete_line_identity, count_changed, kinds_of, lemma_ops_rows_len,
    ops_align, ops_rows, range_len, replace_pairs_in_bounds,
    rows_inline_ok, shapes, min_nat, DiffLineOp, DiffLineTag, DiffRowModel, reference_lines_of,
    current_lines_of, all_ops_equal, equal_ops_pair_equal, equal_row_pairs_equal, rows_ranges_fit,
};
use crate::presentation::{build_presentation, count_none, numbered_lines, presents, DiffPresentation};
use crate::text::{str_eq, 
    has_suffix, line_slices, spec_line_slices, spec_trim, str_views, string_views, strip_suffix,
    trim, char_is_whitespace,
};

verus! {

pub const MAX_COMPARE_BYTES: usize = 1_000_000;

pub const MAX_COMPARE_LINES: usize = 20_000;

pub const MAX_COMPARE_LINE_PRODUCT: usize = 10_000_000;

pub struct DiffComputation {
    pub model: DiffRowModel,
    pub presentation: DiffPresentation,
    pub hidden_trim_whitespace_differences: bool,
    pub skip_reason: Option<DiffSkipReason>,
}

#[derive(Clone, Copy, Debug, PartialEq, Eq, Structural)]
pub struct DiffOptions {
    pub ignore_leading_trailing_whitespace: bool,
}

impl Default for DiffOptions {
    fn default() -> (options: Self)
        ensures
            !options.ignore_leading_trailing_whitespace,
    {
        DiffOptions { ignore_leading_trailing_whitespace: false }
    }
}

/// Why a compare was not computed.
#[derive(Clone, Copy, Debug, PartialEq, Eq, Structural)]
pub enum DiffSkipReason {
    Bytes,
    Lines,
    Computation,
}

/// Why a compare of `reference` and `current` is skipped: more than
/// `MAX_COMPARE_BYTES` UTF-8 bytes together, else more than
/// `MAX_COMPARE_LINES` lines together, else a product of line counts above
/// `MAX_COMPARE_LINE_PRODUCT`; `None` when it is computed.
pub open spec fn spec_skip_reason(reference: Seq<char>, current: Seq<char>) -> Option<DiffSkipReason> {
    let reference_lines = spec_line_slices(reference).len();
    let current_lines = spec_line_slices(current).len();
    if encode_utf8(reference).len() + encode_utf8(current).len() > MAX_COMPARE_BYTES {
        Some(DiffSkipReason::Bytes)
    } else if reference_lines + current_lines > MAX_COMPARE_LINES {
        Some(DiffSkipReason::Lines)
    } else if reference_lines * current_lines > MAX_COMPARE_LINE_PRODUCT {
        Some(DiffSkipReason::Computation)
    } else {
        None
    }
}

/// The UTF-8 encoding of a text fits in memory: its byte length is a `usize`.
pub open spec fn fits_usize(text: Seq<char>) -> bool {
    encode_utf8(text).len() <= usize::MAX
}

/// The size guard of a compare (see `spec_skip_reason`).
pub fn compare_skip_reason(reference_text: &str, current_text: &str) -> (reason: Option<DiffSkipReason>)
    requires
        fits_usize(reference_text@),
        fits_usize(current_text@),
    ensures
        reason == spec_skip_reason(reference_text@, current_text@),
{
    if reference_text.len().saturating_add(current_text.len()) > MAX_COMPARE_BYTES {
        return Some(DiffSkipReason::Bytes);
    }
    let reference_lines = crate::text::line_count(reference_text);
    let current_lines = crate::text::line_count(current_text);
    if reference_lines.saturating_add(current_lines) > MAX_COMPARE_LINES {
        return Some(DiffSkipReason::Lines);
    }
    assert(reference_lines * current_lines <= MAX_COMPARE_LINES * MAX_COMPARE_LINES) by (nonlinear_arith)
        requires
            reference_lines <= MAX_COMPARE_LINES,
            current_lines <= MAX_COMPARE_LINES,
    ;
    if reference_lines * current_lines > MAX_COMPARE_LINE_PRODUCT {
        return Some(DiffSkipReason::Computation);
    }
    None
}

/// Number of lines of `text`.
pub fn line_count(text: &str) -> (n: usize)
    ensures
        n == spec_line_slices(text@).len(),
{
    crate::text::line_count(text)
}

/// A line split into its content and its line ending (`\r\n`, `\n`, a lone
/// `\r`, or nothing).
pub open spec fn spec_split_line_ending(line: Seq<char>) -> (Seq<char>, Seq<char>) {
    if has_suffix(line, seq!['\r', '\n']) {
        (line.take(line.len() - 2), seq!['\r', '\n'])
    } else if has_suffix(line, seq!['\n']) {
        (line.take(line.len() - 1), seq!['\n'])
    } else if has_suffix(line, seq!['\r']) {
        (line.take(line.len() - 1), seq!['\r'])
    } else {
        (line, Seq::empty())
    }
}

/// Splits a line into its content and its line ending.
pub fn split_line_ending(line: &str) -> (parts: (&str, &str))
    ensures
        (parts.0@, parts.1@) == spec_split_line_ending(line@),
{
    proof {
        reveal_strlit("\r\n");
        reveal_strlit("\n");
        reveal_strlit("\r");
        reveal_strlit("");
        assert("\r\n"@ =~= seq!['\r', '\n']);
        assert("\n"@ =~= seq!['\n']);
        assert("\r"@ =~= seq!['\r']);
    }
    if let Some(content) = strip_suffix(line, "\r\n") {
        return (content, "\r\n");
    }
    if let Some(content) = strip_suffix(line, "\n") {
        return (content, "\n");
    }
    if let Some(content) = strip_suffix(line, "\r") {
        return (content, "\r");
    }
    (line, "")
}

/// A line with the whitespace around its content removed and its line ending kept.
pub open spec fn spec_normalized_line(line: Seq<char>) -> Seq<char> {
    let (content, ending) = spec_split_line_ending(line);
    spec_trim(content) + ending
}

/// The line with its content trimmed and its line ending kept.
pub fn normalized_line(line: &str) -> (normalized: String)
    ensures
        normalized@ == spec_normalized_line(line@),
{
    let (content, ending) = split_line_ending(line);
    let mut normalized = String::from_str(trim(content));
    normalized.append(ending);
    normalized
}

/// Law: a normalized line keeps the line's ending, its content is the
/// trimmed content, and normalizing it again changes nothing.
pub proof fn lemma_normalized_line_idempotent(line: Seq<char>)
    ensures
        spec_split_line_ending(spec_normalized_line(line)) == (
            spec_trim(spec_split_line_ending(line).0),
            spec_split_line_ending(line).1,
        ),
        spec_normalized_line(spec_normalized_line(line)) == spec_normalized_line(line),
{
    let (content, ending) = spec_split_line_ending(line);
    let t = spec_trim(content);
    let n = t + ending;
    crate::text::lemma_trim_idempotent(content);
    assert(char_is_whitespace('\r') && char_is_whitespace('\n'));
    if has_suffix(line, seq!['\r', '\n']) {
        assert(n.skip(n.len() - 2) =~= seq!['\r', '\n']);
        assert(n.take(n.len() - 2) =~= t);
    } else if has_suffix(line, seq!['\n']) {
        assert(n.skip(n.len() - 1) =~= seq!['\n']);
        assert(n.take(n.len() - 1) =~= t);
        if t.len() > 0 {
            assert(n.skip(n.len() - 2)[0] == t.last());
        } else {
            assert(n.len() == 1);
        }
    } else if has_suffix(line, seq!['\r']) {
        assert(n.skip(n.len() - 1) =~= seq!['\r']);
        assert(n.take(n.len() - 1) =~= t);
        assert(n[n.len() - 1] == '\r');
        assert(n.len() >= 2 ==> n.skip(n.len() - 2)[1] == n[n.len() - 1]);
    } else {
        assert(n =~= t);
        if t.len() > 0 {
            assert(t.skip(t.len() - 1)[0] == t.last());
            assert(t.len() >= 2 ==> t.skip(t.len() - 2)[1] == t.last());
        }
    }
}

pub open spec fn normalized_lines(lines: Seq<Seq<char>>) -> Seq<Seq<char>> {
    Seq::new(lines.len(), |i: int| spec_normalized_line(lines[i]))
}

fn normalize_all(lines: &[&str]) -> (normalized: Vec<String>)
    ensures
        string_views(normalized@) == normalized_lines(str_views(lines@)),
{
    let mut normalized: Vec<String> = Vec::new();
    let mut i: usize = 0;
    while i < lines.len()
        invariant
            i <= lines@.len(),
            string_views(normalized@) == normalized_lines(str_views(lines@)).take(i as int),
        decreases lines@.len() - i,
    {
        let line = normalized_line(lines[i]);
        let ghost prev = normalized@;
        normalized.push(line);
        proof {
            assert(string_views(normalized@) =~= string_views(prev).push(line@));
            assert(normalized_lines(str_views(lines@)).take(i + 1) =~= normalized_lines(
                str_views(lines@),
            ).take(i as int).push(spec_normalized_line(lines@[i as int]@)));
        }
        i += 1;
    }
    assert(normalized_lines(str_views(lines@)).take(i as int) =~= normalized_lines(
        str_views(lines@),
    ));
    normalized
}

fn as_strs(strings: &Vec<String>) -> (slices: Vec<&str>)
    ensures
        str_views(slices@) == string_views(strings@),
{
    let mut slices: Vec<&str> = Vec::new();
    let mut i: usize = 0;
    while i < strings.len()
        invariant
            i <= strings@.len(),
            str_views(slices@) == string_views(strings@).take(i as int),
        decreases strings@.len() - i,
    {
        let slice = strings[i].as_str();
        let ghost prev = slices@;
        slices.push(slice);
        proof {
            assert(str_views(slices@) =~= str_views(prev).push(slice@));
            assert(string_views(strings@).take(i + 1) =~= string_views(strings@).take(i as int).push(
                strings@[i as int]@,
            ));
        }
        i += 1;
    }
    assert(string_views(strings@).take(i as int) =~= string_views(strings@));
    slices
}

/// The operations `similar`'s line diff (`TextDiff::from_lines`) gives for two texts.
pub uninterp spec fn similar_line_diff(reference: Seq<char>, current: Seq<char>) -> Seq<DiffLineOp>;

/// The operations `similar`'s slice diff (`TextDiffConfig::diff_slices`) gives for two line lists.
pub uninterp spec fn similar_slice_diff(old: Seq<Seq<char>>, new: Seq<Seq<char>>) -> Seq<DiffLineOp>;

/// Calls `similar::TextDiff::from_lines` (Myers, no deadline) and converts each
/// `DiffOp::as_tag_tuple` into a `DiffLineOp`. The result is named
/// `similar_line_diff`. The contract also states that the operations form an
/// edit script over the lines of both texts as `tokenize_lines` splits them
/// (the `DiffHook` contract the capture hook records); that an equal
/// operation pairs equal lines (Myers reports equal runs only where lines
/// compare equal: the common prefix and suffix it strips, and the compaction
/// only slides changes over equal lines); and that two equal line lists give
/// only equal operations (their common prefix is all of them). Which script
/// Myers picks otherwise is not stated, nor that it is a shortest one: neither
/// the source nor its documentation plainly shows that.
#[verifier::external_body]
fn line_diff_ops(reference_text: &str, current_text: &str) -> (ops: Vec<DiffLineOp>)
    ensures
        ops@ == similar_line_diff(reference_text@, current_text@),
        ops_align(
            ops@,
            spec_line_slices(reference_text@).len(),
            spec_line_slices(current_text@).len(),
        ),
        equal_ops_pair_equal(ops@, spec_line_slices(reference_text@), spec_line_slices(current_text@)),
        spec_line_slices(reference_text@) == spec_line_slices(current_text@) ==> all_ops_equal(ops@),
{
    let diff = TextDiff::from_lines(reference_text, current_text);
    diff.ops().iter().map(|op| {
        let (tag, reference_range, current_range) = op.as_tag_tuple();
        let tag = match tag {
            DiffTag::Equal => DiffLineTag::Equal,
            DiffTag::Delete => DiffLineTag::Delete,
            DiffTag::Insert => DiffLineTag::Insert,
            DiffTag::Replace => DiffLineTag::Replace,
        };
        DiffLineOp { tag, reference_range, current_range }
    }).collect()
}

/// Calls `similar::TextDiffConfig::diff_slices` with the default configuration
/// (Myers, no deadline) and converts each `DiffOp::as_tag_tuple` into a
/// `DiffLineOp`. The result is named `similar_slice_diff`; the contract also
/// states that the operations form an edit script over both slices, that an
/// equal operation pairs equal items, and that two equal slices give only
/// equal operations (as for `line_diff_ops`).
#[verifier::external_body]
fn slice_diff_ops(old: &Vec<&str>, new: &Vec<&str>) -> (ops: Vec<DiffLineOp>)
    ensures
        ops@ == similar_slice_diff(str_views(old@), str_views(new@)),
        ops_align(ops@, old@.len() as nat, new@.len() as nat),
        equal_ops_pair_equal(ops@, str_views(old@), str_views(new@)),
        str_views(old@) == str_views(new@) ==> all_ops_equal(ops@),
{
    let diff = TextDiff::configure().diff_slices(old.as_slice(), new.as_slice());
    diff.ops().iter().map(|op| {
        let (tag, reference_range, current_range) = op.as_tag_tuple();
        let tag = match tag {
            DiffTag::Equal => DiffLineTag::Equal,
            DiffTag::Delete => DiffLineTag::Delete,
            DiffTag::Insert => DiffLineTag::Insert,
            DiffTag::Replace => DiffLineTag::Replace,
        };
        DiffLineOp { tag, reference_range, current_range }
    }).collect()
}

/// The line operations of a compare: `similar`'s line diff of the texts, or,
/// when leading and trailing whitespace is ignored, its diff of the
/// normalized lines.
pub open spec fn spec_line_ops(reference: Seq<char>, current: Seq<char>, ignore_whitespace: bool) -> Seq<
    DiffLineOp,
> {
    if ignore_whitespace {
        similar_slice_diff(
            normalized_lines(spec_line_slices(reference)),
            normalized_lines(spec_line_slices(current)),
        )
    } else {
        similar_line_diff(reference, current)
    }
}

/// The lines a compare matches: the lines of `text`, normalized when leading
/// and trailing whitespace is ignored.
pub open spec fn compared_lines(text: Seq<char>, ignore_whitespace: bool) -> Seq<Seq<char>> {
    if ignore_whitespace {
        normalized_lines(spec_line_slices(text))
    } else {
        spec_line_slices(text)
    }
}

/// Computes the line operations of a compare (see `spec_line_ops`).
pub fn compute_line_ops(
    reference_text: &str,
    current_text: &str,
    reference_lines: &[&str],
    current_lines: &[&str],
    ignore_leading_trailing_whitespace: bool,
) -> (ops: Vec<DiffLineOp>)
    requires
        str_views(reference_lines@) == spec_line_slices(reference_text@),
        str_views(current_lines@) == spec_line_slices(current_text@),
    ensures
        ops@ == spec_line_ops(reference_text@, current_text@, ignore_leading_trailing_whitespace),
        ops_align(
            ops@,
            spec_line_slices(reference_text@).len(),
            spec_line_slices(current_text@).len(),
        ),
        equal_ops_pair_equal(
            ops@,
            compared_lines(reference_text@, ignore_leading_trailing_whitespace),
            compared_lines(current_text@, ignore_leading_trailing_whitespace),
        ),
        compared_lines(reference_text@, ignore_leading_trailing_whitespace) == compared_lines(
            current_text@,
            ignore_leading_trailing_whitespace,
        ) ==> all_ops_equal(ops@),
{
    if ignore_leading_trailing_whitespace {
        let normalized_reference = normalize_all(reference_lines);
        let normalized_current = normalize_all(current_lines);
        let old = as_strs(&normalized_reference);
        let new = as_strs(&normalized_current);
        proof {
            assert(str_views(reference_lines@).len() == reference_lines@.len());
            assert(str_views(current_lines@).len() == current_lines@.len());
            assert(string_views(normalized_reference@).len() == normalized_reference@.len());
            assert(string_views(normalized_current@).len() == normalized_current@.len());
            assert(str_views(old@).len() == old@.len());
            assert(str_views(new@).len() == new@.len());
        }
        return slice_diff_ops(&old, &new);
    }
    line_diff_ops(reference_text, current_text)
}

/// Whether the presentation has no rows and no text.
pub open spec fn is_empty_presentation(p: DiffPresentation) -> bool {
    &&& p.reference_text@.len() == 0
    &&& p.current_text@.len() == 0
    &&& p.reference_line_numbers@.len() == 0
    &&& p.current_line_numbers@.len() == 0
    &&& p.placeholder_markers@.len() == 0
    &&& p.metadata_rows@.len() == 0
    &&& p.placeholder_count == 0
}

/// Whether the model is the one of a skipped compare: too large, nothing in it.
pub open spec fn is_too_large_model(m: DiffRowModel) -> bool {
    &&& m.too_large
    &&& m.rows@.len() == 0
    &&& m.row_to_reference_line@.len() == 0
    &&& m.row_to_current_line@.len() == 0
    &&& m.reference_line_to_row@.len() == 0
    &&& m.current_line_to_row@.len() == 0
    &&& m.hunks@.len() == 0
}

/// What a compare of `reference` and `current` computes: skipped compares
/// carry their reason and an empty, too-large model; others carry the row
/// model of the line operations (whose equal operations pair matching lines,
/// and which are all equal for matching texts) with complete line identity
/// and inline ranges within their lines, its presentation, and whether only
/// trimmed whitespace differences were hidden.
pub open spec fn computes(c: DiffComputation, reference: Seq<char>, current: Seq<char>, options: DiffOptions) -> bool {
    let skip = spec_skip_reason(reference, current);
    let reference_lines = spec_line_slices(reference);
    let current_lines = spec_line_slices(current);
    let ops = spec_line_ops(reference, current, options.ignore_leading_trailing_whitespace);
    &&& c.skip_reason == skip
    &&& skip is Some ==> {
        &&& is_too_large_model(c.model)
        &&& is_empty_presentation(c.presentation)
        &&& !c.hidden_trim_whitespace_differences
    }
    &&& skip is None ==> {
        &&& ops_align(ops, reference_lines.len(), current_lines.len())
        &&& equal_ops_pair_equal(
            ops,
            compared_lines(reference, options.ignore_leading_trailing_whitespace),
            compared_lines(current, options.ignore_leading_trailing_whitespace),
        )
        &&& compared_lines(reference, options.ignore_leading_trailing_whitespace) == compared_lines(
            current,
            options.ignore_leading_trailing_whitespace,
        ) ==> all_ops_equal(ops)
        &&& shapes(c.model.rows@) == ops_rows(ops)
        &&& rows_inline_ok(c.model.rows@)
        &&& rows_ranges_fit(c.model.rows@, reference_lines, current_lines)
        &&& c.model.finished(reference_lines.len(), current_lines.len())
        &&& complete_line_identity(c.model, reference_lines.len(), current_lines.len())
        &&& if c.model.rows@.len() == 0 {
            is_empty_presentation(c.presentation)
        } else {
            presents(c.presentation, c.model.rows@, reference_lines, current_lines)
        }
        &&& c.hidden_trim_whitespace_differences == (options.ignore_leading_trailing_whitespace
            && count_changed(kinds_of(c.model.rows@)) == 0 && reference != current)
    }
}

proof fn lemma_line_count_bounded(s: Seq<char>)
    ensures
        spec_line_slices(s).len() <= s.len(),
    decreases s.len(),
{
    if s.len() > 0 {
        crate::text::lemma_line_end_bounds(s, 0);
        let k = crate::text::line_end_from(s, 0);
        lemma_line_count_bounded(s.skip(k));
    }
}

/// Compares two texts line by line with the given options (see `computes`).
pub fn compute_diff_with_options(reference_text: &str, current_text: &str, options: DiffOptions) -> (computation:
    DiffComputation)
    requires
        fits_usize(reference_text@),
        fits_usize(current_text@),
    ensures
        computes(computation, reference_text@, current_text@, options),
{
    if let Some(skip_reason) = compare_skip_reason(reference_text, current_text) {
        return DiffComputation {
            model: DiffRowModel::too_large(),
            presentation: DiffPresentation::empty(),
            hidden_trim_whitespace_differences: false,
            skip_reason: Some(skip_reason),
        };
    }
    let reference_lines = line_slices(reference_text);
    let current_lines = line_slices(current_text);
    let ghost n_ref = spec_line_slices(reference_text@).len();
    let ghost n_cur = spec_line_slices(current_text@).len();
    proof {
        assert(str_views(reference_lines@).len() == reference_lines@.len());
        assert(str_views(current_lines@).len() == current_lines@.len());
    }
    let ops = compute_line_ops(
        reference_text,
        current_text,
        &reference_lines,
        &current_lines,
        options.ignore_leading_trailing_whitespace,
    );
    proof {
        lemma_aligned_replace_in_bounds(ops@, n_ref, n_cur);
    }
    let model = build_row_model(&ops, &reference_lines, &current_lines);
    proof {
        lemma_ops_rows_len(ops@);
        assert(shapes(model.rows@).len() == model.rows@.len());
        assert(model.row_to_reference_line@ == reference_lines_of(model.rows@));
        assert(model.row_to_current_line@ == current_lines_of(model.rows@));
        assert(reference_lines@.len() == reference_lines.len());
        assert(current_lines@.len() == current_lines.len());
        assert forall|i: int| 0 <= i < model.rows@.len() implies (
            #[trigger] model.rows@[i].reference_line matches Some(l) ==> l < usize::MAX) && (
            model.rows@[i].current_line matches Some(l) ==> l < usize::MAX) by {
            assert(model.row_to_reference_line@[i] == model.rows@[i].reference_line);
            assert(model.row_to_current_line@[i] == model.rows@[i].current_line);
        }
    }
    let presentation = build_presentation(&model, &reference_lines, &current_lines);
    let hidden_trim_whitespace_differences = options.ignore_leading_trailing_whitespace
        && model.changed_row_count() == 0 && !str_eq(reference_text, current_text);
    DiffComputation {
        model,
        presentation,
        hidden_trim_whitespace_differences,
        skip_reason: None,
    }
}

proof fn lemma_aligned_replace_in_bounds(ops: Seq<DiffLineOp>, n_ref: nat, n_cur: nat)
    requires
        ops_align(ops, n_ref, n_cur),
    ensures
        replace_pairs_in_bounds(ops, n_ref, n_cur),
{
    assert forall|k: int|
        0 <= k < ops.len() && #[trigger] ops[k].tag == DiffLineTag::Replace implies {
        let p = min_nat(range_len(ops[k].reference_range), range_len(ops[k].current_range));
        p == 0 || (ops[k].reference_range.start + p <= n_ref && ops[k].current_range.start + p
            <= n_cur)
    } by {
        crate::model::lemma_aligned_op_in_bounds(ops, n_ref, n_cur, k);
    }
}

/// Law: comparing a text with itself, with any options, shows no changed
/// rows, no hunks, and no hidden whitespace differences.
pub proof fn lemma_equal_texts_show_no_changes(c: DiffComputation, text: Seq<char>, options: DiffOptions)
    requires
        computes(c, text, text, options),
    ensures
        count_changed(kinds_of(c.model.rows@)) == 0,
        c.model.hunks@.len() == 0,
        !c.hidden_trim_whitespace_differences,
{
    if spec_skip_reason(text, text) is None {
        let ops = spec_line_ops(text, text, options.ignore_leading_trailing_whitespace);
        let lines = spec_line_slices(text);
        crate::model::lemma_equal_ops_model_has_no_changes(c.model, ops, lines.len(), lines.len());
    } else {
        assert(kinds_of(c.model.rows@).len() == 0);
    }
}

/// Law: every equal row of a compare pairs lines that match: equal lines, or
/// lines that are equal once normalized when leading and trailing whitespace
/// is ignored.
pub proof fn lemma_equal_rows_pair_matching_lines(
    c: DiffComputation,
    reference: Seq<char>,
    current: Seq<char>,
    options: DiffOptions,
)
    requires
        computes(c, reference, current, options),
        spec_skip_reason(reference, current) is None,
    ensures
        forall|i: int|
            0 <= i < c.model.rows@.len() ==> #[trigger] equal_row_pairs_equal(
                c.model.rows@[i].shape(),
                compared_lines(reference, options.ignore_leading_trailing_whitespace),
                compared_lines(current, options.ignore_leading_trailing_whitespace),
            ),
{
    let ignore = options.ignore_leading_trailing_whitespace;
    let ops = spec_line_ops(reference, current, ignore);
    let old = compared_lines(reference, ignore);
    let new = compared_lines(current, ignore);
    assert(old.len() == spec_line_slices(reference).len());
    assert(new.len() == spec_line_slices(current).len());
    crate::model::lemma_equal_rows_pair_equal_items(ops, old, new);
    assert forall|i: int| 0 <= i < c.model.rows@.len() implies #[trigger] equal_row_pairs_equal(
        c.model.rows@[i].shape(),
        old,
        new,
    ) by {
        assert(shapes(c.model.rows@)[i] == c.model.rows@[i].shape());
        assert(equal_row_pairs_equal(ops_rows(ops)[i], old, new));
    }
}

/// Compares two texts line by line with the default options.
pub fn compute_diff(reference_text: &str, current_text: &str) -> (computation: DiffComputation)
    requires
        fits_usize(reference_text@),
        fits_usize(current_text@),
    ensures
        computes(
            computation,
            reference_text@,
            current_text@,
            DiffOptions { ignore_leading_trailing_whitespace: false },
        ),
{
    compute_diff_with_options(reference_text, current_text, DiffOptions::default())
}

/// The row model of a compare with the default options.
pub fn compute_diff_row_model(reference_text: &str, current_text: &str) -> (model: DiffRowModel)
    requires
        fits_usize(reference_text@),
        fits_usize(current_text@),
    ensures
        exists|c: DiffComputation|
            computes(
                c,
                reference_text@,
                current_text@,
                DiffOptions { ignore_leading_trailing_whitespace: false },
            ) && c.model == model,
{
    compute_diff(reference_text, current_text).model
}

/// The checks of the fuzz harness: whether the default compare was skipped,
/// how many rows it changed, and whether both the default and the
/// whitespace-ignoring compare keep complete line identity (or are both too large).
pub fn fuzz_compute_diff(reference_text: &str, current_text: &str) -> (result: (bool, usize, bool))
    requires
        fits_usize(reference_text@),
        fits_usize(current_text@),
    ensures
        result.0 == spec_skip_reason(reference_text@, current_text@) is Some,
        exists|c: DiffComputation|
            computes(
                c,
                reference_text@,
                current_text@,
                DiffOptions { ignore_leading_trailing_whitespace: false },
            ) && result.1 == count_changed(kinds_of(c.model.rows@)),
        result.2,
{
    let default_computation = compute_diff_with_options(
        reference_text,
        current_text,
        DiffOptions::default(),
    );
    let whitespace_computation = compute_diff_with_options(
        reference_text,
        current_text,
        DiffOptions { ignore_leading_trailing_whitespace: true },
    );
    let reference_lines = line_count(reference_text);
    let current_lines = line_count(current_text);
    let mappings_valid = if default_computation.skip_reason.is_some() {
        default_computation.model.too_large && whitespace_computation.model.too_large
    } else {
        default_computation.model.has_complete_line_identity(reference_lines, current_lines)
            && whitespace_computation.model.has_complete_line_identity(
            reference_lines,
            current_lines,
        )
    };
    (
        default_computation.skip_reason.is_some(),
        default_computation.model.changed_row_count(),
        mappings_valid,
    )
}

/// A compare's model is marked too large exactly when the compare was
/// skipped for its size.
pub proof fn lemma_too_large_iff_skipped(
    c: DiffComputation,
    reference: Seq<char>,
    current: Seq<char>,
    options: DiffOptions,
)
    requires
        computes(c, reference, current, options),
    ensures
        c.model.too_large == (c.skip_reason is Some),
        c.skip_reason == spec_skip_reason(reference, current),
{
}

/// The presentation of a computed compare has one row per row of its model,
/// on both sides, and counts one placeholder per side without a line.
pub proof fn lemma_presentation_row_per_model_row(
    c: DiffComputation,
    reference: Seq<char>,
    current: Seq<char>,
    options: DiffOptions,
)
    requires
        computes(c, reference, current, options),
    ensures
        c.presentation.reference_line_numbers@.len() == c.model.rows@.len(),
        c.presentation.current_line_numbers@.len() == c.model.rows@.len(),
        c.presentation.placeholder_count == count_none(c.presentation.reference_line_numbers@)
            + count_none(c.presentation.current_line_numbers@),
{
    if c.skip_reason is None && c.model.rows@.len() > 0 {
        let n = c.model.rows@.len();
        assert(c.presentation.reference_line_numbers@.len() == n);
    } else {
        assert(c.presentation.reference_line_numbers@ =~= Seq::<Option<usize>>::empty());
        assert(c.presentation.current_line_numbers@ =~= Seq::<Option<usize>>::empty());
    }
}

/// Trimmed-whitespace differences are reported hidden only when the option
/// is on, the texts differ, and no row is changed.
pub proof fn lemma_hidden_whitespace_means_no_changes(
    c: DiffComputation,
    reference: Seq<char>,
    current: Seq<char>,
    options: DiffOptions,
)
    requires
        computes(c, reference, current, options),
        c.hidden_trim_whitespace_differences,
    ensures
        options.ignore_leading_trailing_whitespace,
        reference != current,
        count_changed(kinds_of(c.model.rows@)) == 0,
        c.skip_reason is None,
{
}

/// A compare that was not skipped has at most `MAX_COMPARE_LINES` rows, and
/// each line number its rows hold lies below its side's line count.
pub proof fn lemma_computed_rows_bounded(
    c: DiffComputation,
    reference: Seq<char>,
    current: Seq<char>,
    options: DiffOptions,
)
    requires
        computes(c, reference, current, options),
        c.skip_reason is None,
    ensures
        c.model.rows@.len() <= MAX_COMPARE_LINES,
        numbered_lines(c.model.rows@),
{
    let ops = spec_line_ops(reference, current, options.ignore_leading_trailing_whitespace);
    lemma_ops_rows_len(ops);
    assert(shapes(c.model.rows@).len() == c.model.rows@.len());
    assert forall|i: int| 0 <= i < c.model.rows@.len() implies (
        #[trigger] c.model.rows@[i].reference_line matches Some(l) ==> l < usize::MAX) && (
        c.model.rows@[i].current_line matches Some(l) ==> l < usize::MAX) by {
        assert(c.model.row_to_reference_line@[i] == c.model.rows@[i].reference_line);
        assert(c.model.row_to_current_line@[i] == c.model.rows@[i].current_line);
    }
}

} // verus!
