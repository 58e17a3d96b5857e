//! Inline highlights of modified rows: which characters of a reference line
//! and of its current counterpart changed.
use similar::{capture_diff_slices_deadline, Algorithm, ChangeTag, DiffTag, TextDiff};
use std::time::{Duration, Instant};
use vstd::prelude::*;
use vstd::string::StrSliceExecFns;

use crate::model::{changes_within_middle, equal_ops_pair_equal, seq_common_prefix, seq_common_suffix, DiffLineOp, DiffLineTag, DiffSide, ops_align};
use crate::text::{
    char_is_alphanumeric, char_is_whitespace, chars_of, is_alphanumeric, is_whitespace, string_from_chars, string_views,
};

verus! {

/// Longest line (in characters) diffed token by token, then grapheme by grapheme.
pub const GRAPHEME_LIMIT: usize = 2_000;

/// Longest line (in characters) diffed at all; longer lines get no highlights.
pub const WORD_LIMIT: usize = 10_000;

pub const GRAPHEME_TIMEOUT_MS: u64 = 2;

pub const WORD_TIMEOUT_MS: u64 = 1;

pub const TOKEN_TIMEOUT_MS: u64 = 4;

/// Time all inline diffs of one row model may take together.
pub const TOTAL_INLINE_BUDGET_MS: u64 = 12;

/// Least remaining time (in microseconds) worth starting another inline diff with.
pub const MIN_INLINE_BUDGET_US: u64 = 500;

/// A highlighted span of characters `start..end` on one side of a modified row.
#[derive(Clone, Copy, Debug, PartialEq, Eq, Structural)]
pub struct InlineRange {
    pub side: DiffSide,
    pub start: usize,
    pub end: usize,
}

// ---------------------------------------------------------------------------
// Tokens
// ---------------------------------------------------------------------------

/// A token of a line: its text and its character span `start..end`.
#[derive(Clone, Debug, PartialEq, Eq, PartialOrd, Ord)]
pub struct InlineToken {
    pub text: String,
    pub start: usize,
    pub end: usize,
}

/// The punctuation that forms tokens of its own.
pub open spec fn spec_is_separator(ch: char) -> bool {
    ch == '.' || ch == ',' || ch == ';' || ch == ':' || ch == '(' || ch == ')' || ch == '{'
        || ch == '}' || ch == '[' || ch == ']' || ch == '<' || ch == '>' || ch == '+' || ch == '-'
        || ch == '*' || ch == '/' || ch == '=' || ch == '%' || ch == '!' || ch == '?' || ch == '&'
        || ch == '|' || ch == '^' || ch == '~' || ch == '"' || ch == '\''
}

/// Whether `ch` is punctuation that forms a token of its own.
pub fn is_separator(ch: char) -> (b: bool)
    ensures
        b == spec_is_separator(ch),
{
    match ch {
        '.' | ',' | ';' | ':' | '(' | ')' | '{' | '}' | '[' | ']' | '<' | '>' | '+' | '-' | '*'
        | '/' | '=' | '%' | '!' | '?' | '&' | '|' | '^' | '~' | '"' | '\'' => true,
        _ => false,
    }
}

/// End of the word that continues at `i`: the first whitespace, separator or end of line.
pub open spec fn word_end(chars: Seq<char>, i: int) -> int
    decreases chars.len() - i,
{
    if 0 <= i < chars.len() && !char_is_whitespace(chars[i]) && !spec_is_separator(chars[i]) {
        word_end(chars, i + 1)
    } else {
        i
    }
}

pub proof fn lemma_word_end_bounds(chars: Seq<char>, i: int)
    requires
        0 <= i <= chars.len(),
    ensures
        i <= word_end(chars, i) <= chars.len(),
    decreases chars.len() - i,
{
    if i < chars.len() && !char_is_whitespace(chars[i]) && !spec_is_separator(chars[i]) {
        lemma_word_end_bounds(chars, i + 1);
    }
}

/// End of the token that starts at a non-whitespace character `i`: `::` and
/// every other separator make a token, anything else runs to `word_end`.
pub open spec fn token_end(chars: Seq<char>, i: int) -> int {
    if spec_is_separator(chars[i]) {
        if chars[i] == ':' && i + 1 < chars.len() && chars[i + 1] == ':' {
            i + 2
        } else {
            i + 1
        }
    } else {
        word_end(chars, i + 1)
    }
}

/// The token spans of `chars` from position `i` on; whitespace separates tokens.
pub open spec fn token_spans_from(chars: Seq<char>, i: int) -> Seq<(int, int)>
    decreases chars.len() - i,
{
    if i < 0 || i >= chars.len() {
        Seq::empty()
    } else if char_is_whitespace(chars[i]) {
        token_spans_from(chars, i + 1)
    } else {
        let end = token_end(chars, i);
        proof {
            lemma_word_end_bounds(chars, i + 1);
        }
        seq![(i, end)] + token_spans_from(chars, end)
    }
}

/// The spans of a token list.
pub open spec fn spans_of(tokens: Seq<InlineToken>) -> Seq<(int, int)> {
    Seq::new(tokens.len(), |i: int| (tokens[i].start as int, tokens[i].end as int))
}

/// Each token is a non-empty span of `chars` and holds its text.
pub open spec fn tokens_of(tokens: Seq<InlineToken>, chars: Seq<char>) -> bool {
    forall|i: int|
        0 <= i < tokens.len() ==> #[trigger] tokens[i].start < tokens[i].end <= chars.len()
            && tokens[i].text@ == chars.subrange(tokens[i].start as int, tokens[i].end as int)
}

proof fn lemma_token_spans_bounds(chars: Seq<char>, i: int)
    requires
        0 <= i,
    ensures
        forall|k: int|
            0 <= k < token_spans_from(chars, i).len() ==> i <= #[trigger] token_spans_from(
                chars,
                i,
            )[k].0 < token_spans_from(chars, i)[k].1 <= chars.len(),
    decreases chars.len() - i,
{
    if i < chars.len() {
        if char_is_whitespace(chars[i]) {
            lemma_token_spans_bounds(chars, i + 1);
            assert(token_spans_from(chars, i) == token_spans_from(chars, i + 1));
        } else {
            lemma_word_end_bounds(chars, i + 1);
            let end = token_end(chars, i);
            lemma_token_spans_bounds(chars, end);
            let s = token_spans_from(chars, i);
            assert forall|k: int| 0 <= k < s.len() implies i <= #[trigger] s[k].0 < s[k].1
                <= chars.len() by {
                if k > 0 {
                    assert(s[k] == token_spans_from(chars, end)[k - 1]);
                }
            }
        }
    }
}

/// The token of `chars[start..end]`.
pub fn token_from_chars(chars: &[char], start: usize, end: usize) -> (token: InlineToken)
    requires
        start <= end <= chars@.len(),
    ensures
        token.start == start,
        token.end == end,
        token.text@ == chars@.subrange(start as int, end as int),
{
    InlineToken { text: string_from_chars(&chars[start..end]), start, end }
}

/// Splits a line into tokens with character offsets (see `token_spans_from`).
pub fn tokenize_for_inline(line: &str) -> (tokens: Vec<InlineToken>)
    ensures
        spans_of(tokens@) == token_spans_from(line@, 0),
        tokens_of(tokens@, line@),
{
    let chars = chars_of(line);
    let ghost all = token_spans_from(chars@, 0);
    let mut tokens: Vec<InlineToken> = Vec::new();
    let mut index: usize = 0;
    proof {
        lemma_token_spans_bounds(chars@, 0);
    }
    while index < chars.len()
        invariant
            chars@ == line@,
            all == token_spans_from(chars@, 0),
            index <= chars@.len(),
            spans_of(tokens@) + token_spans_from(chars@, index as int) == all,
            tokens_of(tokens@, chars@),
        decreases chars@.len() - index,
    {
        let ch = chars[index];
        if is_whitespace(ch) {
            index += 1;
            continue;
        }
        let start = index;
        proof {
            lemma_word_end_bounds(chars@, index + 1);
            lemma_token_spans_bounds(chars@, token_end(chars@, index as int));
        }
        let ghost prev = tokens@;
        if is_separator(ch) {
            let end = if ch == ':' && index + 1 < chars.len() && chars[index + 1] == ':' {
                index + 2
            } else {
                index + 1
            };
            let token = token_from_chars(&chars, start, end);
            tokens.push(token);
            index = end;
        } else {
            index += 1;
            while index < chars.len() && !is_whitespace(chars[index]) && !is_separator(chars[index])
                invariant
                    start < index <= chars@.len(),
                    word_end(chars@, start + 1) == word_end(chars@, index as int),
                decreases chars@.len() - index,
            {
                index += 1;
            }
            let token = token_from_chars(&chars, start, index);
            tokens.push(token);
        }
        proof {
            assert(spans_of(tokens@) =~= spans_of(prev).push((start as int, index as int)));
            assert forall|i: int| 0 <= i < tokens@.len() implies #[trigger] tokens@[i].start
                < tokens@[i].end <= chars@.len() && tokens@[i].text@ == chars@.subrange(
                tokens@[i].start as int,
                tokens@[i].end as int,
            ) by {
                if i < prev.len() {
                    assert(tokens@[i] == prev[i]);
                }
            }
        }
    }
    tokens
}

/// The texts of the tokens.
pub fn token_values(tokens: &[InlineToken]) -> (values: Vec<String>)
    ensures
        values@.len() == tokens@.len(),
        forall|i: int| 0 <= i < tokens@.len() ==> #[trigger] values@[i]@ == tokens@[i].text@,
{
    let mut values: Vec<String> = Vec::new();
    let mut i: usize = 0;
    while i < tokens.len()
        invariant
            i <= tokens@.len(),
            values@.len() == i,
            forall|j: int| 0 <= j < i ==> #[trigger] values@[j]@ == tokens@[j].text@,
        decreases tokens@.len() - i,
    {
        values.push(tokens[i].text.clone());
        i += 1;
    }
    values
}


// ---------------------------------------------------------------------------
// Ranges
// ---------------------------------------------------------------------------

/// Every range is non-empty and ends within its side's line (`reference_len`
/// or `current_len` characters).
pub open spec fn ranges_within(ranges: Seq<InlineRange>, reference_len: nat, current_len: nat) -> bool {
    forall|i: int|
        0 <= i < ranges.len() ==> #[trigger] ranges[i].start < ranges[i].end && ranges[i].end
            <= side_bound(ranges[i].side, reference_len, current_len)
}

/// The bound of `side`'s line.
pub open spec fn side_bound(side: DiffSide, reference_len: nat, current_len: nat) -> nat {
    match side {
        DiffSide::Reference => reference_len,
        DiffSide::Current => current_len,
    }
}

proof fn lemma_ranges_within_push(ranges: Seq<InlineRange>, r: InlineRange, reference_len: nat, current_len: nat)
    requires
        ranges_within(ranges, reference_len, current_len),
        r.start < r.end,
        r.end <= side_bound(r.side, reference_len, current_len),
    ensures
        ranges_within(ranges.push(r), reference_len, current_len),
{
    lemma_ranges_within_concat(ranges, seq![r], reference_len, current_len);
    assert(ranges + seq![r] =~= ranges.push(r));
}

#[verifier::spinoff_prover]
proof fn lemma_ranges_within_concat(a: Seq<InlineRange>, b: Seq<InlineRange>, reference_len: nat, current_len: nat)
    requires
        ranges_within(a, reference_len, current_len),
        ranges_within(b, reference_len, current_len),
    ensures
        ranges_within(a + b, reference_len, current_len),
{
    let s = a + b;
    assert forall|i: int| 0 <= i < s.len() implies #[trigger] s[i].start < s[i].end && s[i].end
        <= side_bound(s[i].side, reference_len, current_len) by {
        if i < a.len() {
            assert(s[i] == a[i]);
            assert(a[i].start < a[i].end);
        } else {
            let j = i - a.len();
            assert(s[i] == b[j]);
            assert(b[j].start < b[j].end);
        }
    }
    assert(ranges_within(s, reference_len, current_len));
}

proof fn lemma_ranges_within_weaken(ranges: Seq<InlineRange>, reference_len: nat, current_len: nat, reference_len2: nat, current_len2: nat)
    requires
        ranges_within(ranges, reference_len, current_len),
        reference_len <= reference_len2,
        current_len <= current_len2,
    ensures
        ranges_within(ranges, reference_len2, current_len2),
{
    assert forall|i: int| 0 <= i < ranges.len() implies #[trigger] ranges[i].start < ranges[i].end
        && ranges[i].end <= side_bound(ranges[i].side, reference_len2, current_len2) by {
        assert(ranges[i].start < ranges[i].end);
    }
}

proof fn lemma_common_suffix_from(a: Seq<char>, b: Seq<char>, t: int, max: int)
    ensures
        t <= spec_common_suffix(a, b, t, max),
    decreases max - t,
{
    if 0 <= t < max && t < a.len() && t < b.len() && a[a.len() - 1 - t] == b[b.len() - 1 - t] {
        lemma_common_suffix_from(a, b, t + 1, max);
    }
}

/// Both refined parts lie within their tokens' texts.
proof fn lemma_refined_bounds(rt: InlineToken, ct: InlineToken)
    ensures
        match spec_refined(rt, ct) {
            Some((rr, cr)) => 0 <= rr.0 && rr.1 <= rt.text@.len() && 0 <= cr.0 && cr.1
                <= ct.text@.len(),
            None => true,
        },
{
    let rc = rt.text@;
    let cc = ct.text@;
    lemma_common_prefix_from(rc, cc, 0);
    let prefix = spec_common_prefix(rc, cc, 0);
    let max = sat_sub(min_int(rc.len() as int, cc.len() as int), prefix);
    lemma_common_suffix_from(rc, cc, 0, max);
}

proof fn lemma_one_token_range(t: InlineToken, side: DiffSide)
    ensures
        token_range_seq(seq![t], side) == (if t.start < t.end {
            seq![InlineRange { side, start: t.start, end: t.end }]
        } else {
            Seq::<InlineRange>::empty()
        }),
{
    reveal_with_fuel(token_range_seq, 2);
    assert(seq![t].drop_last() =~= Seq::<InlineToken>::empty());
    assert(seq![t].last() == t);
    if t.start < t.end {
        assert(Seq::<InlineRange>::empty().push(InlineRange { side, start: t.start, end: t.end })
            =~= seq![InlineRange { side, start: t.start, end: t.end }]);
    }
}

proof fn lemma_pair_ranges_within(rt: InlineToken, ct: InlineToken, reference_len: nat, current_len: nat)
    requires
        rt.start <= rt.end <= reference_len,
        rt.text@.len() == rt.end - rt.start,
        ct.start <= ct.end <= current_len,
        ct.text@.len() == ct.end - ct.start,
    ensures
        ranges_within(pair_ranges(rt, ct), reference_len, current_len),
{
    let p = pair_ranges(rt, ct);
    let (a, b) = match spec_refined(rt, ct) {
        Some((rr, cr)) => {
            lemma_refined_bounds(rt, ct);
            (refined_range_seq(DiffSide::Reference, rt, rr), refined_range_seq(DiffSide::Current, ct, cr))
        },
        None => {
            lemma_one_token_range(rt, DiffSide::Reference);
            lemma_one_token_range(ct, DiffSide::Current);
            (token_range_seq(seq![rt], DiffSide::Reference), token_range_seq(seq![ct], DiffSide::Current))
        },
    };
    assert(p == a + b);
    assert forall|i: int| 0 <= i < a.len() implies #[trigger] a[i].start < a[i].end && a[i].end
        <= side_bound(a[i].side, reference_len, current_len) by {
    }
    assert forall|i: int| 0 <= i < b.len() implies #[trigger] b[i].start < b[i].end && b[i].end
        <= side_bound(b[i].side, reference_len, current_len) by {
    }
    lemma_ranges_within_concat(a, b, reference_len, current_len);
}

/// Appends the range `start..start + len` of `side`, unless it is empty.
pub fn push_range(ranges: &mut Vec<InlineRange>, side: DiffSide, start: usize, len: usize)
    requires
        start + len <= usize::MAX,
    ensures
        final(ranges)@ == if len == 0 {
            old(ranges)@
        } else {
            old(ranges)@.push(InlineRange { side, start, end: (start + len) as usize })
        },
{
    if len == 0 {
        return;
    }
    ranges.push(InlineRange { side, start, end: start + len });
}

/// The ranges of the non-empty tokens, on `side`.
pub open spec fn token_range_seq(tokens: Seq<InlineToken>, side: DiffSide) -> Seq<InlineRange>
    decreases tokens.len(),
{
    if tokens.len() == 0 {
        Seq::empty()
    } else {
        let prev = token_range_seq(tokens.drop_last(), side);
        let t = tokens.last();
        if t.start < t.end {
            prev.push(InlineRange { side, start: t.start, end: t.end })
        } else {
            prev
        }
    }
}

/// Every token ends within `bound` characters and holds as many characters as it spans.
pub open spec fn tokens_bounded(tokens: Seq<InlineToken>, bound: nat) -> bool {
    forall|i: int|
        0 <= i < tokens.len() ==> #[trigger] tokens[i].start <= tokens[i].end <= bound
            && tokens[i].text@.len() == tokens[i].end - tokens[i].start
}

/// Appends one range per non-empty token, on `side`.
pub fn push_token_ranges(ranges: &mut Vec<InlineRange>, side: DiffSide, tokens: &[InlineToken])
    ensures
        final(ranges)@ == old(ranges)@ + token_range_seq(tokens@, side),
        forall|reference_len: nat, current_len: nat|
            ranges_within(old(ranges)@, reference_len, current_len) && tokens_bounded(
                tokens@,
                side_bound(side, reference_len, current_len),
            ) ==> #[trigger] ranges_within(final(ranges)@, reference_len, current_len),
{
    let ghost base = ranges@;
    let mut i: usize = 0;
    while i < tokens.len()
        invariant
            i <= tokens@.len(),
            ranges@ == base + token_range_seq(tokens@.take(i as int), side),
            forall|reference_len: nat, current_len: nat|
                ranges_within(base, reference_len, current_len) && tokens_bounded(
                    tokens@,
                    side_bound(side, reference_len, current_len),
                ) ==> #[trigger] ranges_within(ranges@, reference_len, current_len),
        decreases tokens@.len() - i,
    {
        assert(tokens@.take(i + 1).drop_last() =~= tokens@.take(i as int));
        let token = &tokens[i];
        if token.start < token.end {
            let r = InlineRange { side, start: token.start, end: token.end };
            let ghost prev = ranges@;
            ranges.push(r);
            proof {
                assert forall|reference_len: nat, current_len: nat|
                    ranges_within(base, reference_len, current_len) && tokens_bounded(
                        tokens@,
                        side_bound(side, reference_len, current_len),
                    ) implies #[trigger] ranges_within(ranges@, reference_len, current_len) by {
                    assert(ranges_within(prev, reference_len, current_len));
                    assert(tokens@[i as int].end <= side_bound(side, reference_len, current_len));
                    lemma_ranges_within_push(prev, r, reference_len, current_len);
                }
            }
        }
        i += 1;
    }
    assert(tokens@.take(i as int) =~= tokens@);
}

/// Length of the common prefix of `a` and `b` from position `i` on, plus `i`.
pub open spec fn spec_common_prefix(a: Seq<char>, b: Seq<char>, i: int) -> int
    decreases a.len() - i,
{
    if 0 <= i < a.len() && i < b.len() && a[i] == b[i] {
        spec_common_prefix(a, b, i + 1)
    } else {
        i
    }
}

proof fn lemma_common_prefix_from(a: Seq<char>, b: Seq<char>, i: int)
    requires
        0 <= i,
    ensures
        i <= spec_common_prefix(a, b, i),
    decreases a.len() - i,
{
    if 0 <= i < a.len() && i < b.len() && a[i] == b[i] {
        lemma_common_prefix_from(a, b, i + 1);
    }
}

/// Length of the common suffix of `a` and `b`, counted from `t` and at most `max`.
pub open spec fn spec_common_suffix(a: Seq<char>, b: Seq<char>, t: int, max: int) -> int
    decreases max - t,
{
    if 0 <= t < max && t < a.len() && t < b.len() && a[a.len() - 1 - t] == b[b.len() - 1 - t] {
        spec_common_suffix(a, b, t + 1, max)
    } else {
        t
    }
}

/// Number of leading characters `reference` and `current` share.
pub fn common_prefix_len(reference: &[char], current: &[char]) -> (n: usize)
    ensures
        n == spec_common_prefix(reference@, current@, 0),
        n <= reference@.len(),
        n <= current@.len(),
{
    let mut n: usize = 0;
    while n < reference.len() && n < current.len() && reference[n] == current[n]
        invariant
            n <= reference@.len(),
            n <= current@.len(),
            spec_common_prefix(reference@, current@, 0) == spec_common_prefix(
                reference@,
                current@,
                n as int,
            ),
        decreases reference@.len() - n,
    {
        n += 1;
    }
    n
}

/// Number of trailing characters `reference` and `current` share, at most as
/// many as remain of the shorter one after `prefix`.
pub fn common_suffix_len(reference: &[char], current: &[char], prefix: usize) -> (n: usize)
    ensures
        n == spec_common_suffix(reference@, current@, 0, sat_sub(min_int(reference@.len() as int, current@.len() as int), prefix as int)),
        n <= sat_sub(min_int(reference@.len() as int, current@.len() as int), prefix as int),
{
    let shorter = if reference.len() <= current.len() { reference.len() } else { current.len() };
    let max_suffix = shorter.saturating_sub(prefix);
    let mut n: usize = 0;
    while n < max_suffix && reference[reference.len() - 1 - n] == current[current.len() - 1 - n]
        invariant
            n <= max_suffix,
            max_suffix <= reference@.len(),
            max_suffix <= current@.len(),
            max_suffix == sat_sub(min_int(reference@.len() as int, current@.len() as int), prefix as int),
            spec_common_suffix(reference@, current@, 0, max_suffix as int) == spec_common_suffix(
                reference@,
                current@,
                n as int,
                max_suffix as int,
            ),
        decreases max_suffix - n,
    {
        n += 1;
    }
    n
}

pub open spec fn sat_sub(x: int, y: int) -> int {
    if x >= y {
        x - y
    } else {
        0
    }
}

pub open spec fn min_int(a: int, b: int) -> int {
    if a <= b {
        a
    } else {
        b
    }
}

/// Whether every character is `_` or alphanumeric.
pub open spec fn spec_is_identifier(text: Seq<char>) -> bool {
    forall|i: int| 0 <= i < text.len() ==> #[trigger] text[i] == '_' || char_is_alphanumeric(text[i])
}

/// Whether the token is an identifier (only `_` and alphanumeric characters).
pub fn is_identifier_token(token: &InlineToken) -> (b: bool)
    ensures
        b == spec_is_identifier(token.text@),
{
    let chars = chars_of(token.text.as_str());
    let mut i: usize = 0;
    while i < chars.len()
        invariant
            chars@ == token.text@,
            i <= chars@.len(),
            forall|j: int| 0 <= j < i ==> #[trigger] chars@[j] == '_' || char_is_alphanumeric(chars@[j]),
        decreases chars@.len() - i,
    {
        let ch = chars[i];
        if !(ch == '_' || is_alphanumeric(ch)) {
            return false;
        }
        i += 1;
    }
    true
}

/// The changed parts of two different identifiers: both without their common
/// prefix and suffix, as character offsets within each token; `None` when the
/// tokens are equal, not both identifiers, or differ in nothing after trimming.
pub open spec fn spec_refined(reference: InlineToken, current: InlineToken) -> Option<((int, int), (int, int))> {
    let rc = reference.text@;
    let cc = current.text@;
    if rc == cc || !spec_is_identifier(rc) || !spec_is_identifier(cc) {
        None
    } else {
        let prefix = spec_common_prefix(rc, cc, 0);
        let max = sat_sub(min_int(rc.len() as int, cc.len() as int), prefix);
        let suffix = spec_common_suffix(rc, cc, 0, max);
        let reference_end = sat_sub(rc.len() as int, suffix);
        let current_end = sat_sub(cc.len() as int, suffix);
        if prefix >= reference_end && prefix >= current_end {
            None
        } else {
            Some(((prefix, reference_end), (prefix, current_end)))
        }
    }
}

/// The changed parts of two paired identifier tokens (see `spec_refined`).
pub fn refined_token_ranges(reference: &InlineToken, current: &InlineToken) -> (r: Option<((usize, usize), (usize, usize))>)
    ensures
        match r {
            Some((rr, cr)) => spec_refined(*reference, *current) == Some(
                ((rr.0 as int, rr.1 as int), (cr.0 as int, cr.1 as int)),
            ) && rr.1 <= reference.text@.len() && cr.1 <= current.text@.len(),
            None => spec_refined(*reference, *current) is None,
        },
{
    if reference.text == current.text || !is_identifier_token(reference) || !is_identifier_token(current) {
        return None;
    }
    let reference_chars = chars_of(reference.text.as_str());
    let current_chars = chars_of(current.text.as_str());
    let prefix = common_prefix_len(&reference_chars, &current_chars);
    let suffix = common_suffix_len(&reference_chars, &current_chars, prefix);
    let reference_end = reference_chars.len().saturating_sub(suffix);
    let current_end = current_chars.len().saturating_sub(suffix);
    if prefix >= reference_end && prefix >= current_end {
        return None;
    }
    Some(((prefix, reference_end), (prefix, current_end)))
}

/// The range of `token`'s characters `range.0..range.1`, unless it is empty.
pub open spec fn refined_range_seq(side: DiffSide, token: InlineToken, range: (int, int)) -> Seq<InlineRange> {
    if range.0 >= range.1 {
        Seq::empty()
    } else {
        seq![InlineRange { side, start: (token.start + range.0) as usize, end: (token.start + range.1) as usize }]
    }
}

/// Appends the part `range` of `token` on `side`, unless it is empty.
pub fn push_refined_range(ranges: &mut Vec<InlineRange>, side: DiffSide, token: &InlineToken, range: (usize, usize))
    requires
        token.start + range.1 <= usize::MAX,
    ensures
        final(ranges)@ == old(ranges)@ + refined_range_seq(side, *token, (range.0 as int, range.1 as int)),
{
    if range.0 >= range.1 {
        return;
    }
    ranges.push(InlineRange { side, start: token.start + range.0, end: token.start + range.1 });
}

/// The ranges of one pair of replaced tokens: their changed identifier parts,
/// or both whole tokens.
pub open spec fn pair_ranges(reference: InlineToken, current: InlineToken) -> Seq<InlineRange> {
    match spec_refined(reference, current) {
        Some((rr, cr)) => refined_range_seq(DiffSide::Reference, reference, rr) + refined_range_seq(
            DiffSide::Current,
            current,
            cr,
        ),
        None => token_range_seq(seq![reference], DiffSide::Reference) + token_range_seq(
            seq![current],
            DiffSide::Current,
        ),
    }
}

/// The ranges of the first `k` pairs of replaced tokens.
pub open spec fn pairs_ranges(reference: Seq<InlineToken>, current: Seq<InlineToken>, k: int) -> Seq<InlineRange>
    decreases k,
{
    if k <= 0 {
        Seq::empty()
    } else {
        pairs_ranges(reference, current, k - 1) + pair_ranges(reference[k - 1], current[k - 1])
    }
}

/// The ranges of replaced tokens: pairwise when both sides have as many tokens,
/// else all tokens of both sides.
pub open spec fn spec_replace_token_ranges(reference: Seq<InlineToken>, current: Seq<InlineToken>) -> Seq<InlineRange> {
    if reference.len() != current.len() {
        token_range_seq(reference, DiffSide::Reference) + token_range_seq(current, DiffSide::Current)
    } else {
        pairs_ranges(reference, current, reference.len() as int)
    }
}

/// Appends the ranges of replaced tokens (see `spec_replace_token_ranges`).
pub fn push_replace_token_ranges(
    ranges: &mut Vec<InlineRange>,
    reference_tokens: &[InlineToken],
    current_tokens: &[InlineToken],
)
    requires
        tokens_bounded(reference_tokens@, usize::MAX as nat),
        tokens_bounded(current_tokens@, usize::MAX as nat),
    ensures
        final(ranges)@ == old(ranges)@ + spec_replace_token_ranges(reference_tokens@, current_tokens@),
        forall|reference_len: nat, current_len: nat|
            ranges_within(old(ranges)@, reference_len, current_len) && tokens_bounded(
                reference_tokens@,
                reference_len,
            ) && tokens_bounded(current_tokens@, current_len) ==> #[trigger] ranges_within(
                final(ranges)@,
                reference_len,
                current_len,
            ),
{
    if reference_tokens.len() != current_tokens.len() {
        push_token_ranges(ranges, DiffSide::Reference, reference_tokens);
        push_token_ranges(ranges, DiffSide::Current, current_tokens);
        return;
    }
    let ghost base = ranges@;
    let mut k: usize = 0;
    while k < reference_tokens.len()
        invariant
            reference_tokens@.len() == current_tokens@.len(),
            tokens_bounded(reference_tokens@, usize::MAX as nat),
            tokens_bounded(current_tokens@, usize::MAX as nat),
            k <= reference_tokens@.len(),
            ranges@ == base + pairs_ranges(reference_tokens@, current_tokens@, k as int),
            forall|reference_len: nat, current_len: nat|
                ranges_within(base, reference_len, current_len) && tokens_bounded(
                    reference_tokens@,
                    reference_len,
                ) && tokens_bounded(current_tokens@, current_len) ==> #[trigger] ranges_within(
                    ranges@,
                    reference_len,
                    current_len,
                ),
        decreases reference_tokens@.len() - k,
    {
        let reference = &reference_tokens[k];
        let current = &current_tokens[k];
        let ghost prev = ranges@;
        proof {
            assert(tokens_bounded(reference_tokens@, usize::MAX as nat));
            assert(reference_tokens@[k as int].start <= reference_tokens@[k as int].end);
        }
        match refined_token_ranges(reference, current) {
            Some((reference_range, current_range)) => {
                push_refined_range(ranges, DiffSide::Reference, reference, reference_range);
                push_refined_range(ranges, DiffSide::Current, current, current_range);
            },
            None => {
                let reference_one = &reference_tokens[k..k + 1];
                let current_one = &current_tokens[k..k + 1];
                assert(reference_one@ =~= seq![reference_tokens@[k as int]]);
                assert(current_one@ =~= seq![current_tokens@[k as int]]);
                push_token_ranges(ranges, DiffSide::Reference, reference_one);
                push_token_ranges(ranges, DiffSide::Current, current_one);
            },
        }
        proof {
            assert(ranges@ =~= base + pairs_ranges(reference_tokens@, current_tokens@, k + 1));
            assert forall|reference_len: nat, current_len: nat|
                ranges_within(base, reference_len, current_len) && tokens_bounded(
                    reference_tokens@,
                    reference_len,
                ) && tokens_bounded(current_tokens@, current_len) implies #[trigger] ranges_within(
                    ranges@,
                    reference_len,
                    current_len,
                ) by {
                assert(ranges_within(prev, reference_len, current_len));
                let rt = reference_tokens@[k as int];
                let ct = current_tokens@[k as int];
                assert(rt.start <= rt.end <= reference_len);
                assert(ct.start <= ct.end <= current_len);
                lemma_pair_ranges_within(rt, ct, reference_len, current_len);
                lemma_ranges_within_concat(prev, pair_ranges(rt, ct), reference_len, current_len);
                assert(ranges@ =~= prev + pair_ranges(rt, ct));
            }
        }
        k += 1;
    }
}


/// The ranges of the tokens that one operation of a token diff changes.
pub open spec fn op_token_ranges(op: DiffLineOp, reference: Seq<InlineToken>, current: Seq<InlineToken>) -> Seq<InlineRange> {
    let rs = reference.subrange(op.reference_range.start as int, op.reference_range.end as int);
    let cs = current.subrange(op.current_range.start as int, op.current_range.end as int);
    match op.tag {
        DiffLineTag::Equal => Seq::empty(),
        DiffLineTag::Delete => token_range_seq(rs, DiffSide::Reference),
        DiffLineTag::Insert => token_range_seq(cs, DiffSide::Current),
        DiffLineTag::Replace => spec_replace_token_ranges(rs, cs),
    }
}

/// The ranges of all operations of a token diff, in order.
pub open spec fn ops_token_ranges(ops: Seq<DiffLineOp>, reference: Seq<InlineToken>, current: Seq<InlineToken>) -> Seq<InlineRange>
    decreases ops.len(),
{
    if ops.len() == 0 {
        Seq::empty()
    } else {
        ops_token_ranges(ops.drop_last(), reference, current) + op_token_ranges(ops.last(), reference, current)
    }
}

proof fn lemma_subrange_bounded(tokens: Seq<InlineToken>, a: int, b: int, bound: nat)
    requires
        0 <= a <= b <= tokens.len(),
        tokens_bounded(tokens, bound),
    ensures
        tokens_bounded(tokens.subrange(a, b), bound),
{
    let s = tokens.subrange(a, b);
    assert forall|i: int| 0 <= i < s.len() implies #[trigger] s[i].start <= s[i].end <= bound
        && s[i].text@.len() == s[i].end - s[i].start by {
        assert(s[i] == tokens[a + i]);
        assert(tokens[a + i].start <= tokens[a + i].end <= bound);
    }
}

/// The ranges a token diff highlights: deleted and inserted tokens whole,
/// replaced tokens pairwise (see `spec_replace_token_ranges`).
pub fn token_ranges_for_ops(
    ops: &[DiffLineOp],
    reference_tokens: &[InlineToken],
    current_tokens: &[InlineToken],
) -> (ranges: Vec<InlineRange>)
    requires
        ops_align(ops@, reference_tokens@.len() as nat, current_tokens@.len() as nat),
        tokens_bounded(reference_tokens@, usize::MAX as nat),
        tokens_bounded(current_tokens@, usize::MAX as nat),
    ensures
        ranges@ == ops_token_ranges(ops@, reference_tokens@, current_tokens@),
        forall|reference_len: nat, current_len: nat|
            tokens_bounded(reference_tokens@, reference_len) && tokens_bounded(
                current_tokens@,
                current_len,
            ) ==> #[trigger] ranges_within(ranges@, reference_len, current_len),
{
    let mut ranges: Vec<InlineRange> = Vec::new();
    let mut k: usize = 0;
    while k < ops.len()
        invariant
            k <= ops@.len(),
            ops_align(ops@, reference_tokens@.len() as nat, current_tokens@.len() as nat),
            tokens_bounded(reference_tokens@, usize::MAX as nat),
            tokens_bounded(current_tokens@, usize::MAX as nat),
            ranges@ == ops_token_ranges(ops@.take(k as int), reference_tokens@, current_tokens@),
            forall|reference_len: nat, current_len: nat|
                tokens_bounded(reference_tokens@, reference_len) && tokens_bounded(
                    current_tokens@,
                    current_len,
                ) ==> #[trigger] ranges_within(ranges@, reference_len, current_len),
        decreases ops@.len() - k,
    {
        proof {
            crate::model::lemma_aligned_op_in_bounds(
                ops@,
                reference_tokens@.len() as nat,
                current_tokens@.len() as nat,
                k as int,
            );
            assert(ops@.take(k + 1).drop_last() =~= ops@.take(k as int));
        }
        let op = &ops[k];
        let reference_slice = &reference_tokens[op.reference_range.start..op.reference_range.end];
        let current_slice = &current_tokens[op.current_range.start..op.current_range.end];
        let ghost prev = ranges@;
        proof {
            assert forall|bound: nat| tokens_bounded(reference_tokens@, bound) implies tokens_bounded(reference_slice@, bound) by {
                lemma_subrange_bounded(reference_tokens@, op.reference_range.start as int, op.reference_range.end as int, bound);
            }
            assert forall|bound: nat| tokens_bounded(current_tokens@, bound) implies tokens_bounded(current_slice@, bound) by {
                lemma_subrange_bounded(current_tokens@, op.current_range.start as int, op.current_range.end as int, bound);
            }
        }
        match op.tag {
            DiffLineTag::Equal => {},
            DiffLineTag::Delete => push_token_ranges(&mut ranges, DiffSide::Reference, reference_slice),
            DiffLineTag::Insert => push_token_ranges(&mut ranges, DiffSide::Current, current_slice),
            DiffLineTag::Replace => push_replace_token_ranges(&mut ranges, reference_slice, current_slice),
        }
        proof {
            assert(ranges@ =~= ops_token_ranges(ops@.take(k + 1), reference_tokens@, current_tokens@));
        }
        k += 1;
    }
    assert(ops@.take(k as int) =~= ops@);
    ranges
}

// ---------------------------------------------------------------------------
// Time budget
// ---------------------------------------------------------------------------

#[verifier::external_type_specification]
#[verifier::external_body]
pub struct ExInstant(Instant);

/// Calls `Instant::now`. The result is the machine's clock; nothing is stated of it.
#[verifier::external_body]
fn now() -> Instant {
    Instant::now()
}

/// Calls `Instant::checked_add` with a duration of `millis` milliseconds:
/// the later instant, or `None` when it cannot be represented. Nothing is
/// stated of the instant.
#[verifier::external_body]
fn instant_after_millis(start: Instant, millis: u64) -> Option<Instant> {
    start.checked_add(Duration::from_millis(millis))
}

/// Calls `Instant::saturating_duration_since` and gives the duration in
/// nanoseconds (`Duration::as_nanos`, exact): how long until `deadline`, or 0
/// once it has passed. Nothing is stated of it.
#[verifier::external_body]
fn nanos_until(deadline: Instant, now: Instant) -> u128 {
    deadline.saturating_duration_since(now).as_nanos()
}

/// Calls `Ord::min` on two instants: the earlier of them, which is one of them.
#[verifier::external_body]
fn earlier(a: Instant, b: Instant) -> (r: Instant)
    ensures
        r == a || r == b,
{
    a.min(b)
}

/// The time the inline diffs of one row model may still take.
pub struct InlineBudget {
    pub deadline: Instant,
}

impl InlineBudget {
    /// A budget of `TOTAL_INLINE_BUDGET_MS` from now (a spent budget should
    /// that instant not be representable).
    pub fn new() -> Self {
        let start = now();
        let deadline = match instant_after_millis(start, TOTAL_INLINE_BUDGET_MS) {
            Some(deadline) => deadline,
            None => start,
        };
        InlineBudget { deadline }
    }

    /// A budget that has run out.
    pub fn expired_for_tests() -> Self {
        InlineBudget { deadline: now() }
    }

    /// A budget that runs out at `deadline`.
    pub fn with_deadline_for_tests(deadline: Instant) -> (budget: Self)
        ensures
            budget.deadline == deadline,
    {
        InlineBudget { deadline }
    }

    /// Nanoseconds left until the deadline (0 once it has passed).
    pub fn remaining(&self) -> u128 {
        nanos_until(self.deadline, now())
    }

    /// Whether at least `MIN_INLINE_BUDGET_US` remain (see `enough_budget`).
    pub fn has_work_budget(&self) -> bool {
        enough_budget(self.remaining())
    }

    /// The deadline, when enough time remains to work with it.
    pub fn diff_deadline(&self) -> (deadline: Option<Instant>)
        ensures
            deadline matches Some(d) ==> d == self.deadline,
    {
        if self.has_work_budget() {
            Some(self.deadline)
        } else {
            None
        }
    }

    /// The time (in nanoseconds) one diff may take: what remains, at most
    /// `max_millis`; `None` when less than `MIN_INLINE_BUDGET_US` remain (see
    /// `timeout_for_remaining`, applied to the time left now).
    pub fn effective_timeout(&self, max_millis: u64) -> (timeout: Option<u128>)
        ensures
            exists|remaining: u128| timeout == spec_timeout_for_remaining(remaining, max_millis),
            timeout matches Some(t) ==> t <= max_millis * 1_000_000,
    {
        let remaining = self.remaining();
        timeout_for_remaining(remaining, max_millis)
    }
}

/// Least remaining time in nanoseconds worth starting another inline diff with.
pub open spec fn min_budget_nanos() -> int {
    MIN_INLINE_BUDGET_US * 1000
}

/// Whether `remaining` nanoseconds leave enough time for an inline diff.
pub fn enough_budget(remaining: u128) -> (enough: bool)
    ensures
        enough == (remaining >= min_budget_nanos()),
{
    remaining >= MIN_INLINE_BUDGET_US as u128 * 1000
}

/// The time in nanoseconds one diff may take when `remaining` nanoseconds are
/// left: none below `MIN_INLINE_BUDGET_US`, else what remains, at most
/// `max_millis` milliseconds.
pub open spec fn spec_timeout_for_remaining(remaining: u128, max_millis: u64) -> Option<u128> {
    if remaining < min_budget_nanos() {
        None
    } else if remaining < max_millis * 1_000_000 {
        Some(remaining)
    } else {
        Some((max_millis * 1_000_000) as u128)
    }
}

/// The time one diff may take (see `spec_timeout_for_remaining`).
pub fn timeout_for_remaining(remaining: u128, max_millis: u64) -> (timeout: Option<u128>)
    ensures
        timeout == spec_timeout_for_remaining(remaining, max_millis),
{
    if remaining < MIN_INLINE_BUDGET_US as u128 * 1000 {
        return None;
    }
    let cap = max_millis as u128 * 1_000_000;
    if remaining < cap {
        Some(remaining)
    } else {
        Some(cap)
    }
}

/// A timeout of `nanos` nanoseconds as whole seconds and the nanoseconds
/// beyond them.
pub fn split_nanos(nanos: u128) -> (parts: (u64, u32))
    requires
        nanos / 1_000_000_000 <= u64::MAX,
    ensures
        parts.0 * 1_000_000_000 + parts.1 == nanos,
        parts.1 < 1_000_000_000,
{
    let secs = nanos / 1_000_000_000;
    let rest = nanos % 1_000_000_000;
    (secs as u64, rest as u32)
}

// ---------------------------------------------------------------------------
// Diffs of a modified line
// ---------------------------------------------------------------------------

/// What a change of a word or grapheme diff does.
#[derive(Clone, Copy, Debug, PartialEq, Eq, Structural)]
pub enum ChangeKind {
    Equal,
    Delete,
    Insert,
}

/// One change of a word or grapheme diff: its kind and its length in characters.
#[derive(Clone, Copy, Debug, PartialEq, Eq, Structural)]
pub struct InlineChange {
    pub kind: ChangeKind,
    pub len: usize,
}

/// Characters of the reference line the changes cover (equal and deleted).
pub open spec fn reference_len_of(changes: Seq<InlineChange>) -> nat
    decreases changes.len(),
{
    if changes.len() == 0 {
        0
    } else {
        reference_len_of(changes.drop_last()) + if changes.last().kind != ChangeKind::Insert {
            changes.last().len as nat
        } else {
            0nat
        }
    }
}

/// Characters of the current line the changes cover (equal and inserted).
pub open spec fn current_len_of(changes: Seq<InlineChange>) -> nat
    decreases changes.len(),
{
    if changes.len() == 0 {
        0
    } else {
        current_len_of(changes.drop_last()) + if changes.last().kind != ChangeKind::Delete {
            changes.last().len as nat
        } else {
            0nat
        }
    }
}

/// The ranges of the deleted and inserted changes, at their character offsets.
pub open spec fn collected_ranges(changes: Seq<InlineChange>) -> Seq<InlineRange>
    decreases changes.len(),
{
    if changes.len() == 0 {
        Seq::empty()
    } else {
        let prev = collected_ranges(changes.drop_last());
        let c = changes.last();
        let left = reference_len_of(changes.drop_last());
        let right = current_len_of(changes.drop_last());
        if c.len == 0 || c.kind == ChangeKind::Equal {
            prev
        } else if c.kind == ChangeKind::Delete {
            prev.push(InlineRange { side: DiffSide::Reference, start: left as usize, end: (left + c.len) as usize })
        } else {
            prev.push(InlineRange { side: DiffSide::Current, start: right as usize, end: (right + c.len) as usize })
        }
    }
}

proof fn lemma_change_lens_grow(changes: Seq<InlineChange>, k: int)
    requires
        0 <= k <= changes.len(),
    ensures
        reference_len_of(changes.take(k)) <= reference_len_of(changes),
        current_len_of(changes.take(k)) <= current_len_of(changes),
    decreases changes.len() - k,
{
    if k < changes.len() {
        lemma_change_lens_grow(changes, k + 1);
        assert(changes.take(k + 1).drop_last() =~= changes.take(k));
    } else {
        assert(changes.take(k) =~= changes);
    }
}

/// Turns the changes of a word or grapheme diff into ranges (see `collected_ranges`).
pub fn collect_ranges(changes: &[InlineChange]) -> (ranges: Vec<InlineRange>)
    requires
        reference_len_of(changes@) <= usize::MAX,
        current_len_of(changes@) <= usize::MAX,
    ensures
        ranges@ == collected_ranges(changes@),
        ranges_within(ranges@, reference_len_of(changes@), current_len_of(changes@)),
{
    let mut left_offset: usize = 0;
    let mut right_offset: usize = 0;
    let mut ranges: Vec<InlineRange> = Vec::new();
    let mut k: usize = 0;
    while k < changes.len()
        invariant
            k <= changes@.len(),
            reference_len_of(changes@) <= usize::MAX,
            current_len_of(changes@) <= usize::MAX,
            left_offset == reference_len_of(changes@.take(k as int)),
            right_offset == current_len_of(changes@.take(k as int)),
            ranges@ == collected_ranges(changes@.take(k as int)),
            ranges_within(ranges@, left_offset as nat, right_offset as nat),
        decreases changes@.len() - k,
    {
        proof {
            lemma_change_lens_grow(changes@, k + 1);
            assert(changes@.take(k + 1).drop_last() =~= changes@.take(k as int));
        }
        let change = changes[k];
        let len = change.len;
        let ghost prev = ranges@;
        match change.kind {
            ChangeKind::Delete => {
                push_range(&mut ranges, DiffSide::Reference, left_offset, len);
                left_offset += len;
            },
            ChangeKind::Insert => {
                push_range(&mut ranges, DiffSide::Current, right_offset, len);
                right_offset += len;
            },
            ChangeKind::Equal => {
                left_offset += len;
                right_offset += len;
            },
        }
        proof {
            let lo = reference_len_of(changes@.take(k as int));
            let ro = current_len_of(changes@.take(k as int));
            lemma_ranges_within_weaken(prev, lo, ro, left_offset as nat, right_offset as nat);
            if ranges@ != prev {
                let r = ranges@.last();
                assert(ranges@ == prev.push(r));
                lemma_ranges_within_push(prev, r, left_offset as nat, right_offset as nat);
            }
        }
        k += 1;
    }
    assert(changes@.take(k as int) =~= changes@);
    ranges
}

/// The lengths of the tokens the reference side of the changes takes (the
/// equal and deleted changes), in order.
pub open spec fn reference_lens(changes: Seq<InlineChange>) -> Seq<nat>
    decreases changes.len(),
{
    if changes.len() == 0 {
        Seq::empty()
    } else if changes.last().kind != ChangeKind::Insert {
        reference_lens(changes.drop_last()).push(changes.last().len as nat)
    } else {
        reference_lens(changes.drop_last())
    }
}

/// The lengths of the tokens the current side of the changes takes (the equal
/// and inserted changes), in order.
pub open spec fn current_lens(changes: Seq<InlineChange>) -> Seq<nat>
    decreases changes.len(),
{
    if changes.len() == 0 {
        Seq::empty()
    } else if changes.last().kind != ChangeKind::Delete {
        current_lens(changes.drop_last()).push(changes.last().len as nat)
    } else {
        current_lens(changes.drop_last())
    }
}

/// How many changes are of `kind`.
pub open spec fn count_kind(changes: Seq<InlineChange>, kind: ChangeKind) -> nat
    decreases changes.len(),
{
    if changes.len() == 0 {
        0
    } else {
        count_kind(changes.drop_last(), kind) + if changes.last().kind == kind {
            1nat
        } else {
            0nat
        }
    }
}

/// The lengths of the tokens, in order.
pub open spec fn token_lens(tokens: Seq<Seq<char>>) -> Seq<nat> {
    Seq::new(tokens.len(), |i: int| tokens[i].len())
}

/// Each equal change pairs equal text: the characters it covers on the
/// reference side, at its offset there, are those it covers on the current
/// side, at its offset there.
pub open spec fn changes_pair_equal(changes: Seq<InlineChange>, reference: Seq<char>, current: Seq<char>) -> bool {
    forall|k: int|
        0 <= k < changes.len() && (#[trigger] changes[k]).kind == ChangeKind::Equal ==> {
            let left = reference_len_of(changes.take(k)) as int;
            let right = current_len_of(changes.take(k)) as int;
            reference.subrange(left, left + changes[k].len) == current.subrange(right, right + changes[k].len)
        }
}

/// The changes go token by token over the given token lists (one change per
/// token of each side it takes), and they delete and insert no more tokens
/// than lie between the lists' common prefix and, after it, their common
/// suffix.
pub open spec fn changes_over_tokens(
    changes: Seq<InlineChange>,
    reference_tokens: Seq<Seq<char>>,
    current_tokens: Seq<Seq<char>>,
) -> bool {
    let p = seq_common_prefix(reference_tokens, current_tokens);
    let s = seq_common_suffix(reference_tokens.skip(p as int), current_tokens.skip(p as int));
    &&& reference_lens(changes) == token_lens(reference_tokens)
    &&& current_lens(changes) == token_lens(current_tokens)
    &&& count_kind(changes, ChangeKind::Delete) + p + s <= reference_tokens.len()
    &&& count_kind(changes, ChangeKind::Insert) + p + s <= current_tokens.len()
}

/// Names the words (and runs of whitespace between them) `similar`'s word diff
/// (`TextDiffConfig::diff_words`) splits a text into.
pub uninterp spec fn similar_words(text: Seq<char>) -> Seq<Seq<char>>;

/// Names the extended grapheme clusters `similar`'s grapheme diff
/// (`TextDiffConfig::diff_graphemes`) splits a text into.
pub uninterp spec fn similar_graphemes(text: Seq<char>) -> Seq<Seq<char>>;

/// Calls `similar`'s word diff (`TextDiffConfig::timeout` then `diff_words`)
/// and turns each change of `iter_all_changes` into its kind and its length in
/// characters. Which changes come back depends on the time the diff gets; the
/// contract states what holds of every outcome: the changes cover both lines
/// (the equal and deleted changes are the reference line, the equal and
/// inserted ones the current line), one change per word of each line as the
/// diff splits it (named `similar_words`), an equal change pairs equal text,
/// and the changes take no words of the common prefix and suffix of the word
/// lists (Myers reports both as equal first, deadline or not).
#[verifier::external_body]
fn word_changes(reference: &str, current: &str, timeout_secs: u64, timeout_nanos: u32) -> (changes: Vec<InlineChange>)
    requires
        timeout_nanos < 1_000_000_000,
    ensures
        reference_len_of(changes@) == reference@.len(),
        current_len_of(changes@) == current@.len(),
        changes_pair_equal(changes@, reference@, current@),
        changes_over_tokens(changes@, similar_words(reference@), similar_words(current@)),
{
    let diff = TextDiff::configure().timeout(Duration::new(timeout_secs, timeout_nanos)).diff_words(reference, current);
    diff.iter_all_changes().map(|change| InlineChange {
        kind: match change.tag() {
            ChangeTag::Equal => ChangeKind::Equal,
            ChangeTag::Delete => ChangeKind::Delete,
            ChangeTag::Insert => ChangeKind::Insert,
        },
        len: change.value().chars().count(),
    }).collect()
}

/// Calls `similar`'s grapheme diff (`TextDiffConfig::timeout` then
/// `diff_graphemes`) and turns each change of `iter_all_changes` into its kind
/// and its length in characters. As for `word_changes`, over the graphemes
/// the diff splits each line into (named `similar_graphemes`).
#[verifier::external_body]
fn grapheme_changes(reference: &str, current: &str, timeout_secs: u64, timeout_nanos: u32) -> (changes: Vec<InlineChange>)
    requires
        timeout_nanos < 1_000_000_000,
    ensures
        reference_len_of(changes@) == reference@.len(),
        current_len_of(changes@) == current@.len(),
        changes_pair_equal(changes@, reference@, current@),
        changes_over_tokens(changes@, similar_graphemes(reference@), similar_graphemes(current@)),
{
    let diff = TextDiff::configure().timeout(Duration::new(timeout_secs, timeout_nanos)).diff_graphemes(reference, current);
    diff.iter_all_changes().map(|change| InlineChange {
        kind: match change.tag() {
            ChangeTag::Equal => ChangeKind::Equal,
            ChangeTag::Delete => ChangeKind::Delete,
            ChangeTag::Insert => ChangeKind::Insert,
        },
        len: change.value().chars().count(),
    }).collect()
}

/// Calls `similar::capture_diff_slices_deadline` (Myers) on the token texts and
/// converts each `DiffOp::as_tag_tuple` into a `DiffLineOp`. Which operations
/// come back depends on the deadline; the contract states what holds of every
/// outcome: they form an edit script over both token lists, an equal
/// operation pairs equal tokens, and the changes take no more tokens than lie
/// between the common prefix and the common suffix (Myers reports both as
/// equal before it looks at the rest, deadline or not, and the compaction
/// only moves changes without changing their lengths).
#[verifier::external_body]
fn token_diff_ops(reference_values: &Vec<String>, current_values: &Vec<String>, deadline: Instant) -> (ops: Vec<DiffLineOp>)
    ensures
        ops_align(ops@, reference_values@.len() as nat, current_values@.len() as nat),
        equal_ops_pair_equal(ops@, string_views(reference_values@), string_views(current_values@)),
        changes_within_middle(ops@, string_views(reference_values@), string_views(current_values@)),
{
    let ops = capture_diff_slices_deadline(Algorithm::Myers, reference_values, current_values, Some(deadline));
    ops.iter().map(|op| {
        let (tag, reference_range, current_range) = op.as_tag_tuple();
        let tag = match tag {
            DiffTag::Equal => DiffLineTag::Equal,
            DiffTag::Delete => DiffLineTag::Delete,
            DiffTag::Insert => DiffLineTag::Insert,
            DiffTag::Replace => DiffLineTag::Replace,
        };
        DiffLineOp { tag, reference_range, current_range }
    }).collect()
}

/// The token tokens of a line are bounded by its length.
proof fn lemma_tokens_bounded(tokens: Seq<InlineToken>, chars: Seq<char>)
    requires
        tokens_of(tokens, chars),
    ensures
        tokens_bounded(tokens, chars.len()),
        tokens_bounded(tokens, usize::MAX as nat),
{
    assert forall|i: int| 0 <= i < tokens.len() implies #[trigger] tokens[i].start <= tokens[i].end <= chars.len()
        && tokens[i].text@.len() == tokens[i].end - tokens[i].start by {
        assert(tokens_of(tokens, chars));
    }
    assert forall|i: int| 0 <= i < tokens.len() implies #[trigger] tokens[i].start <= tokens[i].end <= usize::MAX
        && tokens[i].text@.len() == tokens[i].end - tokens[i].start by {
        assert(tokens_of(tokens, chars));
    }
}

/// Ranges that some aligned diff of the two lines' tokens gives: the tokens
/// are exactly those `tokenize_for_inline` finds, the diff pairs only equal
/// tokens and changes no more tokens than lie between their common prefix and
/// common suffix, and it is whichever such diff the time allowed.
pub open spec fn from_token_diff(reference: Seq<char>, current: Seq<char>, ranges: Seq<InlineRange>) -> bool {
    exists|ops: Seq<DiffLineOp>, reference_tokens: Seq<InlineToken>, current_tokens: Seq<InlineToken>|
        spans_of(reference_tokens) == token_spans_from(reference, 0) && tokens_of(reference_tokens, reference)
            && spans_of(current_tokens) == token_spans_from(current, 0) && tokens_of(current_tokens, current)
            && ops_align(ops, reference_tokens.len() as nat, current_tokens.len() as nat)
            && equal_ops_pair_equal(ops, token_texts(reference_tokens), token_texts(current_tokens))
            && changes_within_middle(ops, token_texts(reference_tokens), token_texts(current_tokens))
            && #[trigger] ops_token_ranges(ops, reference_tokens, current_tokens) == ranges
}

/// The texts of the tokens, in order.
pub open spec fn token_texts(tokens: Seq<InlineToken>) -> Seq<Seq<char>> {
    Seq::new(tokens.len(), |i: int| tokens[i].text@)
}

/// Ranges collected from some sequence of changes that covers both lines
/// exactly, goes token by token over the given token lists, pairs only equal
/// text, and leaves the tokens' common prefix and suffix alone.
pub open spec fn from_change_diff(
    reference: Seq<char>,
    current: Seq<char>,
    ranges: Seq<InlineRange>,
    reference_tokens: Seq<Seq<char>>,
    current_tokens: Seq<Seq<char>>,
) -> bool {
    exists|changes: Seq<InlineChange>|
        reference_len_of(changes) == reference.len() && current_len_of(changes) == current.len()
            && changes_pair_equal(changes, reference, current)
            && changes_over_tokens(changes, reference_tokens, current_tokens)
            && #[trigger] collected_ranges(changes) == ranges
}

/// Highlights of a modified line from a token diff: nothing when either line
/// has at most one token or the budget is spent; otherwise the ranges
/// `token_ranges_for_ops` gives for the diff the budget allows.
pub fn token_ranges(reference: &str, current: &str, budget: &InlineBudget) -> (ranges: Vec<InlineRange>)
    ensures
        ranges_within(ranges@, reference@.len(), current@.len()),
        token_spans_from(reference@, 0).len() <= 1 || token_spans_from(current@, 0).len() <= 1
            ==> ranges@.len() == 0,
        ranges@.len() == 0 || from_token_diff(reference@, current@, ranges@),
{
    let reference_tokens = tokenize_for_inline(reference);
    let current_tokens = tokenize_for_inline(current);
    proof {
        assert(spans_of(reference_tokens@).len() == reference_tokens@.len());
        assert(spans_of(current_tokens@).len() == current_tokens@.len());
    }
    if reference_tokens.len() <= 1 || current_tokens.len() <= 1 {
        return Vec::new();
    }
    let deadline = match budget.diff_deadline() {
        Some(deadline) => deadline,
        None => return Vec::new(),
    };
    let reference_values = token_values(&reference_tokens);
    let current_values = token_values(&current_tokens);
    let deadline = match instant_after_millis(now(), TOKEN_TIMEOUT_MS) {
        Some(token_deadline) => earlier(deadline, token_deadline),
        None => deadline,
    };
    let ops = token_diff_ops(&reference_values, &current_values, deadline);
    proof {
        lemma_tokens_bounded(reference_tokens@, reference@);
        lemma_tokens_bounded(current_tokens@, current@);
        assert(string_views(reference_values@) =~= token_texts(reference_tokens@));
        assert(string_views(current_values@) =~= token_texts(current_tokens@));
    }
    let ranges = token_ranges_for_ops(&ops, &reference_tokens, &current_tokens);
    proof {
        assert(ops_token_ranges(ops@, reference_tokens@, current_tokens@) == ranges@);
    }
    ranges
}


/// Highlights of a modified line from a grapheme diff within
/// `GRAPHEME_TIMEOUT_MS` of the budget; nothing when the budget is spent.
pub fn grapheme_ranges(reference: &str, current: &str, budget: &InlineBudget) -> (ranges: Vec<InlineRange>)
    requires
        reference@.len() <= usize::MAX,
        current@.len() <= usize::MAX,
    ensures
        ranges_within(ranges@, reference@.len(), current@.len()),
        ranges@.len() == 0 || from_change_diff(
            reference@,
            current@,
            ranges@,
            similar_graphemes(reference@),
            similar_graphemes(current@),
        ),
{
    let timeout = match budget.effective_timeout(GRAPHEME_TIMEOUT_MS) {
        Some(timeout) => timeout,
        None => return Vec::new(),
    };
    proof {
        assert(timeout / 1_000_000_000 <= u64::MAX);
    }
    let (secs, nanos) = split_nanos(timeout);
    let changes = grapheme_changes(reference, current, secs, nanos);
    let ranges = collect_ranges(&changes);
    proof {
        assert(collected_ranges(changes@) == ranges@);
    }
    ranges
}

/// The inline highlights of a modified row, within the budget: nothing when
/// the budget is spent or either line is longer than `WORD_LIMIT` characters;
/// for lines of at most `GRAPHEME_LIMIT` characters the token ranges, or the
/// grapheme ranges when tokens give none; for longer lines the word ranges.
/// Which ranges come back depends on the time the diffs get; every one of
/// them is non-empty and lies within its side's line.
pub fn ranges_for_modify(reference: &str, current: &str, budget: &InlineBudget) -> (ranges: Vec<InlineRange>)
    ensures
        ranges_within(ranges@, reference@.len(), current@.len()),
        reference@.len() > WORD_LIMIT || current@.len() > WORD_LIMIT ==> ranges@.len() == 0,
        ranges@.len() == 0 || (if reference@.len() <= GRAPHEME_LIMIT && current@.len() <= GRAPHEME_LIMIT {
            from_token_diff(reference@, current@, ranges@) || from_change_diff(
                reference@,
                current@,
                ranges@,
                similar_graphemes(reference@),
                similar_graphemes(current@),
            )
        } else {
            from_change_diff(reference@, current@, ranges@, similar_words(reference@), similar_words(current@))
        }),
{
    if !budget.has_work_budget() {
        return Vec::new();
    }
    let reference_len = reference.unicode_len();
    let current_len = current.unicode_len();
    if reference_len > WORD_LIMIT || current_len > WORD_LIMIT {
        return Vec::new();
    }
    if reference_len <= GRAPHEME_LIMIT && current_len <= GRAPHEME_LIMIT {
        let ranges = token_ranges(reference, current, budget);
        if ranges.len() > 0 {
            return ranges;
        }
        if !budget.has_work_budget() {
            return Vec::new();
        }
        return grapheme_ranges(reference, current, budget);
    }
    let timeout = match budget.effective_timeout(WORD_TIMEOUT_MS) {
        Some(timeout) => timeout,
        None => return Vec::new(),
    };
    proof {
        assert(timeout / 1_000_000_000 <= u64::MAX);
    }
    let (secs, nanos) = split_nanos(timeout);
    let changes = word_changes(reference, current, secs, nanos);
    let ranges = collect_ranges(&changes);
    proof {
        assert(collected_ranges(changes@) == ranges@);
    }
    ranges
}


/// Tokens come in order and never overlap: each token span from position
/// `i` on is non-empty, lies within the line, and ends at or before the
/// start of the next one.
pub proof fn lemma_token_spans_ordered(chars: Seq<char>, i: int)
    requires
        0 <= i,
    ensures
        forall|k: int|
            0 <= k < token_spans_from(chars, i).len() ==> i <= #[trigger] token_spans_from(chars, i)[k].0
                < token_spans_from(chars, i)[k].1 <= chars.len(),
        forall|k: int|
            0 <= k < token_spans_from(chars, i).len() - 1 ==> #[trigger] token_spans_from(chars, i)[k].1
                <= token_spans_from(chars, i)[k + 1].0,
    decreases chars.len() - i,
{
    lemma_token_spans_bounds(chars, i);
    if i < chars.len() {
        if char_is_whitespace(chars[i]) {
            lemma_token_spans_ordered(chars, i + 1);
            assert(token_spans_from(chars, i) == token_spans_from(chars, i + 1));
        } else {
            lemma_word_end_bounds(chars, i + 1);
            let end = token_end(chars, i);
            lemma_token_spans_ordered(chars, end);
            lemma_token_spans_bounds(chars, end);
            let s = token_spans_from(chars, i);
            let rest = token_spans_from(chars, end);
            assert(s == seq![(i, end)] + rest);
            assert forall|k: int| 0 <= k < s.len() - 1 implies #[trigger] s[k].1 <= s[k + 1].0 by {
                assert(s[k + 1] == rest[k]);
                if k > 0 {
                    assert(s[k] == rest[k - 1]);
                }
            }
        }
    }
}

} // verus!
