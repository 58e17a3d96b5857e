//! Text primitives shared by the compare model: line slicing, line endings,
//! trimming, joining and the small string operations the presentation needs.
use similar::DiffableStr;
use vstd::prelude::*;

verus! {

broadcast use vstd::string::group_string_axioms;

// ---------------------------------------------------------------------------
// Line slicing
// ---------------------------------------------------------------------------

/// End (exclusive) of the line that starts at or before `i`, scanning from `i`:
/// a line ends after `\n`, after `\r\n`, after a lone `\r`, or at the end of the text.
pub open spec fn line_end_from(s: Seq<char>, i: int) -> int
    decreases s.len() - i,
{
    if i >= s.len() {
        s.len() as int
    } else if s[i] == '\n' {
        i + 1
    } else if s[i] == '\r' {
        if i + 1 < s.len() && s[i + 1] == '\n' {
            i + 2
        } else {
            i + 1
        }
    } else {
        line_end_from(s, i + 1)
    }
}

pub proof fn lemma_line_end_bounds(s: Seq<char>, i: int)
    requires
        0 <= i < s.len(),
    ensures
        i < line_end_from(s, i) <= s.len(),
    decreases s.len() - i,
{
    if s[i] != '\n' && s[i] != '\r' {
        if i + 1 < s.len() {
            lemma_line_end_bounds(s, i + 1);
        } else {
            assert(line_end_from(s, i + 1) == s.len());
        }
    }
}

/// The lines of a text, each keeping its terminator (`\n`, `\r\n` or a lone `\r`);
/// a last line without terminator is kept too, and an empty text has no line.
pub open spec fn spec_line_slices(s: Seq<char>) -> Seq<Seq<char>>
    decreases s.len(),
{
    if s.len() == 0 {
        Seq::empty()
    } else {
        let k = line_end_from(s, 0);
        proof {
            lemma_line_end_bounds(s, 0);
        }
        seq![s.take(k)] + spec_line_slices(s.skip(k))
    }
}

/// The lines one after the other.
pub open spec fn concat_lines(lines: Seq<Seq<char>>) -> Seq<char>
    decreases lines.len(),
{
    if lines.len() == 0 {
        Seq::empty()
    } else {
        lines[0] + concat_lines(lines.drop_first())
    }
}

/// Line slicing is lossless: the lines, each non-empty, make up the text
/// again, and every line but the last ends with its terminator.
pub proof fn lemma_line_slices_concat(s: Seq<char>)
    ensures
        concat_lines(spec_line_slices(s)) == s,
        forall|k: int| 0 <= k < spec_line_slices(s).len() ==> #[trigger] spec_line_slices(s)[k].len() > 0,
        forall|k: int|
            0 <= k < spec_line_slices(s).len() - 1 ==> {
                let line = #[trigger] spec_line_slices(s)[k];
                line.last() == '\n' || line.last() == '\r'
            },
    decreases s.len(),
{
    if s.len() > 0 {
        lemma_line_end_bounds(s, 0);
        lemma_line_end_terminated(s, 0);
        let k = line_end_from(s, 0);
        let rest = spec_line_slices(s.skip(k));
        lemma_line_slices_concat(s.skip(k));
        let lines = spec_line_slices(s);
        assert(lines == seq![s.take(k)] + rest);
        assert(lines.drop_first() =~= rest);
        assert(s.take(k) + s.skip(k) =~= s);
        assert forall|j: int| 0 <= j < lines.len() implies #[trigger] lines[j].len() > 0 by {
            if j > 0 {
                assert(lines[j] == rest[j - 1]);
            }
        }
        assert forall|j: int| 0 <= j < lines.len() - 1 implies {
            let line = #[trigger] lines[j];
            line.last() == '\n' || line.last() == '\r'
        } by {
            if j > 0 {
                assert(lines[j] == rest[j - 1]);
            } else {
                assert(rest.len() > 0);
            }
        }
    }
}

/// A line that is followed by more text ends with `\n` or `\r`.
proof fn lemma_line_end_terminated(s: Seq<char>, i: int)
    requires
        0 <= i < s.len(),
    ensures
        line_end_from(s, i) < s.len() ==> s[line_end_from(s, i) - 1] == '\n' || s[line_end_from(
            s,
            i,
        ) - 1] == '\r',
        line_end_from(s, i) == s.len() || line_end_from(s, i) < s.len(),
    decreases s.len() - i,
{
    lemma_line_end_bounds(s, i);
    if s[i] != '\n' && s[i] != '\r' && i + 1 < s.len() {
        lemma_line_end_terminated(s, i + 1);
    }
}

/// The views of a sequence of string slices.
pub open spec fn str_views(v: Seq<&str>) -> Seq<Seq<char>> {
    Seq::new(v.len(), |i: int| v[i]@)
}

/// Splits a text into lines with `similar`'s line tokenizer
/// (`DiffableStr::tokenize_lines`), the same slicing its line diff uses.
/// The contract restates that tokenizer: a line ends after `\n`, `\r\n` or a
/// lone `\r`, and a trailing unterminated line is kept.
#[verifier::external_body]
pub fn line_slices(text: &str) -> (lines: Vec<&str>)
    ensures
        str_views(lines@) == spec_line_slices(text@),
{
    text.tokenize_lines()
}

/// Number of lines `line_slices` gives for `text`.
pub fn line_count(text: &str) -> (n: usize)
    ensures
        n == spec_line_slices(text@).len(),
{
    let lines = line_slices(text);
    proof {
        assert(str_views(lines@).len() == lines@.len());
    }
    lines.len()
}

// ---------------------------------------------------------------------------
// Characters and strings
// ---------------------------------------------------------------------------

/// The characters of `s`, in order.
pub fn chars_of(s: &str) -> (chars: Vec<char>)
    ensures
        chars@ == s@,
{
    let mut chars: Vec<char> = Vec::new();
    for c in it: s.chars()
        invariant
            it.seq() == s@,
            chars@ == it.seq().take(it.index()),
    {
        chars.push(c);
    }
    chars
}

/// Whether `c` has the Unicode `White_Space` property, as `char::is_whitespace`
/// decides: the controls U+0009 to U+000D, the space, U+0085, U+00A0, U+1680,
/// U+2000 to U+200A, U+2028, U+2029, U+202F, U+205F and U+3000.
pub open spec fn char_is_whitespace(c: char) -> bool {
    let u = c as u32;
    ||| 0x09 <= u <= 0x0d
    ||| u == 0x20
    ||| u == 0x85
    ||| u == 0xa0
    ||| u == 0x1680
    ||| 0x2000 <= u <= 0x200a
    ||| u == 0x2028
    ||| u == 0x2029
    ||| u == 0x202f
    ||| u == 0x205f
    ||| u == 0x3000
}

/// Calls `char::is_whitespace`, which tests the `White_Space` property (see
/// `char_is_whitespace`).
#[verifier::external_body]
pub fn is_whitespace(c: char) -> (r: bool)
    ensures
        r == char_is_whitespace(c),
{
    c.is_whitespace()
}

/// Whether `c` is alphabetic or numeric, as `char::is_alphanumeric` decides.
pub uninterp spec fn char_is_alphanumeric(c: char) -> bool;

/// Calls `char::is_alphanumeric`; its result is named `char_is_alphanumeric`.
#[verifier::external_body]
pub fn is_alphanumeric(c: char) -> (r: bool)
    ensures
        r == char_is_alphanumeric(c),
{
    c.is_alphanumeric()
}

/// `s` without its leading whitespace.
pub open spec fn spec_trim_start(s: Seq<char>) -> Seq<char>
    decreases s.len(),
{
    if s.len() > 0 && char_is_whitespace(s[0]) {
        spec_trim_start(s.drop_first())
    } else {
        s
    }
}

/// `s` without its trailing whitespace.
pub open spec fn spec_trim_end(s: Seq<char>) -> Seq<char>
    decreases s.len(),
{
    if s.len() > 0 && char_is_whitespace(s.last()) {
        spec_trim_end(s.drop_last())
    } else {
        s
    }
}

/// `s` without leading and trailing whitespace.
pub open spec fn spec_trim(s: Seq<char>) -> Seq<char> {
    spec_trim_end(spec_trim_start(s))
}

/// Trimming leading whitespace leaves nothing, or a first character that is
/// not whitespace.
proof fn lemma_trim_start_shape(s: Seq<char>)
    ensures
        spec_trim_start(s).len() == 0 || !char_is_whitespace(spec_trim_start(s)[0]),
    decreases s.len(),
{
    if s.len() > 0 && char_is_whitespace(s[0]) {
        lemma_trim_start_shape(s.drop_first());
    }
}

/// Trimming trailing whitespace keeps a prefix, and leaves nothing or a last
/// character that is not whitespace.
proof fn lemma_trim_end_shape(s: Seq<char>)
    ensures
        spec_trim_end(s) == s.take(spec_trim_end(s).len() as int),
        spec_trim_end(s).len() <= s.len(),
        spec_trim_end(s).len() == 0 || !char_is_whitespace(spec_trim_end(s).last()),
    decreases s.len(),
{
    if s.len() > 0 && char_is_whitespace(s.last()) {
        lemma_trim_end_shape(s.drop_last());
        let t = spec_trim_end(s.drop_last());
        assert(s.drop_last().take(t.len() as int) =~= s.take(t.len() as int));
    } else {
        assert(s.take(s.len() as int) =~= s);
    }
}

/// Law: a trimmed text starts and ends with a character that is not
/// whitespace (or is empty), and trimming it again changes nothing.
pub proof fn lemma_trim_idempotent(s: Seq<char>)
    ensures
        spec_trim(s).len() == 0 || (!char_is_whitespace(spec_trim(s)[0]) && !char_is_whitespace(
            spec_trim(s).last(),
        )),
        spec_trim(spec_trim(s)) == spec_trim(s),
{
    let start = spec_trim_start(s);
    let t = spec_trim(s);
    lemma_trim_start_shape(s);
    lemma_trim_end_shape(start);
    if t.len() > 0 {
        assert(t[0] == start.take(t.len() as int)[0]);
        assert(t[0] == start[0]);
    }
    assert(spec_trim_start(t) == t);
    assert(spec_trim_end(t) == t);
}

/// Calls `str::trim`, which removes leading and trailing characters that have
/// the `White_Space` property (the property `char::is_whitespace` tests).
#[verifier::external_body]
pub fn trim(s: &str) -> (r: &str)
    ensures
        r@ == spec_trim(s@),
{
    s.trim()
}

/// Whether `suffix` ends `s`.
pub open spec fn has_suffix(s: Seq<char>, suffix: Seq<char>) -> bool {
    suffix.len() <= s.len() && s.skip(s.len() - suffix.len()) == suffix
}

/// `Some` of the part of `s` before `suffix` when `s` ends with it, `None`
/// otherwise.
pub fn strip_suffix<'a>(s: &'a str, suffix: &str) -> (r: Option<&'a str>)
    ensures
        r is Some <==> has_suffix(s@, suffix@),
        r matches Some(p) ==> p@ == s@.take(s@.len() - suffix@.len()),
{
    let n = s.unicode_len();
    let m = suffix.unicode_len();
    if m > n {
        return None;
    }
    let start = n - m;
    let mut i: usize = 0;
    while i < m
        invariant
            n == s@.len(),
            m == suffix@.len(),
            start == n - m,
            i <= m,
            forall|j: int| 0 <= j < i ==> s@[start + j] == suffix@[j],
        decreases m - i,
    {
        if s.get_char(start + i) != suffix.get_char(i) {
            proof {
                assert(s@.skip(start as int)[i as int] == s@[start + i]);
            }
            return None;
        }
        i += 1;
    }
    assert(s@.skip(start as int) =~= suffix@);
    Some(s.substring_char(0, start))
}

/// Calls `String::push`, which appends one character.
#[verifier::external_body]
pub fn push_char(s: &mut String, c: char)
    ensures
        final(s)@ == old(s)@.push(c),
{
    s.push(c);
}

/// The string made of the given characters.
pub fn string_from_chars(chars: &[char]) -> (s: String)
    ensures
        s@ == chars@,
{
    let mut s = String::new();
    let mut i: usize = 0;
    while i < chars.len()
        invariant
            i <= chars@.len(),
            s@ == chars@.take(i as int),
        decreases chars@.len() - i,
    {
        push_char(&mut s, chars[i]);
        i += 1;
        assert(chars@.take(i as int) == chars@.take(i - 1).push(chars@[i - 1]));
    }
    assert(chars@.take(chars@.len() as int) == chars@);
    s
}

/// The elements of `list` separated by `sep`.
pub open spec fn spec_join(list: Seq<Seq<char>>, sep: Seq<char>) -> Seq<char>
    decreases list.len(),
{
    if list.len() == 0 {
        Seq::empty()
    } else if list.len() == 1 {
        list[0]
    } else {
        spec_join(list.drop_last(), sep) + sep + list.last()
    }
}

/// The views of a sequence of strings.
pub open spec fn string_views(v: Seq<String>) -> Seq<Seq<char>> {
    Seq::new(v.len(), |i: int| v[i]@)
}

/// The one-character line separator.
pub open spec fn newline() -> Seq<char> {
    seq!['\n']
}

/// The rows separated by one newline each.
pub fn join_lines(rows: &Vec<String>) -> (r: String)
    ensures
        r@ == spec_join(string_views(rows@), newline()),
{
    proof {
        reveal_strlit("\n");
        assert("\n"@ =~= newline());
    }
    let mut joined = String::new();
    let mut i: usize = 0;
    while i < rows.len()
        invariant
            i <= rows@.len(),
            joined@ == spec_join(string_views(rows@).take(i as int), newline()),
            "\n"@ == newline(),
        decreases rows@.len() - i,
    {
        let ghost before = joined@;
        if i > 0 {
            joined.append("\n");
        }
        joined.append(rows[i].as_str());
        proof {
            let views = string_views(rows@);
            assert(views.take(i + 1).drop_last() =~= views.take(i as int));
            assert(views.take(i + 1).last() == rows@[i as int]@);
            if i == 0 {
                assert(joined@ =~= rows@[0]@);
            }
        }
        i += 1;
    }
    assert(string_views(rows@).take(i as int) =~= string_views(rows@));
    joined
}

/// The decimal digit for `d < 10`.
pub open spec fn digit_char(d: nat) -> char {
    seq!['0', '1', '2', '3', '4', '5', '6', '7', '8', '9'][d as int]
}

/// The decimal representation of `n`, without sign or leading zeros.
pub open spec fn spec_decimal(n: nat) -> Seq<char>
    decreases n,
{
    if n < 10 {
        seq![digit_char(n)]
    } else {
        spec_decimal(n / 10).push(digit_char(n % 10))
    }
}

/// The decimal digit for `d < 10`.
fn digit(d: usize) -> (c: char)
    requires
        d < 10,
    ensures
        c == digit_char(d as nat),
{
    let digits: [char; 10] = ['0', '1', '2', '3', '4', '5', '6', '7', '8', '9'];
    assert(digits@ =~= seq!['0', '1', '2', '3', '4', '5', '6', '7', '8', '9']);
    digits[d]
}

/// The decimal representation of `n`.
pub fn decimal_string(n: usize) -> (r: String)
    ensures
        r@ == spec_decimal(n as nat),
    decreases n,
{
    if n < 10 {
        let mut s = String::new();
        push_char(&mut s, digit(n));
        s
    } else {
        let mut s = decimal_string(n / 10);
        push_char(&mut s, digit(n % 10));
        s
    }
}

/// `s` with every non-overlapping occurrence of `from`, scanned left to right,
/// replaced by `to`.
pub open spec fn spec_replace(s: Seq<char>, from: Seq<char>, to: Seq<char>) -> Seq<char>
    decreases s.len(),
{
    if s.len() == 0 {
        Seq::empty()
    } else if from.len() > 0 && from.len() <= s.len() && s.take(from.len() as int) == from {
        to + spec_replace(s.skip(from.len() as int), from, to)
    } else {
        seq![s[0]] + spec_replace(s.drop_first(), from, to)
    }
}

/// Calls `str::replace`, which replaces all non-overlapping matches of a
/// non-empty pattern, found from left to right.
#[verifier::external_body]
pub fn replace_all(s: &str, from: &str, to: &str) -> (r: String)
    requires
        from@.len() > 0,
    ensures
        r@ == spec_replace(s@, from@, to@),
{
    s.replace(from, to)
}

/// Calls `PartialEq::eq` on two string slices: whether they hold the same characters.
#[verifier::external_body]
pub fn str_eq(a: &str, b: &str) -> (equal: bool)
    ensures
        equal == (a@ == b@),
{
    a == b
}

} // verus!
