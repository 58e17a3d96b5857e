//! Find in files: which directory entries are searched, where a query
//! matches a line (as character offsets, as a text buffer counts them), the
//! matches a file's text gives up to the match limit, and the summary shown
//! when a search ends.
use vstd::prelude::*;
use vstd::string::StringExecFns;

use crate::i18n::{
    format_count, plain_message, plural_message, spec_format_count, translate, Message, MessageView,
};
use crate::text::{chars_of, str_eq, string_from_chars};

verus! {

pub const MAX_VISITED_PATHS: u32 = 25_000;

pub const MAX_MATCHES: u32 = 500;

pub const MAX_FILE_BYTES: u64 = 2 * 1024 * 1024;

// ---------------------------------------------------------------------------
// Offsets
// ---------------------------------------------------------------------------

/// `n`, at most `i32::MAX`.
pub open spec fn clamp_i32(n: int) -> i32 {
    if n > i32::MAX {
        i32::MAX
    } else {
        n as i32
    }
}

/// `a + b` for a non-negative `b`, at most `i32::MAX`.
pub open spec fn sat_add_i32(a: i32, b: i32) -> i32 {
    if a + b > i32::MAX {
        i32::MAX
    } else {
        (a + b) as i32
    }
}

fn clamp_to_i32(n: usize) -> (r: i32)
    ensures
        r == clamp_i32(n as int),
{
    if n > i32::MAX as usize {
        i32::MAX
    } else {
        n as i32
    }
}

fn add_saturating(a: i32, b: i32) -> (r: i32)
    requires
        b >= 0,
    ensures
        r == sat_add_i32(a, b),
{
    if a > i32::MAX - b {
        i32::MAX
    } else {
        a + b
    }
}

/// Number of characters of `text`, at most `i32::MAX`.
pub fn char_count_i32(text: &str) -> (n: i32)
    ensures
        n == clamp_i32(text@.len() as int),
{
    let chars = chars_of(text);
    clamp_to_i32(chars.len())
}

/// The characters a text buffer counts for `line`: a trailing `\n` or
/// `\r\n` counts as one line break.
pub open spec fn spec_line_advance(line: Seq<char>) -> i32 {
    if line.len() > 0 && line.last() == '\n' {
        let without_lf = line.drop_last();
        let without_cr = if without_lf.len() > 0 && without_lf.last() == '\r' {
            without_lf.drop_last()
        } else {
            without_lf
        };
        sat_add_i32(clamp_i32(without_cr.len() as int), 1)
    } else {
        clamp_i32(line.len() as int)
    }
}

pub fn buffer_line_advance(line: &str) -> (advance: i32)
    ensures
        advance == spec_line_advance(line@),
{
    let chars = chars_of(line);
    let n = chars.len();
    if n > 0 && chars[n - 1] == '\n' {
        let without_cr = if n > 1 && chars[n - 2] == '\r' {
            n - 2
        } else {
            n - 1
        };
        proof {
            let without_lf = chars@.drop_last();
            if n > 1 && chars@[n - 2] == '\r' {
                assert(without_lf.drop_last().len() == without_cr);
            }
        }
        return add_saturating(clamp_to_i32(without_cr), 1);
    }
    clamp_to_i32(n)
}

// ---------------------------------------------------------------------------
// Case-sensitive matches
// ---------------------------------------------------------------------------

/// Leftmost non-overlapping occurrences of a non-empty `query` in `line`
/// from position `i` on, as character ranges.
pub open spec fn occurrences_from(line: Seq<char>, query: Seq<char>, i: int) -> Seq<(int, int)>
    decreases line.len() - i,
{
    if query.len() == 0 || i < 0 || i + query.len() > line.len() {
        Seq::empty()
    } else if line.subrange(i, i + query.len()) == query {
        seq![(i, i + query.len())] + occurrences_from(line, query, i + query.len())
    } else {
        occurrences_from(line, query, i + 1)
    }
}

/// Where `query` occurs in `line`: its leftmost non-overlapping occurrences;
/// an empty query matches (emptily) before each character and at the end.
pub open spec fn spec_occurrences(line: Seq<char>, query: Seq<char>) -> Seq<(int, int)> {
    if query.len() == 0 {
        Seq::new(line.len() + 1, |k: int| (k, k))
    } else {
        occurrences_from(line, query, 0)
    }
}

/// A character range as buffer offsets: the start clamped into `i32`, the
/// end that start plus the clamped length.
pub open spec fn buffer_range(range: (int, int)) -> (i32, i32) {
    let start = clamp_i32(range.0);
    (start, sat_add_i32(start, clamp_i32(range.1 - range.0)))
}

pub open spec fn buffer_ranges(ranges: Seq<(int, int)>) -> Seq<(i32, i32)> {
    Seq::new(ranges.len(), |k: int| buffer_range(ranges[k]))
}

/// Whether `query` occurs in `line` at character `i`.
fn occurs_at(line: &Vec<char>, query: &Vec<char>, i: usize) -> (found: bool)
    requires
        i + query@.len() <= line@.len(),
    ensures
        found == (line@.subrange(i as int, i + query@.len()) == query@),
{
    let n = line.len();
    let mut k: usize = 0;
    while k < query.len()
        invariant
            n == line@.len(),
            i + query@.len() <= line@.len(),
            k <= query@.len(),
            forall|j: int| 0 <= j < k ==> line@[i + j] == query@[j],
        decreases query@.len() - k,
    {
        if line[i + k] != query[k] {
            assert(line@.subrange(i as int, i + query@.len())[k as int] != query@[k as int]);
            return false;
        }
        k += 1;
    }
    assert(line@.subrange(i as int, i + query@.len()) =~= query@);
    true
}

/// The matches of `query` in `line`, exactly as written (see `spec_occurrences`),
/// as buffer offsets.
pub fn case_sensitive_ranges(line: &str, query: &str) -> (ranges: Vec<(i32, i32)>)
    ensures
        ranges@ == buffer_ranges(spec_occurrences(line@, query@)),
{
    let l = chars_of(line);
    let q = chars_of(query);
    let mut ranges: Vec<(i32, i32)> = Vec::new();
    if q.len() == 0 {
        let n = l.len();
        let mut k: usize = 0;
        while k < n
            invariant
                l@ == line@,
                n == l@.len(),
                k <= n,
                ranges@ == buffer_ranges(Seq::new(k as nat, |j: int| (j, j))),
            decreases n - k,
        {
            let start = clamp_to_i32(k);
            ranges.push((start, add_saturating(start, 0)));
            proof {
                assert(ranges@ =~= buffer_ranges(Seq::new((k + 1) as nat, |j: int| (j, j))));
            }
            k += 1;
        }
        let start = clamp_to_i32(n);
        ranges.push((start, add_saturating(start, 0)));
        assert(ranges@ =~= buffer_ranges(Seq::new((n + 1) as nat, |j: int| (j, j))));
        return ranges;
    }
    let ghost all = occurrences_from(l@, q@, 0);
    let ghost mut done: Seq<(int, int)> = Seq::empty();
    let n = l.len();
    let m = q.len();
    let mut i: usize = 0;
    while m <= n && i <= n - m
        invariant
            l@ == line@,
            q@ == query@,
            n == l@.len(),
            m == q@.len(),
            q@.len() > 0,
            i <= n,
            all == occurrences_from(l@, q@, 0),
            done + occurrences_from(l@, q@, i as int) == all,
            ranges@ == buffer_ranges(done),
        decreases l@.len() - i,
    {
        if occurs_at(&l, &q, i) {
            let start = clamp_to_i32(i);
            ranges.push((start, add_saturating(start, clamp_to_i32(q.len()))));
            proof {
                let r = (i as int, i + q@.len());
                assert(occurrences_from(l@, q@, i as int) == seq![r] + occurrences_from(l@, q@, i + q@.len()));
                done = done.push(r);
                assert(done + occurrences_from(l@, q@, i + q@.len()) =~= all);
                assert(ranges@ =~= buffer_ranges(done));
            }
            i = i + q.len();
        } else {
            i = i + 1;
        }
    }
    proof {
        assert(i + q@.len() > l@.len());
        assert(occurrences_from(l@, q@, i as int) =~= Seq::<(int, int)>::empty());
        assert(done =~= all);
    }
    ranges
}

// ---------------------------------------------------------------------------
// Case-insensitive matches
// ---------------------------------------------------------------------------

/// The lowercase mapping of `ch` (Unicode's, one or more characters).
pub uninterp spec fn char_lowercase(ch: char) -> Seq<char>;

/// Calls `char::to_lowercase` and collects the characters it yields.
#[verifier::external_body]
fn lowercase(ch: char) -> (lower: Vec<char>)
    ensures
        lower@ == char_lowercase(ch),
{
    ch.to_lowercase().collect()
}

/// The characters of `text` lowercased one by one.
pub open spec fn spec_folded(text: Seq<char>) -> Seq<char>
    decreases text.len(),
{
    if text.len() == 0 {
        Seq::empty()
    } else {
        spec_folded(text.drop_last()) + char_lowercase(text.last())
    }
}

/// `text` lowercased character by character, as queries are compared.
pub fn folded_chars(text: &str) -> (folded: Vec<char>)
    ensures
        folded@ == spec_folded(text@),
{
    let chars = chars_of(text);
    let mut folded: Vec<char> = Vec::new();
    let mut i: usize = 0;
    while i < chars.len()
        invariant
            chars@ == text@,
            i <= chars@.len(),
            folded@ == spec_folded(chars@.take(i as int)),
        decreases chars@.len() - i,
    {
        proof {
            assert(chars@.take(i + 1).drop_last() =~= chars@.take(i as int));
        }
        let lower = lowercase(chars[i]);
        let mut k: usize = 0;
        let ghost before = folded@;
        while k < lower.len()
            invariant
                k <= lower@.len(),
                folded@ == before + lower@.take(k as int),
            decreases lower@.len() - k,
        {
            folded.push(lower[k]);
            k += 1;
            assert(folded@ =~= before + lower@.take(k as int));
        }
        assert(lower@.take(k as int) =~= lower@);
        i += 1;
    }
    assert(chars@.take(i as int) =~= chars@);
    folded
}

/// Matching a folded `query` from its position `qi` against `chars` from
/// position `j`: each character's lowercase form must continue the query;
/// the match ends after the character that completes it.
pub open spec fn fold_step(chars: Seq<char>, j: int, query: Seq<char>, qi: int) -> Option<int>
    decreases chars.len() - j,
{
    if j < 0 || j >= chars.len() || qi < 0 {
        None
    } else {
        let lower = char_lowercase(chars[j]);
        if qi + lower.len() <= query.len() && query.subrange(qi, qi + lower.len()) == lower {
            if qi + lower.len() == query.len() {
                Some(j + 1)
            } else {
                fold_step(chars, j + 1, query, qi + lower.len())
            }
        } else {
            None
        }
    }
}

pub proof fn lemma_fold_step_ends_after(chars: Seq<char>, j: int, query: Seq<char>, qi: int)
    ensures
        fold_step(chars, j, query, qi) matches Some(end) ==> j < end <= chars.len(),
    decreases chars.len() - j,
{
    if 0 <= j < chars.len() && qi >= 0 {
        let lower = char_lowercase(chars[j]);
        if qi + lower.len() <= query.len() && query.subrange(qi, qi + lower.len()) == lower
            && qi + lower.len() != query.len() {
            lemma_fold_step_ends_after(chars, j + 1, query, qi + lower.len());
        }
    }
}

/// Where a case-folded match of a non-empty `query` starting at `start` ends.
pub open spec fn spec_fold_match(chars: Seq<char>, start: int, query: Seq<char>) -> Option<int> {
    if query.len() == 0 {
        None
    } else {
        fold_step(chars, start, query, 0)
    }
}

/// The end (in characters) of a case-folded match of `query` at `start`.
pub fn folded_match_end(chars: &Vec<char>, start: usize, query: &[char]) -> (end: Option<usize>)
    ensures
        match end {
            Some(e) => spec_fold_match(chars@, start as int, query@) == Some(e as int),
            None => spec_fold_match(chars@, start as int, query@) is None,
        },
{
    let qlen = query.len();
    if qlen == 0 {
        return None;
    }
    let mut qi: usize = 0;
    let mut j = start;
    while j < chars.len()
        invariant
            qlen == query@.len(),
            qi < query@.len(),
            spec_fold_match(chars@, start as int, query@) == fold_step(chars@, j as int, query@, qi as int),
        decreases chars@.len() - j,
    {
        let lower = lowercase(chars[j]);
        if lower.len() > query.len() - qi {
            return None;
        }
        let mut k: usize = 0;
        while k < lower.len()
            invariant
                qlen == query@.len(),
                qi < query@.len(),
                j < chars@.len(),
                lower@ == char_lowercase(chars@[j as int]),
                qi + lower@.len() <= query@.len(),
                spec_fold_match(chars@, start as int, query@) == fold_step(chars@, j as int, query@, qi as int),
                k <= lower@.len(),
                forall|t: int| 0 <= t < k ==> query@[qi + t] == lower@[t],
            decreases lower@.len() - k,
        {
            if query[qi + k] != lower[k] {
                assert(query@.subrange(qi as int, qi + lower@.len())[k as int] != lower@[k as int]);
                return None;
            }
            k += 1;
        }
        assert(query@.subrange(qi as int, qi + lower@.len()) =~= lower@);
        qi = qi + lower.len();
        if qi == query.len() {
            return Some(j + 1);
        }
        j += 1;
    }
    None
}

/// Case-folded matches of `query` in `chars` from position `p` on: at each
/// position a match, after which the search goes on at its end, or the next
/// position.
pub open spec fn folded_from(chars: Seq<char>, query: Seq<char>, p: int) -> Seq<(int, int)>
    decreases chars.len() - p,
{
    if p < 0 || p >= chars.len() {
        Seq::empty()
    } else {
        match spec_fold_match(chars, p, query) {
            Some(end) => {
                proof {
                    lemma_fold_step_ends_after(chars, p, query, 0);
                }
                if p < end <= chars.len() {
                    seq![(p, end)] + folded_from(chars, query, end)
                } else {
                    Seq::empty()
                }
            },
            None => folded_from(chars, query, p + 1),
        }
    }
}

/// The case-insensitive matches of the folded `query` in `line` (see
/// `folded_from`), as buffer offsets.
pub fn folded_ranges(line: &str, query: &[char]) -> (ranges: Vec<(i32, i32)>)
    ensures
        ranges@ == buffer_ranges(folded_from(line@, query@, 0)),
{
    let chars = chars_of(line);
    let ghost all = folded_from(chars@, query@, 0);
    let ghost mut done: Seq<(int, int)> = Seq::empty();
    let mut ranges: Vec<(i32, i32)> = Vec::new();
    let mut p: usize = 0;
    while p < chars.len()
        invariant
            chars@ == line@,
            all == folded_from(chars@, query@, 0),
            p <= chars@.len(),
            done + folded_from(chars@, query@, p as int) == all,
            ranges@ == buffer_ranges(done),
        decreases chars@.len() - p,
    {
        proof {
            lemma_fold_step_ends_after(chars@, p as int, query@, 0);
        }
        match folded_match_end(&chars, p, query) {
            Some(end) => {
                let start = clamp_to_i32(p);
                ranges.push((start, add_saturating(start, clamp_to_i32(end - p))));
                proof {
                    let r = (p as int, end as int);
                    done = done.push(r);
                    assert(done + folded_from(chars@, query@, end as int) =~= all);
                    assert(ranges@ =~= buffer_ranges(done));
                }
                p = end;
            },
            None => {
                p = p + 1;
            },
        }
    }
    proof {
        assert(done =~= all);
    }
    ranges
}

/// Case-folded matches never overlap: each starts at or after the end of the one before.
pub proof fn lemma_folded_matches_do_not_overlap(chars: Seq<char>, query: Seq<char>, p: int)
    requires
        0 <= p,
    ensures
        forall|k: int|
            0 <= k < folded_from(chars, query, p).len() ==> p <= #[trigger] folded_from(chars, query, p)[k].0
                < folded_from(chars, query, p)[k].1,
        forall|k: int|
            0 <= k < folded_from(chars, query, p).len() - 1 ==> #[trigger] folded_from(chars, query, p)[k].1
                <= folded_from(chars, query, p)[k + 1].0,
    decreases chars.len() - p,
{
    let s = folded_from(chars, query, p);
    if p < chars.len() {
        lemma_fold_step_ends_after(chars, p, query, 0);
        match spec_fold_match(chars, p, query) {
            Some(end) => {
                lemma_folded_matches_do_not_overlap(chars, query, end);
                let rest = folded_from(chars, query, end);
                assert(s == seq![(p, end)] + rest);
                assert forall|k: int| 0 <= k < s.len() implies p <= #[trigger] s[k].0 < s[k].1 by {
                    if k > 0 {
                        assert(s[k] == rest[k - 1]);
                    }
                }
                assert forall|k: int| 0 <= k < s.len() - 1 implies #[trigger] s[k].1 <= s[k + 1].0 by {
                    assert(s[k + 1] == rest[k]);
                    if k > 0 {
                        assert(s[k] == rest[k - 1]);
                    }
                }
            },
            None => {
                lemma_folded_matches_do_not_overlap(chars, query, p + 1);
                assert(s == folded_from(chars, query, p + 1));
            },
        }
    }
}

// ---------------------------------------------------------------------------
// Which entries are searched
// ---------------------------------------------------------------------------

/// Directories never searched: version control, build output, dependencies.
pub open spec fn skipped_dir_names() -> Seq<Seq<char>> {
    seq![
        ".git"@, "target"@, "build"@, "build-dir"@, "node_modules"@, "vendor"@, "dist"@,
        ".flatpak-builder"@, "__pycache__"@, ".venv"@,
    ]
}

pub fn always_skipped_dir(name: &str) -> (skipped: bool)
    ensures
        skipped == skipped_dir_names().contains(name@),
{
    let names = [
        ".git",
        "target",
        "build",
        "build-dir",
        "node_modules",
        "vendor",
        "dist",
        ".flatpak-builder",
        "__pycache__",
        ".venv",
    ];
    proof {
        assert(names@.len() == 10);
    }
    let mut i: usize = 0;
    while i < 10
        invariant
            i <= 10,
            names@.len() == 10,
            forall|k: int| 0 <= k < 10 ==> #[trigger] names@[k]@ == skipped_dir_names()[k],
            forall|k: int| 0 <= k < i ==> names@[k]@ != name@,
        decreases 10 - i,
    {
        if str_eq(names[i], name) {
            assert(skipped_dir_names()[i as int] == name@);
            return true;
        }
        i += 1;
    }
    proof {
        if skipped_dir_names().contains(name@) {
            let k = choose|k: int| 0 <= k < 10 && skipped_dir_names()[k] == name@;
            assert(names@[k]@ == name@);
        }
    }
    false
}

/// Whether `s` starts with `prefix`.
fn has_prefix(s: &str, prefix: &str) -> (b: bool)
    ensures
        b == (prefix@.len() <= s@.len() && s@.take(prefix@.len() as int) == prefix@),
{
    let a = chars_of(s);
    let p = chars_of(prefix);
    if p.len() > a.len() {
        return false;
    }
    let mut i: usize = 0;
    while i < p.len()
        invariant
            a@ == s@,
            p@ == prefix@,
            p@.len() <= a@.len(),
            i <= p@.len(),
            forall|k: int| 0 <= k < i ==> a@[k] == p@[k],
        decreases p@.len() - i,
    {
        if a[i] != p[i] {
            assert(a@.take(p@.len() as int)[i as int] != p@[i as int]);
            return false;
        }
        i += 1;
    }
    assert(a@.take(p@.len() as int) =~= p@);
    true
}

/// Whether an entry is skipped: an always-skipped directory, or a hidden
/// entry (name starting with `.`) unless hidden entries are shown.
pub fn should_skip_entry(name: &str, is_directory: bool, show_hidden: bool) -> (skip: bool)
    ensures
        skip == ((is_directory && skipped_dir_names().contains(name@)) || (!show_hidden
            && name@.len() > 0 && name@[0] == '.')),
{
    proof {
        reveal_strlit(".");
        assert("."@ =~= seq!['.']);
    }
    let hidden = has_prefix(name, ".");
    proof {
        assert("."@ =~= seq!['.']);
        if hidden {
            assert(name@.take(1)[0] == "."@[0]);
        }
        if name@.len() > 0 && name@[0] == '.' {
            assert(name@.take(1) =~= "."@);
        }
    }
    (is_directory && always_skipped_dir(name)) || (!show_hidden && hidden)
}

/// Content types that are clearly not text: images, audio, video, fonts and
/// a few archive, document and binary types.
pub open spec fn spec_clearly_non_text(content_type: Seq<char>) -> bool {
    ||| (content_type.len() >= 6 && content_type.take(6) == "image/"@)
    ||| (content_type.len() >= 6 && content_type.take(6) == "audio/"@)
    ||| (content_type.len() >= 6 && content_type.take(6) == "video/"@)
    ||| (content_type.len() >= 5 && content_type.take(5) == "font/"@)
    ||| non_text_types().contains(content_type)
}

/// Archive, document and binary content types that are never searched.
pub open spec fn non_text_types() -> Seq<Seq<char>> {
    seq![
        "application/pdf"@, "application/zip"@, "application/gzip"@, "application/x-tar"@,
        "application/x-7z-compressed"@, "application/x-executable"@, "application/octet-stream"@,
    ]
}

/// A content type of images, audio, video or fonts.
pub open spec fn is_media_type(t: Seq<char>) -> bool {
    ||| (t.len() >= 6 && t.take(6) == "image/"@)
    ||| (t.len() >= 6 && t.take(6) == "audio/"@)
    ||| (t.len() >= 6 && t.take(6) == "video/"@)
    ||| (t.len() >= 5 && t.take(5) == "font/"@)
}

/// Law: only media types and seven archive, document and binary types are
/// clearly not text, so every other content type (XML, JSON, scripts, ...)
/// is searched; and no `text/` type is ever skipped as non-text.
pub proof fn lemma_text_types_are_searched(t: Seq<char>)
    ensures
        spec_clearly_non_text(t) ==> is_media_type(t) || t == "application/pdf"@ || t == "application/zip"@
            || t == "application/gzip"@ || t == "application/x-tar"@ || t == "application/x-7z-compressed"@
            || t == "application/x-executable"@ || t == "application/octet-stream"@,
        t.len() >= 5 && t.take(5) == "text/"@ ==> !spec_clearly_non_text(t),
{
    if non_text_types().contains(t) {
        let k = choose|k: int| 0 <= k < non_text_types().len() && non_text_types()[k] == t;
        assert(non_text_types()[k] == t);
    }
    if t.len() >= 5 && t.take(5) == "text/"@ {
        reveal_strlit("text/");
        reveal_strlit("image/");
        reveal_strlit("audio/");
        reveal_strlit("video/");
        reveal_strlit("font/");
        reveal_strlit("application/pdf");
        reveal_strlit("application/zip");
        reveal_strlit("application/gzip");
        reveal_strlit("application/x-tar");
        reveal_strlit("application/x-7z-compressed");
        reveal_strlit("application/x-executable");
        reveal_strlit("application/octet-stream");
        assert(t[0] == 't') by {
            assert(t.take(5)[0] == t[0]);
            assert("text/"@[0] == 't');
        }
        assert(t.len() >= 6 ==> t.take(6)[0] == t[0]);
        assert("image/"@[0] == 'i' && "audio/"@[0] == 'a' && "video/"@[0] == 'v' && "font/"@[0] == 'f');
        assert(t.len() >= 6 && t.take(6) == "image/"@ ==> t.take(6)[0] == 'i');
        assert(t.len() >= 6 && t.take(6) == "audio/"@ ==> t.take(6)[0] == 'a');
        assert(t.len() >= 6 && t.take(6) == "video/"@ ==> t.take(6)[0] == 'v');
        assert(t.take(5) == "font/"@ ==> t.take(5)[0] == 'f');
        assert(!is_media_type(t));
        assert(!non_text_types().contains(t)) by {
            if non_text_types().contains(t) {
                let k = choose|k: int| 0 <= k < non_text_types().len() && non_text_types()[k] == t;
                assert(non_text_types()[k][0] == 'a');
            }
        }
    }
}

/// Whether a content type is clearly not text (see `spec_clearly_non_text`
/// and `lemma_text_types_are_searched`).
pub fn clearly_non_text(content_type: &str) -> (non_text: bool)
    ensures
        non_text == spec_clearly_non_text(content_type@),
        non_text ==> is_media_type(content_type@) || content_type@ == "application/pdf"@ || content_type@
            == "application/zip"@ || content_type@ == "application/gzip"@ || content_type@ == "application/x-tar"@
            || content_type@ == "application/x-7z-compressed"@ || content_type@ == "application/x-executable"@
            || content_type@ == "application/octet-stream"@,
        content_type@.len() >= 5 && content_type@.take(5) == "text/"@ ==> !non_text,
{
    proof {
        lemma_text_types_are_searched(content_type@);
    }
    proof {
        reveal_strlit("image/");
        reveal_strlit("audio/");
        reveal_strlit("video/");
        reveal_strlit("font/");
        assert("image/"@.len() == 6);
        assert("audio/"@.len() == 6);
        assert("video/"@.len() == 6);
        assert("font/"@.len() == 5);
    }
    if has_prefix(content_type, "image/") || has_prefix(content_type, "audio/") || has_prefix(
        content_type,
        "video/",
    ) || has_prefix(content_type, "font/") {
        return true;
    }
    let names = [
        "application/pdf",
        "application/zip",
        "application/gzip",
        "application/x-tar",
        "application/x-7z-compressed",
        "application/x-executable",
        "application/octet-stream",
    ];
    let ghost listed = non_text_types();
    proof {
        assert(names@.len() == 7);
    }
    let mut i: usize = 0;
    while i < 7
        invariant
            i <= 7,
            names@.len() == 7,
            listed == non_text_types(),
            listed.len() == 7,
            forall|k: int| 0 <= k < 7 ==> #[trigger] names@[k]@ == listed[k],
            forall|k: int| 0 <= k < i ==> names@[k]@ != content_type@,
            content_type@.len() >= 5 && content_type@.take(5) == "text/"@ ==> !spec_clearly_non_text(
                content_type@,
            ),
        decreases 7 - i,
    {
        if str_eq(names[i], content_type) {
            assert(listed[i as int] == content_type@);
            return true;
        }
        i += 1;
    }
    proof {
        if listed.contains(content_type@) {
            let k = choose|k: int| 0 <= k < 7 && listed[k] == content_type@;
            assert(names@[k]@ == content_type@);
        }
    }
    false
}

// ---------------------------------------------------------------------------
// Summary
// ---------------------------------------------------------------------------

/// What a search visited, searched, found and skipped, and whether it hit a limit.
#[derive(Clone, Copy, Debug, Default, PartialEq, Eq, Structural)]
pub struct ScanSummary {
    pub visited: u32,
    pub files_searched: u32,
    pub matches: u32,
    pub skipped: u32,
    pub limited: bool,
}

impl ScanSummary {
    /// Whether the search visited as many paths as it may.
    pub fn visited_limit_reached(&self) -> (reached: bool)
        ensures
            reached == (self.visited >= MAX_VISITED_PATHS),
    {
        self.visited >= MAX_VISITED_PATHS
    }
}

/// The first part of a search's summary line: with matches, "N results in
/// M files", each count in its translated template.
pub open spec fn summary_head(summary: ScanSummary, head: Seq<char>) -> bool {
    summary.matches > 0 ==> exists|results: Seq<char>, files: Seq<char>|
        #![trigger spec_format_count(results, summary.matches as nat), spec_format_count(files, summary.files_searched as nat)]
        head == spec_format_count(results, summary.matches as nat) + seq![' '] + spec_format_count(
            files,
            summary.files_searched as nat,
        )
}

/// A search's summary line: its first part, then, each after a space, the
/// note that results were limited and the count of skipped files in its
/// translated template.
pub open spec fn summary_line(summary: ScanSummary, head: Seq<char>, note: Seq<char>, skipped: Seq<char>) -> Seq<char> {
    head + (if summary.limited {
        seq![' '] + note
    } else {
        Seq::empty()
    }) + (if summary.skipped > 0 {
        seq![' '] + spec_format_count(skipped, summary.skipped as nat)
    } else {
        Seq::empty()
    })
}

/// A part of a search's summary line that is translated.
#[derive(Clone, Copy, Debug, PartialEq, Eq, Structural)]
pub enum SummaryPart {
    NoMatches,
    Results,
    Files,
    Limited,
    Skipped,
}

/// The message of a summary part: "No matches", "N results", "in M files",
/// the note that results were limited, and "N files skipped."; the counted
/// parts have their form selected by `count`.
pub open spec fn spec_summary_message(part: SummaryPart, count: u32) -> MessageView {
    match part {
        SummaryPart::NoMatches => plain_message("No matches"@),
        SummaryPart::Results => plural_message(None, "%d result"@, "%d results"@, count),
        SummaryPart::Files => plural_message(None, "in %d file"@, "in %d files"@, count),
        SummaryPart::Limited => plain_message("Results limited; refine the search."@),
        SummaryPart::Skipped => plural_message(None, "%d file skipped."@, "%d files skipped."@, count),
    }
}

/// The message of a summary part (see `spec_summary_message`).
pub fn summary_message(part: SummaryPart, count: u32) -> (message: Message)
    ensures
        message.wf(),
        message@ == spec_summary_message(part, count),
{
    proof {
        reveal_strlit("No matches");
        reveal_strlit("%d result");
        reveal_strlit("%d results");
        reveal_strlit("in %d file");
        reveal_strlit("in %d files");
        reveal_strlit("Results limited; refine the search.");
        reveal_strlit("%d file skipped.");
        reveal_strlit("%d files skipped.");
    }
    match part {
        SummaryPart::NoMatches => Message { context: None, msgid: "No matches", plural: None, count: 0 },
        SummaryPart::Results => Message { context: None, msgid: "%d result", plural: Some("%d results"), count },
        SummaryPart::Files => Message { context: None, msgid: "in %d file", plural: Some("in %d files"), count },
        SummaryPart::Limited => Message {
            context: None,
            msgid: "Results limited; refine the search.",
            plural: None,
            count: 0,
        },
        SummaryPart::Skipped => Message {
            context: None,
            msgid: "%d file skipped.",
            plural: Some("%d files skipped."),
            count,
        },
    }
}

/// The summary line of a search (see `summary_line`): "No matches" or "N
/// results in M files", then a note when results were limited and the
/// skipped files, each part the translation of its `summary_message`. Its
/// words depend on the locale; the counts are filled in by `format_count`.
pub fn format_summary(summary: &ScanSummary) -> (text: String)
    ensures
        exists|head: Seq<char>, note: Seq<char>, skipped: Seq<char>|
            #[trigger] summary_line(*summary, head, note, skipped) == text@ && summary_head(*summary, head),
{
    proof {
        reveal_strlit(" ");
    }
    let mut label = if summary.matches == 0 {
        translate(&summary_message(SummaryPart::NoMatches, 0))
    } else {
        let results_template = translate(&summary_message(SummaryPart::Results, summary.matches));
        let results = format_count(results_template.as_str(), summary.matches as usize);
        let files_template = translate(&summary_message(SummaryPart::Files, summary.files_searched));
        let files = format_count(files_template.as_str(), summary.files_searched as usize);
        let head = results.concat(" ").concat(files.as_str());
        assert(head@ == spec_format_count(results_template@, summary.matches as nat) + seq![' ']
            + spec_format_count(files_template@, summary.files_searched as nat));
        head
    };
    let ghost head = label@;
    let ghost mut note: Seq<char> = Seq::empty();
    let ghost mut skipped_template: Seq<char> = Seq::empty();
    if summary.limited {
        let limit_note = translate(&summary_message(SummaryPart::Limited, 0));
        label = label.concat(" ").concat(limit_note.as_str());
        proof {
            note = limit_note@;
        }
    }
    let ghost middle = label@;
    if summary.skipped > 0 {
        let template = translate(&summary_message(SummaryPart::Skipped, summary.skipped));
        let skipped = format_count(template.as_str(), summary.skipped as usize);
        label = label.concat(" ").concat(skipped.as_str());
        proof {
            skipped_template = template@;
        }
    }
    proof {
        assert(middle == head + (if summary.limited {
            seq![' '] + note
        } else {
            Seq::empty()
        }));
        assert(summary_line(*summary, head, note, skipped_template) =~= label@);
    }
    label
}

/// Case-sensitive matches of a non-empty query never overlap: each is an
/// occurrence of the query and starts at or after the end of the one before.
pub proof fn lemma_occurrences_do_not_overlap(line: Seq<char>, query: Seq<char>, i: int)
    requires
        0 <= i,
        query.len() > 0,
    ensures
        forall|k: int|
            0 <= k < occurrences_from(line, query, i).len() ==> {
                let r = #[trigger] occurrences_from(line, query, i)[k];
                &&& i <= r.0 && r.1 == r.0 + query.len() && r.1 <= line.len()
                &&& line.subrange(r.0, r.1) == query
            },
        forall|k: int|
            0 <= k < occurrences_from(line, query, i).len() - 1 ==> #[trigger] occurrences_from(line, query, i)[k].1
                <= occurrences_from(line, query, i)[k + 1].0,
    decreases line.len() - i,
{
    let s = occurrences_from(line, query, i);
    if i + query.len() <= line.len() {
        if line.subrange(i, i + query.len()) == query {
            lemma_occurrences_do_not_overlap(line, query, i + query.len());
            let rest = occurrences_from(line, query, i + query.len());
            assert(s == seq![(i, i + query.len())] + rest);
            assert forall|k: int| 0 <= k < s.len() implies {
                let r = #[trigger] s[k];
                &&& i <= r.0 && r.1 == r.0 + query.len() && r.1 <= line.len()
                &&& line.subrange(r.0, r.1) == query
            } by {
                if k > 0 {
                    assert(s[k] == rest[k - 1]);
                }
            }
            assert forall|k: int| 0 <= k < s.len() - 1 implies #[trigger] s[k].1 <= s[k + 1].0 by {
                assert(s[k + 1] == rest[k]);
                if k > 0 {
                    assert(s[k] == rest[k - 1]);
                }
            }
        } else {
            lemma_occurrences_do_not_overlap(line, query, i + 1);
            assert(s == occurrences_from(line, query, i + 1));
        }
    } else {
        assert(s.len() == 0);
    }
}

// ---------------------------------------------------------------------------
// Matches in a file
// ---------------------------------------------------------------------------

/// `a + b`, saturating at the bounds of `i32`.
pub open spec fn i32_saturating_add(a: i32, b: i32) -> i32 {
    if a + b > i32::MAX {
        i32::MAX
    } else if a + b < i32::MIN {
        i32::MIN
    } else {
        (a + b) as i32
    }
}

fn saturating_add_i32(a: i32, b: i32) -> (sum: i32)
    ensures
        sum == i32_saturating_add(a, b),
{
    let wide: i64 = a as i64 + b as i64;
    if wide > i32::MAX as i64 {
        i32::MAX
    } else if wide < i32::MIN as i64 {
        i32::MIN
    } else {
        wide as i32
    }
}

/// End (exclusive) of the line going on from `i`: just after the first `\n`
/// at or after `i`, or the end of the text.
pub open spec fn lf_line_end(s: Seq<char>, i: int) -> int
    decreases s.len() - i,
{
    if i >= s.len() {
        s.len() as int
    } else if s[i] == '\n' {
        i + 1
    } else {
        lf_line_end(s, i + 1)
    }
}

pub proof fn lemma_lf_line_end_bounds(s: Seq<char>, i: int)
    requires
        0 <= i < s.len(),
    ensures
        i < lf_line_end(s, i) <= s.len(),
    decreases s.len() - i,
{
    if s[i] != '\n' {
        if i + 1 < s.len() {
            lemma_lf_line_end_bounds(s, i + 1);
        } else {
            assert(lf_line_end(s, i + 1) == s.len());
        }
    }
}

proof fn lemma_lf_line_end_skip(s: Seq<char>, p: int, j: int)
    requires
        0 <= p <= s.len(),
        0 <= j,
    ensures
        lf_line_end(s.skip(p), j) == if p + j >= s.len() {
            s.len() - p
        } else {
            lf_line_end(s, p + j) - p
        },
    decreases s.len() - p - j,
{
    if p + j < s.len() {
        assert(s.skip(p)[j] == s[p + j]);
        if s[p + j] != '\n' {
            lemma_lf_line_end_skip(s, p, j + 1);
        }
    }
}

/// The lines of a text as `str::split_inclusive('\n')` gives them: each
/// keeps its `\n`, and a last line without one is kept too.
pub open spec fn lf_lines(s: Seq<char>) -> Seq<Seq<char>>
    decreases s.len(),
{
    if s.len() == 0 {
        Seq::empty()
    } else {
        let k = lf_line_end(s, 0);
        proof {
            lemma_lf_line_end_bounds(s, 0);
        }
        seq![s.take(k)] + lf_lines(s.skip(k))
    }
}

/// A line without the `\r` and `\n` characters at its end.
pub open spec fn trim_line_breaks(s: Seq<char>) -> Seq<char>
    decreases s.len(),
{
    if s.len() > 0 && (s.last() == '\r' || s.last() == '\n') {
        trim_line_breaks(s.drop_last())
    } else {
        s
    }
}

/// The buffer offset where the line after `lines` starts: their advances
/// (see `spec_line_advance`) added up, saturating.
pub open spec fn lines_offset(lines: Seq<Seq<char>>) -> i32
    decreases lines.len(),
{
    if lines.len() == 0 {
        0
    } else {
        i32_saturating_add(lines_offset(lines.drop_last()), spec_line_advance(lines.last()))
    }
}

/// The matches of a search in one line: case-sensitive occurrences of the
/// query, or case-folded matches of the folded query.
pub open spec fn spec_match_ranges(line: Seq<char>, query: Seq<char>, query_folded: Seq<char>, match_case: bool) -> Seq<
    (i32, i32),
> {
    if match_case {
        buffer_ranges(spec_occurrences(line, query))
    } else {
        buffer_ranges(folded_from(line, query_folded, 0))
    }
}

/// The matches of a search in one line (see `spec_match_ranges`).
pub fn match_ranges(line: &str, query: &str, query_folded: &[char], match_case: bool) -> (ranges: Vec<(i32, i32)>)
    ensures
        ranges@ == spec_match_ranges(line@, query@, query_folded@, match_case),
{
    if match_case {
        return case_sensitive_ranges(line, query);
    }
    folded_ranges(line, query_folded)
}

/// The 1-based number of the line at `index`, at most `u32::MAX`.
pub open spec fn line_number_of(index: int) -> u32 {
    if index + 1 <= u32::MAX {
        (index + 1) as u32
    } else {
        u32::MAX
    }
}

/// A match of a search in a file: its 1-based line number, the line's text
/// without its line break, and the match's character offsets in the file.
#[derive(Clone, Debug, PartialEq, Eq)]
pub struct LineMatch {
    pub line_number: u32,
    pub line_text: String,
    pub start_offset: i32,
    pub end_offset: i32,
}

impl View for LineMatch {
    type V = (u32, Seq<char>, i32, i32);

    open spec fn view(&self) -> (u32, Seq<char>, i32, i32) {
        (self.line_number, self.line_text@, self.start_offset, self.end_offset)
    }
}

/// The views of a sequence of matches.
pub open spec fn match_views(found: Seq<LineMatch>) -> Seq<(u32, Seq<char>, i32, i32)> {
    Seq::new(found.len(), |k: int| found[k]@)
}

/// The matches in line `line`, at `index` and starting at buffer offset `offset`.
pub open spec fn line_matches(
    line: Seq<char>,
    index: int,
    offset: i32,
    query: Seq<char>,
    query_folded: Seq<char>,
    match_case: bool,
) -> Seq<(u32, Seq<char>, i32, i32)> {
    let visible = trim_line_breaks(line);
    let ranges = spec_match_ranges(visible, query, query_folded, match_case);
    Seq::new(
        ranges.len(),
        |k: int|
            (
                line_number_of(index),
                visible,
                i32_saturating_add(offset, ranges[k].0),
                i32_saturating_add(offset, ranges[k].1),
            ),
    )
}

/// The matches in `lines`, line after line.
pub open spec fn lines_matches(lines: Seq<Seq<char>>, query: Seq<char>, query_folded: Seq<char>, match_case: bool) -> Seq<
    (u32, Seq<char>, i32, i32),
>
    decreases lines.len(),
{
    if lines.len() == 0 {
        Seq::empty()
    } else {
        lines_matches(lines.drop_last(), query, query_folded, match_case) + line_matches(
            lines.last(),
            lines.len() - 1,
            lines_offset(lines.drop_last()),
            query,
            query_folded,
            match_case,
        )
    }
}

proof fn lemma_lines_matches_prefix(
    lines: Seq<Seq<char>>,
    i: int,
    query: Seq<char>,
    query_folded: Seq<char>,
    match_case: bool,
)
    requires
        0 <= i <= lines.len(),
    ensures
        lines_matches(lines.take(i), query, query_folded, match_case).len() <= lines_matches(
            lines,
            query,
            query_folded,
            match_case,
        ).len(),
        forall|k: int|
            0 <= k < lines_matches(lines.take(i), query, query_folded, match_case).len() ==> #[trigger] lines_matches(
                lines.take(i),
                query,
                query_folded,
                match_case,
            )[k] == lines_matches(lines, query, query_folded, match_case)[k],
    decreases lines.len() - i,
{
    if i < lines.len() {
        lemma_lines_matches_prefix(lines, i + 1, query, query_folded, match_case);
        let t = lines.take(i + 1);
        assert(t.drop_last() =~= lines.take(i));
        let a = lines_matches(lines.take(i), query, query_folded, match_case);
        let b = lines_matches(t, query, query_folded, match_case);
        assert(b == a + line_matches(t.last(), i, lines_offset(t.drop_last()), query, query_folded, match_case));
        assert forall|k: int| 0 <= k < a.len() implies #[trigger] a[k] == lines_matches(
            lines,
            query,
            query_folded,
            match_case,
        )[k] by {
            assert(a[k] == b[k]);
        }
    } else {
        assert(lines.take(i) =~= lines);
    }
}

/// The end of the line going on from `pos` (see `lf_line_end`).
fn lf_end(chars: &Vec<char>, pos: usize) -> (end: usize)
    requires
        pos < chars@.len(),
    ensures
        end == lf_line_end(chars@, pos as int),
        pos < end <= chars@.len(),
{
    proof {
        lemma_lf_line_end_bounds(chars@, pos as int);
    }
    let mut i = pos;
    while i < chars.len() && chars[i] != '\n'
        invariant
            pos <= i <= chars@.len(),
            lf_line_end(chars@, pos as int) == lf_line_end(chars@, i as int),
        decreases chars@.len() - i,
    {
        i += 1;
    }
    if i < chars.len() {
        i + 1
    } else {
        i
    }
}

/// The end of the text of the line `start..end` without its trailing line breaks.
fn trimmed_end(chars: &Vec<char>, start: usize, end: usize) -> (visible_end: usize)
    requires
        start <= end <= chars@.len(),
    ensures
        start <= visible_end <= end,
        chars@.subrange(start as int, visible_end as int) == trim_line_breaks(
            chars@.subrange(start as int, end as int),
        ),
{
    let mut e = end;
    while e > start && (chars[e - 1] == '\r' || chars[e - 1] == '\n')
        invariant
            start <= e <= end,
            end <= chars@.len(),
            trim_line_breaks(chars@.subrange(start as int, end as int)) == trim_line_breaks(
                chars@.subrange(start as int, e as int),
            ),
        decreases e - start,
    {
        assert(chars@.subrange(start as int, e as int).drop_last() =~= chars@.subrange(start as int, e - 1));
        e -= 1;
    }
    e
}

/// Searches a file's text: its matches line by line (see `lines_matches`),
/// up to the summary's match limit. The file counts as searched; a match
/// beyond the limit stops the search of the file and marks the summary
/// limited.
pub fn collect_matches(
    summary: &mut ScanSummary,
    text: &str,
    query: &str,
    query_folded: &[char],
    match_case: bool,
) -> (found: Vec<LineMatch>)
    requires
        old(summary).files_searched < u32::MAX,
    ensures
        ({
            let all = lines_matches(lf_lines(text@), query@, query_folded@, match_case);
            let room: int = if old(summary).matches < MAX_MATCHES {
                MAX_MATCHES - old(summary).matches
            } else {
                0
            };
            let n: int = if all.len() < room {
                all.len() as int
            } else {
                room
            };
            &&& found@.len() == n
            &&& match_views(found@) == all.take(n)
            &&& final(summary).matches == old(summary).matches + n
            &&& final(summary).limited == (old(summary).limited || all.len() > room)
            &&& final(summary).files_searched == old(summary).files_searched + 1
            &&& final(summary).visited == old(summary).visited
            &&& final(summary).skipped == old(summary).skipped
        }),
{
    summary.files_searched = summary.files_searched + 1;
    let chars = chars_of(text);
    let n = chars.len();
    let ghost all_lines = lf_lines(chars@);
    let ghost all = lines_matches(all_lines, query@, query_folded@, match_case);
    let ghost mut done: Seq<Seq<char>> = Seq::empty();
    let mut found: Vec<LineMatch> = Vec::new();
    let mut line_start: i32 = 0;
    let mut line_index: usize = 0;
    let mut pos: usize = 0;
    assert(chars@.skip(0) =~= chars@);
    while pos < n
        invariant
            chars@ == text@,
            n == chars@.len(),
            pos <= n,
            all_lines == lf_lines(chars@),
            all == lines_matches(all_lines, query@, query_folded@, match_case),
            done + lf_lines(chars@.skip(pos as int)) == all_lines,
            line_index == done.len(),
            line_index <= pos,
            line_start == lines_offset(done),
            match_views(found@) == lines_matches(done, query@, query_folded@, match_case),
            summary.matches == old(summary).matches + found@.len(),
            old(summary).matches + found@.len() <= MAX_MATCHES || found@.len() == 0,
            summary.limited == old(summary).limited,
            summary.files_searched == old(summary).files_searched + 1,
            summary.visited == old(summary).visited,
            summary.skipped == old(summary).skipped,
        decreases n - pos,
    {
        let end = lf_end(&chars, pos);
        let line = string_from_chars(vstd::slice::slice_subrange(chars.as_slice(), pos, end));
        let visible_end = trimmed_end(&chars, pos, end);
        let visible = string_from_chars(vstd::slice::slice_subrange(chars.as_slice(), pos, visible_end));
        proof {
            let rest = chars@.skip(pos as int);
            lemma_lf_line_end_skip(chars@, pos as int, 0);
            assert(rest.take(end - pos) =~= line@);
            assert(rest.skip(end - pos) =~= chars@.skip(end as int));
            assert(lf_lines(rest) == seq![line@] + lf_lines(chars@.skip(end as int)));
            assert(all_lines.take(done.len() + 1int) =~= done.push(line@));
            assert(done.push(line@) + lf_lines(chars@.skip(end as int)) =~= all_lines);
            assert(done.push(line@).drop_last() =~= done);
        }
        let ranges = match_ranges(visible.as_str(), query, query_folded, match_case);
        let ghost lm = line_matches(line@, line_index as int, line_start, query@, query_folded@, match_case);
        let ghost base = match_views(found@);
        let mut k: usize = 0;
        while k < ranges.len()
            invariant
                k <= ranges@.len(),
                ranges@ == spec_match_ranges(visible@, query@, query_folded@, match_case),
                visible@ == trim_line_breaks(line@),
                lm == line_matches(line@, line_index as int, line_start, query@, query_folded@, match_case),
                lm.len() == ranges@.len(),
                base == lines_matches(done, query@, query_folded@, match_case),
                match_views(found@) == base + lm.take(k as int),
                summary.matches == old(summary).matches + found@.len(),
                old(summary).matches + found@.len() <= MAX_MATCHES || found@.len() == 0,
                summary.limited == old(summary).limited,
                summary.files_searched == old(summary).files_searched + 1,
                summary.visited == old(summary).visited,
                summary.skipped == old(summary).skipped,
                all == lines_matches(all_lines, query@, query_folded@, match_case),
                all_lines == lf_lines(chars@),
                chars@ == text@,
                all_lines.take(done.len() + 1int) == done.push(line@),
                done.push(line@).drop_last() == done,
                done.len() + 1 <= all_lines.len(),
                line_index == done.len(),
                line_start == lines_offset(done),
            decreases ranges@.len() - k,
        {
            if summary.matches >= MAX_MATCHES {
                summary.limited = true;
                proof {
                    lemma_lines_matches_prefix(all_lines, done.len() + 1int, query@, query_folded@, match_case);
                    let upto = lines_matches(done.push(line@), query@, query_folded@, match_case);
                    assert(upto == base + lm);
                    assert(upto.len() <= all.len());
                    assert(match_views(found@).len() == found@.len());
                    assert(found@.len() == base.len() + k);
                    let room: int = if old(summary).matches < MAX_MATCHES {
                        MAX_MATCHES - old(summary).matches
                    } else {
                        0
                    };
                    assert(found@.len() == room);
                    assert(all.len() > room);
                    assert(match_views(found@) =~= all.take(found@.len() as int)) by {
                        assert forall|j: int| 0 <= j < found@.len() implies match_views(found@)[j] == all[j] by {
                            if j >= base.len() {
                                assert(lm.take(k as int)[j - base.len()] == lm[j - base.len()]);
                            }
                            assert(match_views(found@)[j] == upto[j]);
                        }
                    }
                }
                return found;
            }
            let (start, stop) = ranges[k];
            let ghost before = found@;
            found.push(
                LineMatch {
                    line_number: if line_index < u32::MAX as usize {
                        (line_index + 1) as u32
                    } else {
                        u32::MAX
                    },
                    line_text: visible.clone(),
                    start_offset: saturating_add_i32(line_start, start),
                    end_offset: saturating_add_i32(line_start, stop),
                },
            );
            summary.matches = summary.matches + 1;
            proof {
                assert(lm.take(k + 1) =~= lm.take(k as int).push(lm[k as int]));
                assert(match_views(found@) =~= match_views(before).push(found@.last()@));
            }
            k += 1;
        }
        proof {
            assert(lm.take(k as int) =~= lm);
            done = done.push(line@);
        }
        line_start = saturating_add_i32(line_start, buffer_line_advance(line.as_str()));
        line_index += 1;
        pos = end;
    }
    proof {
        assert(chars@.skip(pos as int) =~= Seq::<char>::empty());
        assert(done + Seq::<Seq<char>>::empty() =~= done);
        assert(all.take(found@.len() as int) =~= all);
    }
    found
}

// ---------------------------------------------------------------------------
// Steps of a scan
// ---------------------------------------------------------------------------

/// The kind of a directory entry.
#[derive(Clone, Copy, Debug, PartialEq, Eq, Structural)]
pub enum EntryKind {
    Directory,
    Regular,
    Other,
}

/// What a scan does with a directory entry.
#[derive(Clone, Copy, Debug, PartialEq, Eq, Structural)]
pub enum EntryAction {
    /// The scan visited as many paths as it may: it stops listing.
    StopAtLimit,
    Skip,
    QueueDirectory,
    QueueFile,
}

/// What a scan does with an entry: stop at the visit limit; skip it when
/// `should_skip_entry` says so; descend into a directory; search a regular
/// file unless its size is unknown or above `MAX_FILE_BYTES` or its content
/// type is clearly not text; skip anything else.
pub open spec fn spec_entry_action(
    visited: u32,
    name: Seq<char>,
    kind: EntryKind,
    size: i64,
    content_type: Option<Seq<char>>,
    show_hidden: bool,
) -> EntryAction {
    if visited >= MAX_VISITED_PATHS {
        EntryAction::StopAtLimit
    } else if (kind == EntryKind::Directory && skipped_dir_names().contains(name)) || (!show_hidden
        && name.len() > 0 && name[0] == '.') {
        EntryAction::Skip
    } else {
        match kind {
            EntryKind::Directory => EntryAction::QueueDirectory,
            EntryKind::Regular => if size < 0 || size > MAX_FILE_BYTES || (content_type matches Some(t)
                && spec_clearly_non_text(t)) {
                EntryAction::Skip
            } else {
                EntryAction::QueueFile
            },
            EntryKind::Other => EntryAction::Skip,
        }
    }
}

/// Handles one entry of a listed directory (see `spec_entry_action`): at the
/// visit limit the summary is marked limited; otherwise the entry counts as
/// visited, and as skipped when it is skipped.
pub fn classify_entry(
    summary: &mut ScanSummary,
    name: &str,
    kind: EntryKind,
    size: i64,
    content_type: Option<&str>,
    show_hidden: bool,
) -> (action: EntryAction)
    requires
        old(summary).skipped < u32::MAX,
    ensures
        action == spec_entry_action(
            old(summary).visited,
            name@,
            kind,
            size,
            match content_type {
                Some(t) => Some(t@),
                None => None,
            },
            show_hidden,
        ),
        action == EntryAction::StopAtLimit ==> *final(summary) == (ScanSummary {
            limited: true,
            ..*old(summary)
        }),
        action != EntryAction::StopAtLimit ==> *final(summary) == (ScanSummary {
            visited: (old(summary).visited + 1) as u32,
            skipped: if action == EntryAction::Skip {
                (old(summary).skipped + 1) as u32
            } else {
                old(summary).skipped
            },
            ..*old(summary)
        }),
{
    if summary.visited_limit_reached() {
        summary.limited = true;
        return EntryAction::StopAtLimit;
    }
    summary.visited = summary.visited + 1;
    if should_skip_entry(name, kind == EntryKind::Directory, show_hidden) {
        summary.skipped = summary.skipped + 1;
        return EntryAction::Skip;
    }
    match kind {
        EntryKind::Directory => EntryAction::QueueDirectory,
        EntryKind::Regular => {
            let non_text = match content_type {
                Some(t) => clearly_non_text(t),
                None => false,
            };
            if size < 0 || size as u64 > MAX_FILE_BYTES || non_text {
                summary.skipped = summary.skipped + 1;
                EntryAction::Skip
            } else {
                EntryAction::QueueFile
            }
        },
        EntryKind::Other => {
            summary.skipped = summary.skipped + 1;
            EntryAction::Skip
        },
    }
}

/// The next step of a scan.
#[derive(Clone, Copy, Debug, PartialEq, Eq, Structural)]
pub enum ScanStep {
    Finish,
    ReadFile,
    ListDirectory,
}

/// Whether a scan stops: it was cancelled, found as many matches as it may,
/// or visited as many paths as it may.
pub fn should_finish(cancelled: bool, summary: &ScanSummary) -> (finish: bool)
    ensures
        finish == (cancelled || summary.matches >= MAX_MATCHES || summary.visited >= MAX_VISITED_PATHS),
{
    cancelled || summary.matches >= MAX_MATCHES || summary.visited_limit_reached()
}

/// What a scan does next: finish when it should (see `should_finish`); else
/// search the next queued file; else list the next queued directory; else finish.
pub fn next_scan_step(cancelled: bool, summary: &ScanSummary, has_pending_file: bool, has_pending_directory: bool) -> (step:
    ScanStep)
    ensures
        step == if cancelled || summary.matches >= MAX_MATCHES || summary.visited >= MAX_VISITED_PATHS {
            ScanStep::Finish
        } else if has_pending_file {
            ScanStep::ReadFile
        } else if has_pending_directory {
            ScanStep::ListDirectory
        } else {
            ScanStep::Finish
        },
{
    if should_finish(cancelled, summary) {
        return ScanStep::Finish;
    }
    if has_pending_file {
        return ScanStep::ReadFile;
    }
    if has_pending_directory {
        return ScanStep::ListDirectory;
    }
    ScanStep::Finish
}

/// The summary a finished scan reports: limited when it stopped at the match
/// or the visit limit.
pub fn finish_summary(summary: &ScanSummary) -> (finished: ScanSummary)
    ensures
        finished == (ScanSummary {
            limited: summary.limited || summary.matches >= MAX_MATCHES || summary.visited >= MAX_VISITED_PATHS,
            ..*summary
        }),
{
    let mut finished = *summary;
    if summary.matches >= MAX_MATCHES || summary.visited_limit_reached() {
        finished.limited = true;
    }
    finished
}

/// The matches of a scan stay within the limit: a file's search adds at most
/// the room left below `MAX_MATCHES`, so a scan that starts within it stays
/// within it.
pub proof fn lemma_matches_stay_within_limit(before: u32, found: int, all: int)
    requires
        before <= MAX_MATCHES,
        0 <= all,
        found == if all < MAX_MATCHES - before {
            all
        } else {
            MAX_MATCHES - before
        },
    ensures
        before + found <= MAX_MATCHES,
{
}

} // verus!
