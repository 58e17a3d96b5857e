//! Source-control bands of the editor minimap: which lines of the current
//! file were added, modified, or sit where lines were deleted, and the
//! fingerprint that tells whether the bands still match the buffer.
use vstd::prelude::*;
use vstd::string::StringSliceAdditionalSpecFns;
use vstd::utf8::{
    decode_utf8, encode_scalar, encode_utf8, last_continuation_byte, leading_byte_width_1,
    leading_byte_width_2, leading_byte_width_3, leading_byte_width_4,
    second_last_continuation_byte, third_last_continuation_byte, valid_utf8,
};

use crate::diff::{fits_usize, spec_line_ops, spec_skip_reason};
use crate::git_process::GitProcessError;
use crate::minimap_rows::{compute, minimap_row, MinimapRow, MinimapRowKind};
use crate::model::ops_rows;
use crate::text::chars_of;

verus! {

pub const FNV_OFFSET: u64 = 0xcbf2_9ce4_8422_2325;

pub const FNV_PRIME: u64 = 0x0000_0100_0000_01b3;

#[derive(Clone, Copy, Debug, PartialEq, Eq, Structural)]
pub enum MinimapDiffBandKind {
    Added,
    Modified,
    Deleted,
}

/// Lines `start_line..end_line` of the current file carry a band of `kind`.
#[derive(Clone, Copy, Debug, PartialEq, Eq, Structural)]
pub struct MinimapDiffBand {
    pub kind: MinimapDiffBandKind,
    pub start_line: usize,
    pub end_line: usize,
}

/// A text's FNV-1a hash, its length in bytes and its number of characters.
#[derive(Clone, Copy, Debug, PartialEq, Eq, Structural)]
pub struct TextFingerprint {
    pub hash: u64,
    pub len: usize,
    pub chars: usize,
}

/// Where bands came from and the text they were made for.
#[derive(Clone, Debug, PartialEq, Eq)]
pub struct MinimapDiffFingerprint {
    pub source: String,
    pub text: TextFingerprint,
}

// ---------------------------------------------------------------------------
// Fingerprints
// ---------------------------------------------------------------------------

/// The 64-bit FNV-1a hash of `bytes`.
pub open spec fn spec_fnv(bytes: Seq<u8>) -> u64
    decreases bytes.len(),
{
    if bytes.len() == 0 {
        FNV_OFFSET
    } else {
        vstd::wrapping::u64_specs::wrapping_mul(spec_fnv(bytes.drop_last()) ^ (bytes.last() as u64), FNV_PRIME)
    }
}

/// Whether `byte` starts a character in UTF-8 (is not a continuation byte).
pub open spec fn starts_char(byte: u8) -> bool {
    (byte & 0xC0) != 0x80
}

/// Number of bytes that start a character.
pub open spec fn leading_bytes(bytes: Seq<u8>) -> nat
    decreases bytes.len(),
{
    if bytes.len() == 0 {
        0
    } else {
        leading_bytes(bytes.drop_last()) + if starts_char(bytes.last()) {
            1nat
        } else {
            0nat
        }
    }
}

proof fn lemma_leading_bytes_bound(bytes: Seq<u8>)
    ensures
        leading_bytes(bytes) <= bytes.len(),
    decreases bytes.len(),
{
    if bytes.len() > 0 {
        lemma_leading_bytes_bound(bytes.drop_last());
    }
}

proof fn lemma_leading_bytes_concat(a: Seq<u8>, b: Seq<u8>)
    ensures
        leading_bytes(a + b) == leading_bytes(a) + leading_bytes(b),
    decreases b.len(),
{
    if b.len() > 0 {
        lemma_leading_bytes_concat(a, b.drop_last());
        assert((a + b).drop_last() =~= a + b.drop_last());
    } else {
        assert(a + b =~= a);
    }
}

/// Each encoded character has exactly one byte that starts it.
proof fn lemma_scalar_has_one_leading_byte(scalar: u32)
    ensures
        leading_bytes(encode_scalar(scalar)) == 1,
{
    let x = scalar;
    assert(starts_char(leading_byte_width_1(x))) by (bit_vector);
    assert(starts_char(leading_byte_width_2(x))) by (bit_vector);
    assert(starts_char(leading_byte_width_3(x))) by (bit_vector);
    assert(starts_char(leading_byte_width_4(x))) by (bit_vector);
    assert(!starts_char(last_continuation_byte(x))) by (bit_vector);
    assert(!starts_char(second_last_continuation_byte(x))) by (bit_vector);
    assert(!starts_char(third_last_continuation_byte(x))) by (bit_vector);
    let e = encode_scalar(scalar);
    reveal_with_fuel(leading_bytes, 5);
    assert(e.len() <= 4);
    if e.len() >= 2 {
        assert(e.drop_last().len() == e.len() - 1);
    }
}

/// A text's UTF-8 bytes hold one character-starting byte per character.
pub proof fn lemma_leading_bytes_count_chars(chars: Seq<char>)
    ensures
        leading_bytes(encode_utf8(chars)) == chars.len(),
    decreases chars.len(),
{
    if chars.len() > 0 {
        lemma_leading_bytes_count_chars(chars.drop_first());
        lemma_scalar_has_one_leading_byte(chars[0] as u32);
        lemma_leading_bytes_concat(encode_scalar(chars[0] as u32), encode_utf8(chars.drop_first()));
    }
}

/// The fingerprint of `text`: the FNV-1a hash of its UTF-8 bytes, their
/// number, and the number of characters (bytes that start one).
pub fn text_fingerprint(text: &str) -> (fingerprint: TextFingerprint)
    requires
        fits_usize(text@),
    ensures
        fingerprint.hash == spec_fnv(text.spec_bytes()),
        fingerprint.len == text.spec_bytes().len(),
        fingerprint.chars == leading_bytes(text.spec_bytes()),
        fingerprint.chars == text@.len(),
{
    proof {
        lemma_leading_bytes_count_chars(text@);
    }
    let bytes = text.as_bytes();
    let mut hash: u64 = FNV_OFFSET;
    let mut chars: usize = 0;
    let mut i: usize = 0;
    while i < bytes.len()
        invariant
            bytes@ == text.spec_bytes(),
            i <= bytes@.len(),
            hash == spec_fnv(bytes@.take(i as int)),
            chars == leading_bytes(bytes@.take(i as int)),
            chars <= i,
        decreases bytes@.len() - i,
    {
        proof {
            assert(bytes@.take(i + 1).drop_last() =~= bytes@.take(i as int));
            lemma_leading_bytes_bound(bytes@.take(i as int));
        }
        let byte = bytes[i];
        hash = hash ^ (byte as u64);
        hash = hash.wrapping_mul(FNV_PRIME);
        if (byte & 0xC0) != 0x80 {
            chars = chars + 1;
        }
        i += 1;
    }
    assert(bytes@.take(i as int) =~= bytes@);
    TextFingerprint { hash, len: text.len(), chars }
}

impl MinimapDiffFingerprint {
    pub fn new(source: String, text: &str) -> (fingerprint: Self)
        requires
            fits_usize(text@),
        ensures
            fingerprint.source@ == source@,
            fingerprint.text.hash == spec_fnv(text.spec_bytes()),
            fingerprint.text.len == text.spec_bytes().len(),
            fingerprint.text.chars == leading_bytes(text.spec_bytes()),
    {
        MinimapDiffFingerprint { source, text: text_fingerprint(text) }
    }
}

// ---------------------------------------------------------------------------
// Decoding Git output
// ---------------------------------------------------------------------------

/// Calls `String::from_utf8`: the text `bytes` encode when they are valid
/// UTF-8, else an error (here `None`).
#[verifier::external_body]
pub(crate) fn utf8_string(bytes: Vec<u8>) -> (text: Option<String>)
    ensures
        match text {
            Some(t) => valid_utf8(bytes@) && t@ == decode_utf8(bytes@),
            None => !valid_utf8(bytes@),
        },
{
    String::from_utf8(bytes).ok()
}

/// The text of a file's bytes from Git: binary content when a byte is 0,
/// a parse failure when they are not UTF-8, else the text they encode.
pub fn decode_minimap_text(bytes: Vec<u8>) -> (text: Result<String, GitProcessError>)
    ensures
        match text {
            Ok(t) => !bytes@.contains(0u8) && valid_utf8(bytes@) && t@ == decode_utf8(bytes@),
            Err(e) => (bytes@.contains(0u8) && e == GitProcessError::BinaryContent) || (
            !bytes@.contains(0u8) && !valid_utf8(bytes@) && e == GitProcessError::ParseFailed),
        },
{
    let mut i: usize = 0;
    while i < bytes.len()
        invariant
            i <= bytes@.len(),
            forall|k: int| 0 <= k < i ==> bytes@[k] != 0u8,
        decreases bytes@.len() - i,
    {
        if bytes[i] == 0 {
            assert(bytes@[i as int] == 0u8);
            return Err(GitProcessError::BinaryContent);
        }
        i += 1;
    }
    assert(!bytes@.contains(0u8));
    match utf8_string(bytes) {
        Some(text) => Ok(text),
        None => Err(GitProcessError::ParseFailed),
    }
}

// ---------------------------------------------------------------------------
// Bands
// ---------------------------------------------------------------------------

/// `line + 1`, at most `usize::MAX`.
pub open spec fn next_line(line: usize) -> usize {
    if line < usize::MAX {
        (line + 1) as usize
    } else {
        usize::MAX
    }
}

/// `bands` with the band of `kind` on `line` added: merged into the last
/// band when it has the same kind and reaches the line, else a new band.
pub open spec fn spec_push_band(bands: Seq<MinimapDiffBand>, kind: MinimapDiffBandKind, line: usize) -> Seq<MinimapDiffBand> {
    if bands.len() > 0 && bands.last().kind == kind && line <= bands.last().end_line {
        let last = bands.last();
        bands.update(
            bands.len() - 1,
            MinimapDiffBand {
                kind,
                start_line: last.start_line,
                end_line: if last.end_line >= next_line(line) {
                    last.end_line
                } else {
                    next_line(line)
                },
            },
        )
    } else {
        bands.push(MinimapDiffBand { kind, start_line: line, end_line: next_line(line) })
    }
}

pub fn push_band(bands: &mut Vec<MinimapDiffBand>, kind: MinimapDiffBandKind, line: usize)
    ensures
        final(bands)@ == spec_push_band(old(bands)@, kind, line),
{
    let next = line.saturating_add(1);
    let n = bands.len();
    if n > 0 {
        let last = bands[n - 1];
        if last.kind == kind && line <= last.end_line {
            let end_line = if last.end_line >= next {
                last.end_line
            } else {
                next
            };
            bands.set(n - 1, MinimapDiffBand { kind, start_line: last.start_line, end_line });
            return;
        }
    }
    bands.push(MinimapDiffBand { kind, start_line: line, end_line: next });
}

/// The current line of the last row before row `k` that has one.
pub open spec fn previous_current_line(rows: Seq<MinimapRow>, k: int) -> Option<usize>
    decreases k,
{
    if k <= 0 {
        None
    } else {
        match rows[k - 1].current_line {
            Some(line) => Some(line),
            None => previous_current_line(rows, k - 1),
        }
    }
}

/// The current line of the first row from row `k` on that has one.
pub open spec fn following_current_line(rows: Seq<MinimapRow>, k: int) -> Option<usize>
    decreases rows.len() - k,
{
    if k < 0 || k >= rows.len() {
        None
    } else {
        match rows[k].current_line {
            Some(line) => Some(line),
            None => following_current_line(rows, k + 1),
        }
    }
}

/// The current line a removed row `index` is shown at: the nearest line
/// before it, else the first line after it.
pub open spec fn spec_deletion_target(rows: Seq<MinimapRow>, index: int) -> Option<usize> {
    match previous_current_line(rows, index) {
        Some(line) => Some(line),
        None => following_current_line(rows, index + 1),
    }
}

pub fn deletion_target(rows: &[MinimapRow], index: usize) -> (target: Option<usize>)
    requires
        index < rows@.len(),
    ensures
        target == spec_deletion_target(rows@, index as int),
{
    let mut k = index;
    while k > 0
        invariant
            k <= index,
            index < rows@.len(),
            previous_current_line(rows@, index as int) == previous_current_line(rows@, k as int),
        decreases k,
    {
        if let Some(line) = rows[k - 1].current_line {
            return Some(line);
        }
        k -= 1;
    }
    let n = rows.len();
    let mut k = index + 1;
    while k < n
        invariant
            index < k <= rows@.len(),
            n == rows@.len(),
            previous_current_line(rows@, index as int) is None,
            following_current_line(rows@, index + 1) == following_current_line(rows@, k as int),
        decreases rows@.len() - k,
    {
        if let Some(line) = rows[k].current_line {
            return Some(line);
        }
        k += 1;
    }
    None
}

/// The band row `i` adds: added and modified rows mark their current line,
/// removed rows their deletion target; unchanged rows add none.
pub open spec fn row_band(rows: Seq<MinimapRow>, i: int) -> Option<(MinimapDiffBandKind, usize)> {
    match rows[i].kind {
        MinimapRowKind::Equal => None,
        MinimapRowKind::Added => match rows[i].current_line {
            Some(line) => Some((MinimapDiffBandKind::Added, line)),
            None => None,
        },
        MinimapRowKind::Modified => match rows[i].current_line {
            Some(line) => Some((MinimapDiffBandKind::Modified, line)),
            None => None,
        },
        MinimapRowKind::Removed => match spec_deletion_target(rows, i) {
            Some(line) => Some((MinimapDiffBandKind::Deleted, line)),
            None => None,
        },
    }
}

/// The bands of the first `k` rows, each added in turn (see `spec_push_band`).
pub open spec fn spec_bands(rows: Seq<MinimapRow>, k: int) -> Seq<MinimapDiffBand>
    decreases k,
{
    if k <= 0 {
        Seq::empty()
    } else {
        match row_band(rows, k - 1) {
            Some((kind, line)) => spec_push_band(spec_bands(rows, k - 1), kind, line),
            None => spec_bands(rows, k - 1),
        }
    }
}

pub fn bands_for_rows(rows: &[MinimapRow]) -> (bands: Vec<MinimapDiffBand>)
    ensures
        bands@ == spec_bands(rows@, rows@.len() as int),
{
    let mut bands: Vec<MinimapDiffBand> = Vec::new();
    let mut index: usize = 0;
    while index < rows.len()
        invariant
            index <= rows@.len(),
            bands@ == spec_bands(rows@, index as int),
        decreases rows@.len() - index,
    {
        let row = rows[index];
        let band = match row.kind {
            MinimapRowKind::Equal => None,
            MinimapRowKind::Added => match row.current_line {
                Some(line) => Some((MinimapDiffBandKind::Added, line)),
                None => None,
            },
            MinimapRowKind::Modified => match row.current_line {
                Some(line) => Some((MinimapDiffBandKind::Modified, line)),
                None => None,
            },
            MinimapRowKind::Removed => match deletion_target(rows, index) {
                Some(line) => Some((MinimapDiffBandKind::Deleted, line)),
                None => None,
            },
        };
        if let Some((kind, line)) = band {
            push_band(&mut bands, kind, line);
        }
        index += 1;
    }
    bands
}

/// The bands of the current text against the reference text: none when the
/// compare is skipped for its size, else those of its minimap rows.
pub fn bands_for_texts(reference_text: &str, current_text: &str) -> (bands: Vec<MinimapDiffBand>)
    requires
        fits_usize(reference_text@),
        fits_usize(current_text@),
    ensures
        spec_skip_reason(reference_text@, current_text@) is Some ==> bands@.len() == 0,
        spec_skip_reason(reference_text@, current_text@) is None ==> {
            let rows = ops_rows(spec_line_ops(reference_text@, current_text@, false));
            let minimap = Seq::new(rows.len(), |i: int| minimap_row(rows[i]));
            bands@ == spec_bands(minimap, minimap.len() as int)
        },
{
    let rows = compute(reference_text, current_text);
    if rows.skip_reason.is_some() {
        return Vec::new();
    }
    bands_for_rows(rows.rows.as_slice())
}

/// Number of lines of `text` split after each `\n`: one per position that
/// starts a line (the first, and each after a newline); none for an empty text.
pub open spec fn newline_split_count(text: Seq<char>) -> nat
    decreases text.len(),
{
    if text.len() == 0 {
        0
    } else {
        newline_split_count(text.drop_last()) + if text.len() == 1 || text[text.len() - 2] == '\n' {
            1nat
        } else {
            0nat
        }
    }
}

/// Number of lines of `text` when split after each `\n` (none when empty).
pub fn current_line_count(text: &str) -> (n: usize)
    ensures
        n == newline_split_count(text@),
{
    let chars = chars_of(text);
    let mut n: usize = 0;
    let mut i: usize = 0;
    while i < chars.len()
        invariant
            chars@ == text@,
            i <= chars@.len(),
            n == newline_split_count(chars@.take(i as int)),
            n <= i,
        decreases chars@.len() - i,
    {
        proof {
            assert(chars@.take(i + 1).drop_last() =~= chars@.take(i as int));
        }
        if i == 0 || chars[i - 1] == '\n' {
            n += 1;
        }
        i += 1;
    }
    assert(chars@.take(i as int) =~= chars@);
    n
}

/// The band of a file deleted in full: every line of the current text.
pub fn all_deleted_bands(current_text: &str) -> (bands: Vec<MinimapDiffBand>)
    ensures
        bands@ == if newline_split_count(current_text@) == 0 {
            Seq::<MinimapDiffBand>::empty()
        } else {
            seq![
                MinimapDiffBand {
                    kind: MinimapDiffBandKind::Deleted,
                    start_line: 0,
                    end_line: newline_split_count(current_text@) as usize,
                },
            ]
        },
{
    let lines = current_line_count(current_text);
    let mut bands: Vec<MinimapDiffBand> = Vec::new();
    if lines > 0 {
        bands.push(MinimapDiffBand { kind: MinimapDiffBandKind::Deleted, start_line: 0, end_line: lines });
    }
    bands
}

} // verus!
