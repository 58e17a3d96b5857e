//! What a Git review is opened for: the identifiers of its files (which side
//! of the index a file belongs to and its raw repository path), its snapshot,
//! and the compare settings it shows them with.
use vstd::prelude::*;

use crate::i18n::{context_message, translate, Message};

verus! {

/// What an editor tab shows: a document, or the review of a repository's changes.
#[derive(Clone, Copy, Debug, PartialEq, Eq, Structural)]
pub enum TabKind {
    Document,
    GitReview,
}

/// Which changes a review shows: those staged in the index, or those not staged yet.
#[derive(Clone, Copy, Debug, PartialEq, Eq, Hash, Structural)]
pub enum ReviewKind {
    Staged,
    Unstaged,
}

/// A snapshot token of the repository state a review was made from.
#[derive(Clone, Debug, PartialEq, Eq)]
pub struct ReviewSnapshotFingerprint {
    token: String,
}

impl ReviewSnapshotFingerprint {
    pub closed spec fn spec_token(self) -> Seq<char> {
        self.token@
    }

    pub fn new(token: String) -> (f: Self)
        ensures
            f.spec_token() == token@,
    {
        ReviewSnapshotFingerprint { token }
    }

    /// A copy of the fingerprint.
    pub fn duplicate(&self) -> (f: Self)
        ensures
            f.spec_token() == self.spec_token(),
    {
        ReviewSnapshotFingerprint { token: self.token.clone() }
    }

    pub fn token(&self) -> (t: &str)
        ensures
            t@ == self.spec_token(),
    {
        self.token.as_str()
    }
}

/// One file of a review: its kind and its raw (not necessarily UTF-8) path.
#[derive(Clone, Debug, PartialEq, Eq, Hash)]
pub struct ReviewFileId {
    pub review_kind: ReviewKind,
    pub raw_path: Vec<u8>,
}

impl View for ReviewFileId {
    type V = (ReviewKind, Seq<u8>);

    open spec fn view(&self) -> (ReviewKind, Seq<u8>) {
        (self.review_kind, self.raw_path@)
    }
}

impl ReviewFileId {
    pub fn new(review_kind: ReviewKind, raw_path: Vec<u8>) -> (id: Self)
        ensures
            id.review_kind == review_kind,
            id.raw_path@ == raw_path@,
    {
        ReviewFileId { review_kind, raw_path }
    }

    /// Whether two identifiers are equal: same kind, same raw path.
    pub fn same_as(&self, other: &ReviewFileId) -> (same: bool)
        ensures
            same == (self@ == other@),
    {
        if self.review_kind != other.review_kind || self.raw_path.len() != other.raw_path.len() {
            return false;
        }
        let mut i: usize = 0;
        while i < self.raw_path.len()
            invariant
                i <= self.raw_path@.len(),
                self.raw_path@.len() == other.raw_path@.len(),
                self.raw_path@.take(i as int) == other.raw_path@.take(i as int),
            decreases self.raw_path@.len() - i,
        {
            if self.raw_path[i] != other.raw_path[i] {
                assert(self.raw_path@[i as int] != other.raw_path@[i as int]);
                return false;
            }
            assert(self.raw_path@.take(i + 1) =~= self.raw_path@.take(i as int).push(self.raw_path@[i as int]));
            assert(other.raw_path@.take(i + 1) =~= other.raw_path@.take(i as int).push(other.raw_path@[i as int]));
            i += 1;
        }
        assert(self.raw_path@ =~= self.raw_path@.take(i as int));
        assert(other.raw_path@ =~= other.raw_path@.take(i as int));
        true
    }

    /// A copy of the identifier.
    pub fn duplicate(&self) -> (id: Self)
        ensures
            id@ == self@,
    {
        let mut raw_path: Vec<u8> = Vec::new();
        let mut i: usize = 0;
        while i < self.raw_path.len()
            invariant
                i <= self.raw_path@.len(),
                raw_path@ == self.raw_path@.take(i as int),
            decreases self.raw_path@.len() - i,
        {
            raw_path.push(self.raw_path[i]);
            i += 1;
            assert(raw_path@ =~= self.raw_path@.take(i as int));
        }
        assert(raw_path@ =~= self.raw_path@);
        ReviewFileId { review_kind: self.review_kind, raw_path }
    }
}

/// A file a review is asked for: its raw repository path.
#[derive(Clone, Debug, PartialEq, Eq)]
pub struct ReviewFileSpec {
    pub raw_path: Vec<u8>,
}

impl ReviewFileSpec {
    pub fn new(raw_path: Vec<u8>) -> (spec: Self)
        ensures
            spec.raw_path@ == raw_path@,
    {
        ReviewFileSpec { raw_path }
    }
}

/// How a compare shows its two sides: chosen by the window width, side by
/// side, or in one unified column.
#[derive(Clone, Copy, Debug, PartialEq, Eq, Hash, Structural)]
pub enum CompareViewMode {
    Adaptive,
    Split,
    Unified,
}

/// The message naming a compare view mode, in the context "compare mode".
pub fn mode_message(mode: CompareViewMode) -> (message: Message)
    ensures
        message.wf(),
        message@ == context_message(
            "compare mode"@,
            match mode {
                CompareViewMode::Adaptive => "Adaptive"@,
                CompareViewMode::Split => "Split"@,
                CompareViewMode::Unified => "Unified"@,
            },
        ),
{
    proof {
        reveal_strlit("compare mode");
        reveal_strlit("Adaptive");
        reveal_strlit("Split");
        reveal_strlit("Unified");
    }
    let msgid = match mode {
        CompareViewMode::Adaptive => "Adaptive",
        CompareViewMode::Split => "Split",
        CompareViewMode::Unified => "Unified",
    };
    Message { context: Some("compare mode"), msgid, plural: None, count: 0 }
}

/// The translated name of a compare view mode: `mode_message` translated.
pub fn mode_label(mode: CompareViewMode) -> String {
    translate(&mode_message(mode))
}

/// The rows kept around a change: the setting (3 when negative) clamped to 1..=10.
pub open spec fn review_context(context_lines: i32) -> int {
    let setting: int = if context_lines < 0 {
        3
    } else {
        context_lines as int
    };
    if setting < 1 {
        1
    } else if setting > 10 {
        10
    } else {
        setting
    }
}

/// The rows kept around a change for a context setting (see `review_context`).
pub fn context_for_display(context_lines: i32) -> (context: usize)
    ensures
        context == review_context(context_lines),
{
    let setting: usize = if context_lines < 0 {
        3
    } else {
        context_lines as usize
    };
    if setting < 1 {
        1
    } else if setting > 10 {
        10
    } else {
        setting
    }
}

/// The compare settings a review was opened with.
#[derive(Clone, Copy, Debug, PartialEq, Eq, Structural)]
pub struct CompareReviewSettingsSnapshot {
    pub view_mode: CompareViewMode,
    pub collapse_unchanged: bool,
    pub context_lines: i32,
    pub ignore_leading_trailing_whitespace: bool,
    pub word_wrap: bool,
}

/// What a review tab is opened for: the kind of changes, the repository, the
/// snapshot it was taken from, its files and its settings.
#[derive(Clone, Debug, PartialEq, Eq)]
pub struct ReviewTabSpec {
    pub review_kind: ReviewKind,
    pub repo_root: String,
    pub snapshot_generation_at_creation: u64,
    pub fingerprint_at_creation: ReviewSnapshotFingerprint,
    pub files: Vec<ReviewFileSpec>,
    pub settings_snapshot: CompareReviewSettingsSnapshot,
}

impl ReviewTabSpec {
    pub fn new(
        review_kind: ReviewKind,
        repo_root: String,
        snapshot_generation_at_creation: u64,
        fingerprint_at_creation: ReviewSnapshotFingerprint,
        files: Vec<ReviewFileSpec>,
        settings_snapshot: CompareReviewSettingsSnapshot,
    ) -> (spec: Self)
        ensures
            spec.review_kind == review_kind,
            spec.repo_root@ == repo_root@,
            spec.snapshot_generation_at_creation == snapshot_generation_at_creation,
            spec.fingerprint_at_creation == fingerprint_at_creation,
            spec.files@ == files@,
            spec.settings_snapshot == settings_snapshot,
    {
        ReviewTabSpec {
            review_kind,
            repo_root,
            snapshot_generation_at_creation,
            fingerprint_at_creation,
            files,
            settings_snapshot,
        }
    }
}

/// The view of an optional file identifier.
pub open spec fn file_id_view(id: Option<ReviewFileId>) -> Option<(ReviewKind, Seq<u8>)> {
    match id {
        Some(id) => Some(id@),
        None => None,
    }
}

} // verus!
