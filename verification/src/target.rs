//! What a compare view compares the editor's text with: the file on disk,
//! another file, or a given text.
use vstd::prelude::*;

use crate::text::str_eq;

verus! {

/// The kind of reference a compare shows.
#[derive(Clone, Copy, Debug, PartialEq, Eq, Structural)]
pub enum CompareTargetKind {
    Disk,
    File,
    Text,
}

/// The reference of a compare: its kind, the URI of its file, its title, and
/// the text itself for a text reference.
#[derive(Clone, Debug, PartialEq, Eq)]
pub struct CompareTarget {
    pub kind: CompareTargetKind,
    pub uri: Option<String>,
    pub title: String,
    pub text: Option<String>,
    pub implicit_trailing_newline: bool,
}

impl CompareTarget {
    /// The saved file of the document itself, read from disk.
    pub fn disk(uri: String, basename: Option<String>) -> (target: Self)
        ensures
            target.kind == CompareTargetKind::Disk,
            target.uri == Some(uri),
            target.title@ == match basename {
                Some(name) => name@,
                None => uri@,
            },
            target.text is None,
            !target.implicit_trailing_newline,
    {
        Self::from_file(uri, basename, CompareTargetKind::Disk)
    }

    /// Another file.
    pub fn file(uri: String, basename: Option<String>) -> (target: Self)
        ensures
            target.kind == CompareTargetKind::File,
            target.uri == Some(uri),
            target.title@ == match basename {
                Some(name) => name@,
                None => uri@,
            },
            target.text is None,
            !target.implicit_trailing_newline,
    {
        Self::from_file(uri, basename, CompareTargetKind::File)
    }

    /// A given text, shown under `title`.
    pub fn text(title: String, text: String) -> (target: Self)
        ensures
            target.kind == CompareTargetKind::Text,
            target.uri is None,
            target.title == title,
            target.text == Some(text),
            !target.implicit_trailing_newline,
    {
        CompareTarget { kind: CompareTargetKind::Text, uri: None, title, text: Some(text), implicit_trailing_newline: false }
    }

    /// A file reference: titled with the file's base name, or its URI when it has none.
    fn from_file(uri: String, basename: Option<String>, kind: CompareTargetKind) -> (target: Self)
        ensures
            target.kind == kind,
            target.uri == Some(uri),
            target.title@ == match basename {
                Some(name) => name@,
                None => uri@,
            },
            target.text is None,
            !target.implicit_trailing_newline,
    {
        let title = match basename {
            Some(name) => name,
            None => uri.clone(),
        };
        CompareTarget { kind, uri: Some(uri), title, text: None, implicit_trailing_newline: false }
    }

    /// A file reference can be read again; a given text cannot.
    pub fn is_refreshable(&self) -> (refreshable: bool)
        ensures
            refreshable == (self.kind != CompareTargetKind::Text),
    {
        self.kind != CompareTargetKind::Text
    }

    /// Whether this is the document's own file on disk at `document_uri`.
    pub fn is_disk_of(&self, document_uri: &str) -> (same: bool)
        ensures
            same == (self.kind == CompareTargetKind::Disk && (self.uri matches Some(u) && u@ == document_uri@)),
    {
        if self.kind != CompareTargetKind::Disk {
            return false;
        }
        match &self.uri {
            Some(uri) => str_eq(uri.as_str(), document_uri),
            None => false,
        }
    }
}

} // verus!
