//! The verified core of the riteed text editor: the line diff and the views
//! of a compare (side by side, unified, with collapsed unchanged rows and
//! inline highlights), the review of a Git repository's changes, find in
//! files, and the small decisions of an editor tab (banners, request
//! generations, zoom).
use vstd::prelude::*;

pub mod banner;
pub mod chunking;
pub mod clipboard;
pub mod diff;
pub mod display;
pub mod error;
pub mod find_in_files;
pub mod git_process;
pub mod gutter;
pub mod i18n;
pub mod inline;
pub mod minimap_diff;
pub mod minimap_rows;
pub mod model;
pub mod navigation;
pub mod presentation;
pub mod presentation_display;
pub mod review;
pub mod review_session;
pub mod row_reveal;
pub mod state;
pub mod status;
pub mod target;
pub mod text;
pub mod unified;
pub mod zoom;

verus! {

} // verus!
