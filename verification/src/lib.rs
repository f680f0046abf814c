//! Net changes across a range of patch notes.
//!
//! A changelog line is classified into a change record; the records of a
//! range of releases are merged into one net change per property, and each
//! net change is rendered back to a line of text.
//!
//! - [`record`]: change records and the rule by which two of them combine.
//! - [`classify`]: from a line and its context to a record.
//! - [`order`], [`merge`], [`merge_laws`]: the merge order, the merge itself,
//!   and what holds of it.
//! - [`direction`], [`decimal`]: the word for how a value moved.
//! - [`render`]: from a record back to a line.
//! - [`outline`], [`range`], [`html`]: the pages the lines come from, the
//!   files that hold them, and the page the net changes go to.
//! - [`text`], [`number`], [`pattern`]: the vocabulary of the rest.
//!
//! # What is taken on trust
//!
//! Every function is verified against its contract, but for three that call
//! code from elsewhere. Their contracts say only that the outcome depends on
//! nothing but the arguments, and give it a name:
//!
//! - `pattern::captures`, the search for a regular expression, named
//!   [`pattern::regex_captures`];
//! - `outline::select_elements`, the elements of an HTML document, named
//!   [`outline::page_elements`];
//! - the test for white space in `text`, named [`text::white_space`].

pub mod classify;
pub mod decimal;
pub mod direction;
pub mod html;
pub mod merge;
pub mod merge_laws;
pub mod number;
pub mod order;
pub mod outline;
pub mod pattern;
pub mod range;
pub mod record;
pub mod render;
pub mod text;

pub use crate::direction::absolute_change_direction;
pub use crate::merge::{patch_diff, try_patch_diff};
pub use crate::pattern::{ABS_NUM_STR, ABS_TXT_STR, NEW_NUM_STR, REL_NUM_STR};
pub use crate::record::{ChangeData, MergeError, PatchChange};
