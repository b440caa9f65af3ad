//! A small JSON-backed sticky-note library: an in-memory note store with
//! create/read/update/delete operations, a verified JSON codec for its
//! persisted document, and the pure pieces of a line-oriented markdown editor.

pub mod editor;
pub mod json_core;
pub mod json_doc;
pub mod json_exec;
pub mod json_props;
pub mod markdown;
pub mod notes;
pub mod preview;
