//! The library's error type and a helper trait over results.

use vstd::prelude::*;
use vstd::string::StringExecFns;

verus! {

/// Everything that can go wrong at the tag-store surface.
///
/// The first five variants are user errors (the store is unaffected);
/// `InvalidQuery` covers a query the lexer/translator or the store rejects;
/// `EditParse` a line of an edit-representation dump that does not parse;
/// `Store` any other error of the backing store.
#[derive(Debug)]
pub enum TagError {
    /// The tag takes a value but none was given.
    TagTakesValue { tag: String },
    /// The tag takes no value but one was given.
    TagTakesNoValue { tag: String },
    /// The path already carries this `(tag, value)` pair.
    DuplicateTag { path: String, tag: String, value: Option<String> },
    /// No mapping matched an `untag` request.
    UntagMissing { path: String, tag: String, value: Option<String> },
    /// No mapping matched an `untag_all` request.
    UntagAllMissing { path: String },
    /// The tag's values could not be listed: its mappings carry none.
    NoValues { tag: String },
    /// The query is malformed, or the store rejected its translation.
    InvalidQuery { detail: String },
    /// A tag line of an edit-representation dump does not parse.
    EditParse { line: u64 },
    /// No mapping row carries the given id.
    MappingMissing { id: u64 },
    /// Any other error of the backing store.
    Store(rusqlite::Error),
}

impl TagError {
    /// A user-readable description of the error.
    pub fn message(&self) -> String {
        match self {
            TagError::TagTakesValue { tag } => {
                let mut s = String::from_str("tag \"");
                s.append(tag.as_str());
                s.append("\" takes a value but one was not given");
                s
            },
            TagError::TagTakesNoValue { tag } => {
                let mut s = String::from_str("tag \"");
                s.append(tag.as_str());
                s.append("\" does not take a value but one was given");
                s
            },
            TagError::DuplicateTag { path, tag, value } => {
                let mut s = String::from_str("\"");
                s.append(path.as_str());
                s.append("\" already has tag \"");
                s.append(tag.as_str());
                match value {
                    Some(v) => {
                        s.append("=");
                        s.append(v.as_str());
                    },
                    None => {},
                }
                s.append("\".");
                s
            },
            TagError::UntagMissing { path, tag, value } => {
                let mut s = String::from_str("could not remove tag \"");
                s.append(tag.as_str());
                match value {
                    Some(v) => {
                        s.append("=");
                        s.append(v.as_str());
                    },
                    None => {},
                }
                s.append("\" from \"");
                s.append(path.as_str());
                s.append("\". Does it exist?");
                s
            },
            TagError::UntagAllMissing { path } => {
                let mut s = String::from_str("could not remove tags from path \"");
                s.append(path.as_str());
                s.append("\". Does it exist?");
                s
            },
            TagError::NoValues { tag } => {
                let mut s = String::from_str("tag \"");
                s.append(tag.as_str());
                s.append("\" does not take any values");
                s
            },
            TagError::InvalidQuery { detail } => {
                let mut s = String::from_str("invalid query: ");
                s.append(detail.as_str());
                s
            },
            TagError::EditParse { line: _ } => {
                String::from_str("could not parse tag in the edited input.")
            },
            TagError::MappingMissing { id: _ } => {
                String::from_str("no mapping with the requested id exists.")
            },
            TagError::Store(e) => crate::db::store_error_text(e),
        }
    }
}

/// Extension trait over the library's results.
pub trait TagFSErrorExt {
    /// Returns true if the underlying error reports the failure of a
    /// unique constraint within the database: a duplicate tag, or a store
    /// error carrying the unique-constraint code.
    fn is_sql_unique_cons_err(&self) -> bool;
}

impl<T> TagFSErrorExt for Result<T, TagError> {
    fn is_sql_unique_cons_err(&self) -> bool {
        match self {
            Err(TagError::DuplicateTag { .. }) => true,
            Err(TagError::Store(e)) => crate::db::store_error_is_unique_violation(e),
            _ => false,
        }
    }
}

} // verus!
