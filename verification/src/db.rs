//! The tag store: tags, tag mappings and stored queries persisted in a
//! relational database, and the query language that selects paths from it.

mod edit_repr;
mod query;
mod sqlite;
mod stored_query;

pub use query::{
    escaped_fmt, escaped_value, legal_tag, legal_toks, lemma_escaped_tag_roundtrip,
    lemma_lex_render_roundtrip, lex_query, lex_spec, parse_tag_value_spec, render_tokens,
    render_toks_spec, simple_fmt, to_sql_spec, tok_of, toks_of, views_of, EscapedTagFormatter,
    ListFormatter, Query, SimpleTagFormatter, TagValuePair, TagValuePairParseError, Tok, Token,
};
pub use edit_repr::{
    edit_block_spec, edit_header_spec, parse_edit_repr, parse_edit_spec, render_edit_block,
    render_edit_header,
};
pub use stored_query::{sanitised_query, SanitisedStoredQuery, StoredQuery};

use vstd::prelude::*;

use crate::error::TagError;

verus! {

/// Analogue to the store's tag table: a tag's row id, its unique name, and
/// whether its mappings carry values.
pub struct TagInfo {
    pub id: i64,
    pub name: String,
    pub takes_value: bool,
}

impl TagInfo {
    /// Builds a tag row.
    pub fn new(id: i64, name: String, takes_value: bool) -> (r: TagInfo)
        ensures
            r.id == id,
            r.name == name,
            r.takes_value == takes_value,
    {
        TagInfo { id, name, takes_value }
    }

}

/// Analogue to the store's mapping table: one application of a tag to a
/// path, with an optional value, and whether it was applied automatically.
pub struct TagMapping {
    pub _id: i64,
    pub tag: TagInfo,
    pub path: String,
    pub value: Option<String>,
    pub auto: bool,
}

impl TagMapping {
    /// Builds a mapping row.
    pub fn new(tag: TagInfo, id: i64, path: String, value: Option<String>, auto: bool) -> (r:
        TagMapping)
        ensures
            r.tag == tag,
            r._id == id,
            r.path == path,
            r.value == value,
            r.auto == auto,
    {
        TagMapping { tag, _id: id, path, value, auto }
    }
}

/// Anything that carries a tag name and an optional value.
pub trait Tag {
    /// The tag's name, as a character sequence.
    spec fn tag_spec(&self) -> Seq<char>;

    /// The value, if the tag carries one.
    spec fn value_spec(&self) -> Option<Seq<char>>;

    /// The tag's name.
    fn tag(&self) -> (r: &str)
        ensures
            r@ == self.tag_spec(),
    ;

    /// The value, if the tag carries one.
    fn value(&self) -> (r: Option<&str>)
        ensures
            match r {
                Some(v) => self.value_spec() matches Some(w) && v@ == w,
                None => self.value_spec() is None,
            },
    ;
}

impl Tag for TagMapping {
    open spec fn tag_spec(&self) -> Seq<char> {
        self.tag.name@
    }

    open spec fn value_spec(&self) -> Option<Seq<char>> {
        match self.value {
            Some(v) => Some(v@),
            None => None,
        }
    }

    fn tag(&self) -> (r: &str) {
        self.tag.name.as_str()
    }

    fn value(&self) -> (r: Option<&str>) {
        match &self.value {
            Some(v) => Some(v.as_str()),
            None => None,
        }
    }
}

/// A readable description of a store error.
pub fn store_error_text(e: &rusqlite::Error) -> String {
    sqlite::error_text(e)
}

/// Whether a store error is the failure of a unique constraint.
pub fn store_error_is_unique_violation(e: &rusqlite::Error) -> bool {
    sqlite::is_unique_violation(e)
}


impl TagInfo {
    /// Decides whether a value's presence agrees with the tag's declared
    /// shape: a value-taking tag demands a value, a valueless tag refuses
    /// one.
    pub fn check_value(&self, has_value: bool) -> (r: Result<(), TagError>)
        ensures
            r is Ok <==> self.takes_value == has_value,
            (self.takes_value && !has_value) ==> (r matches Err(e) && e matches
                TagError::TagTakesValue { tag } && tag@ == self.name@),
            (!self.takes_value && has_value) ==> (r matches Err(e) && e matches
                TagError::TagTakesNoValue { tag } && tag@ == self.name@),
            r matches Err(e) ==> (e is TagTakesValue || e is TagTakesNoValue),
    {
        if self.takes_value && !has_value {
            Err(TagError::TagTakesValue { tag: self.name.clone() })
        } else if !self.takes_value && has_value {
            Err(TagError::TagTakesNoValue { tag: self.name.clone() })
        } else {
            Ok(())
        }
    }
}

/// Encapsulates all database logic.
pub struct Database {
    /// Handle to the store connection.
    pub(crate) conn: rusqlite::Connection,
}

/// Turns an optional borrowed value into an owned one.
fn clone_opt_str(v: Option<&str>) -> (r: Option<String>)
    ensures
        match r {
            Some(s) => v matches Some(w) && s@ == w@,
            None => v is None,
        },
{
    match v {
        Some(s) => Some(s.to_owned()),
        None => None,
    }
}

impl Database {
    fn init(&self) -> (r: Result<(), TagError>) {
        match sqlite::exec_batch(&self.conn, "PRAGMA foreign_keys = ON") {
            Ok(_) => {},
            Err(e) => {
                return Err(TagError::Store(e));
            },
        }
        match self.initialise_tables() {
            Ok(_) => {},
            Err(e) => {
                return Err(e);
            },
        }
        // Remove unused tags once they are no longer referenced.  "OLD"
        // references the row that was just deleted.
        match sqlite::exec_batch(
            &self.conn,
            "CREATE TRIGGER IF NOT EXISTS RemoveUnusedTags AFTER DELETE ON TagMapping BEGIN DELETE FROM Tag WHERE Tag.TagID = OLD.TagID AND NOT EXISTS( SELECT TRUE FROM TagMapping WHERE TagMapping.TagID = OLD.TagID); END",
        ) {
            Ok(_) => Ok(()),
            Err(e) => Err(TagError::Store(e)),
        }
    }

    fn initialise_tables(&self) -> (r: Result<(), TagError>) {
        match sqlite::exec_batch(
            &self.conn,
            "CREATE TABLE IF NOT EXISTS Tag ( TagID INTEGER PRIMARY KEY, Name TEXT NOT NULL, TakesValue BOOL NOT NULL, UNIQUE(Name) )",
        ) {
            Ok(_) => {},
            Err(e) => {
                return Err(TagError::Store(e));
            },
        }
        // The store treats nulls as distinct under unique constraints, so a
        // generated column stands in for the value there: it equals the
        // value column, or the text 'NULL' when the value is null.
        match sqlite::exec_batch(
            &self.conn,
            "CREATE TABLE IF NOT EXISTS TagMapping ( TagMappingID INTEGER PRIMARY KEY, Path TEXT NOT NULL, TagID INTEGER NOT NULL, Value TEXT, Auto BOOL NOT NULL, ValueUniqConstraint GENERATED ALWAYS AS (COALESCE(Value, 'NULL')), FOREIGN KEY(TagID) REFERENCES Tag(TagID), UNIQUE(TagID, ValueUniqConstraint, Path) )",
        ) {
            Ok(_) => {},
            Err(e) => {
                return Err(TagError::Store(e));
            },
        }
        match sqlite::exec_batch(
            &self.conn,
            "CREATE TABLE IF NOT EXISTS StoredQueries ( StoredQueryID INTEGER PRIMARY KEY, Name TEXT NOT NULL, Query TEXT NOT NULL, UNIQUE(Name) )",
        ) {
            Ok(_) => Ok(()),
            Err(e) => Err(TagError::Store(e)),
        }
    }

    /// Return a list of all stored queries in the database.
    pub fn stored_queries(&self) -> (r: Result<Vec<StoredQuery>, TagError>) {
        match sqlite::query_stored(
            &self.conn,
            "SELECT StoredQueries.Name, StoredQueries.Query FROM StoredQueries",
        ) {
            Ok(rows) => Ok(rows),
            Err(e) => Err(TagError::Store(e)),
        }
    }

    /// Create a stored query in the database.
    pub fn create_stored_query(&mut self, name: &str, query: &str) -> (r: Result<(), TagError>) {
        let mut ps: Vec<sqlite::SqlParam> = Vec::new();
        ps.push(sqlite::SqlParam::Text(name.to_owned()));
        ps.push(sqlite::SqlParam::Text(query.to_owned()));
        match sqlite::exec_sql(
            &self.conn,
            "INSERT INTO StoredQueries (Name, Query) VALUES (?, ?)",
            sqlite::params_to_values(ps),
        ) {
            Ok(_) => Ok(()),
            Err(e) => Err(TagError::Store(e)),
        }
    }

    /// Delete a stored query in the database by name. Returns whether any
    /// deletion occured.
    pub fn delete_stored_query(&mut self, name: &str) -> (r: Result<bool, TagError>) {
        let mut ps: Vec<sqlite::SqlParam> = Vec::new();
        ps.push(sqlite::SqlParam::Text(name.to_owned()));
        match sqlite::exec_sql(
            &self.conn,
            "DELETE FROM StoredQueries WHERE StoredQueries.Name = ?",
            sqlite::params_to_values(ps),
        ) {
            Ok(n) => Ok(n != 0),
            Err(e) => Err(TagError::Store(e)),
        }
    }

    /// This function tries to find a tag matching the str in the database,
    /// if it does not exist it returns None.
    pub fn get_tag(&self, tag: &str) -> (r: Option<TagInfo>) {
        let mut ps: Vec<sqlite::SqlParam> = Vec::new();
        ps.push(sqlite::SqlParam::Text(tag.to_owned()));
        match sqlite::query_tag_infos(
            &self.conn,
            "SELECT TagID, Name, TakesValue FROM Tag WHERE Name = ?",
            sqlite::params_to_values(ps),
        ) {
            Ok(mut rows) => {
                if rows.len() > 0 {
                    Some(rows.remove(0))
                } else {
                    None
                }
            },
            Err(_) => None,
        }
    }

    /// This function creates a tag in the database.
    ///
    /// It can fail if a tag already exists with the same name.
    fn create_tag(&mut self, tag: &str, takes_value: bool) -> (r: Result<TagInfo, TagError>)
        ensures
            r matches Ok(t) ==> t.name@ == tag@ && t.takes_value == takes_value,
            r matches Err(e) ==> e is Store,
    {
        let mut ps: Vec<sqlite::SqlParam> = Vec::new();
        ps.push(sqlite::SqlParam::Text(tag.to_owned()));
        ps.push(sqlite::SqlParam::Flag(takes_value));
        match sqlite::exec_sql(
            &self.conn,
            "INSERT INTO Tag (Name, TakesValue) VALUES (?, ?)",
            sqlite::params_to_values(ps),
        ) {
            Ok(_) => Ok(
                TagInfo::new(sqlite::last_insert_rowid(&self.conn), tag.to_owned(), takes_value),
            ),
            Err(e) => Err(TagError::Store(e)),
        }
    }

    /// Helper function to perform a manual tag.
    pub fn tag(&mut self, path: &str, tag_name: &str, value: Option<&str>) -> (r: Result<
        (),
        TagError,
    >)
        ensures
            r matches Err(TagError::TagTakesValue { tag: t }) ==> t@ == tag_name@ && value
                is None,
            r matches Err(TagError::TagTakesNoValue { tag: t }) ==> t@ == tag_name@ && value
                is Some,
            r matches Err(TagError::DuplicateTag { path: p, tag: t, value: v }) ==> p@ == path@
                && t@ == tag_name@ && (match v {
                Some(vs) => value matches Some(vv) && vs@ == vv@,
                None => value is None,
            }),
    {
        self.tag_inner(path, tag_name, value, false)
    }

    /// Helper function to perform an automatic tag.  Unlike the manual
    /// variant, tagging a path that already carries the `(tag, value)` pair
    /// is not an error: the duplicate is suppressed and the store is left
    /// as it was.
    pub fn autotag(&mut self, path: &str, tag_name: &str, value: Option<&str>) -> (r: Result<
        (),
        TagError,
    >)
        ensures
            r matches Err(TagError::TagTakesValue { tag: t }) ==> t@ == tag_name@ && value
                is None,
            r matches Err(TagError::TagTakesNoValue { tag: t }) ==> t@ == tag_name@ && value
                is Some,
            r matches Err(e) ==> (e is TagTakesValue || e is TagTakesNoValue || e is Store),
    {
        match self.tag_inner(path, tag_name, value, true) {
            Err(TagError::DuplicateTag { .. }) => Ok(()),
            outcome => outcome,
        }
    }

    /// This function creates a mapping between a tag and a path in the
    /// database.
    ///
    /// It can fail if a mapping already exists with the same tag, path and
    /// value. It can also fail if the tag is required to take a value and
    /// one was not given or the opposite; [`TagInfo::check_value`] decides
    /// that, so symmetry is enforced on every insertion.
    fn tag_inner(&mut self, path: &str, tag_name: &str, value: Option<&str>, auto: bool) -> (r:
        Result<(), TagError>)
        ensures
            r matches Err(TagError::TagTakesValue { tag: t }) ==> t@ == tag_name@ && value
                is None,
            r matches Err(TagError::TagTakesNoValue { tag: t }) ==> t@ == tag_name@ && value
                is Some,
            r matches Err(TagError::DuplicateTag { path: p, tag: t, value: v }) ==> p@ == path@
                && t@ == tag_name@ && (match v {
                Some(vs) => value matches Some(vv) && vs@ == vv@,
                None => value is None,
            }),
            r matches Err(e) ==> (e is TagTakesValue || e is TagTakesNoValue || e
                is DuplicateTag || e is Store),
    {
        let tag = match self.get_tag(tag_name) {
            Some(t) => {
                match t.check_value(value.is_some()) {
                    Ok(_) => t,
                    Err(TagError::TagTakesValue { .. }) => {
                        return Err(TagError::TagTakesValue { tag: tag_name.to_owned() });
                    },
                    Err(TagError::TagTakesNoValue { .. }) => {
                        return Err(TagError::TagTakesNoValue { tag: tag_name.to_owned() });
                    },
                    Err(e) => {
                        proof {
                            assert(false);
                        }
                        return Err(e);
                    },
                }
            },
            None => {
                match self.create_tag(tag_name, value.is_some()) {
                    Ok(t) => t,
                    Err(e) => {
                        return Err(e);
                    },
                }
            },
        };
        let mut ps: Vec<sqlite::SqlParam> = Vec::new();
        ps.push(sqlite::SqlParam::Int(tag.id));
        ps.push(sqlite::SqlParam::Text(path.to_owned()));
        ps.push(sqlite::SqlParam::MaybeText(clone_opt_str(value)));
        ps.push(sqlite::SqlParam::Flag(auto));
        match sqlite::exec_sql(
            &self.conn,
            "INSERT INTO TagMapping (TagID, Path, Value, Auto) VALUES (?, ?, ?, ?)",
            sqlite::params_to_values(ps),
        ) {
            Ok(_) => Ok(()),
            Err(e) => {
                if sqlite::is_unique_violation(&e) {
                    Err(
                        TagError::DuplicateTag {
                            path: path.to_owned(),
                            tag: tag_name.to_owned(),
                            value: clone_opt_str(value),
                        },
                    )
                } else {
                    Err(TagError::Store(e))
                }
            },
        }
    }

    /// Returns a list of the tags for a particular path.
    pub fn tags(&self, path: &str) -> (r: Result<Vec<TagMapping>, TagError>) {
        self.tags_inner(Some(path))
    }

    /// Returns the mapping rows for one path, or for every path, in
    /// mapping-id order.
    fn tags_inner(&self, path: Option<&str>) -> (r: Result<Vec<TagMapping>, TagError>) {
        let outcome = match path {
            Some(p) => {
                let mut ps: Vec<sqlite::SqlParam> = Vec::new();
                ps.push(sqlite::SqlParam::Text(p.to_owned()));
                sqlite::query_mappings(
                    &self.conn,
                    "SELECT Tag.TagID, Tag.Name, Tag.TakesValue, TagMapping.TagMappingID, TagMapping.Path, TagMapping.Value, TagMapping.Auto FROM TagMapping INNER JOIN Tag ON Tag.TagID = TagMapping.TagID WHERE TagMapping.Path = ? ORDER BY TagMapping.TagMappingID",
                    sqlite::params_to_values(ps),
                )
            },
            None => sqlite::query_mappings(
                &self.conn,
                "SELECT Tag.TagID, Tag.Name, Tag.TakesValue, TagMapping.TagMappingID, TagMapping.Path, TagMapping.Value, TagMapping.Auto FROM TagMapping INNER JOIN Tag ON Tag.TagID = TagMapping.TagID ORDER BY TagMapping.TagMappingID",
                Vec::new(),
            ),
        };
        match outcome {
            Ok(rows) => Ok(rows),
            Err(e) => Err(TagError::Store(e)),
        }
    }

    /// Returns a list of paths tagged with a particular tag, with their
    /// mapping ids, in mapping-id order.
    pub fn paths_with_tag(&mut self, tag: &str, value: Option<&str>) -> (r: Result<
        Vec<(String, u64)>,
        TagError,
    >) {
        let outcome = match value {
            Some(v) => {
                let mut ps: Vec<sqlite::SqlParam> = Vec::new();
                ps.push(sqlite::SqlParam::Text(tag.to_owned()));
                ps.push(sqlite::SqlParam::Text(v.to_owned()));
                sqlite::query_path_ids(
                    &self.conn,
                    "SELECT TagMapping.Path, TagMapping.TagMappingID FROM TagMapping INNER JOIN Tag ON Tag.TagID = TagMapping.TagID WHERE Tag.Name = ? AND TagMapping.Value = ? ORDER BY TagMapping.TagMappingID",
                    sqlite::params_to_values(ps),
                )
            },
            None => {
                let mut ps: Vec<sqlite::SqlParam> = Vec::new();
                ps.push(sqlite::SqlParam::Text(tag.to_owned()));
                sqlite::query_path_ids(
                    &self.conn,
                    "SELECT TagMapping.Path, TagMapping.TagMappingID FROM TagMapping INNER JOIN Tag ON Tag.TagID = TagMapping.TagID WHERE Tag.Name = ? ORDER BY TagMapping.TagMappingID",
                    sqlite::params_to_values(ps),
                )
            },
        };
        match outcome {
            Ok(rows) => Ok(rows),
            Err(e) => Err(TagError::Store(e)),
        }
    }

    /// Returns all values used for a particular tag: distinct, in first-use
    /// order.  On a valueless tag the null value row fails the read, which
    /// is reported as the tag not taking any values.
    pub fn values(&mut self, tag: &str) -> (r: Result<Vec<String>, TagError>)
        ensures
            r matches Err(e) ==> (e matches TagError::NoValues { tag: t } && t@ == tag@),
    {
        let mut ps: Vec<sqlite::SqlParam> = Vec::new();
        ps.push(sqlite::SqlParam::Text(tag.to_owned()));
        match sqlite::query_strings(
            &self.conn,
            "SELECT DISTINCT TagMapping.Value FROM TagMapping INNER JOIN Tag ON Tag.TagID = TagMapping.TagID WHERE Tag.Name = ? ORDER BY TagMapping.TagMappingID ASC",
            sqlite::params_to_values(ps),
        ) {
            Ok(rows) => Ok(rows),
            Err(_) => Err(TagError::NoValues { tag: tag.to_owned() }),
        }
    }

    /// Returns the names of all tags that appear in the database, in
    /// tag-id order.
    pub fn all_tags(&mut self) -> (r: Result<Vec<String>, TagError>) {
        match sqlite::query_strings(
            &self.conn,
            "SELECT Name FROM Tag ORDER BY Tag.TagID",
            Vec::new(),
        ) {
            Ok(rows) => Ok(rows),
            Err(e) => Err(TagError::Store(e)),
        }
    }

    /// Decides an `untag` request's outcome from how many mapping rows the
    /// store's delete removed: removing nothing is the `UntagMissing`
    /// error, removing anything is success.
    pub fn untag_outcome(rows_changed: usize, path: &str, tag: &str, value: Option<&str>) -> (r:
        Result<(), TagError>)
        ensures
            r is Ok <==> rows_changed != 0,
            rows_changed == 0 ==> (r matches Err(TagError::UntagMissing {
                path: p,
                tag: t,
                value: v,
            }) && p@ == path@ && t@ == tag@ && (match v {
                Some(vs) => value matches Some(vv) && vs@ == vv@,
                None => value is None,
            })),
    {
        if rows_changed == 0 {
            Err(
                TagError::UntagMissing {
                    path: path.to_owned(),
                    tag: tag.to_owned(),
                    value: clone_opt_str(value),
                },
            )
        } else {
            Ok(())
        }
    }

    /// Decides an `untag_all` request's outcome from how many mapping rows
    /// the store's delete removed: removing nothing is the
    /// `UntagAllMissing` error, removing anything is success.
    pub fn untag_all_outcome(rows_changed: usize, path: &str) -> (r: Result<(), TagError>)
        ensures
            r is Ok <==> rows_changed != 0,
            rows_changed == 0 ==> (r matches Err(TagError::UntagAllMissing { path: p }) && p@
                == path@),
    {
        if rows_changed == 0 {
            Err(TagError::UntagAllMissing { path: path.to_owned() })
        } else {
            Ok(())
        }
    }

    /// Remove a tag from a path.  With a value, only the exact
    /// `(tag, value)` mapping goes; without one, every mapping of the tag
    /// on that path goes.  Removing nothing is an error: the delete's row
    /// count decides through [`Database::untag_outcome`].
    pub fn untag(&mut self, path: &str, tag: &str, value: Option<&str>) -> (r: Result<
        (),
        TagError,
    >)
        ensures
            r matches Err(TagError::UntagMissing { path: p, tag: t, value: v }) ==> p@ == path@
                && t@ == tag@ && (match v {
                Some(vs) => value matches Some(vv) && vs@ == vv@,
                None => value is None,
            }),
            r matches Err(e) ==> (e is UntagMissing || e is Store),
    {
        let outcome = match value {
            Some(v) => {
                let mut ps: Vec<sqlite::SqlParam> = Vec::new();
                ps.push(sqlite::SqlParam::Text(path.to_owned()));
                ps.push(sqlite::SqlParam::Text(v.to_owned()));
                ps.push(sqlite::SqlParam::Text(tag.to_owned()));
                sqlite::exec_sql(
                    &self.conn,
                    "DELETE FROM TagMapping WHERE TagMapping.Path = ? AND TagMapping.Value = ? AND TagMapping.TagID in (SELECT Tag.TagID FROM Tag WHERE Tag.Name = ?)",
                    sqlite::params_to_values(ps),
                )
            },
            None => {
                let mut ps: Vec<sqlite::SqlParam> = Vec::new();
                ps.push(sqlite::SqlParam::Text(path.to_owned()));
                ps.push(sqlite::SqlParam::Text(tag.to_owned()));
                sqlite::exec_sql(
                    &self.conn,
                    "DELETE FROM TagMapping WHERE TagMapping.Path = ? AND TagMapping.TagID in (SELECT Tag.TagID FROM Tag WHERE Tag.Name = ?)",
                    sqlite::params_to_values(ps),
                )
            },
        };
        match outcome {
            Ok(n) => Self::untag_outcome(n, path, tag, value),
            Err(e) => Err(TagError::Store(e)),
        }
    }

    /// Remove all tags from a path.  Removing nothing is an error: the
    /// delete's row count decides through [`Database::untag_all_outcome`].
    pub fn untag_all(&mut self, path: &str) -> (r: Result<(), TagError>)
        ensures
            r matches Err(TagError::UntagAllMissing { path: p }) ==> p@ == path@,
            r matches Err(e) ==> (e is UntagAllMissing || e is Store),
    {
        let mut ps: Vec<sqlite::SqlParam> = Vec::new();
        ps.push(sqlite::SqlParam::Text(path.to_owned()));
        match sqlite::exec_sql(
            &self.conn,
            "DELETE FROM TagMapping WHERE TagMapping.Path = ?",
            sqlite::params_to_values(ps),
        ) {
            Ok(n) => Self::untag_all_outcome(n, path),
            Err(e) => Err(TagError::Store(e)),
        }
    }

    /// Build and execute a user query.
    ///
    /// A query the lexer or the translation rejects never reaches the
    /// store; either way a failure is reported as an invalid query, so a
    /// store rejection of the translated expression reads the same as a
    /// malformed one.
    pub fn query(&mut self, query_text: &str, case_sensitive: bool) -> (r: Result<
        Vec<(String, u64)>,
        TagError,
    >)
        ensures
            to_sql_spec(lex_spec(query_text@), case_sensitive) is None ==> r is Err,
            r is Ok ==> to_sql_spec(lex_spec(query_text@), case_sensitive) is Some,
            r matches Err(e) ==> e is InvalidQuery,
    {
        let q = match Query::from_raw(query_text, case_sensitive) {
            Ok(q) => q,
            Err(e) => {
                return Err(e);
            },
        };
        match q.execute(self) {
            Ok(rows) => Ok(rows),
            Err(e) => Err(TagError::InvalidQuery { detail: e.message() }),
        }
    }

    /// Returns the distinct paths that begin with the given prefix, in
    /// mapping-id order; the containment metacharacters of the prefix are
    /// escaped, so the prefix is matched literally.
    pub fn paths_with_prefix(&self, prefix: &str) -> (r: Result<Vec<String>, TagError>) {
        let escaped_prefix = query::like_escape(prefix);
        let mut ps: Vec<sqlite::SqlParam> = Vec::new();
        ps.push(sqlite::SqlParam::Text(escaped_prefix));
        match sqlite::query_strings(
            &self.conn,
            "SELECT DISTINCT TagMapping.Path FROM TagMapping WHERE TagMapping.Path LIKE (? || '%') ESCAPE '\\' ORDER BY TagMapping.TagMappingID",
            sqlite::params_to_values(ps),
        ) {
            Ok(rows) => Ok(rows),
            Err(e) => Err(TagError::Store(e)),
        }
    }

    /// On every mapping whose path begins with `old_prefix`, replaces that
    /// leading prefix with `new_prefix` (later occurrences inside the path
    /// stay as they are).
    pub fn prefix_change(&mut self, old_prefix: &str, new_prefix: &str) -> (r: Result<
        (),
        TagError,
    >) {
        let escaped_old_prefix = query::like_escape(old_prefix);
        let mut ps: Vec<sqlite::SqlParam> = Vec::new();
        ps.push(sqlite::SqlParam::Text(new_prefix.to_owned()));
        ps.push(sqlite::SqlParam::Text(old_prefix.to_owned()));
        ps.push(sqlite::SqlParam::Text(escaped_old_prefix));
        match sqlite::exec_sql(
            &self.conn,
            "UPDATE TagMapping SET Path = (? || SUBSTR(TagMapping.Path, LENGTH(?) + 1)) WHERE Path LIKE (? || '%') ESCAPE '\\'",
            sqlite::params_to_values(ps),
        ) {
            Ok(_) => Ok(()),
            Err(e) => Err(TagError::Store(e)),
        }
    }

    /// Given a mapping id return the path associated with it in the
    /// database, as it stands right now.
    pub fn get_path_from_id(&mut self, tag_mapping_id: u64) -> (r: Result<String, TagError>)
        ensures
            r matches Err(TagError::MappingMissing { id }) ==> id == tag_mapping_id,
    {
        let mut ps: Vec<sqlite::SqlParam> = Vec::new();
        ps.push(sqlite::SqlParam::Int(tag_mapping_id as i64));
        match sqlite::query_strings(
            &self.conn,
            "SELECT TagMapping.Path FROM TagMapping WHERE TagMapping.TagMappingID = ?",
            sqlite::params_to_values(ps),
        ) {
            Ok(mut rows) => {
                if rows.len() > 0 {
                    Ok(rows.remove(0))
                } else {
                    Err(TagError::MappingMissing { id: tag_mapping_id })
                }
            },
            Err(e) => Err(TagError::Store(e)),
        }
    }
}

/// Locates an existing tag database, or creates and initialises tables in
/// a new database. \
/// If path is None the database is created in memory (useful for testing).
pub fn get_or_create_db(path: Option<&str>) -> (r: Result<Database, TagError>) {
    let conn = match path {
        Some(p) => sqlite::open_connection(p),
        None => sqlite::open_in_memory_connection(),
    };
    let db = match conn {
        Ok(c) => Database { conn: c },
        Err(e) => {
            return Err(TagError::Store(e));
        },
    };
    match db.init() {
        Ok(_) => Ok(db),
        Err(e) => Err(e),
    }
}


impl Database {
    /// Serialises the whole store to the edit representation: a comment
    /// header, then one block per tagged path in first-use order.
    pub fn to_edit_repr(&self) -> (r: Result<String, TagError>)
        ensures
            r matches Ok(s) ==> s@.len() >= edit_header_spec().len() && s@.take(
                edit_header_spec().len() as int,
            ) == edit_header_spec(),
    {
        let mut out = edit_repr::render_edit_header();
        let paths = match self.paths_with_prefix("") {
            Ok(p) => p,
            Err(e) => {
                return Err(e);
            },
        };
        let ghost hd = edit_header_spec();
        proof {
            assert(out@.take(hd.len() as int) =~= hd);
        }
        let mut i: usize = 0;
        while i < paths.len()
            invariant
                out@.len() >= edit_header_spec().len(),
                out@.take(edit_header_spec().len() as int) == edit_header_spec(),
            decreases paths@.len() - i,
        {
            let tags = match self.tags(paths[i].as_str()) {
                Ok(t) => t,
                Err(e) => {
                    return Err(e);
                },
            };
            let block = edit_repr::render_edit_block(paths[i].as_str(), &tags);
            let ghost before = out@;
            out.append(block.as_str());
            i += 1;
            proof {
                assert(out@.take(edit_header_spec().len() as int) =~= before.take(
                    edit_header_spec().len() as int,
                ));
            }
        }
        Ok(out)
    }

    /// Replaces the whole store with the contents of an edited dump.  The
    /// input is validated in full before anything is dropped; a dump with
    /// an unparsable tag line leaves the store untouched.
    pub fn from_edit_repr(&mut self, input: &str) -> (r: Result<(), TagError>)
        ensures
            r is Ok ==> parse_edit_spec(input@) is Some,
            (r matches Err(e) && e is EditParse) <==> parse_edit_spec(input@) is None,
    {
        let groups = match edit_repr::parse_edit_repr(input) {
            Ok(g) => g,
            Err(e) => {
                return Err(e);
            },
        };
        // The trigger should already have wiped the tag table once its
        // mappings go, but better safe than sorry.
        match sqlite::exec_batch(&self.conn, "DELETE FROM TagMapping; DELETE FROM Tag;") {
            Ok(_) => {},
            Err(e) => {
                return Err(TagError::Store(e));
            },
        }
        let mut gi: usize = 0;
        while gi < groups.len()
            invariant
                parse_edit_spec(input@) is Some,
            decreases groups@.len() - gi,
        {
            let mut ti: usize = 0;
            while ti < groups[gi].1.len()
                invariant
                    parse_edit_spec(input@) is Some,
                    gi < groups@.len(),
                decreases groups@[gi as int].1@.len() - ti,
            {
                let auto = groups[gi].1[ti].0;
                let pair = &groups[gi].1[ti].1;
                let value = match &pair.value {
                    Some(v) => Some(v.as_str()),
                    None => None,
                };
                match self.tag_inner(groups[gi].0.as_str(), pair.tag.as_str(), value, auto) {
                    Ok(_) => {},
                    Err(e) => {
                        return Err(e);
                    },
                }
                ti += 1;
            }
            gi += 1;
        }
        Ok(())
    }
}

} // verus!
