use libtagfs::db::{get_or_create_db, Database, TagMapping};
use libtagfs::error::{TagError, TagFSErrorExt};

fn tags_mapping_helper(tags: &[TagMapping]) -> Vec<(&str, Option<&str>)> {
    tags.iter()
        .map(|tag_mapping| (tag_mapping.tag.name.as_str(), tag_mapping.value.as_deref()))
        .collect()
}

#[test]
fn db_runthrough() {
    let mut db = get_or_create_db(None).unwrap();

    db.tag("hello", "cool-tag", None).unwrap();

    let tags: Vec<_> = db
        .tags("hello")
        .unwrap()
        .into_iter()
        .map(|tag_mapping| tag_mapping.tag.name)
        .collect();

    assert_eq!(tags, &["cool-tag"]);

    db.tag("goodbye", "cool-tag", None).unwrap();

    let paths: Vec<_> = db
        .paths_with_tag("cool-tag", None)
        .unwrap()
        .into_iter()
        .map(|(path, _)| path)
        .collect();
    assert_eq!(paths, &["hello", "goodbye"]);
}

#[test]
fn db_untag() {
    let mut db = get_or_create_db(None).unwrap();

    let path = "Before Sunset (2004)";

    db.tag(path, "genre", Some("romance")).unwrap();

    assert!(db.tag(path, "genre", Some("romance")).is_err());

    db.tag(path, "genre", Some("slice-of-life")).unwrap();
    db.tag(path, "genre", Some("drama")).unwrap();
    db.tag(path, "actor", Some("Ethan Hawke")).unwrap();
    db.tag(path, "actor", Some("Julie Delpy")).unwrap();

    let tags = db.tags(path).unwrap();
    let tags = tags_mapping_helper(&tags);

    assert_eq!(
        tags,
        &[
            ("genre", Some("romance")),
            ("genre", Some("slice-of-life")),
            ("genre", Some("drama")),
            ("actor", Some("Ethan Hawke")),
            ("actor", Some("Julie Delpy")),
        ]
    );

    db.untag(path, "genre", Some("drama")).unwrap();

    let tags = db.tags(path).unwrap();
    let tags = tags_mapping_helper(&tags);

    assert_eq!(
        tags,
        &[
            ("genre", Some("romance")),
            ("genre", Some("slice-of-life")),
            ("actor", Some("Ethan Hawke")),
            ("actor", Some("Julie Delpy")),
        ]
    );

    db.untag(path, "genre", None).unwrap();

    let tags = db.tags(path).unwrap();
    let tags = tags_mapping_helper(&tags);

    assert_eq!(tags, &[("actor", Some("Ethan Hawke")), ("actor", Some("Julie Delpy"))]);

    let values: Vec<_> = db.values("actor").unwrap().into_iter().collect();
    assert_eq!(values, &["Ethan Hawke", "Julie Delpy"]);

    db.untag_all(path).unwrap();

    let tags = db.tags(path).unwrap();
    assert!(tags.is_empty());
}

#[test]
fn db_values() {
    let mut db = get_or_create_db(None).unwrap();

    db.tag("super-cool-film", "genre", Some("crime")).unwrap();
    db.tag("another-super-cool-film", "genre", Some("crime")).unwrap();

    let values = db.values("genre").unwrap();

    assert_eq!(values, &["crime"]);

    db.tag("super-cool-film", "very-cool", None).unwrap();

    assert!(db.values("very-cool").is_err());
}

#[test]
fn db_query() {
    let mut db = get_or_create_db(None).unwrap();

    db.tag("Casino (1995)", "genre", Some("crime")).unwrap();
    db.tag("Before Sunrise (1995)", "genre", Some("romance")).unwrap();
    db.tag("Before Sunrise (1995)", "genre", Some("slice-of-life")).unwrap();
    db.tag("Before Sunset (2004)", "genre", Some("romance")).unwrap();
    db.tag("Heat (1995)", "genre", Some("crime")).unwrap();

    db.tag("Casino (1995)", "favourite", None).unwrap();
    db.tag("Before Sunrise (1995)", "favourite", None).unwrap();

    db.tag("Before Sunrise (1995)", "actor", Some("Julie Delpy")).unwrap();
    db.tag("Before Sunset (2004)", "actor", Some("Julie Delpy")).unwrap();

    db.tag("Before Sunrise (1995)", "year", Some("1995")).unwrap();
    db.tag("Before Sunset (2004)", "year", Some("2004")).unwrap();
    db.tag("Casino (1995)", "year", Some("1995")).unwrap();
    db.tag("Heat (1995)", "year", Some("1995")).unwrap();

    let paths = db
        .query("genre==romance or not favourite and genre==crime", false)
        .unwrap()
        .into_iter()
        .map(|(path, _)| path)
        .collect::<Vec<_>>();

    assert_eq!(paths, &["Before Sunrise (1995)", "Before Sunset (2004)", "Heat (1995)"]);

    let paths = db
        .query("genre==romance and favourite", false)
        .unwrap()
        .into_iter()
        .map(|(path, _)| path)
        .collect::<Vec<_>>();

    assert_eq!(paths, &["Before Sunrise (1995)"]);

    let paths = db
        .query("not genre==crime", false)
        .unwrap()
        .into_iter()
        .map(|(path, _)| path)
        .collect::<Vec<_>>();

    assert_eq!(paths, &["Before Sunrise (1995)", "Before Sunset (2004)"]);

    let paths = db
        .query("actor==\"Julie Delpy\"", false)
        .unwrap()
        .into_iter()
        .map(|(path, _)| path)
        .collect::<Vec<_>>();

    assert_eq!(paths, &["Before Sunrise (1995)", "Before Sunset (2004)"]);

    // A malformed query should result in an error.
    assert!(db.query("actor \"Julie Delpy\"", false).is_err());

    let paths = db.query("actor==\"julie delpy\"", true).unwrap();
    assert!(paths.is_empty());

    let paths = db.query("genre==ROMANCE", true).unwrap();
    assert!(paths.is_empty());

    let paths = db
        .query("genre==rOMANCE", false)
        .unwrap()
        .into_iter()
        .map(|(path, _)| path)
        .collect::<Vec<_>>();
    assert_eq!(paths, &["Before Sunrise (1995)", "Before Sunset (2004)"]);

    let paths = db
        .query("genre=romance and actor=deLpY and not genre=slice", false)
        .unwrap()
        .into_iter()
        .map(|(path, _)| path)
        .collect::<Vec<_>>();

    assert_eq!(paths, &["Before Sunset (2004)"]);

    let paths = db
        .query("year > 1995", false)
        .unwrap()
        .into_iter()
        .map(|(path, _)| path)
        .collect::<Vec<_>>();

    assert_eq!(paths, &["Before Sunset (2004)"]);

    let paths = db
        .query("year < 2000", false)
        .unwrap()
        .into_iter()
        .map(|(path, _)| path)
        .collect::<Vec<_>>();

    assert_eq!(paths, &["Casino (1995)", "Before Sunrise (1995)", "Heat (1995)"]);
}

#[test]
fn paths_with_tag_keeps_insertion_order() {
    let mut db = get_or_create_db(None).unwrap();

    db.tag("/c", "keep", Some("x")).unwrap();
    db.tag("/a", "keep", Some("x")).unwrap();
    db.tag("/b", "other", None).unwrap();
    db.tag("/b", "keep", Some("x")).unwrap();

    let paths: Vec<_> = db
        .paths_with_tag("keep", Some("x"))
        .unwrap()
        .into_iter()
        .map(|(path, _)| path)
        .collect();
    assert_eq!(paths, &["/c", "/a", "/b"]);

    let ids: Vec<_> = db
        .paths_with_tag("keep", Some("x"))
        .unwrap()
        .into_iter()
        .map(|(_, id)| id)
        .collect();
    assert!(ids[0] < ids[1] && ids[1] < ids[2]);
}

#[test]
fn orphan_tag_rows_are_removed() {
    let mut db = get_or_create_db(None).unwrap();

    db.tag("/film", "genre", Some("crime")).unwrap();
    db.tag("/other", "genre", Some("noir")).unwrap();
    assert!(db.get_tag("genre").is_some());

    db.untag("/film", "genre", None).unwrap();
    assert!(db.get_tag("genre").is_some());

    db.untag("/other", "genre", None).unwrap();
    assert!(db.get_tag("genre").is_none());
}

#[test]
fn takes_value_symmetry_is_enforced() {
    let mut db = get_or_create_db(None).unwrap();

    db.tag("/a", "valued", Some("x")).unwrap();
    let refused = db.tag("/b", "valued", None);
    assert!(matches!(refused, Err(TagError::TagTakesValue { .. })));

    db.tag("/a", "bare", None).unwrap();
    let refused = db.tag("/b", "bare", Some("y"));
    assert!(matches!(refused, Err(TagError::TagTakesNoValue { .. })));

    // Once the last mapping is gone the tag may change its shape.
    db.untag("/a", "valued", None).unwrap();
    db.tag("/b", "valued", None).unwrap();
}

#[test]
fn stored_queries_crud() {
    let mut db = get_or_create_db(None).unwrap();

    assert!(db.stored_queries().unwrap().is_empty());
    db.create_stored_query("my-query", "type=cool").unwrap();

    let stored = db.stored_queries().unwrap();
    assert_eq!(stored.len(), 1);
    assert_eq!(stored[0].name, "my-query");
    assert_eq!(stored[0].query, "type=cool");
    assert_eq!(stored[0].render(), "my-query @ [type=cool]");

    assert!(db.delete_stored_query("my-query").unwrap());
    assert!(!db.delete_stored_query("my-query").unwrap());
    assert!(db.stored_queries().unwrap().is_empty());
}

#[test]
fn prefix_change_rewrites_paths() {
    let mut db = get_or_create_db(None).unwrap();

    db.tag("/old/film", "genre", Some("crime")).unwrap();
    db.tag("/old/other", "genre", Some("noir")).unwrap();
    db.tag("/elsewhere/film", "genre", Some("drama")).unwrap();

    db.prefix_change("/old/", "/new/").unwrap();

    let paths = db.paths_with_prefix("/new/").unwrap();
    assert_eq!(paths, &["/new/film", "/new/other"]);
    let untouched = db.paths_with_prefix("/elsewhere/").unwrap();
    assert_eq!(untouched, &["/elsewhere/film"]);
}

#[test]
fn prefix_change_replaces_only_the_leading_occurrence() {
    let mut db = get_or_create_db(None).unwrap();

    db.tag("/a/x/a/y", "t", None).unwrap();
    db.prefix_change("/a/", "/b/").unwrap();

    let paths = db.paths_with_prefix("").unwrap();
    assert_eq!(paths, &["/b/x/a/y"]);
}


#[test]
fn error_messages_match_their_shapes() {
    let mut db = get_or_create_db(None).unwrap();
    db.tag("/film", "genre", Some("crime")).unwrap();

    let dup = db.tag("/film", "genre", Some("crime")).unwrap_err();
    assert_eq!(dup.message(), "\"/film\" already has tag \"genre=crime\".");

    let missing = db.untag("/film", "genre", Some("noir")).unwrap_err();
    assert_eq!(
        missing.message(),
        "could not remove tag \"genre=noir\" from \"/film\". Does it exist?"
    );

    let none_left = db.untag_all("/absent").unwrap_err();
    assert_eq!(
        none_left.message(),
        "could not remove tags from path \"/absent\". Does it exist?"
    );

    let needs_value = db.tag("/film", "genre", None).unwrap_err();
    assert_eq!(needs_value.message(), "tag \"genre\" takes a value but one was not given");
}

#[test]
fn autotag_suppresses_duplicates() {
    let mut db = get_or_create_db(None).unwrap();

    db.autotag("film", "genre", Some("romance")).unwrap();
    // Re-applying the same automatic tag is quietly skipped.
    db.autotag("film", "genre", Some("romance")).unwrap();

    let tags = db.tags("film").unwrap();
    assert_eq!(tags.len(), 1);

    // The manual variant surfaces the duplicate, and the helper names it a
    // unique-constraint failure.
    let refused = db.tag("film", "genre", Some("romance"));
    assert!(matches!(refused, Err(TagError::DuplicateTag { .. })));
    assert!(refused.is_sql_unique_cons_err());
}

#[test]
fn untag_outcome_decides_by_rows_changed() {
    assert!(Database::untag_outcome(1, "p", "t", None).is_ok());
    assert!(Database::untag_outcome(3, "p", "t", Some("v")).is_ok());
    let missing = Database::untag_outcome(0, "p", "t", Some("v"));
    match missing {
        Err(TagError::UntagMissing { path, tag, value }) => {
            assert_eq!(path, "p");
            assert_eq!(tag, "t");
            assert_eq!(value.as_deref(), Some("v"));
        }
        other => panic!("expected UntagMissing, got {other:?}"),
    }
    assert!(Database::untag_all_outcome(2, "p").is_ok());
    assert!(matches!(
        Database::untag_all_outcome(0, "p"),
        Err(TagError::UntagAllMissing { .. })
    ));
}

#[test]
fn values_of_valueless_tag_is_a_clear_error() {
    let mut db = get_or_create_db(None).unwrap();
    db.tag("path", "plain", None).unwrap();
    let refused = db.values("plain");
    match refused {
        Err(e @ TagError::NoValues { .. }) => {
            assert_eq!(e.message(), "tag \"plain\" does not take any values");
        }
        other => panic!("expected NoValues, got {other:?}"),
    }
}
