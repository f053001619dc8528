use libtagfs::db::{get_or_create_db, parse_edit_repr};
use libtagfs::error::TagError;

#[test]
fn edit_repr_round_trip() {
    let mut db = get_or_create_db(None).unwrap();
    db.tag("/media/film", "genre", Some("slice of life")).unwrap();
    db.tag("/media/film", "favourite", None).unwrap();
    db.autotag("/media/film", "year", Some("1995")).unwrap();
    db.tag("/media/song", "type", Some("music")).unwrap();

    let dump = db.to_edit_repr().unwrap();

    // The dump opens with the comment header.
    assert!(dump.starts_with("// You can edit this file as you please"));

    // The dump escapes spaces and separates manual tags from autotags.
    assert!(dump.contains("--------\n/media/film\ngenre=slice\\ of\\ life\nfavourite\n--AUTO--\nyear=1995\n--------\n"));
    assert!(dump.contains("--------\n/media/song\ntype=music\n--------\n"));

    // Reading the dump back rebuilds the same store contents.
    let mut fresh = get_or_create_db(None).unwrap();
    fresh.from_edit_repr(&dump).unwrap();

    let film_tags: Vec<_> = fresh
        .tags("/media/film")
        .unwrap()
        .into_iter()
        .map(|m| (m.tag.name, m.value, m.auto))
        .collect();
    assert_eq!(
        film_tags,
        vec![
            (String::from("genre"), Some(String::from("slice of life")), false),
            (String::from("favourite"), None, false),
            (String::from("year"), Some(String::from("1995")), true),
        ]
    );
    let song_tags: Vec<_> = fresh
        .tags("/media/song")
        .unwrap()
        .into_iter()
        .map(|m| (m.tag.name, m.value))
        .collect();
    assert_eq!(song_tags, vec![(String::from("type"), Some(String::from("music")))]);
}

#[test]
fn edit_repr_parses_comments_and_blanks() {
    let input = "// a comment\n\n--------\n/a/path\nhello=world\nbare\n--------\n";
    let groups = parse_edit_repr(input).unwrap();
    assert_eq!(groups.len(), 1);
    assert_eq!(groups[0].0, "/a/path");
    let rows: Vec<_> = groups[0]
        .1
        .iter()
        .map(|(auto, pair)| (*auto, pair.tag.clone(), pair.value.clone()))
        .collect();
    assert_eq!(
        rows,
        vec![
            (false, String::from("hello"), Some(String::from("world"))),
            (false, String::from("bare"), None),
        ]
    );
}

#[test]
fn edit_repr_rejects_bad_tag_lines() {
    let input = "--------\n/a/path\nthis is not a tag line\n--------\n";
    let refused = parse_edit_repr(input);
    assert!(matches!(refused, Err(TagError::EditParse { line: 3 })));

    // A store fed a bad dump is left untouched.
    let mut db = get_or_create_db(None).unwrap();
    db.tag("/keep", "kept", None).unwrap();
    assert!(db.from_edit_repr(input).is_err());
    assert_eq!(db.tags("/keep").unwrap().len(), 1);
}

#[test]
fn edit_repr_merges_repeated_paths() {
    let input = "--------\n/a\nx\n--------\n--------\n/b\ny\n--------\n--------\n/a\nz\n--------\n";
    let groups = parse_edit_repr(input).unwrap();
    assert_eq!(groups.len(), 2);
    assert_eq!(groups[0].0, "/a");
    assert_eq!(groups[1].0, "/b");
    let a_tags: Vec<_> = groups[0].1.iter().map(|(_, p)| p.tag.clone()).collect();
    assert_eq!(a_tags, vec![String::from("x"), String::from("z")]);
}


#[test]
fn auto_marker_is_scoped_to_its_block() {
    let input = "--------\n/first\n--AUTO--\nauto-tag\n--------\n--------\n/second\nmanual-tag\n--------\n";
    let groups = parse_edit_repr(input).unwrap();
    assert_eq!(groups.len(), 2);
    assert_eq!(groups[0].0, "/first");
    assert!(groups[0].1[0].0);
    assert_eq!(groups[1].0, "/second");
    assert!(!groups[1].1[0].0);
}
