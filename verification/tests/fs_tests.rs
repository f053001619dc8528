use libtagfs::db::get_or_create_db;
use libtagfs::fs::{DirEntry, FileKind, TagFS};

fn sorted_names(entries: &[DirEntry]) -> Vec<String> {
    let mut names: Vec<String> = entries.iter().map(|e| e.name.clone()).collect();
    names.sort();
    names
}

fn child_named(entries: &[DirEntry], name: &str) -> DirEntry {
    for e in entries.iter() {
        if e.name == name {
            return DirEntry { ino: e.ino, offset: e.offset, kind: e.kind, name: e.name.clone() };
        }
    }
    panic!("no child named {:?}", name);
}

#[test]
fn frontend_runthrough() {
    let mut db = get_or_create_db(None).unwrap();

    db.tag("/my/very/cool/path", "hello", None).unwrap();
    db.tag("/my/very/cool/path", "type", Some("awesome")).unwrap();
    db.tag("/my/other/very/cool/file", "type", Some("cool")).unwrap();
    db.tag("/my/other/super/cool/path", "type", Some("awesome")).unwrap();
    db.tag("/my/other/very/cool/path", "type", Some("cool")).unwrap();
    db.tag("/my/other/super/cool/file", "type", Some("awesome")).unwrap();
    db.tag("/my/other/super/cool/file", "type", Some("cool")).unwrap();
    db.tag("/some/path/", "mytag", Some("a value with a / in it")).unwrap();
    db.create_stored_query("my-query", "type=cool").unwrap();

    let mut fs = TagFS::new(db, 1000);

    // The root lists the two reserved children and one directory per tag.
    let root = fs.readdir(1, 0).unwrap();
    assert_eq!(sorted_names(&root), &["?", "hello", "mytag", "tags", "type"]);

    // A valueless tag directory holds links.
    let hello = fs.lookup(1, "hello").unwrap().unwrap();
    assert_eq!(hello.kind, FileKind::Directory);
    let hello_children = fs.readdir(hello.ino, 0).unwrap();
    assert_eq!(sorted_names(&hello_children), &["path"]);
    let link = child_named(&hello_children, "path");
    assert_eq!(link.kind, FileKind::Symlink);
    assert_eq!(fs.readlink(link.ino).unwrap(), "/my/very/cool/path");

    // A valued tag directory holds one directory per distinct value.
    let type_dir = fs.lookup(1, "type").unwrap().unwrap();
    let type_children = fs.readdir(type_dir.ino, 0).unwrap();
    assert_eq!(sorted_names(&type_children), &["awesome", "cool"]);

    // Colliding basenames are disambiguated with their position.
    let awesome = child_named(&type_children, "awesome");
    let awesome_children = fs.readdir(awesome.ino, 0).unwrap();
    assert_eq!(sorted_names(&awesome_children), &["file", "path.0", "path.1"]);

    // An ad-hoc query under the query directory lists its results: five
    // links, with both colliding basenames disambiguated by position (the
    // store decides the row order, so only the shape is pinned here).
    let qdir = fs.lookup(1, "?").unwrap().unwrap();
    let adhoc = fs.lookup(qdir.ino, "type=awesome or type=cool").unwrap().unwrap();
    let adhoc_children = fs.readdir(adhoc.ino, 0).unwrap();
    let adhoc_names = sorted_names(&adhoc_children);
    assert_eq!(adhoc_names.len(), 5);
    assert_eq!(adhoc_names.iter().filter(|n| n.starts_with("path.")).count(), 3);
    assert_eq!(adhoc_names.iter().filter(|n| n.starts_with("file.")).count(), 2);
    for i in 0..adhoc_names.len() {
        for j in 0..i {
            assert_ne!(adhoc_names[i], adhoc_names[j]);
        }
    }

    let adhoc_and = fs.lookup(qdir.ino, "type=awesome and type=cool").unwrap().unwrap();
    let and_children = fs.readdir(adhoc_and.ino, 0).unwrap();
    assert_eq!(sorted_names(&and_children), &["file"]);

    // A malformed ad-hoc query resolves to nothing.
    assert!(fs.lookup(qdir.ino, "== type").unwrap().is_none());

    // The stored query is listed under its display name and resolves.
    let qdir_children = fs.readdir(qdir.ino, 0).unwrap();
    let stored_names = sorted_names(&qdir_children);
    assert!(stored_names.contains(&String::from("my-query @ [type=cool]")));
    let stored = fs.lookup(qdir.ino, "my-query @ [type=cool]").unwrap().unwrap();
    let stored_children = fs.readdir(stored.ino, 0).unwrap();
    let stored_result_names = sorted_names(&stored_children);
    assert_eq!(stored_result_names.len(), 3);
    assert!(stored_result_names.contains(&String::from("path")));
    assert_eq!(stored_result_names.iter().filter(|n| n.starts_with("file.")).count(), 2);

    // The mirror hierarchy follows the tagged paths down to a tags file.
    let tags_dir = fs.lookup(1, "tags").unwrap().unwrap();
    let my = fs.lookup(tags_dir.ino, "my").unwrap().unwrap();
    let other = fs.lookup(my.ino, "other").unwrap().unwrap();
    let sup = fs.lookup(other.ino, "super").unwrap().unwrap();
    let cool = fs.lookup(sup.ino, "cool").unwrap().unwrap();
    let cool_children = fs.readdir(cool.ino, 0).unwrap();
    assert_eq!(sorted_names(&cool_children), &["file.tags", "path.tags"]);
    let file_tags = child_named(&cool_children, "file.tags");
    assert_eq!(file_tags.kind, FileKind::RegularFile);
    assert_eq!(fs.open(file_tags.ino).unwrap(), 0);
    assert_eq!(fs.read(file_tags.ino).unwrap(), "type=awesome\ntype=cool\n");

    // A value with a slash is displayed with an underscore, while the raw
    // value still reaches the store for the listing.
    let mytag = fs.lookup(1, "mytag").unwrap().unwrap();
    let mytag_children = fs.readdir(mytag.ino, 0).unwrap();
    assert_eq!(sorted_names(&mytag_children), &["a value with a _ in it"]);
    let value_dir = fs.lookup(mytag.ino, "a value with a _ in it").unwrap().unwrap();
    let value_children = fs.readdir(value_dir.ino, 0).unwrap();
    assert_eq!(sorted_names(&value_children), &["path"]);
    let slash_link = child_named(&value_children, "path");
    assert_eq!(fs.readlink(slash_link.ino).unwrap(), "/some/path/");

    // Unknown names resolve to nothing; listing only answers live inodes.
    assert!(fs.lookup(1, "missing").unwrap().is_none());
    assert!(fs.getattr(0).is_none());
    assert!(fs.open(hello.ino).is_err());
}

#[test]
fn mirror_file_lists_tags_in_insertion_order() {
    let mut db = get_or_create_db(None).unwrap();
    db.tag("/my/x/file", "k1", None).unwrap();
    db.tag("/my/x/file", "k2", Some("v")).unwrap();

    let mut fs = TagFS::new(db, 0);
    let tags_dir = fs.lookup(1, "tags").unwrap().unwrap();
    let my = fs.lookup(tags_dir.ino, "my").unwrap().unwrap();
    let x = fs.lookup(my.ino, "x").unwrap().unwrap();
    let leaves = fs.readdir(x.ino, 0).unwrap();
    assert_eq!(sorted_names(&leaves), &["file.tags"]);
    let leaf = child_named(&leaves, "file.tags");
    assert_eq!(fs.read(leaf.ino).unwrap(), "k1\nk2=v\n");
}

#[test]
fn readlink_follows_prefix_change_without_new_lookup() {
    let tmp = mktemp::Temp::new_file().unwrap();
    let db_path = tmp.as_path().to_str().unwrap().to_owned();

    let mut db = get_or_create_db(Some(&db_path)).unwrap();
    db.tag("/old/target", "t", None).unwrap();

    let mut fs = TagFS::new(db, 0);
    let t_dir = fs.lookup(1, "t").unwrap().unwrap();
    let children = fs.readdir(t_dir.ino, 0).unwrap();
    let link = child_named(&children, "target");
    assert_eq!(fs.readlink(link.ino).unwrap(), "/old/target");

    // Rename the prefix through a second store handle, as an out-of-band
    // writer would.
    let mut other_handle = get_or_create_db(Some(&db_path)).unwrap();
    other_handle.prefix_change("/old/", "/new/").unwrap();

    // The same link inode now reads the fresh path.
    assert_eq!(fs.readlink(link.ino).unwrap(), "/new/target");
}

#[test]
fn stale_links_are_not_reused_for_new_mappings() {
    let tmp = mktemp::Temp::new_file().unwrap();
    let db_path = tmp.as_path().to_str().unwrap().to_owned();

    let mut db = get_or_create_db(Some(&db_path)).unwrap();
    db.tag("/a/thing", "t", None).unwrap();
    // A second mapping keeps the highest row id alive, so the renamed
    // mapping below is handed a fresh id rather than a reused one.
    db.tag("/z/other", "t", None).unwrap();

    let mut fs = TagFS::new(db, 0);
    let t_dir = fs.lookup(1, "t").unwrap().unwrap();
    let first = child_named(&fs.readdir(t_dir.ino, 0).unwrap(), "thing");

    let mut other_handle = get_or_create_db(Some(&db_path)).unwrap();
    other_handle.untag("/a/thing", "t", None).unwrap();
    other_handle.tag("/b/thing", "t", None).unwrap();

    let second = child_named(&fs.readdir(t_dir.ino, 0).unwrap(), "thing");
    assert_ne!(first.ino, second.ino);
    assert_eq!(fs.readlink(second.ino).unwrap(), "/b/thing");
}

#[test]
fn readdir_root_pages_the_flat_sequence() {
    let mut db = get_or_create_db(None).unwrap();
    db.tag("p1", "alpha", None).unwrap();
    db.tag("p2", "beta", None).unwrap();
    let mut fs = TagFS::new(db, 0);

    // The full listing is the flat sequence `?`, `tags`, then every tag,
    // each row's resume offset being its flat position plus one.
    let all = fs.readdir(1, 0).unwrap();
    let names: Vec<String> = all.iter().map(|e| e.name.clone()).collect();
    assert_eq!(names, ["?", "tags", "alpha", "beta"]);
    for (k, e) in all.iter().enumerate() {
        assert_eq!(e.offset, k as i64 + 1);
    }

    // Resuming from any offset yields exactly the rest of the flat
    // sequence, tags included one by one.
    let from1 = fs.readdir(1, 1).unwrap();
    let names1: Vec<String> = from1.iter().map(|e| e.name.clone()).collect();
    assert_eq!(names1, ["tags", "alpha", "beta"]);
    assert_eq!(from1[0].offset, 2);
    let from2 = fs.readdir(1, 2).unwrap();
    let names2: Vec<String> = from2.iter().map(|e| e.name.clone()).collect();
    assert_eq!(names2, ["alpha", "beta"]);
    assert_eq!(from2[0].offset, 3);
    let from3 = fs.readdir(1, 3).unwrap();
    let names3: Vec<String> = from3.iter().map(|e| e.name.clone()).collect();
    assert_eq!(names3, ["beta"]);
    assert_eq!(from3[0].offset, 4);
    assert!(fs.readdir(1, 4).unwrap().is_empty());

    // Non-root listings page the same way: row k resumes at offset + k + 1.
    let alpha = fs.lookup(1, "alpha").unwrap().unwrap();
    let links = fs.readdir(alpha.ino, 0).unwrap();
    assert_eq!(links.len(), 1);
    assert_eq!(links[0].name, "p1");
    assert_eq!(links[0].offset, 1);
    assert!(fs.readdir(alpha.ino, 1).unwrap().is_empty());
}

#[test]
fn repeated_lookup_keeps_the_inode() {
    let mut db = get_or_create_db(None).unwrap();
    db.tag("/a/path", "t", Some("x")).unwrap();
    let mut fs = TagFS::new(db, 0);

    let tag1 = fs.lookup(1, "t").unwrap().unwrap();
    let tag2 = fs.lookup(1, "t").unwrap().unwrap();
    assert_eq!(tag1.ino, tag2.ino);

    let qdir = fs.lookup(1, "?").unwrap().unwrap();
    let first = fs.lookup(qdir.ino, "t=x").unwrap().unwrap();
    let second = fs.lookup(qdir.ino, "t=x").unwrap().unwrap();
    assert_eq!(first.ino, second.ino);

    // A name under the query directory that does not even lex and
    // translate resolves to nothing.
    assert!(fs.lookup(qdir.ino, "=== nonsense").unwrap().is_none());
}
