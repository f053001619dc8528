use libtagfs::fs::{sanitise_path, sanitise_value, try_basename};

#[test]
fn sanitise_path_test() {
    let path1 = "/my/long/file/path.txt";
    let path2 = "/my/other/long/file/path.txt";
    let path3 = "/some/other/file/path.txt";
    let siblings = vec![
        String::from(path2),
        String::from("/some/other/file"),
        String::from(path3),
    ];

    assert_eq!(sanitise_path(path1, 0, &siblings), String::from("path.txt.0"));

    let siblings = vec![
        String::from(path1),
        String::from("/some/other/file"),
        String::from(path3),
    ];
    assert_eq!(sanitise_path(path2, 1, &siblings), String::from("path.txt.1"));

    let path = "/a/very/cool/path.txt";
    let siblings = vec![
        String::from(path),
        String::from("/some/unrelated/other/path.rs"),
        String::from("/another/random/path.jpg"),
    ];
    assert_eq!(sanitise_path(path, 0, &siblings), String::from("path.txt"));
}

#[test]
fn colliding_siblings_get_distinct_names() {
    let siblings = vec![
        String::from("/a/file"),
        String::from("/b/file"),
        String::from("/c/file"),
        String::from("/d/alone"),
    ];
    let mut names = Vec::new();
    for (i, s) in siblings.iter().enumerate() {
        names.push(sanitise_path(s, i, &siblings));
    }
    assert_eq!(names, &["file.0", "file.1", "file.2", "alone"]);
    for i in 0..names.len() {
        for j in 0..names.len() {
            if i != j {
                assert_ne!(names[i], names[j]);
            }
        }
    }
}

#[test]
fn basename_handles_trailing_slashes() {
    assert_eq!(try_basename("/some/path").as_deref(), Some("path"));
    assert_eq!(try_basename("/some/path/").as_deref(), Some("path"));
    assert_eq!(try_basename("file").as_deref(), Some("file"));
    assert_eq!(try_basename("/"), None);
    assert_eq!(try_basename(""), None);
    assert_eq!(try_basename("/a/.."), None);
}

#[test]
fn sanitise_value_replaces_slashes() {
    assert_eq!(sanitise_value("a value with a / in it"), "a value with a _ in it");
    assert_eq!(sanitise_value("no-slash"), "no-slash");
    assert_eq!(sanitise_value("//"), "__");
}
