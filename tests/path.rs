use e_book_sync_library::path::FilePath;

#[test]
fn parse_splits_on_slashes() {
    let p = FilePath::parse("/local//dir/book.txt/");
    assert!(p.is_absolute());
    assert_eq!(
        p.parts(),
        &vec!["local".to_string(), "dir".to_string(), "book.txt".to_string()]
    );
    assert_eq!(p.to_text(), "/local/dir/book.txt".to_string());
}

#[test]
fn parse_relative_and_empty() {
    let p = FilePath::parse("some/test/path");
    assert!(!p.is_absolute());
    assert_eq!(p.to_text(), "some/test/path".to_string());
    assert_eq!(FilePath::parse(""), FilePath::new());
    assert_eq!(FilePath::parse("/").to_text(), "/".to_string());
}

#[test]
fn file_name_and_parent() {
    let p = FilePath::parse("/a/b/c.txt");
    assert_eq!(p.file_name(), Some("c.txt".to_string()));
    assert_eq!(p.parent(), FilePath::parse("/a/b"));
    assert_eq!(FilePath::new().file_name(), None);
    assert_eq!(FilePath::new().parent(), FilePath::new());
}

#[test]
fn strip_and_join() {
    let p = FilePath::parse("/root/local/test/book.txt");
    let rel = p.strip_prefix(&FilePath::parse("/root/local")).unwrap();
    assert_eq!(rel, FilePath::parse("test/book.txt"));
    assert_eq!(
        FilePath::parse("/dev/foreign").join(&rel),
        FilePath::parse("/dev/foreign/test/book.txt")
    );
    assert_eq!(p.strip_prefix(&FilePath::parse("/root/other")), None);
    assert_eq!(p.strip_prefix(&FilePath::parse("root/local")), None);
    assert_eq!(
        FilePath::parse("/x").join(&FilePath::parse("/y/z")),
        FilePath::parse("/y/z")
    );
}
