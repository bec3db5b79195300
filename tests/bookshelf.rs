use e_book_sync_library::book::Book;
use e_book_sync_library::bookshelf::Bookshelf;
use e_book_sync_library::path::FilePath;

#[test]
fn create() {
    let bs1 = Bookshelf::new();
    let bs2 = Bookshelf::from(FilePath::new());
    assert_eq!(bs1, bs2);

    let bs3 = Bookshelf::from(FilePath::parse("some/test/path"));
    assert_eq!(bs2, bs3);
}

#[test]
fn correct_path() {
    let bs = Bookshelf::from(FilePath::parse("some/test/path"));
    assert_eq!(bs.get_path(), &FilePath::parse("some/test/path"));
}

#[test]
fn add_book() {
    let book = Book::new(String::from("Test book"));
    let mut bs = Bookshelf::new();
    bs.add(book.clone());
    assert_eq!(bs.have(&book), true);
}

#[test]
fn compare_bookshelf() {
    let mut bs1 = Bookshelf::new();
    bs1.add(Book::new(String::from("Test book1")));
    bs1.add(Book::new(String::from("Test book2")));
    let mut bs2 = Bookshelf::new();
    bs2.add(Book::new(String::from("Test book2")));
    bs2.add(Book::new(String::from("Test book3")));

    let diff1_to_2: Vec<Book> = bs1.difference(&bs2).iter();
    assert_eq!(diff1_to_2, [Book::new(String::from("Test book1"))]);

    let diff2_to_1: Vec<Book> = bs2.difference(&bs1).iter();
    assert_eq!(diff2_to_1, [Book::new(String::from("Test book3"))]);

    let inter1_to_2: Vec<Book> = bs1.intersection(&bs2).iter();
    assert_eq!(inter1_to_2, [Book::new(String::from("Test book2"))]);

    let inter2_to_1: Vec<Book> = bs2.intersection(&bs1).iter();
    assert_eq!(inter2_to_1, [Book::new(String::from("Test book2"))]);
}

#[test]
fn add_reports_change_and_keeps_first() {
    let mut bs = Bookshelf::from(FilePath::parse("/r"));
    assert!(bs.add(Book::from(FilePath::parse("/r/a/x.txt"))));
    assert!(!bs.add(Book::from(FilePath::parse("/r/b/x.txt"))));
    let books = bs.iter();
    assert_eq!(books.len(), 1);
    assert_eq!(books[0].get_path(), &FilePath::parse("/r/a/x.txt"));
}

#[test]
fn iteration_is_sorted_by_name() {
    let mut bs = Bookshelf::new();
    for name in ["pear", "apple", "Zebra", "app", "banana", "apple"] {
        bs.add(Book::new(name.to_string()));
    }
    let names: Vec<String> = bs.iter().iter().map(|b| b.get_name().clone()).collect();
    assert_eq!(names, vec!["Zebra", "app", "apple", "banana", "pear"]);
}

#[test]
fn difference_with_itself_is_empty() {
    let mut a = Bookshelf::new();
    a.add(Book::new("x".to_string()));
    a.add(Book::new("y".to_string()));
    let mut b = Bookshelf::new();
    b.add(Book::new("y".to_string()));
    assert!(a.difference(&a).iter().is_empty());
    let d = a.difference(&b);
    assert!(!d.have(&Book::new("y".to_string())));
    assert_eq!(d.iter(), [Book::new("x".to_string())]);
}

#[test]
fn intersection_keeps_own_paths_and_commutes() {
    let mut a = Bookshelf::from(FilePath::parse("/local"));
    a.add(Book::from(FilePath::parse("/local/one.txt")));
    a.add(Book::from(FilePath::parse("/local/two.txt")));
    let mut b = Bookshelf::from(FilePath::parse("/foreign"));
    b.add(Book::from(FilePath::parse("/foreign/two.txt")));
    b.add(Book::from(FilePath::parse("/foreign/three.txt")));
    let ab = a.intersection(&b);
    let ba = b.intersection(&a);
    assert!(ab == ba);
    assert_eq!(ab.get_path(), &FilePath::parse("/local"));
    assert_eq!(ab.iter()[0].get_path(), &FilePath::parse("/local/two.txt"));
    assert_eq!(ba.iter()[0].get_path(), &FilePath::parse("/foreign/two.txt"));
}

#[test]
fn shelves_with_other_names_differ() {
    let mut a = Bookshelf::new();
    a.add(Book::new("x".to_string()));
    let mut b = Bookshelf::new();
    b.add(Book::new("y".to_string()));
    assert!(a != b);
    b.add(Book::new("x".to_string()));
    assert!(a != b);
}
