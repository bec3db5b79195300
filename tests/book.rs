use e_book_sync_library::book::Book;
use e_book_sync_library::path::FilePath;

#[test]
fn path_name_correct() {
    let book = Book::from(FilePath::parse("/local/test_book.txt"));
    assert_eq!(book.get_name(), &String::from("test_book.txt"));
    assert_eq!(book.get_path(), &FilePath::parse("/local/test_book.txt"));
}

#[test]
fn correct_display() {
    let book = Book::new("Test Book".to_string());
    assert_eq!(book.to_text(), String::from("Test Book"));
}

#[test]
fn equal_name_equal_books() {
    assert_eq!(
        Book::new("Test Eq".to_string()),
        Book::new("Test Eq".to_string())
    );

    assert_eq!(
        Book::from(FilePath::parse("/local/test_book.txt")),
        Book::from(FilePath::parse("/foreign/test_book.txt"))
    );
}

#[test]
fn existing_checks() {
    assert_eq!(Book::from(FilePath::parse("tests/book.rs")).exists_on_disk(), true);

    assert_eq!(
        Book::from(FilePath::parse("tests/iterate/file_four.txt")).exists_on_disk(),
        false
    );
}

#[test]
fn new_book_path_is_its_name() {
    let book = Book::new("Test Eq".to_string());
    assert_eq!(book.get_path(), &FilePath::parse("Test Eq"));
    assert_eq!(book.get_path().parts().len(), 1);
}

#[test]
fn books_with_other_names_differ() {
    assert_ne!(
        Book::from(FilePath::parse("/local/a.txt")),
        Book::from(FilePath::parse("/local/b.txt"))
    );
}
