//! One tracked file: its name and where it lies.
use vstd::prelude::*;

use crate::path::{file_name_spec, parse_spec, FilePath, PathView};

verus! {

/// A file known by its name, the last part of its path.
#[derive(Debug)]
pub struct Book {
    name: String,
    path: FilePath,
}

/// The mathematical value of a `Book`.
pub struct BookView {
    pub name: Seq<char>,
    pub path: PathView,
}

/// The values of a sequence of books.
pub open spec fn views(s: Seq<Book>) -> Seq<BookView> {
    s.map_values(|b: Book| b@)
}

impl View for Book {
    type V = BookView;

    closed spec fn view(&self) -> BookView {
        BookView { name: self.name@, path: self.path@ }
    }
}

/// Relies on std::path::Path::exists: asks the file system whether something lies at
/// the path. What it answers depends on the disk, so nothing is promised of it.
#[verifier::external_body]
fn path_exists(text: &str) -> bool {
    std::path::Path::new(text).exists()
}

impl Book {
    /// A book whose path is its own name.
    pub fn new(name: String) -> (r: Book)
        ensures
            r@.name == name@,
            r@.path == parse_spec(name@),
    {
        let path = FilePath::parse(name.as_str());
        Book { name, path }
    }

    /// The book for the file at `path`, named by the path's last part.
    pub fn from(path: FilePath) -> (r: Book)
        requires
            file_name_spec(path@) is Some,
        ensures
            r@.name == path@.parts.last(),
            r@.path == path@,
    {
        let name = path.file_name().unwrap();
        Book { name, path }
    }

    pub fn get_name(&self) -> (r: &String)
        ensures
            r@ == self@.name,
    {
        &self.name
    }

    pub fn get_path(&self) -> (r: &FilePath)
        ensures
            r@ == self@.path,
    {
        &self.path
    }

    /// The book as a line of text: its name.
    pub fn to_text(&self) -> (r: String)
        ensures
            r@ == self@.name,
    {
        self.name.clone()
    }

    /// Whether something lies at the book's path now.
    pub fn exists_on_disk(&self) -> bool {
        let text = self.path.to_text();
        path_exists(text.as_str())
    }
}

impl Clone for Book {
    fn clone(&self) -> (r: Self)
        ensures
            r@ == self@,
    {
        Book { name: self.name.clone(), path: self.path.clone() }
    }
}

/// Two books are the same book when their names are equal; the path does not count.
impl PartialEq for Book {
    fn eq(&self, other: &Book) -> (r: bool) {
        self.name == other.name
    }
}

impl vstd::std_specs::cmp::PartialEqSpecImpl for Book {
    open spec fn obeys_eq_spec() -> bool {
        true
    }

    open spec fn eq_spec(&self, other: &Book) -> bool {
        self@.name == other@.name
    }
}

} // verus!
