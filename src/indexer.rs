//! Builds the shelf of a root from what a walk of its directory tree found.
use vstd::prelude::*;

use crate::book::{Book, BookView};
use crate::bookshelf::{rooted, sorted_names, Bookshelf};
use crate::path::{is_prefix, FilePath, PathView};

verus! {

/// One item that a walk of a directory tree came upon.
pub enum Walked {
    /// A regular file at this path.
    File(FilePath),
    /// A directory, a link or anything else that is not a regular file.
    Other(FilePath),
    /// An item that the walk could not read.
    Unreadable,
}

/// `w` is a regular file under `root` whose name is `n`.
pub open spec fn names_file(root: PathView, w: Walked, n: Seq<char>) -> bool {
    match w {
        Walked::File(p) => is_prefix(root, p@) && p@.parts.len() > 0 && p@.parts.last() == n,
        _ => false,
    }
}

/// `w` is a regular file under `root` at `path`.
pub open spec fn finds_file(root: PathView, w: Walked, path: PathView) -> bool {
    match w {
        Walked::File(p) => is_prefix(root, p@) && p@.parts.len() > 0 && p@ == path,
        _ => false,
    }
}

/// The names of the files under `root` that `walk` found.
pub open spec fn walk_names(root: PathView, walk: Seq<Walked>) -> Set<Seq<char>> {
    Set::new(|n: Seq<char>| exists|i: int| 0 <= i < walk.len() && names_file(root, walk[i], n))
}

/// The paths of the files under `root` that `walk` found.
pub open spec fn walk_files(root: PathView, walk: Seq<Walked>) -> Set<PathView> {
    Set::new(|p: PathView| exists|i: int| 0 <= i < walk.len() && finds_file(root, walk[i], p))
}

/// `walk[i]` is the first file under `root` in the walk to be named `n`.
pub open spec fn first_named(root: PathView, walk: Seq<Walked>, i: int, n: Seq<char>) -> bool {
    &&& 0 <= i < walk.len()
    &&& names_file(root, walk[i], n)
    &&& forall|j: int| 0 <= j < i ==> !names_file(root, #[trigger] walk[j], n)
}

/// `b` is, among `walk[0..bound]`, the first file under `root` to bear its name.
pub open spec fn first_in_walk(root: PathView, walk: Seq<Walked>, b: BookView, bound: int) -> bool {
    exists|j: int| j < bound && first_named(root, walk, j, b.name) && finds_file(root, walk[j], b.path)
}

/// Indexes the directory tree under one root.
pub struct Indexer {
    path: FilePath,
}

impl View for Indexer {
    type V = PathView;

    closed spec fn view(&self) -> PathView {
        self.path@
    }
}

impl Indexer {
    pub fn new(path: FilePath) -> (r: Indexer)
        ensures
            r@ == path@,
    {
        Indexer { path }
    }

    pub fn get_path(&self) -> (r: &FilePath)
        ensures
            r@ == self@,
    {
        &self.path
    }

    /// The shelf of the files under the root that `walk` found: one book per name, the
    /// first file of that name in the walk. Directories, unreadable items and paths that
    /// do not lie under the root are left out.
    pub fn index(&self, walk: &Vec<Walked>) -> (r: Bookshelf)
        ensures
            r@.root == self@,
            sorted_names(r@.books),
            rooted(r@),
            r.names() == walk_names(self@, walk@),
            forall|k: int|
                0 <= k < r@.books.len() ==> first_in_walk(self@, walk@, #[trigger] r@.books[k], walk@.len() as int),
    {
        let ghost root = self@;
        let mut shelf = Bookshelf::from(self.path.clone());
        let mut i: usize = 0;
        assert(shelf.names() =~= walk_names(root, walk@.take(0)));
        while i < walk.len()
            invariant
                root == self@,
                i <= walk@.len(),
                shelf@.root == root,
                sorted_names(shelf@.books),
                shelf.names() == walk_names(root, walk@.take(i as int)),
                forall|k: int|
                    0 <= k < shelf@.books.len() ==> first_in_walk(root, walk@, #[trigger] shelf@.books[k], i as int),
            decreases walk@.len() - i,
        {
            let ghost before = shelf@.books;
            let ghost names_before = shelf.names();
            let ghost w = walk@.take(i as int + 1);
            assert(w.drop_last() =~= walk@.take(i as int));
            match &walk[i] {
                Walked::File(p) => {
                    if p.strip_prefix(&self.path).is_some() && p.parts().len() > 0 {
                        let book = Book::from(p.clone());
                        let ghost n = book@.name;
                        let added = shelf.add(book);
                        proof {
                            assert(names_file(root, walk@[i as int], n));
                            assert(walk_names(root, w) =~= names_before.insert(n)) by {
                                assert(w[i as int] == walk@[i as int]);
                                assert forall|m: Seq<char>| #[trigger] names_before.contains(m) implies walk_names(
                                    root,
                                    w,
                                ).contains(m) by {
                                    let j = choose|j: int| 0 <= j < i && names_file(root, walk@.take(i as int)[j], m);
                                    assert(w[j] == walk@[j]);
                                }
                                assert forall|m: Seq<char>| walk_names(root, w).contains(m) implies #[trigger] names_before.insert(
                                    n,
                                ).contains(m) by {
                                    let j = choose|j: int| 0 <= j < w.len() && names_file(root, w[j], m);
                                    if j < i {
                                        assert(walk@.take(i as int)[j] == w[j]);
                                    }
                                }
                            }
                            if added {
                                assert forall|j: int| 0 <= j < i implies !names_file(root, #[trigger] walk@[j], n) by {
                                    if names_file(root, walk@[j], n) {
                                        assert(walk@.take(i as int)[j] == walk@[j]);
                                        assert(names_before.contains(n));
                                    }
                                }
                                assert(first_named(root, walk@, i as int, n));
                                let k0 = choose|k0: int|
                                    0 <= k0 <= before.len() && shelf@.books == before.insert(k0, book@);
                                assert forall|k: int| 0 <= k < shelf@.books.len() implies first_in_walk(root, walk@, #[trigger] shelf@.books[k], i + 1) by {
                                    if k < k0 {
                                        assert(shelf@.books[k] == before[k]);
                                        assert(first_in_walk(root, walk@, before[k], i as int));
                                    } else if k == k0 {
                                        assert(shelf@.books[k] == book@);
                                        assert(finds_file(root, walk@[i as int], book@.path));
                                    } else {
                                        assert(shelf@.books[k] == before[k - 1]);
                                        assert(first_in_walk(root, walk@, before[k - 1], i as int));
                                    }
                                }
                            } else {
                                assert forall|k: int| 0 <= k < shelf@.books.len() implies first_in_walk(root, walk@, #[trigger] shelf@.books[k], i + 1) by {
                                    assert(shelf@.books[k] == before[k]);
                                    assert(first_in_walk(root, walk@, before[k], i as int));
                                }
                            }
                        }
                    } else {
                        proof {
                            assert(walk_names(root, w) =~= names_before) by {
                                assert forall|m: Seq<char>| #[trigger] names_before.contains(m) implies walk_names(
                                    root,
                                    w,
                                ).contains(m) by {
                                    let j = choose|j: int| 0 <= j < i && names_file(root, walk@.take(i as int)[j], m);
                                    assert(w[j] == walk@[j]);
                                }
                                assert forall|m: Seq<char>| walk_names(root, w).contains(m) implies #[trigger] names_before.contains(m) by {
                                    let j = choose|j: int| 0 <= j < w.len() && names_file(root, w[j], m);
                                    assert(walk@.take(i as int)[j] == w[j]);
                                }
                            }
                        }
                    }
                },
                _ => {
                    proof {
                        assert(walk_names(root, w) =~= names_before) by {
                            assert forall|m: Seq<char>| #[trigger] names_before.contains(m) implies walk_names(
                                root,
                                w,
                            ).contains(m) by {
                                let j = choose|j: int| 0 <= j < i && names_file(root, walk@.take(i as int)[j], m);
                                assert(w[j] == walk@[j]);
                            }
                            assert forall|m: Seq<char>| walk_names(root, w).contains(m) implies #[trigger] names_before.contains(m) by {
                                let j = choose|j: int| 0 <= j < w.len() && names_file(root, w[j], m);
                                assert(walk@.take(i as int)[j] == w[j]);
                            }
                        }
                    }
                },
            }
            i += 1;
        }
        assert(walk@.take(walk@.len() as int) =~= walk@);
        assert forall|k: int| 0 <= k < shelf@.books.len() implies is_prefix(root, #[trigger] shelf@.books[k].path) by {
            assert(first_in_walk(root, walk@, shelf@.books[k], i as int));
        }
        shelf
    }
}

/// Two walks of one directory that found the same files, in whatever order, give shelves
/// with the same names: indexing a directory twice gives equal shelves.
pub proof fn law_index_same_files(root: PathView, walk1: Seq<Walked>, walk2: Seq<Walked>)
    requires
        walk_files(root, walk1) == walk_files(root, walk2),
    ensures
        walk_names(root, walk1) == walk_names(root, walk2),
{
    assert forall|n: Seq<char>| walk_names(root, walk1).contains(n) implies walk_names(root, walk2).contains(n) by {
        let i = choose|i: int| 0 <= i < walk1.len() && names_file(root, walk1[i], n);
        let p = walk1[i]->File_0@;
        assert(finds_file(root, walk1[i], p));
        assert(walk_files(root, walk1).contains(p));
        let j = choose|j: int| 0 <= j < walk2.len() && finds_file(root, walk2[j], p);
        assert(names_file(root, walk2[j], n));
    }
    assert forall|n: Seq<char>| walk_names(root, walk2).contains(n) implies walk_names(root, walk1).contains(n) by {
        let i = choose|i: int| 0 <= i < walk2.len() && names_file(root, walk2[i], n);
        let p = walk2[i]->File_0@;
        assert(finds_file(root, walk2[i], p));
        assert(walk_files(root, walk2).contains(p));
        let j = choose|j: int| 0 <= j < walk1.len() && finds_file(root, walk1[j], p);
        assert(names_file(root, walk1[j], n));
    }
    assert(walk_names(root, walk1) =~= walk_names(root, walk2));
}

} // verus!
