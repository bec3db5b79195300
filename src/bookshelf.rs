//! A shelf: the books found under one root, kept sorted by name, one book per name.
use vstd::prelude::*;

use crate::book::{views, Book, BookView};
use crate::path::{is_prefix, FilePath, PathView};
use crate::text::{
    lemma_text_lt_asymmetric, lemma_text_lt_irreflexive, lemma_text_lt_total,
    lemma_text_lt_transitive, text_less, text_lt,
};

verus! {

/// The books of a shelf, in order, under their root.
#[derive(Debug)]
pub struct Bookshelf {
    books: Vec<Book>,
    path: FilePath,
}

/// The mathematical value of a `Bookshelf`.
pub struct ShelfView {
    pub root: PathView,
    pub books: Seq<BookView>,
}

/// Each name comes strictly before the next: sorted, and no name twice.
pub open spec fn sorted_names(s: Seq<BookView>) -> bool {
    forall|i: int, j: int| #![trigger s[i], s[j]] 0 <= i < j < s.len() ==> text_lt(s[i].name, s[j].name)
}

/// Every book of the shelf lies under the shelf's root.
pub open spec fn rooted(s: ShelfView) -> bool {
    forall|k: int| 0 <= k < s.books.len() ==> is_prefix(s.root, #[trigger] s.books[k].path)
}

pub open spec fn has_name(s: Seq<BookView>, n: Seq<char>) -> bool {
    exists|i: int| 0 <= i < s.len() && s[i].name == n
}

/// The names of the books of `s`.
pub open spec fn names_of(s: Seq<BookView>) -> Set<Seq<char>> {
    Set::new(|n: Seq<char>| has_name(s, n))
}

/// The books of `s` whose names are not in `names`, in their order.
pub open spec fn books_without(s: Seq<BookView>, names: Set<Seq<char>>) -> Seq<BookView>
    decreases s.len(),
{
    if s.len() == 0 {
        s
    } else {
        let rest = books_without(s.drop_last(), names);
        if names.contains(s.last().name) {
            rest
        } else {
            rest.push(s.last())
        }
    }
}

/// The books of `s` whose names are in `names`, in their order.
pub open spec fn books_within(s: Seq<BookView>, names: Set<Seq<char>>) -> Seq<BookView>
    decreases s.len(),
{
    if s.len() == 0 {
        s
    } else {
        let rest = books_within(s.drop_last(), names);
        if names.contains(s.last().name) {
            rest.push(s.last())
        } else {
            rest
        }
    }
}

/// In a sorted `s`, no book is named `n` when every book before `j` comes before `n`
/// and `n` comes before the book at `j`, if there is one.
proof fn lemma_name_absent(s: Seq<BookView>, j: int, n: Seq<char>)
    requires
        sorted_names(s),
        0 <= j <= s.len(),
        forall|k: int| 0 <= k < j ==> text_lt(#[trigger] s[k].name, n),
        j < s.len() ==> text_lt(n, s[j].name),
    ensures
        !has_name(s, n),
{
    assert forall|k: int| 0 <= k < s.len() implies s[k].name != n by {
        if k < j {
            lemma_text_lt_irreflexive(n);
        } else if k == j {
            lemma_text_lt_irreflexive(n);
        } else {
            assert(text_lt(s[j].name, s[k].name));
            lemma_text_lt_transitive(n, s[j].name, s[k].name);
            lemma_text_lt_irreflexive(n);
        }
    }
}

/// Two sorted sequences of books with the same names have the same names in the same places.
pub proof fn lemma_same_names_same_order(a: Seq<BookView>, b: Seq<BookView>)
    requires
        sorted_names(a),
        sorted_names(b),
        names_of(a) == names_of(b),
    ensures
        a.len() == b.len(),
        forall|k: int| 0 <= k < a.len() ==> #[trigger] a[k].name == b[k].name,
    decreases a.len(),
{
    if a.len() == 0 {
        if b.len() > 0 {
            assert(names_of(b).contains(b[0].name));
        }
    } else if b.len() == 0 {
        assert(names_of(a).contains(a[0].name));
    } else {
        assert(names_of(a).contains(a[0].name));
        assert(names_of(b).contains(b[0].name));
        let p = choose|p: int| 0 <= p < b.len() && b[p].name == a[0].name;
        let q = choose|q: int| 0 <= q < a.len() && a[q].name == b[0].name;
        if p > 0 {
            assert(text_lt(b[0].name, b[p].name));
            if q == 0 {
                lemma_text_lt_irreflexive(a[0].name);
            } else {
                assert(text_lt(a[0].name, a[q].name));
                lemma_text_lt_asymmetric(a[0].name, b[0].name);
            }
        }
        let a1 = a.drop_first();
        let b1 = b.drop_first();
        assert(names_of(a1) =~= names_of(b1)) by {
            assert forall|n: Seq<char>| has_name(a1, n) implies has_name(b1, n) by {
                let i = choose|i: int| 0 <= i < a1.len() && a1[i].name == n;
                assert(text_lt(a[0].name, a[i + 1].name));
                assert(names_of(a).contains(n));
                let k = choose|k: int| 0 <= k < b.len() && b[k].name == n;
                if k == 0 {
                    lemma_text_lt_irreflexive(n);
                }
                assert(b1[k - 1].name == n);
            }
            assert forall|n: Seq<char>| has_name(b1, n) implies has_name(a1, n) by {
                let i = choose|i: int| 0 <= i < b1.len() && b1[i].name == n;
                assert(text_lt(b[0].name, b[i + 1].name));
                assert(names_of(b).contains(n));
                let k = choose|k: int| 0 <= k < a.len() && a[k].name == n;
                if k == 0 {
                    lemma_text_lt_irreflexive(n);
                }
                assert(a1[k - 1].name == n);
            }
        }
        lemma_same_names_same_order(a1, b1);
        assert forall|k: int| 0 <= k < a.len() implies #[trigger] a[k].name == b[k].name by {
            if k > 0 {
                assert(a1[k - 1].name == b1[k - 1].name);
            }
        }
    }
}

impl View for Bookshelf {
    type V = ShelfView;

    closed spec fn view(&self) -> ShelfView {
        ShelfView { root: self.path@, books: views(self.books@) }
    }
}

impl Bookshelf {
    #[verifier::type_invariant]
    spec fn sorted(&self) -> bool {
        sorted_names(views(self.books@))
    }

    /// The names of the books on the shelf.
    pub open spec fn names(&self) -> Set<Seq<char>> {
        names_of(self@.books)
    }

    /// An empty shelf with the empty path as its root.
    pub fn new() -> (r: Bookshelf)
        ensures
            r@.root == (PathView { absolute: false, parts: Seq::empty() }),
            r@.books == Seq::<BookView>::empty(),
    {
        let r = Bookshelf { books: Vec::new(), path: FilePath::new() };
        assert(r@.books =~= Seq::<BookView>::empty());
        r
    }

    /// An empty shelf rooted at `path`.
    pub fn from(path: FilePath) -> (r: Bookshelf)
        ensures
            r@.root == path@,
            r@.books == Seq::<BookView>::empty(),
    {
        let r = Bookshelf { books: Vec::new(), path };
        assert(r@.books =~= Seq::<BookView>::empty());
        r
    }

    pub fn get_path(&self) -> (r: &FilePath)
        ensures
            r@ == self@.root,
    {
        &self.path
    }

    /// Puts `book` on the shelf unless a book of that name is there already; tells whether it did.
    pub fn add(&mut self, book: Book) -> (r: bool)
        ensures
            r == !old(self).names().contains(book@.name),
            final(self)@.root == old(self)@.root,
            sorted_names(final(self)@.books),
            r ==> exists|k: int|
                0 <= k <= old(self)@.books.len() && final(self)@.books == old(self)@.books.insert(
                    k,
                    book@,
                ),
            !r ==> final(self)@.books == old(self)@.books,
            final(self).names() == old(self).names().insert(book@.name),
    {
        proof {
            use_type_invariant(&*self);
        }
        let ghost s = self@.books;
        let n = self.books.len();
        let mut i: usize = 0;
        while i < n && text_less(self.books[i].get_name(), book.get_name())
            invariant
                n == s.len(),
                s == views(self.books@),
                i <= n,
                forall|k: int| 0 <= k < i ==> text_lt(#[trigger] s[k].name, book@.name),
            decreases n - i,
        {
            assert(s[i as int] == self.books@[i as int]@);
            i += 1;
        }
        if i < n {
            assert(s[i as int] == self.books@[i as int]@);
            assert(!text_lt(s[i as int].name, book@.name));
        }
        if i < n && *self.books[i].get_name() == *book.get_name() {
            assert(has_name(s, book@.name));
            assert(names_of(s).insert(book@.name) =~= names_of(s));
            return false;
        }
        proof {
            if i < n {
                lemma_text_lt_total(s[i as int].name, book@.name);
            }
            lemma_name_absent(s, i as int, book@.name);
        }
        let ghost b = book@;
        let mut books: Vec<Book> = Vec::new();
        std::mem::swap(&mut books, &mut self.books);
        books.insert(i, book);
        let ghost t = s.insert(i as int, b);
        assert(views(books@) =~= t);
        assert forall|x: int, y: int| 0 <= x < y < t.len() implies text_lt(t[x].name, t[y].name) by {
            if y < i {
            } else if y == i {
            } else if x < i {
                assert(text_lt(s[x].name, b.name));
                if y - 1 > i {
                    assert(text_lt(s[i as int].name, s[y - 1].name));
                    lemma_text_lt_transitive(b.name, s[i as int].name, s[y - 1].name);
                }
                lemma_text_lt_transitive(s[x].name, b.name, s[y - 1].name);
            } else if x == i {
                if y - 1 > i {
                    assert(text_lt(s[i as int].name, s[y - 1].name));
                    lemma_text_lt_transitive(b.name, s[i as int].name, s[y - 1].name);
                }
            } else {
                assert(text_lt(s[x - 1].name, s[y - 1].name));
            }
        }
        assert(names_of(t) =~= names_of(s).insert(b.name)) by {
            assert forall|nm: Seq<char>| names_of(s).insert(b.name).contains(nm) implies has_name(t, nm) by {
                if nm == b.name {
                    assert(t[i as int].name == nm);
                } else {
                    let k = choose|k: int| 0 <= k < s.len() && s[k].name == nm;
                    if k < i {
                        assert(t[k].name == nm);
                    } else {
                        assert(t[k + 1].name == nm);
                    }
                }
            }
            assert forall|nm: Seq<char>| has_name(t, nm) implies names_of(s).insert(b.name).contains(nm) by {
                let k = choose|k: int| 0 <= k < t.len() && t[k].name == nm;
                if k < i {
                    assert(s[k].name == nm);
                } else if k > i {
                    assert(s[k - 1].name == nm);
                }
            }
        }
        self.books = books;
        true
    }

    /// Whether a book of the same name is on the shelf.
    pub fn have(&self, book: &Book) -> (r: bool)
        ensures
            r == self.names().contains(book@.name),
    {
        let ghost s = self@.books;
        let mut i: usize = 0;
        while i < self.books.len()
            invariant
                s == views(self.books@),
                i <= s.len(),
                forall|k: int| 0 <= k < i ==> #[trigger] s[k].name != book@.name,
            decreases s.len() - i,
        {
            assert(s[i as int] == self.books@[i as int]@);
            if *self.books[i].get_name() == *book.get_name() {
                return true;
            }
            i += 1;
        }
        false
    }

    /// The books of this shelf whose names are not on `other`, under this shelf's root.
    pub fn difference(&self, other: &Self) -> (r: Self)
        ensures
            r@.root == self@.root,
            r@.books == books_without(self@.books, other.names()),
            sorted_names(r@.books),
    {
        self.merge(other, false)
    }

    /// The books of this shelf whose names are also on `other`, under this shelf's root.
    /// Each book is this shelf's own, with its path under this root.
    pub fn intersection(&self, other: &Self) -> (r: Self)
        ensures
            r@.root == self@.root,
            r@.books == books_within(self@.books, other.names()),
            sorted_names(r@.books),
    {
        self.merge(other, true)
    }

    /// Walks both shelves in name order at once, keeping this shelf's books whose names
    /// are on `other` (`shared`) or are not (`!shared`).
    fn merge(&self, other: &Self, shared: bool) -> (r: Self)
        ensures
            r@.root == self@.root,
            r@.books == (if shared {
                books_within(self@.books, other.names())
            } else {
                books_without(self@.books, other.names())
            }),
            sorted_names(r@.books),
    {
        proof {
            use_type_invariant(self);
            use_type_invariant(other);
        }
        let ghost s = self@.books;
        let ghost o = other@.books;
        let ghost names = other.names();
        let ghost kept = |t: Seq<BookView>|
            if shared {
                books_within(t, names)
            } else {
                books_without(t, names)
            };
        let n = self.books.len();
        let m = other.books.len();
        let mut res: Vec<Book> = Vec::new();
        let mut i: usize = 0;
        let mut j: usize = 0;
        assert(s.take(0) =~= Seq::<BookView>::empty());
        while i < n
            invariant
                n == s.len(),
                m == o.len(),
                i <= n,
                j <= m,
                s == views(self.books@),
                o == views(other.books@),
                names == names_of(o),
                sorted_names(s),
                sorted_names(o),
                kept == (|t: Seq<BookView>|
                    if shared {
                        books_within(t, names)
                    } else {
                        books_without(t, names)
                    }),
                views(res@) == kept(s.take(i as int)),
                sorted_names(views(res@)),
                i < n ==> forall|k: int|
                    0 <= k < res@.len() ==> text_lt(#[trigger] views(res@)[k].name, s[i as int].name),
                i < n ==> forall|k: int| 0 <= k < j ==> text_lt(#[trigger] o[k].name, s[i as int].name),
            decreases (n - i) + (m - j),
        {
            assert(s[i as int] == self.books@[i as int]@);
            let ghost si = s[i as int];
            let ghost r0 = views(res@);
            assert(s.take(i as int + 1).drop_last() =~= s.take(i as int));
            assert(s.take(i as int + 1).last() == si);
            if j < m && text_less(other.books[j].get_name(), self.books[i].get_name()) {
                assert(o[j as int] == other.books@[j as int]@);
                j += 1;
            } else {
                let same = j < m && *other.books[j].get_name() == *self.books[i].get_name();
                proof {
                    if j < m {
                        assert(o[j as int] == other.books@[j as int]@);
                    }
                    if same {
                        assert(names.contains(si.name));
                    } else {
                        if j < m {
                            lemma_text_lt_total(o[j as int].name, si.name);
                        }
                        lemma_name_absent(o, j as int, si.name);
                    }
                }
                if same == shared {
                    res.push(self.books[i].clone());
                    assert(views(res@) =~= r0.push(si));
                    assert forall|x: int, y: int| 0 <= x < y < views(res@).len() implies text_lt(
                        views(res@)[x].name,
                        views(res@)[y].name,
                    ) by {
                        if y < r0.len() {
                            assert(text_lt(r0[x].name, r0[y].name));
                        } else {
                            assert(text_lt(r0[x].name, si.name));
                        }
                    }
                }
                i += 1;
                if same {
                    j += 1;
                }
                proof {
                    if i < n {
                        let next = s[i as int];
                        assert(text_lt(si.name, next.name));
                        assert forall|k: int| 0 <= k < res@.len() implies text_lt(
                            #[trigger] views(res@)[k].name,
                            next.name,
                        ) by {
                            if k < r0.len() {
                                assert(views(res@)[k] == r0[k]);
                                lemma_text_lt_transitive(r0[k].name, si.name, next.name);
                            }
                        }
                        assert forall|k: int| 0 <= k < j implies text_lt(#[trigger] o[k].name, next.name) by {
                            if k < j - 1 || !same {
                                lemma_text_lt_transitive(o[k].name, si.name, next.name);
                            }
                        }
                    }
                }
            }
        }
        assert(s.take(n as int) =~= s);
        Bookshelf { books: res, path: self.path.clone() }
    }

    /// The books of the shelf in name order.
    pub fn iter(&self) -> (r: Vec<Book>)
        ensures
            views(r@) == self@.books,
            sorted_names(self@.books),
    {
        proof {
            use_type_invariant(self);
        }
        let ghost s = self@.books;
        let mut r: Vec<Book> = Vec::new();
        let mut i: usize = 0;
        while i < self.books.len()
            invariant
                s == views(self.books@),
                i <= s.len(),
                views(r@) == s.take(i as int),
            decreases s.len() - i,
        {
            let ghost r0 = views(r@);
            r.push(self.books[i].clone());
            assert(views(r@) =~= r0.push(s[i as int]));
            i += 1;
            assert(s.take(i as int) =~= r0.push(s[i - 1]));
        }
        assert(s.take(s.len() as int) =~= s);
        r
    }
}

/// Two shelves are equal when they hold the same names; the roots and paths do not count.
impl PartialEq for Bookshelf {
    fn eq(&self, other: &Bookshelf) -> (r: bool) {
        proof {
            use_type_invariant(self);
            use_type_invariant(other);
        }
        let ghost s = self@.books;
        let ghost o = other@.books;
        if self.books.len() != other.books.len() {
            proof {
                if names_of(s) == names_of(o) {
                    lemma_same_names_same_order(s, o);
                }
            }
            return false;
        }
        let mut i: usize = 0;
        while i < self.books.len()
            invariant
                s == views(self.books@),
                o == views(other.books@),
                sorted_names(s),
                sorted_names(o),
                s.len() == o.len(),
                i <= s.len(),
                forall|k: int| 0 <= k < i ==> #[trigger] s[k].name == o[k].name,
            decreases s.len() - i,
        {
            assert(s[i as int] == self.books@[i as int]@);
            assert(o[i as int] == other.books@[i as int]@);
            if !(*self.books[i].get_name() == *other.books[i].get_name()) {
                proof {
                    if names_of(s) == names_of(o) {
                        lemma_same_names_same_order(s, o);
                    }
                }
                return false;
            }
            i += 1;
        }
        assert(names_of(s) =~= names_of(o)) by {
            assert forall|nm: Seq<char>| has_name(s, nm) implies has_name(o, nm) by {
                let k = choose|k: int| 0 <= k < s.len() && s[k].name == nm;
                assert(o[k].name == nm);
            }
            assert forall|nm: Seq<char>| has_name(o, nm) implies has_name(s, nm) by {
                let k = choose|k: int| 0 <= k < o.len() && o[k].name == nm;
                assert(s[k].name == nm);
            }
        }
        true
    }
}

impl vstd::std_specs::cmp::PartialEqSpecImpl for Bookshelf {
    open spec fn obeys_eq_spec() -> bool {
        true
    }

    open spec fn eq_spec(&self, other: &Bookshelf) -> bool {
        self.names() == other.names()
    }
}

proof fn lemma_names_push(t: Seq<BookView>, x: BookView)
    ensures
        names_of(t.push(x)) == names_of(t).insert(x.name),
{
    assert(names_of(t.push(x)) =~= names_of(t).insert(x.name)) by {
        assert forall|n: Seq<char>| names_of(t).insert(x.name).contains(n) implies has_name(t.push(x), n) by {
            if n == x.name {
                assert(t.push(x)[t.len() as int].name == n);
            } else {
                let k = choose|k: int| 0 <= k < t.len() && t[k].name == n;
                assert(t.push(x)[k].name == n);
            }
        }
        assert forall|n: Seq<char>| has_name(t.push(x), n) implies names_of(t).insert(x.name).contains(n) by {
            let k = choose|k: int| 0 <= k < t.len() + 1 && t.push(x)[k].name == n;
            if k < t.len() {
                assert(t[k].name == n);
            }
        }
    }
}

/// The names kept by `books_without` are those of `s` that are not in `names`.
pub proof fn lemma_without_names(s: Seq<BookView>, names: Set<Seq<char>>)
    ensures
        names_of(books_without(s, names)) == names_of(s).difference(names),
    decreases s.len(),
{
    if s.len() == 0 {
        assert(names_of(s) =~= Set::empty());
        assert(names_of(books_without(s, names)) =~= Set::empty());
    } else {
        lemma_without_names(s.drop_last(), names);
        assert(s.drop_last().push(s.last()) =~= s);
        lemma_names_push(s.drop_last(), s.last());
        if !names.contains(s.last().name) {
            lemma_names_push(books_without(s.drop_last(), names), s.last());
        }
        assert(names_of(books_without(s, names)) =~= names_of(s).difference(names));
    }
}

/// The names kept by `books_within` are those of `s` that are in `names`.
pub proof fn lemma_within_names(s: Seq<BookView>, names: Set<Seq<char>>)
    ensures
        names_of(books_within(s, names)) == names_of(s).intersect(names),
    decreases s.len(),
{
    if s.len() == 0 {
        assert(names_of(s) =~= Set::empty());
        assert(names_of(books_within(s, names)) =~= Set::empty());
    } else {
        lemma_within_names(s.drop_last(), names);
        assert(s.drop_last().push(s.last()) =~= s);
        lemma_names_push(s.drop_last(), s.last());
        if names.contains(s.last().name) {
            lemma_names_push(books_within(s.drop_last(), names), s.last());
        }
        assert(names_of(books_within(s, names)) =~= names_of(s).intersect(names));
    }
}

/// Books that lie under `root` still do after some are left out.
pub proof fn lemma_kept_books_rooted(s: Seq<BookView>, root: PathView, names: Set<Seq<char>>)
    requires
        forall|k: int| 0 <= k < s.len() ==> is_prefix(root, #[trigger] s[k].path),
    ensures
        forall|k: int|
            0 <= k < books_without(s, names).len() ==> is_prefix(root, #[trigger] books_without(s, names)[k].path),
        forall|k: int|
            0 <= k < books_within(s, names).len() ==> is_prefix(root, #[trigger] books_within(s, names)[k].path),
    decreases s.len(),
{
    if s.len() > 0 {
        let t = s.drop_last();
        assert forall|k: int| 0 <= k < t.len() implies is_prefix(root, #[trigger] t[k].path) by {
            assert(t[k] == s[k]);
        }
        lemma_kept_books_rooted(t, root, names);
        assert(is_prefix(root, s[s.len() - 1].path));
        let w = books_without(s, names);
        let pw = books_without(t, names);
        assert forall|k: int| 0 <= k < w.len() implies is_prefix(root, #[trigger] w[k].path) by {
            if k < pw.len() {
                assert(w[k] == pw[k]);
            }
        }
        let v = books_within(s, names);
        let pv = books_within(t, names);
        assert forall|k: int| 0 <= k < v.len() implies is_prefix(root, #[trigger] v[k].path) by {
            if k < pv.len() {
                assert(v[k] == pv[k]);
            }
        }
    }
}

/// No book of `a.difference(b)` bears a name that is on `b`, and a shelf less itself
/// holds nothing.
pub proof fn law_difference_excludes(a: Bookshelf, b: Bookshelf)
    ensures
        names_of(books_without(a@.books, b.names())).disjoint(b.names()),
        books_without(a@.books, a.names()) == Seq::<BookView>::empty(),
{
    lemma_without_names(a@.books, b.names());
    lemma_without_names(a@.books, a.names());
    let d = books_without(a@.books, a.names());
    assert(names_of(a@.books).difference(a.names()) =~= Set::empty());
    if d.len() > 0 {
        assert(names_of(d).contains(d[0].name));
    }
    assert(d =~= Seq::<BookView>::empty());
}

/// `a.intersection(b)` and `b.intersection(a)` hold the same names, so they are equal
/// shelves, though each keeps the paths of its own side.
pub proof fn law_intersection_commutes(a: Bookshelf, b: Bookshelf)
    ensures
        names_of(books_within(a@.books, b.names())) == names_of(books_within(b@.books, a.names())),
{
    lemma_within_names(a@.books, b.names());
    lemma_within_names(b@.books, a.names());
    assert(a.names().intersect(b.names()) =~= b.names().intersect(a.names()));
}

} // verus!
