//! Decides which files go where between a local and a foreign root, and what became of
//! each transfer.
use vstd::prelude::*;

use crate::book::{Book, BookView};
use crate::bookshelf::{
    books_without, lemma_kept_books_rooted, rooted, Bookshelf, ShelfView,
};
use crate::path::{join_spec, parent_spec, strip_spec, FilePath, PathView};

verus! {

/// Which way an update goes, and how.
pub enum Update {
    /// Copies to the foreign root what only the local root has.
    OnlyFromLocal,
    /// Moves foreign files so that they lie as the local ones do, pairing them by position.
    OnlyFromLocalSync,
    /// Copies to the local root what only the foreign root has.
    OnlyFromForeign,
    /// Moves local files so that they lie as the foreign ones do, pairing them by position.
    OnlyFromForeignSync,
    /// Copies both ways: local to foreign first, then foreign to local.
    Bidirectional,
}

/// What a transfer does with the file.
#[derive(Clone, Copy, PartialEq, Eq, Structural, Debug)]
pub enum TransferKind {
    Copy,
    Move,
}

/// One file to carry from `src` to `dst`.
#[derive(Debug)]
pub struct Transfer {
    pub name: String,
    pub src: FilePath,
    pub dst: FilePath,
    pub kind: TransferKind,
}

/// The mathematical value of a `Transfer`.
pub struct TransferView {
    pub name: Seq<char>,
    pub src: PathView,
    pub dst: PathView,
    pub kind: TransferKind,
}

impl View for Transfer {
    type V = TransferView;

    open spec fn view(&self) -> TransferView {
        TransferView { name: self.name@, src: self.src@, dst: self.dst@, kind: self.kind }
    }
}

pub open spec fn transfer_views(v: Seq<Transfer>) -> Seq<TransferView> {
    v.map_values(|t: Transfer| t@)
}

/// How a transfer ended.
#[derive(Debug, PartialEq, Eq, Clone)]
pub enum BookTransferStatus {
    Copied,
    Moved,
    Error(String),
}

impl BookTransferStatus {
    /// The status as a line of text.
    pub fn to_text(&self) -> (r: String)
        ensures
            r@ == (match self {
                BookTransferStatus::Copied => "Copied"@,
                BookTransferStatus::Moved => "Moved"@,
                BookTransferStatus::Error(e) => "Move error: "@ + e@,
            }),
    {
        match self {
            BookTransferStatus::Copied => String::from_str("Copied"),
            BookTransferStatus::Moved => String::from_str("Moved"),
            BookTransferStatus::Error(e) => String::from_str("Move error: ").concat(e.as_str()),
        }
    }
}

/// What became of one transfer.
#[derive(Debug)]
pub struct BookStatus {
    name: String,
    src: FilePath,
    dst: FilePath,
    status: BookTransferStatus,
}

/// The mathematical value of a `BookStatus`.
pub struct StatusView {
    pub name: Seq<char>,
    pub src: PathView,
    pub dst: PathView,
    pub status: BookTransferStatus,
}

impl View for BookStatus {
    type V = StatusView;

    closed spec fn view(&self) -> StatusView {
        StatusView { name: self.name@, src: self.src@, dst: self.dst@, status: self.status }
    }
}

impl BookStatus {
    pub fn get_name(&self) -> (r: &String)
        ensures
            r@ == self@.name,
    {
        &self.name
    }

    pub fn get_src(&self) -> (r: &FilePath)
        ensures
            r@ == self@.src,
    {
        &self.src
    }

    pub fn get_dst(&self) -> (r: &FilePath)
        ensures
            r@ == self@.dst,
    {
        &self.dst
    }

    pub fn get_status(&self) -> (r: &BookTransferStatus)
        ensures
            *r == self@.status,
    {
        &self.status
    }
}

/// What the outside world reports back to a transfer in progress.
pub enum TransferEvent {
    /// The transfer is about to start.
    Begin,
    /// Whether the directory that is to hold the destination is there.
    ParentChecked(bool),
    /// How creating that directory went.
    ParentCreated(Result<(), String>),
    /// How copying or renaming the file went.
    Transferred(Result<(), String>),
}

/// What a transfer in progress asks of the outside world next.
pub enum TransferStep {
    /// Tell whether this directory is there.
    CheckParent(FilePath),
    /// Create this directory; its own parent is not created.
    CreateParent(FilePath),
    /// Copy the file at the first path to the second.
    CopyFile(FilePath, FilePath),
    /// Rename the file at the first path to the second.
    RenameFile(FilePath, FilePath),
    /// The transfer is over.
    Done(BookStatus),
}

impl Transfer {
    /// `r` carries out the file operation of the transfer.
    pub open spec fn performs(&self, r: TransferStep) -> bool {
        match self.kind {
            TransferKind::Copy => r matches TransferStep::CopyFile(a, b) && a@ == self.src@ && b@ == self.dst@,
            TransferKind::Move => r matches TransferStep::RenameFile(a, b) && a@ == self.src@ && b@ == self.dst@,
        }
    }

    /// `r` ends the transfer with `status`.
    pub open spec fn ends_with(&self, r: TransferStep, status: BookTransferStatus) -> bool {
        r matches TransferStep::Done(s) && s@ == (StatusView {
            name: self.name@,
            src: self.src@,
            dst: self.dst@,
            status,
        })
    }

    /// The status of a transfer whose file operation succeeded.
    pub open spec fn success(&self) -> BookTransferStatus {
        match self.kind {
            TransferKind::Copy => BookTransferStatus::Copied,
            TransferKind::Move => BookTransferStatus::Moved,
        }
    }

    fn finish(&self, status: BookTransferStatus) -> (r: TransferStep)
        ensures
            self.ends_with(r, status),
    {
        TransferStep::Done(
            BookStatus {
                name: self.name.clone(),
                src: self.src.clone(),
                dst: self.dst.clone(),
                status,
            },
        )
    }

    /// The next thing to do, given what the last step reported. The directory that holds
    /// the destination is made first where it is missing; when that fails the file is
    /// left alone and the transfer fails with the reason given.
    pub fn step(&self, event: TransferEvent) -> (r: TransferStep)
        ensures
            match event {
                TransferEvent::Begin => r matches TransferStep::CheckParent(p) && p@ == parent_spec(
                    self.dst@,
                ),
                TransferEvent::ParentChecked(present) => if present {
                    self.performs(r)
                } else {
                    r matches TransferStep::CreateParent(p) && p@ == parent_spec(self.dst@)
                },
                TransferEvent::ParentCreated(Ok(_)) => self.performs(r),
                TransferEvent::ParentCreated(Err(e)) => self.ends_with(r, BookTransferStatus::Error(e)),
                TransferEvent::Transferred(Ok(_)) => self.ends_with(r, self.success()),
                TransferEvent::Transferred(Err(e)) => self.ends_with(r, BookTransferStatus::Error(e)),
            },
    {
        match event {
            TransferEvent::Begin => TransferStep::CheckParent(self.dst.parent()),
            TransferEvent::ParentChecked(present) => {
                if present {
                    self.operation()
                } else {
                    TransferStep::CreateParent(self.dst.parent())
                }
            },
            TransferEvent::ParentCreated(Ok(_)) => self.operation(),
            TransferEvent::ParentCreated(Err(e)) => self.finish(BookTransferStatus::Error(e)),
            TransferEvent::Transferred(Ok(_)) => {
                let status = match self.kind {
                    TransferKind::Copy => BookTransferStatus::Copied,
                    TransferKind::Move => BookTransferStatus::Moved,
                };
                self.finish(status)
            },
            TransferEvent::Transferred(Err(e)) => self.finish(BookTransferStatus::Error(e)),
        }
    }

    fn operation(&self) -> (r: TransferStep)
        ensures
            self.performs(r),
    {
        match self.kind {
            TransferKind::Copy => TransferStep::CopyFile(self.src.clone(), self.dst.clone()),
            TransferKind::Move => TransferStep::RenameFile(self.src.clone(), self.dst.clone()),
        }
    }
}

/// Where a file at `p` under `root` goes under `destination`: the same path relative to it.
pub open spec fn rerooted(p: PathView, root: PathView, destination: PathView) -> PathView {
    join_spec(destination, strip_spec(p, root))
}

/// Copying each of `books`, which lie under `root`, to the same place under `destination`.
pub open spec fn copy_plan(books: Seq<BookView>, root: PathView, destination: PathView) -> Seq<TransferView> {
    books.map_values(
        |b: BookView|
            TransferView {
                name: b.name,
                src: b.path,
                dst: rerooted(b.path, root, destination),
                kind: TransferKind::Copy,
            },
    )
}

/// Pairing the first `n` books of `s` and `d` by position: where the two lie at different
/// places relative to their roots, the file of `d` is moved to where the file of `s` lies,
/// relative to the root of `d`.
pub open spec fn move_plan(s: ShelfView, d: ShelfView, n: int) -> Seq<TransferView>
    decreases n,
{
    if n <= 0 {
        Seq::empty()
    } else {
        let rest = move_plan(s, d, n - 1);
        let a = s.books[n - 1];
        let b = d.books[n - 1];
        if strip_spec(a.path, s.root) == strip_spec(b.path, d.root) {
            rest
        } else {
            rest.push(
                TransferView {
                    name: a.name,
                    src: b.path,
                    dst: rerooted(a.path, s.root, d.root),
                    kind: TransferKind::Move,
                },
            )
        }
    }
}

pub open spec fn min(a: int, b: int) -> int {
    if a < b {
        a
    } else {
        b
    }
}

/// The transfers that carry each book of `books` to the same place under `destination`,
/// in name order.
pub fn copy_files(books: Bookshelf, destination: &FilePath) -> (r: Vec<Transfer>)
    requires
        rooted(books@),
    ensures
        transfer_views(r@) == copy_plan(books@.books, books@.root, destination@),
{
    let items: Vec<Book> = books.iter();
    let ghost s = books@.books;
    let root = books.get_path();
    let mut out: Vec<Transfer> = Vec::new();
    let mut i: usize = 0;
    while i < items.len()
        invariant
            s == books@.books,
            root@ == books@.root,
            rooted(books@),
            crate::book::views(items@) == s,
            i <= s.len(),
            transfer_views(out@) == copy_plan(s, root@, destination@).take(i as int),
        decreases s.len() - i,
    {
        let b = &items[i];
        assert(s[i as int] == b@);
        let rel = b.get_path().strip_prefix(root).unwrap();
        let dst = destination.join(&rel);
        let ghost o0 = transfer_views(out@);
        out.push(
            Transfer {
                name: b.get_name().clone(),
                src: b.get_path().clone(),
                dst,
                kind: TransferKind::Copy,
            },
        );
        assert(transfer_views(out@) =~= o0.push(copy_plan(s, root@, destination@)[i as int]));
        i += 1;
        assert(transfer_views(out@) =~= copy_plan(s, root@, destination@).take(i as int));
    }
    assert(copy_plan(s, root@, destination@).take(s.len() as int) =~= copy_plan(s, root@, destination@));
    out
}

/// The moves that pair the books of `books_src` and `books_dst` by position, skipping the
/// pairs that lie at the same place relative to their roots.
pub fn move_files(books_src: Bookshelf, books_dst: Bookshelf) -> (r: Vec<Transfer>)
    requires
        rooted(books_src@),
        rooted(books_dst@),
    ensures
        transfer_views(r@) == move_plan(
            books_src@,
            books_dst@,
            min(books_src@.books.len() as int, books_dst@.books.len() as int),
        ),
{
    let xs: Vec<Book> = books_src.iter();
    let ys: Vec<Book> = books_dst.iter();
    let ghost s = books_src@;
    let ghost d = books_dst@;
    let src_root = books_src.get_path();
    let dst_root = books_dst.get_path();
    let n = if xs.len() < ys.len() {
        xs.len()
    } else {
        ys.len()
    };
    let mut out: Vec<Transfer> = Vec::new();
    let mut i: usize = 0;
    while i < n
        invariant
            s == books_src@,
            d == books_dst@,
            src_root@ == s.root,
            dst_root@ == d.root,
            rooted(s),
            rooted(d),
            crate::book::views(xs@) == s.books,
            crate::book::views(ys@) == d.books,
            n == min(s.books.len() as int, d.books.len() as int),
            i <= n,
            transfer_views(out@) == move_plan(s, d, i as int),
        decreases n - i,
    {
        let a = &xs[i];
        let b = &ys[i];
        assert(s.books[i as int] == a@);
        assert(d.books[i as int] == b@);
        let rel_a = a.get_path().strip_prefix(src_root).unwrap();
        let rel_b = b.get_path().strip_prefix(dst_root).unwrap();
        if !rel_a.same(&rel_b) {
            let ghost o0 = transfer_views(out@);
            let dst = dst_root.join(&rel_a);
            out.push(
                Transfer {
                    name: a.get_name().clone(),
                    src: b.get_path().clone(),
                    dst,
                    kind: TransferKind::Move,
                },
            );
            assert(transfer_views(out@) =~= move_plan(s, d, i as int + 1));
        }
        i += 1;
    }
    out
}

/// Each shelf less the other: what only the first has, and what only the second has.
pub fn cross_diff(shelves: (Bookshelf, Bookshelf)) -> (r: (Bookshelf, Bookshelf))
    ensures
        r.0@.root == shelves.0@.root,
        r.0@.books == books_without(shelves.0@.books, shelves.1.names()),
        r.1@.root == shelves.1@.root,
        r.1@.books == books_without(shelves.1@.books, shelves.0.names()),
{
    let (local, foreign) = shelves;
    (local.difference(&foreign), foreign.difference(&local))
}

/// Keeps a local and a foreign root in step.
pub struct Updater {
    local: FilePath,
    foreign: FilePath,
}

/// The mathematical value of an `Updater`: its two roots.
pub struct UpdaterView {
    pub local: PathView,
    pub foreign: PathView,
}

impl View for Updater {
    type V = UpdaterView;

    closed spec fn view(&self) -> UpdaterView {
        UpdaterView { local: self.local@, foreign: self.foreign@ }
    }
}

/// The transfers of an update between roots `u`, given the shelves of both sides.
pub open spec fn update_plan(u: UpdaterView, update: Update, local: ShelfView, foreign: ShelfView) -> Seq<
    TransferView,
> {
    let n = min(local.books.len() as int, foreign.books.len() as int);
    let from_local = books_without(local.books, crate::bookshelf::names_of(foreign.books));
    let from_foreign = books_without(foreign.books, crate::bookshelf::names_of(local.books));
    match update {
        Update::OnlyFromLocal => copy_plan(from_local, local.root, u.foreign),
        Update::OnlyFromForeign => copy_plan(from_foreign, foreign.root, u.local),
        Update::Bidirectional => copy_plan(from_local, local.root, u.foreign) + copy_plan(
            from_foreign,
            foreign.root,
            u.local,
        ),
        Update::OnlyFromLocalSync => move_plan(local, foreign, n),
        Update::OnlyFromForeignSync => move_plan(foreign, local, n),
    }
}

impl Updater {
    pub fn new(local: FilePath, foreign: FilePath) -> (r: Updater)
        ensures
            r@.local == local@,
            r@.foreign == foreign@,
    {
        Updater { local, foreign }
    }

    pub fn get_local(&self) -> (r: &FilePath)
        ensures
            r@ == self@.local,
    {
        &self.local
    }

    pub fn get_foreign(&self) -> (r: &FilePath)
        ensures
            r@ == self@.foreign,
    {
        &self.foreign
    }

    /// The transfers that an update makes, given the shelves that indexing the local and
    /// the foreign root gave. Copies go by the names missing on the other side; moves pair
    /// the two shelves by position.
    pub fn update(&self, update: Update, local: Bookshelf, foreign: Bookshelf) -> (r: Vec<Transfer>)
        requires
            rooted(local@),
            rooted(foreign@),
        ensures
            transfer_views(r@) == update_plan(self@, update, local@, foreign@),
    {
        let ghost l = local@;
        let ghost f = foreign@;
        match update {
            Update::OnlyFromLocalSync => move_files(local, foreign),
            Update::OnlyFromForeignSync => move_files(foreign, local),
            _ => {
                let (from_local, from_foreign) = cross_diff((local, foreign));
                proof {
                    lemma_kept_books_rooted(l.books, l.root, crate::bookshelf::names_of(f.books));
                    lemma_kept_books_rooted(f.books, f.root, crate::bookshelf::names_of(l.books));
                }
                match update {
                    Update::OnlyFromLocal => copy_files(from_local, &self.foreign),
                    Update::OnlyFromForeign => copy_files(from_foreign, &self.local),
                    _ => {
                        let mut results = copy_files(from_local, &self.foreign);
                        let mut second = copy_files(from_foreign, &self.local);
                        let ghost r0 = transfer_views(results@);
                        let ghost r1 = transfer_views(second@);
                        results.append(&mut second);
                        assert(transfer_views(results@) =~= r0 + r1);
                        results
                    },
                }
            },
        }
    }
}

/// Moving between two shelves whose books lie at the same places relative to their roots,
/// pair by pair, moves nothing.
pub proof fn law_move_same_layout(s: ShelfView, d: ShelfView)
    requires
        forall|k: int|
            0 <= k < min(s.books.len() as int, d.books.len() as int) ==> strip_spec(
                #[trigger] s.books[k].path,
                s.root,
            ) == strip_spec(d.books[k].path, d.root),
    ensures
        move_plan(s, d, min(s.books.len() as int, d.books.len() as int)) == Seq::<TransferView>::empty(),
{
    lemma_move_plan_empty(s, d, min(s.books.len() as int, d.books.len() as int));
}

proof fn lemma_move_plan_empty(s: ShelfView, d: ShelfView, n: int)
    requires
        n <= min(s.books.len() as int, d.books.len() as int),
        forall|k: int|
            0 <= k < min(s.books.len() as int, d.books.len() as int) ==> strip_spec(
                #[trigger] s.books[k].path,
                s.root,
            ) == strip_spec(d.books[k].path, d.root),
    ensures
        move_plan(s, d, n) == Seq::<TransferView>::empty(),
    decreases n,
{
    if n > 0 {
        lemma_move_plan_empty(s, d, n - 1);
        assert(strip_spec(s.books[n - 1].path, s.root) == strip_spec(d.books[n - 1].path, d.root));
    }
}

} // verus!
