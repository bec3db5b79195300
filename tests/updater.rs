use e_book_sync_library::book::Book;
use e_book_sync_library::bookshelf::Bookshelf;
use e_book_sync_library::indexer::{Indexer, Walked};
use e_book_sync_library::path::FilePath;
use e_book_sync_library::updater::{
    copy_files, cross_diff, move_files, BookStatus, BookTransferStatus, Transfer, TransferEvent,
    TransferKind, TransferStep, Update, Updater,
};

fn p(text: &str) -> FilePath {
    FilePath::parse(text)
}

fn shelf(root: &str, files: &[&str]) -> Bookshelf {
    let walk: Vec<Walked> = files.iter().map(|f| Walked::File(p(f))).collect();
    Indexer::new(p(root)).index(&walk)
}

/// Runs a transfer against a file system in which every directory is present and every
/// operation succeeds.
fn run_ok(t: &Transfer) -> BookStatus {
    let mut event = TransferEvent::Begin;
    loop {
        match t.step(event) {
            TransferStep::CheckParent(_) => event = TransferEvent::ParentChecked(true),
            TransferStep::CreateParent(_) => event = TransferEvent::ParentCreated(Ok(())),
            TransferStep::CopyFile(_, _) | TransferStep::RenameFile(_, _) => {
                event = TransferEvent::Transferred(Ok(()))
            }
            TransferStep::Done(s) => return s,
        }
    }
}

#[test]
fn update_only_from_local_copies_missing() {
    let u = Updater::new(p("/l"), p("/f"));
    let plan = u.update(
        Update::OnlyFromLocal,
        shelf("/l", &["/l/a.txt", "/l/b.txt"]),
        shelf("/f", &["/f/b.txt"]),
    );
    assert_eq!(plan.len(), 1);
    assert_eq!(plan[0].name, "a.txt".to_string());
    assert_eq!(plan[0].src, p("/l/a.txt"));
    assert_eq!(plan[0].dst, p("/f/a.txt"));
    assert_eq!(plan[0].kind, TransferKind::Copy);
    let status = run_ok(&plan[0]);
    assert_eq!(status.get_status(), &BookTransferStatus::Copied);
    assert_eq!(status.get_name(), &"a.txt".to_string());

    let mut after = shelf("/f", &["/f/b.txt"]);
    after.add(Book::from(status.get_dst().clone()));
    assert!(after == shelf("/f", &["/f/a.txt", "/f/b.txt"]));
}

#[test]
fn update_bidirectional_copies_both_ways() {
    let u = Updater::new(p("/l"), p("/f"));
    let plan = u.update(
        Update::Bidirectional,
        shelf("/l", &["/l/x.txt"]),
        shelf("/f", &["/f/y.txt"]),
    );
    let results: Vec<(String, BookTransferStatus)> = plan
        .iter()
        .map(|t| run_ok(t))
        .map(|s| (s.get_name().clone(), s.get_status().clone()))
        .collect();
    assert_eq!(
        results,
        [
            ("x.txt".to_string(), BookTransferStatus::Copied),
            ("y.txt".to_string(), BookTransferStatus::Copied),
        ]
    );
    assert_eq!(plan[0].dst, p("/f/x.txt"));
    assert_eq!(plan[1].dst, p("/l/y.txt"));

    let local = shelf("/l", &["/l/x.txt", "/l/y.txt"]);
    let foreign = shelf("/f", &["/f/y.txt", "/f/x.txt"]);
    let (from_local, from_foreign) = cross_diff((local, foreign));
    assert!(from_local.iter().is_empty());
    assert!(from_foreign.iter().is_empty());
}

#[test]
fn update_bidirectional_equals_both_one_sided() {
    let u = Updater::new(p("/l"), p("/f"));
    let local = || shelf("/l", &["/l/file_one.txt", "/l/file_three.txt"]);
    let foreign = || shelf("/f", &["/f/file_one.txt", "/f/file_four.txt"]);
    let both: Vec<String> = u
        .update(Update::Bidirectional, local(), foreign())
        .iter()
        .map(|t| t.name.clone())
        .collect();
    let mut one_sided = u.update(Update::OnlyFromLocal, local(), foreign());
    one_sided.append(&mut u.update(Update::OnlyFromForeign, local(), foreign()));
    let one_sided: Vec<String> = one_sided.iter().map(|t| t.name.clone()).collect();
    assert_eq!(both, vec!["file_three.txt", "file_four.txt"]);
    assert_eq!(both, one_sided);
}

#[test]
fn copy_creates_one_missing_directory() {
    let plan = copy_files(shelf("/l", &["/l/test/file_four.txt"]), &p("/f"));
    let t = &plan[0];
    assert_eq!(t.dst, p("/f/test/file_four.txt"));
    match t.step(TransferEvent::Begin) {
        TransferStep::CheckParent(dir) => assert_eq!(dir, p("/f/test")),
        _ => panic!("the parent directory is checked first"),
    }
    match t.step(TransferEvent::ParentChecked(false)) {
        TransferStep::CreateParent(dir) => assert_eq!(dir, p("/f/test")),
        _ => panic!("a missing parent directory is created"),
    }
    match t.step(TransferEvent::ParentCreated(Ok(()))) {
        TransferStep::CopyFile(a, b) => {
            assert_eq!(a, p("/l/test/file_four.txt"));
            assert_eq!(b, p("/f/test/file_four.txt"));
        }
        _ => panic!("the file is copied once the directory is there"),
    }
    match t.step(TransferEvent::Transferred(Ok(()))) {
        TransferStep::Done(s) => assert_eq!(s.get_status(), &BookTransferStatus::Copied),
        _ => panic!("the transfer ends after the copy"),
    }
}

#[test]
fn failed_directory_creation_fails_the_copy() {
    let plan = copy_files(shelf("/l", &["/l/test/file_four.txt"]), &p("/f"));
    match plan[0].step(TransferEvent::ParentCreated(Err("Permission denied".to_string()))) {
        TransferStep::Done(s) => {
            assert_eq!(
                s.get_status(),
                &BookTransferStatus::Error("Permission denied".to_string())
            );
            assert_eq!(s.get_src(), &p("/l/test/file_four.txt"));
            assert_eq!(s.get_dst(), &p("/f/test/file_four.txt"));
        }
        _ => panic!("no file is written when the directory cannot be made"),
    }
}

#[test]
fn failed_copy_reports_reason() {
    let plan = copy_files(shelf("/l", &["/l/a.txt"]), &p("/f"));
    match plan[0].step(TransferEvent::Transferred(Err("No space left".to_string()))) {
        TransferStep::Done(s) => {
            assert_eq!(s.get_status(), &BookTransferStatus::Error("No space left".to_string()));
            assert_eq!(s.get_status().to_text(), "Move error: No space left".to_string());
        }
        _ => panic!("a failed copy ends the transfer"),
    }
}

#[test]
fn move_same_layout_is_empty() {
    let src = shelf("/l", &["/l/a.txt", "/l/d/b.txt"]);
    let dst = shelf("/f", &["/f/a.txt", "/f/d/b.txt"]);
    assert!(move_files(src, dst).is_empty());
}

#[test]
fn move_pairs_by_position() {
    let src = shelf("/l", &["/l/test/file_four.txt"]);
    let dst = shelf("/f", &["/f/file_four.txt"]);
    let plan = move_files(src, dst);
    assert_eq!(plan.len(), 1);
    assert_eq!(plan[0].name, "file_four.txt".to_string());
    assert_eq!(plan[0].src, p("/f/file_four.txt"));
    assert_eq!(plan[0].dst, p("/f/test/file_four.txt"));
    assert_eq!(plan[0].kind, TransferKind::Move);
    let status = run_ok(&plan[0]);
    assert_eq!(status.get_status(), &BookTransferStatus::Moved);
    assert_eq!(status.get_status().to_text(), "Moved".to_string());
}

#[test]
fn update_sync_modes_move() {
    let u = Updater::new(p("/l"), p("/f"));
    let local = || shelf("/l", &["/l/sub/a.txt"]);
    let foreign = || shelf("/f", &["/f/a.txt"]);
    let to_foreign = u.update(Update::OnlyFromLocalSync, local(), foreign());
    assert_eq!(to_foreign[0].src, p("/f/a.txt"));
    assert_eq!(to_foreign[0].dst, p("/f/sub/a.txt"));
    let to_local = u.update(Update::OnlyFromForeignSync, local(), foreign());
    assert_eq!(to_local[0].src, p("/l/sub/a.txt"));
    assert_eq!(to_local[0].dst, p("/l/a.txt"));
    assert!(u.update(Update::OnlyFromForeign, local(), foreign()).is_empty());
}

#[test]
fn status_texts() {
    assert_eq!(BookTransferStatus::Copied.to_text(), "Copied".to_string());
    assert_eq!(
        BookTransferStatus::Error("x".to_string()).to_text(),
        "Move error: x".to_string()
    );
}
