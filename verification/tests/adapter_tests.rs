use vfs_daemon::catalog::Catalog;
use vfs_daemon::catalog::ROOT_INO;
use vfs_daemon::file_handles::FileHandles;
use vfs_daemon::streaming_fs::FileKind;
use vfs_daemon::streaming_fs::FsError;
use vfs_daemon::streaming_fs::ReadPlan;
use vfs_daemon::streaming_fs::StreamingFS;

fn adapter_with_movie() -> (StreamingFS, u64) {
    let mut cat = Catalog::new();
    let ino = cat.add_file(7, "movie.mp4".to_owned(), "proto://x".to_owned(), 1000).unwrap();
    (StreamingFS::new(cat), ino)
}

#[test]
fn handle_table_allocates_from_zero() {
    let mut handles = FileHandles::new();
    let h0 = handles.open(5);
    let h1 = handles.open(5);
    assert_eq!(h0, 0);
    assert_eq!(h1, 1);
    assert_eq!(handles.get(h0).unwrap().ino, 5);
    handles.close(h0);
    assert!(handles.get(h0).is_none());
    handles.close(h0);
    assert!(handles.get(h1).is_some());
}

#[test]
fn readdir_of_fresh_catalog_yields_dot_entries() {
    let fs = StreamingFS::new(Catalog::new());
    let items = fs.readdir(ROOT_INO, 0).unwrap();
    assert_eq!(items.len(), 2);
    assert_eq!(items[0].name, ".");
    assert_eq!(items[0].ino, ROOT_INO);
    assert_eq!(items[0].kind, FileKind::Directory);
    assert_eq!(items[1].name, "..");
    assert_eq!(items[1].ino, ROOT_INO);
    assert_eq!(items[1].kind, FileKind::Directory);
}

#[test]
fn readdir_of_non_root_fails_not_found() {
    let fs = StreamingFS::new(Catalog::new());
    assert_eq!(fs.readdir(2, 0).unwrap_err(), FsError::NotFound);
}

#[test]
fn readdir_resumes_from_cookie() {
    let mut cat = Catalog::new();
    let ino = cat.add_file(7, "movie.mp4".to_owned(), "proto://x".to_owned(), 1000).unwrap();
    let fs = StreamingFS::new(cat);
    let items = fs.readdir(ROOT_INO, 0).unwrap();
    assert_eq!(items.len(), 3);
    assert_eq!(items[2].name, "movie.mp4");
    assert_eq!(items[2].ino, ino);
    assert_eq!(items[2].kind, FileKind::RegularFile);
    let rest = fs.readdir(ROOT_INO, items[1].cookie as i64).unwrap();
    assert_eq!(rest.len(), 1);
    assert_eq!(rest[0].name, "movie.mp4");
    let done = fs.readdir(ROOT_INO, items[2].cookie as i64).unwrap();
    assert!(done.is_empty());
}

#[test]
fn lookup_finds_entry_by_name() {
    let (fs, ino) = adapter_with_movie();
    let (found, attr) = fs.lookup(ROOT_INO, &"movie.mp4".to_owned()).unwrap();
    assert_eq!(found, ino);
    assert_eq!(attr.size, 1000);
    assert_eq!(attr.kind, FileKind::RegularFile);
}

#[test]
fn lookup_misses_are_not_found() {
    let (fs, _) = adapter_with_movie();
    assert_eq!(fs.lookup(ROOT_INO, &"other.mp4".to_owned()).unwrap_err(), FsError::NotFound);
    assert_eq!(fs.lookup(9, &"movie.mp4".to_owned()).unwrap_err(), FsError::NotFound);
}

#[test]
fn getattr_reports_regular_file_attributes() {
    let (fs, ino) = adapter_with_movie();
    let attr = fs.getattr(ino).unwrap();
    assert_eq!(attr.ino, ino);
    assert_eq!(attr.kind, FileKind::RegularFile);
    assert_eq!(attr.perm, 0o444);
    assert_eq!(attr.nlink, 1);
    assert_eq!(attr.size, 1000);
    assert_eq!(attr.blocks, 2);
}

#[test]
fn getattr_reports_root_directory_attributes() {
    let (fs, _) = adapter_with_movie();
    let attr = fs.getattr(ROOT_INO).unwrap();
    assert_eq!(attr.kind, FileKind::Directory);
    assert_eq!(attr.perm, 0o755);
    assert_eq!(attr.nlink, 2);
    assert_eq!(attr.size, 0);
    assert_eq!(attr.blocks, 0);
}

#[test]
fn block_count_rounds_up_to_512_byte_blocks() {
    let mut cat = Catalog::new();
    let i0 = cat.add_file(1, "zero".to_owned(), "proto://0".to_owned(), 0).unwrap();
    let i1 = cat.add_file(2, "one".to_owned(), "proto://1".to_owned(), 1).unwrap();
    let i512 = cat.add_file(3, "full".to_owned(), "proto://2".to_owned(), 512).unwrap();
    let i513 = cat.add_file(4, "spill".to_owned(), "proto://3".to_owned(), 513).unwrap();
    let huge = cat.add_file(5, "huge".to_owned(), "proto://4".to_owned(), u64::MAX).unwrap();
    let fs = StreamingFS::new(cat);
    assert_eq!(fs.getattr(i0).unwrap().blocks, 0);
    assert_eq!(fs.getattr(i1).unwrap().blocks, 1);
    assert_eq!(fs.getattr(i512).unwrap().blocks, 1);
    assert_eq!(fs.getattr(i513).unwrap().blocks, 2);
    assert_eq!(fs.getattr(huge).unwrap().blocks, u64::MAX / 512 + 1);
}

#[test]
fn lookup_with_duplicate_names_returns_first_added() {
    let mut cat = Catalog::new();
    let first = cat.add_file(1, "same.mp4".to_owned(), "proto://a".to_owned(), 1).unwrap();
    let _second = cat.add_file(2, "same.mp4".to_owned(), "proto://b".to_owned(), 2).unwrap();
    let fs = StreamingFS::new(cat);
    let (found, attr) = fs.lookup(ROOT_INO, &"same.mp4".to_owned()).unwrap();
    assert_eq!(found, first);
    assert_eq!(attr.size, 1);
}

#[test]
fn read_of_largest_file_is_clamped_to_request_size() {
    let mut cat = Catalog::new();
    let ino = cat.add_file(1, "huge".to_owned(), "proto://h".to_owned(), u64::MAX).unwrap();
    let mut fs = StreamingFS::new(cat);
    let fh = fs.open(ino).unwrap();
    match fs.read_plan(fh, 0, 10).unwrap() {
        ReadPlan::Fetch { url, offset, length } => {
            assert_eq!(url, "proto://h");
            assert_eq!(offset, 0);
            assert_eq!(length, 10);
        }
        ReadPlan::Empty => panic!("expected a fetch within the file"),
    }
}

#[test]
fn getattr_of_unknown_inode_fails_not_found() {
    let (fs, ino) = adapter_with_movie();
    assert_eq!(fs.getattr(ino + 1).unwrap_err(), FsError::NotFound);
}

#[test]
fn first_open_returns_handle_zero() {
    let (mut fs, ino) = adapter_with_movie();
    assert_eq!(fs.open(ino).unwrap(), 0);
    assert_eq!(fs.open(ino).unwrap(), 1);
}

#[test]
fn open_of_unknown_inode_fails_not_found() {
    let (mut fs, ino) = adapter_with_movie();
    assert_eq!(fs.open(ino + 1).unwrap_err(), FsError::NotFound);
}

#[test]
fn read_near_end_is_clamped_to_file_size() {
    let (mut fs, ino) = adapter_with_movie();
    let fh = fs.open(ino).unwrap();
    assert_eq!(fh, 0);
    match fs.read_plan(fh, 999, 10).unwrap() {
        ReadPlan::Fetch { url, offset, length } => {
            assert_eq!(url, "proto://x");
            assert_eq!(offset, 999);
            assert_eq!(length, 1);
        }
        ReadPlan::Empty => panic!("expected a fetch within the file"),
    }
}

#[test]
fn read_at_end_of_file_is_empty_not_an_error() {
    let (mut fs, ino) = adapter_with_movie();
    let fh = fs.open(ino).unwrap();
    match fs.read_plan(fh, 1000, 10).unwrap() {
        ReadPlan::Empty => {}
        ReadPlan::Fetch { .. } => panic!("expected an empty read at end of file"),
    }
}

#[test]
fn read_with_unknown_handle_is_invalid_handle() {
    let (fs, _) = adapter_with_movie();
    assert_eq!(fs.read_plan(42, 0, 10).unwrap_err(), FsError::InvalidHandle);
}

#[test]
fn read_after_entry_removed_is_not_found() {
    let (mut fs, ino) = adapter_with_movie();
    let fh = fs.open(ino).unwrap();
    fs.catalog.remove_file(7);
    assert_eq!(fs.read_plan(fh, 0, 10).unwrap_err(), FsError::NotFound);
}

#[test]
fn release_invalidates_handle_and_is_idempotent() {
    let (mut fs, ino) = adapter_with_movie();
    let fh = fs.open(ino).unwrap();
    fs.release(fh);
    assert_eq!(fs.read_plan(fh, 0, 10).unwrap_err(), FsError::InvalidHandle);
    fs.release(fh);
}
