use vfs_daemon::catalog::Catalog;
use vfs_daemon::catalog::ROOT_INO;

fn add(cat: &mut Catalog, id: u64, name: &str, url: &str, size: u64) -> u64 {
    cat.add_file(id, name.to_owned(), url.to_owned(), size).unwrap()
}

#[test]
fn fresh_catalog_has_only_root() {
    let cat = Catalog::new();
    let root = cat.get(ROOT_INO).unwrap();
    assert_eq!(root.name, "/");
    assert_eq!(root.url, "");
    assert_eq!(root.size, 0);
    assert!(cat.list_children().is_empty());
}

#[test]
fn added_inodes_strictly_increase_and_avoid_root() {
    let mut cat = Catalog::new();
    let a = add(&mut cat, 10, "a.mp4", "proto://a", 1);
    let b = add(&mut cat, 11, "b.mp4", "proto://b", 2);
    let removed = cat.remove_file(10);
    assert_eq!(removed, Some(a));
    let c = add(&mut cat, 12, "c.mp4", "proto://c", 3);
    assert!(a < b && b < c);
    assert_ne!(a, ROOT_INO);
    assert_ne!(b, ROOT_INO);
    assert_ne!(c, ROOT_INO);
}

#[test]
fn get_after_add_returns_supplied_fields() {
    let mut cat = Catalog::new();
    let ino = add(&mut cat, 7, "movie.mp4", "proto://x", 1000);
    let entry = cat.get(ino).unwrap();
    assert_eq!(entry.name, "movie.mp4");
    assert_eq!(entry.url, "proto://x");
    assert_eq!(entry.size, 1000);
    assert_eq!(entry.id, 7);
}

#[test]
fn remove_frees_inode_and_is_idempotent() {
    let mut cat = Catalog::new();
    let ino = add(&mut cat, 7, "movie.mp4", "proto://x", 1000);
    assert_eq!(cat.remove_file(7), Some(ino));
    assert!(cat.get(ino).is_none());
    assert_eq!(cat.remove_file(7), None);
    assert!(cat.get(ino).is_none());
}

#[test]
fn remove_unknown_id_is_absent_not_an_error() {
    let mut cat = Catalog::new();
    assert_eq!(cat.remove_file(999), None);
}

#[test]
fn list_children_never_includes_root() {
    let mut cat = Catalog::new();
    for i in 0..5u64 {
        add(&mut cat, 100 + i, "f", "proto://f", i);
    }
    cat.remove_file(102);
    let children = cat.list_children();
    assert_eq!(children.len(), 4);
    for (ino, _) in children {
        assert_ne!(ino, ROOT_INO);
    }
}

#[test]
fn readding_same_source_id_replaces_old_entry() {
    let mut cat = Catalog::new();
    let first = add(&mut cat, 7, "old.mp4", "proto://old", 1);
    let second = add(&mut cat, 7, "new.mp4", "proto://new", 2);
    assert!(second > first);
    assert!(cat.get(first).is_none());
    let entry = cat.get(second).unwrap();
    assert_eq!(entry.name, "new.mp4");
    assert_eq!(cat.list_children().len(), 1);
    assert_eq!(cat.remove_file(7), Some(second));
    assert!(cat.list_children().is_empty());
}
