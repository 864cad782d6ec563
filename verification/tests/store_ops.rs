//! Store-level behavior: identifier allocation, lookups, partial updates
//! and deletion.

use bookstore::book::{Book, UpdateBookRequest};
use bookstore::store::Storage;

fn create(storage: &mut Storage, title: &str, author: &str, isbn: Option<&str>) -> Book {
    storage.create(
        title.as_bytes().to_vec(),
        author.as_bytes().to_vec(),
        isbn.map(|s| s.as_bytes().to_vec()),
    )
}

#[test]
fn create_assigns_increasing_identifiers() {
    let mut storage = Storage::new();
    let a = create(&mut storage, "A", "a", None);
    let b = create(&mut storage, "B", "b", None);
    let c = create(&mut storage, "C", "c", Some("x"));
    assert_eq!(a.id, 1);
    assert_eq!(b.id, 2);
    assert_eq!(c.id, 3);
    assert!(a.id < b.id && b.id < c.id);
}

#[test]
fn create_identifier_exceeds_all_issued_even_after_delete() {
    let mut storage = Storage::new();
    let a = create(&mut storage, "A", "a", None);
    let b = create(&mut storage, "B", "b", None);
    assert!(storage.delete(a.id));
    assert!(storage.delete(b.id));
    let c = create(&mut storage, "C", "c", None);
    assert!(c.id > a.id && c.id > b.id);
}

#[test]
fn get_all_returns_n_distinct_records_after_n_creates() {
    let mut storage = Storage::new();
    let n = 5;
    for i in 0..n {
        create(&mut storage, &format!("T{}", i), "author", None);
    }
    let all = storage.get_all();
    assert_eq!(all.len(), n);
    for i in 0..n {
        for j in 0..i {
            assert_ne!(all[i].id, all[j].id);
        }
    }
}

#[test]
fn get_finds_stored_record() {
    let mut storage = Storage::new();
    create(&mut storage, "Dune", "Herbert", Some("123"));
    let b = storage.get(1).unwrap();
    assert_eq!(b.title, b"Dune".to_vec());
    assert_eq!(b.author, b"Herbert".to_vec());
    assert_eq!(b.isbn, Some(b"123".to_vec()));
    assert!(storage.get(2).is_none());
}

#[test]
fn update_with_empty_patch_changes_nothing() {
    let mut storage = Storage::new();
    create(&mut storage, "Dune", "Herbert", Some("123"));
    let patch = UpdateBookRequest { title: None, author: None, isbn: None };
    let b = storage.update(1, patch).unwrap();
    assert_eq!(b.title, b"Dune".to_vec());
    assert_eq!(b.author, b"Herbert".to_vec());
    assert_eq!(b.isbn, Some(b"123".to_vec()));
    let stored = storage.get(1).unwrap();
    assert_eq!(stored.title, b"Dune".to_vec());
    assert_eq!(stored.author, b"Herbert".to_vec());
    assert_eq!(stored.isbn, Some(b"123".to_vec()));
}

#[test]
fn update_changes_present_fields_and_keeps_absent_ones() {
    let mut storage = Storage::new();
    create(&mut storage, "Dune", "Herbert", None);
    let patch = UpdateBookRequest {
        title: Some(b"Dune Messiah".to_vec()),
        author: None,
        isbn: Some(b"456".to_vec()),
    };
    storage.update(1, patch).unwrap();
    let b = storage.get(1).unwrap();
    assert_eq!(b.title, b"Dune Messiah".to_vec());
    assert_eq!(b.author, b"Herbert".to_vec());
    assert_eq!(b.isbn, Some(b"456".to_vec()));
}

#[test]
fn update_missing_id_returns_none() {
    let mut storage = Storage::new();
    let patch = UpdateBookRequest { title: Some(b"X".to_vec()), author: None, isbn: None };
    assert!(storage.update(9, patch).is_none());
}

#[test]
fn delete_then_get_is_gone_and_second_delete_fails() {
    let mut storage = Storage::new();
    create(&mut storage, "A", "a", None);
    assert!(storage.delete(1));
    assert!(storage.get(1).is_none());
    assert!(!storage.delete(1));
    assert!(storage.get(1).is_none());
}

#[test]
fn delete_keeps_other_records() {
    let mut storage = Storage::new();
    create(&mut storage, "A", "a", None);
    create(&mut storage, "B", "b", None);
    create(&mut storage, "C", "c", None);
    assert!(storage.delete(2));
    let all = storage.get_all();
    assert_eq!(all.len(), 2);
    assert_eq!(all[0].id, 1);
    assert_eq!(all[1].id, 3);
}
