use bookstore::authors::{create_author, delete_author, get_all_authors, get_author_by_id, update_author};
use bookstore::books::{create_book, delete_book, get_all_books, get_book_by_id, update_book};
use bookstore::store::Store;

#[test]
fn create_then_get_author_returns_created_name() {
    let mut store = Store::new();
    let id = create_author(&mut store, "Jane Austen");
    let fetched = get_author_by_id(&store, id).expect("author should exist");
    assert_eq!(fetched.author_id, id);
    assert_eq!(fetched.name, "Jane Austen");
}

#[test]
fn get_author_on_never_used_id_is_absent_not_error() {
    let mut store = Store::new();
    assert!(get_author_by_id(&store, 1).is_none());
    let id = create_author(&mut store, "Mary Shelley");
    assert!(get_author_by_id(&store, id + 1).is_none());
}

#[test]
fn author_ids_are_generated_sequentially_from_one() {
    let mut store = Store::new();
    assert_eq!(create_author(&mut store, "A"), 1);
    assert_eq!(create_author(&mut store, "B"), 2);
    assert_eq!(create_author(&mut store, "C"), 3);
}

#[test]
fn get_all_authors_is_idempotent_without_writes() {
    let mut store = Store::new();
    create_author(&mut store, "A");
    create_author(&mut store, "B");
    let first = get_all_authors(&store);
    let second = get_all_authors(&store);
    assert_eq!(first, second);
}

#[test]
fn get_all_authors_returns_rows_in_store_order() {
    let mut store = Store::new();
    create_author(&mut store, "A");
    create_author(&mut store, "B");
    let all = get_all_authors(&store);
    assert_eq!(all.len(), 2);
    assert_eq!(all[0].author_id, 1);
    assert_eq!(all[0].name, "A");
    assert_eq!(all[1].author_id, 2);
    assert_eq!(all[1].name, "B");
}

#[test]
fn update_author_changes_only_that_row() {
    let mut store = Store::new();
    let a = create_author(&mut store, "Old");
    let b = create_author(&mut store, "Other");
    update_author(&mut store, a, "New");
    assert_eq!(get_author_by_id(&store, a).unwrap().name, "New");
    assert_eq!(get_author_by_id(&store, b).unwrap().name, "Other");
}

#[test]
fn update_author_on_nonexistent_id_is_noop_success() {
    let mut store = Store::new();
    create_author(&mut store, "A");
    let before = get_all_authors(&store);
    update_author(&mut store, 99, "Ghost");
    assert_eq!(get_all_authors(&store), before);
}

#[test]
fn delete_author_removes_the_row() {
    let mut store = Store::new();
    let a = create_author(&mut store, "A");
    let b = create_author(&mut store, "B");
    delete_author(&mut store, a);
    assert!(get_author_by_id(&store, a).is_none());
    assert!(get_author_by_id(&store, b).is_some());
    assert_eq!(get_all_authors(&store).len(), 1);
}

#[test]
fn delete_author_on_nonexistent_id_is_noop_success() {
    let mut store = Store::new();
    create_author(&mut store, "A");
    let before = get_all_authors(&store);
    delete_author(&mut store, 42);
    assert_eq!(get_all_authors(&store), before);
}

#[test]
fn create_then_get_book_returns_created_name() {
    let mut store = Store::new();
    let id = create_book(&mut store, "Frankenstein");
    let fetched = get_book_by_id(&store, id).expect("book should exist");
    assert_eq!(fetched.book_id, id);
    assert_eq!(fetched.name, "Frankenstein");
}

#[test]
fn get_book_on_never_used_id_is_absent_not_error() {
    let store = Store::new();
    assert!(get_book_by_id(&store, 7).is_none());
}

#[test]
fn get_all_books_is_idempotent_without_writes() {
    let mut store = Store::new();
    create_book(&mut store, "A");
    create_book(&mut store, "B");
    assert_eq!(get_all_books(&store), get_all_books(&store));
}

#[test]
fn update_book_on_nonexistent_id_is_noop_success() {
    let mut store = Store::new();
    create_book(&mut store, "A");
    let before = get_all_books(&store);
    update_book(&mut store, "Ghost", 99);
    assert_eq!(get_all_books(&store), before);
}

#[test]
fn update_book_changes_only_that_row() {
    let mut store = Store::new();
    let a = create_book(&mut store, "Old");
    update_book(&mut store, "New", a);
    assert_eq!(get_book_by_id(&store, a).unwrap().name, "New");
}

#[test]
fn delete_book_on_nonexistent_id_is_noop_success() {
    let mut store = Store::new();
    create_book(&mut store, "A");
    let before = get_all_books(&store);
    delete_book(&mut store, 42);
    assert_eq!(get_all_books(&store), before);
}

#[test]
fn author_and_book_ids_are_independent_sequences() {
    let mut store = Store::new();
    assert_eq!(create_author(&mut store, "A"), 1);
    assert_eq!(create_book(&mut store, "B"), 1);
    assert_eq!(create_author(&mut store, "C"), 2);
    assert_eq!(create_book(&mut store, "D"), 2);
}
