use bookstore::authors::{
    create_author, create_author_and_book, delete_author, get_all_authors_with_books,
    get_author_by_id, group_by_author, BookAuthors,
};
use bookstore::books::{
    create_book, create_book_and_author, get_all_books_with_authors, get_book_by_id,
};
use bookstore::store::{bulk_disposition, link_candidates, Store, StorageError};

#[test]
fn bulk_composer_scenario_jane_austen() {
    let mut store = Store::new();
    let (author_id, book_id) =
        create_author_and_book(&mut store, "Jane Austen", "Pride and Prejudice")
            .expect("bulk insert should succeed");
    assert_eq!(author_id, 1);
    assert_eq!(book_id, 1);
    let grouped = get_all_authors_with_books(&store);
    assert_eq!(grouped.len(), 1);
    assert_eq!(grouped[0].author_id, 1);
    assert_eq!(grouped[0].name, "Jane Austen");
    assert_eq!(grouped[0].books.len(), 1);
    assert_eq!(grouped[0].books[0].book_id, 1);
    assert_eq!(grouped[0].books[0].name, "Pride and Prejudice");
}

#[test]
fn bulk_composer_makes_both_rows_observable() {
    let mut store = Store::new();
    let (author_id, book_id) =
        create_author_and_book(&mut store, "Homer", "Odyssey").expect("bulk insert");
    assert_eq!(get_author_by_id(&store, author_id).unwrap().name, "Homer");
    assert_eq!(get_book_by_id(&store, book_id).unwrap().name, "Odyssey");
    let grouped = get_all_authors_with_books(&store);
    let entry = grouped.iter().find(|a| a.author_id == author_id).unwrap();
    assert!(entry.books.iter().any(|b| b.book_id == book_id));
}

#[test]
fn book_first_composer_is_symmetric() {
    let mut store = Store::new();
    let (book_id, author_id) =
        create_book_and_author(&mut store, "Odyssey", "Homer").expect("bulk insert");
    assert_eq!(book_id, 1);
    assert_eq!(author_id, 1);
    let grouped = get_all_books_with_authors(&store);
    assert_eq!(grouped.len(), 1);
    assert_eq!(grouped[0].book_id, 1);
    assert_eq!(grouped[0].name, "Odyssey");
    assert_eq!(grouped[0].authors.len(), 1);
    assert_eq!(grouped[0].authors[0].name, "Homer");
}

#[test]
fn authors_with_books_excludes_authors_without_links() {
    let mut store = Store::new();
    create_author(&mut store, "Unlinked");
    create_author_and_book(&mut store, "Linked", "Some Book").expect("bulk insert");
    let grouped = get_all_authors_with_books(&store);
    assert_eq!(grouped.len(), 1);
    assert_eq!(grouped[0].name, "Linked");
    assert!(grouped.iter().all(|a| !a.books.is_empty()));
}

#[test]
fn books_with_authors_excludes_books_without_links() {
    let mut store = Store::new();
    create_book(&mut store, "Unlinked");
    create_author_and_book(&mut store, "Author", "Linked Book").expect("bulk insert");
    let grouped = get_all_books_with_authors(&store);
    assert_eq!(grouped.len(), 1);
    assert_eq!(grouped[0].name, "Linked Book");
    assert!(grouped.iter().all(|b| !b.authors.is_empty()));
}

#[test]
fn empty_join_yields_empty_mapping_not_error() {
    let mut store = Store::new();
    create_author(&mut store, "A");
    create_book(&mut store, "B");
    assert!(get_all_authors_with_books(&store).is_empty());
    assert!(get_all_books_with_authors(&store).is_empty());
}

#[test]
fn deleting_an_author_cascades_out_of_the_grouped_view() {
    let mut store = Store::new();
    let (author_id, _) = create_author_and_book(&mut store, "Gone", "Left Behind").unwrap();
    create_author_and_book(&mut store, "Stays", "Another").unwrap();
    delete_author(&mut store, author_id);
    let grouped = get_all_authors_with_books(&store);
    assert_eq!(grouped.len(), 1);
    assert_eq!(grouped[0].name, "Stays");
}

#[test]
fn group_by_author_uses_first_seen_fields_and_row_order() {
    let rows = vec![
        BookAuthors {
            author_id: 2,
            book_id: 10,
            author_name: "First".to_string(),
            book_name: "B10".to_string(),
        },
        BookAuthors {
            author_id: 5,
            book_id: 11,
            author_name: "Other".to_string(),
            book_name: "B11".to_string(),
        },
        BookAuthors {
            author_id: 2,
            book_id: 12,
            author_name: "Second".to_string(),
            book_name: "B12".to_string(),
        },
    ];
    let grouped = group_by_author(&rows);
    assert_eq!(grouped.len(), 2);
    assert_eq!(grouped[0].author_id, 2);
    assert_eq!(grouped[0].name, "First");
    assert_eq!(grouped[0].books.len(), 2);
    assert_eq!(grouped[0].books[0].book_id, 10);
    assert_eq!(grouped[0].books[1].book_id, 12);
    assert_eq!(grouped[1].author_id, 5);
    assert_eq!(grouped[1].books.len(), 1);
}

#[test]
fn link_candidates_requires_both_parents() {
    assert_eq!(link_candidates(Some(1), Some(2)), Some((1, 2)));
    assert_eq!(link_candidates(None, Some(2)), None);
    assert_eq!(link_candidates(Some(1), None), None);
    assert_eq!(link_candidates(None, None), None);
}

#[test]
fn bulk_disposition_commits_only_when_every_statement_succeeded() {
    assert_eq!(bulk_disposition(Some(1), Some(2), true), Ok((1, 2)));
    assert_eq!(bulk_disposition(Some(1), Some(2), false), Err(StorageError::BulkInsert));
    assert_eq!(bulk_disposition(None, Some(2), true), Err(StorageError::BulkInsert));
    assert_eq!(bulk_disposition(Some(1), None, true), Err(StorageError::BulkInsert));
    assert_eq!(bulk_disposition(None, None, false), Err(StorageError::BulkInsert));
}

#[test]
fn storage_error_messages_name_the_failed_operation() {
    assert_eq!(StorageError::BulkInsert.message(), "bulk insert failed");
    assert_eq!(StorageError::Seed.message(), "seeding failed");
}
