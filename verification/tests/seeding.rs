use bookstore::authors::{create_author, get_all_authors, Author};
use bookstore::books::{get_all_books, Book};
use bookstore::seeds::{run, seed_disposition};
use bookstore::store::{AuthorBookLink, StorageError, Store};

fn author(id: i32, name: &str) -> Author {
    Author { author_id: id, name: name.to_string() }
}

fn book(id: i32, name: &str) -> Book {
    Book { book_id: id, name: name.to_string() }
}

fn link(author_id: i32, book_id: i32) -> AuthorBookLink {
    AuthorBookLink { author_id, book_id }
}

#[test]
fn seeding_commits_all_three_datasets_together() {
    let mut store = Store::new();
    let authors = vec![author(1, "Jane Austen"), author(2, "Mary Shelley")];
    let books = vec![book(1, "Pride and Prejudice"), book(2, "Frankenstein")];
    let links = vec![link(1, 1), link(2, 2)];
    run(&mut store, &authors, &books, &links).expect("seeding should commit");
    assert_eq!(get_all_authors(&store), authors);
    assert_eq!(get_all_books(&store), books);
}

#[test]
fn seeding_with_dangling_link_rolls_everything_back() {
    let mut store = Store::new();
    let authors = vec![author(1, "Jane Austen")];
    let books = vec![book(1, "Pride and Prejudice")];
    let links = vec![link(1, 99)];
    let failure = run(&mut store, &authors, &books, &links).expect_err("seeding should fail");
    assert!(failure.authors_ok);
    assert!(failure.books_ok);
    assert!(!failure.links_ok);
    assert!(get_all_authors(&store).is_empty());
    assert!(get_all_books(&store).is_empty());
}

#[test]
fn seeding_with_duplicate_author_id_rolls_everything_back() {
    let mut store = Store::new();
    let authors = vec![author(1, "A"), author(1, "B")];
    let books = vec![book(1, "C")];
    let links = vec![link(1, 1)];
    let failure = run(&mut store, &authors, &books, &links).expect_err("seeding should fail");
    assert!(!failure.authors_ok);
    assert!(get_all_authors(&store).is_empty());
    assert!(get_all_books(&store).is_empty());
}

#[test]
fn seeding_with_duplicate_link_pair_rolls_everything_back() {
    let mut store = Store::new();
    let authors = vec![author(1, "A")];
    let books = vec![book(1, "B")];
    let links = vec![link(1, 1), link(1, 1)];
    let failure = run(&mut store, &authors, &books, &links).expect_err("seeding should fail");
    assert!(failure.authors_ok);
    assert!(failure.books_ok);
    assert!(!failure.links_ok);
    assert!(get_all_authors(&store).is_empty());
}

#[test]
fn seeding_colliding_with_existing_rows_rolls_back() {
    let mut store = Store::new();
    let existing = create_author(&mut store, "Existing");
    let authors = vec![author(existing, "Clash")];
    let books = vec![book(1, "B")];
    let links = vec![];
    let failure = run(&mut store, &authors, &books, &links).expect_err("seeding should fail");
    assert!(!failure.authors_ok);
    assert!(failure.books_ok);
    let all = get_all_authors(&store);
    assert_eq!(all.len(), 1);
    assert_eq!(all[0].name, "Existing");
}

#[test]
fn id_generation_continues_past_seeded_ids() {
    let mut store = Store::new();
    let authors = vec![author(5, "Seeded")];
    let books = vec![];
    let links = vec![];
    run(&mut store, &authors, &books, &links).expect("seeding should commit");
    assert_eq!(create_author(&mut store, "Next"), 6);
}

#[test]
fn seed_disposition_commits_only_when_all_loads_succeeded() {
    assert_eq!(seed_disposition(true, true, true), Ok(()));
    assert_eq!(seed_disposition(false, true, true), Err(StorageError::Seed));
    assert_eq!(seed_disposition(true, false, true), Err(StorageError::Seed));
    assert_eq!(seed_disposition(true, true, false), Err(StorageError::Seed));
}
