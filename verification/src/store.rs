//! The relational state shared by every operation: author rows, book rows
//! and the many-to-many link rows between them, together with the two id
//! sequences the store draws generated keys from.
//!
//! `Store` is the authoritative model of that state. Its ghost view
//! [`StoreV`] describes it with mathematical sequences, and [`StoreV::wf`]
//! captures the schema's invariants: generated ids are unique and below the
//! next free id, and every link row references existing parent rows.

use vstd::prelude::*;
use vstd::string::StringExecFns;
use crate::authors::{Author, AuthorId};
use crate::books::{Book, BookId};

verus! {

/// Ghost view of one author row.
#[verifier::ext_equal]
pub ghost struct AuthorV {
    pub author_id: int,
    pub name: Seq<char>,
}

/// Ghost view of one book row.
#[verifier::ext_equal]
pub ghost struct BookV {
    pub book_id: int,
    pub name: Seq<char>,
}

/// Ghost view of one link row of the many-to-many relation.
#[verifier::ext_equal]
pub ghost struct LinkV {
    pub author_id: int,
    pub book_id: int,
}

/// One row of the association table joining authors to books. The pair is
/// the row's whole identity: there is no independent key.
#[derive(Clone, Copy, Debug, PartialEq, Eq, Structural)]
pub struct AuthorBookLink {
    pub author_id: AuthorId,
    pub book_id: BookId,
}

impl View for AuthorBookLink {
    type V = LinkV;

    open spec fn view(&self) -> LinkV {
        LinkV { author_id: self.author_id as int, book_id: self.book_id as int }
    }
}

/// The views of a sequence of author rows.
pub open spec fn author_views(rows: Seq<Author>) -> Seq<AuthorV> {
    rows.map_values(|a: Author| a@)
}

/// The views of a sequence of book rows.
pub open spec fn book_views(rows: Seq<Book>) -> Seq<BookV> {
    rows.map_values(|b: Book| b@)
}

/// The views of a sequence of link rows.
pub open spec fn link_views(rows: Seq<AuthorBookLink>) -> Seq<LinkV> {
    rows.map_values(|l: AuthorBookLink| l@)
}

/// Whether some author row carries the given id.
pub open spec fn has_author_id(rows: Seq<AuthorV>, id: int) -> bool {
    exists|i: int| 0 <= i < rows.len() && (#[trigger] rows[i]).author_id == id
}

/// An index of an author row carrying the given id, when one exists.
pub open spec fn author_row_index(rows: Seq<AuthorV>, id: int) -> int {
    choose|i: int| 0 <= i < rows.len() && (#[trigger] rows[i]).author_id == id
}

/// The author row with the given id, or `None` when no row matches.
pub open spec fn find_author(rows: Seq<AuthorV>, id: int) -> Option<AuthorV> {
    if has_author_id(rows, id) {
        Some(rows[author_row_index(rows, id)])
    } else {
        None
    }
}

/// Whether some book row carries the given id.
pub open spec fn has_book_id(rows: Seq<BookV>, id: int) -> bool {
    exists|i: int| 0 <= i < rows.len() && (#[trigger] rows[i]).book_id == id
}

/// An index of a book row carrying the given id, when one exists.
pub open spec fn book_row_index(rows: Seq<BookV>, id: int) -> int {
    choose|i: int| 0 <= i < rows.len() && (#[trigger] rows[i]).book_id == id
}

/// The book row with the given id, or `None` when no row matches.
pub open spec fn find_book(rows: Seq<BookV>, id: int) -> Option<BookV> {
    if has_book_id(rows, id) {
        Some(rows[book_row_index(rows, id)])
    } else {
        None
    }
}

/// No two author rows share an id.
pub open spec fn distinct_author_ids(rows: Seq<AuthorV>) -> bool {
    forall|i: int, j: int|
        0 <= i < j < rows.len() ==> (#[trigger] rows[i]).author_id != (#[trigger] rows[j]).author_id
}

/// No two book rows share an id.
pub open spec fn distinct_book_ids(rows: Seq<BookV>) -> bool {
    forall|i: int, j: int|
        0 <= i < j < rows.len() ==> (#[trigger] rows[i]).book_id != (#[trigger] rows[j]).book_id
}

/// No two link rows are the same (author, book) pair.
pub open spec fn distinct_links(rows: Seq<LinkV>) -> bool {
    forall|i: int, j: int| 0 <= i < j < rows.len() ==> #[trigger] rows[i] != #[trigger] rows[j]
}

/// Ghost view of the whole relational state.
#[verifier::ext_equal]
pub ghost struct StoreV {
    pub authors: Seq<AuthorV>,
    pub books: Seq<BookV>,
    pub links: Seq<LinkV>,
    pub next_author_id: int,
    pub next_book_id: int,
}

impl StoreV {
    /// The schema's invariants: ids are generated below the next free id
    /// and are unique, and links only reference existing parent rows.
    pub open spec fn wf(self) -> bool {
        &&& 1 <= self.next_author_id <= i32::MAX as int
        &&& 1 <= self.next_book_id <= i32::MAX as int
        &&& forall|i: int|
            0 <= i < self.authors.len() ==> 1 <= (#[trigger] self.authors[i]).author_id
                < self.next_author_id
        &&& distinct_author_ids(self.authors)
        &&& forall|i: int|
            0 <= i < self.books.len() ==> 1 <= (#[trigger] self.books[i]).book_id
                < self.next_book_id
        &&& distinct_book_ids(self.books)
        &&& forall|i: int|
            0 <= i < self.links.len() ==> has_author_id(
                self.authors,
                (#[trigger] self.links[i]).author_id,
            ) && has_book_id(self.books, self.links[i].book_id)
        &&& distinct_links(self.links)
    }
}

/// The relational state: author rows, book rows, link rows, and the two
/// id sequences generated keys are drawn from, all in store order.
pub struct Store {
    pub authors: Vec<Author>,
    pub books: Vec<Book>,
    pub links: Vec<AuthorBookLink>,
    pub next_author_id: AuthorId,
    pub next_book_id: BookId,
}

impl View for Store {
    type V = StoreV;

    open spec fn view(&self) -> StoreV {
        StoreV {
            authors: author_views(self.authors@),
            books: book_views(self.books@),
            links: link_views(self.links@),
            next_author_id: self.next_author_id as int,
            next_book_id: self.next_book_id as int,
        }
    }
}

impl Store {
    /// The schema's invariants, stated of the exec value.
    pub open spec fn wf(self) -> bool {
        self@.wf()
    }

    /// An empty store whose id sequences start at 1, as a freshly created
    /// schema's would.
    pub fn new() -> (s: Store)
        ensures
            s.wf(),
            s@.authors == Seq::<AuthorV>::empty(),
            s@.books == Seq::<BookV>::empty(),
            s@.links == Seq::<LinkV>::empty(),
            s@.next_author_id == 1,
            s@.next_book_id == 1,
    {
        let s = Store {
            authors: Vec::new(),
            books: Vec::new(),
            links: Vec::new(),
            next_author_id: 1,
            next_book_id: 1,
        };
        proof {
            assert(s@.authors =~= Seq::<AuthorV>::empty());
            assert(s@.books =~= Seq::<BookV>::empty());
            assert(s@.links =~= Seq::<LinkV>::empty());
        }
        s
    }
}

/// If the rows carry pairwise distinct ids, looking an id up yields
/// exactly the row standing at any index that carries it.
pub proof fn lemma_find_author_at(rows: Seq<AuthorV>, i: int)
    requires
        distinct_author_ids(rows),
        0 <= i < rows.len(),
    ensures
        find_author(rows, rows[i].author_id) == Some(rows[i]),
{
    assert(has_author_id(rows, rows[i].author_id));
    let j = author_row_index(rows, rows[i].author_id);
    assert(rows[j].author_id == rows[i].author_id);
    if i != j {
        assert(rows[i].author_id != rows[j].author_id);
    }
}

/// Symmetric to `lemma_find_author_at` for book rows.
pub proof fn lemma_find_book_at(rows: Seq<BookV>, i: int)
    requires
        distinct_book_ids(rows),
        0 <= i < rows.len(),
    ensures
        find_book(rows, rows[i].book_id) == Some(rows[i]),
{
    assert(has_book_id(rows, rows[i].book_id));
    let j = book_row_index(rows, rows[i].book_id);
    assert(rows[j].book_id == rows[i].book_id);
    if i != j {
        assert(rows[i].book_id != rows[j].book_id);
    }
}

/// The name of the author row with the given id, empty when absent.
pub open spec fn spec_author_name(rows: Seq<AuthorV>, id: int) -> Seq<char> {
    match find_author(rows, id) {
        Some(a) => a.name,
        None => Seq::empty(),
    }
}

/// The name of the book row with the given id, empty when absent.
pub open spec fn spec_book_name(rows: Seq<BookV>, id: int) -> Seq<char> {
    match find_book(rows, id) {
        Some(b) => b.name,
        None => Seq::empty(),
    }
}

/// A filter whose predicate admits every row keeps them all.
pub proof fn lemma_filter_all_kept<A>(s: Seq<A>, pred: spec_fn(A) -> bool)
    requires
        forall|i: int| 0 <= i < s.len() ==> pred(#[trigger] s[i]),
    ensures
        s.filter(pred) == s,
    decreases s.len(),
{
    reveal(Seq::filter);
    if s.len() > 0 {
        let dl = s.drop_last();
        assert forall|i: int| 0 <= i < dl.len() implies pred(#[trigger] dl[i]) by {
            assert(dl[i] == s[i]);
        }
        lemma_filter_all_kept(dl, pred);
        assert(pred(s.last()));
        assert(s.filter(pred) =~= s);
    }
}

/// Every row kept by a filter stands somewhere in the unfiltered rows.
pub proof fn lemma_filter_element_of<A>(s: Seq<A>, pred: spec_fn(A) -> bool, k: int)
    requires
        0 <= k < s.filter(pred).len(),
    ensures
        exists|i: int| 0 <= i < s.len() && #[trigger] s[i] == s.filter(pred)[k],
    decreases s.len(),
{
    reveal(Seq::filter);
    if s.len() > 0 {
        let dl = s.drop_last();
        let f = s.filter(pred);
        let fd = dl.filter(pred);
        if pred(s.last()) && k == f.len() - 1 {
            assert(s[s.len() - 1] == f[k]);
        } else {
            lemma_filter_element_of(dl, pred, k);
            let i = choose|i: int| 0 <= i < dl.len() && #[trigger] dl[i] == fd[k];
            assert(s[i] == f[k]);
        }
    }
}

/// A failure reported by the store to a caller. The model keeps only the
/// operation that failed; the surrounding process logs each statement's
/// own diagnostics as it captures it.
#[derive(Clone, Copy, Debug, PartialEq, Eq, Structural)]
pub enum StorageError {
    /// A dual create-and-link transaction was rolled back because one of
    /// its statements was rejected.
    BulkInsert,
    /// The seeding transaction was rolled back because one of its three
    /// loads was rejected.
    Seed,
}

impl StorageError {
    /// The caller-facing description of the failure.
    pub fn message(&self) -> (s: String)
        ensures
            s@ == match *self {
                StorageError::BulkInsert => "bulk insert failed"@,
                StorageError::Seed => "seeding failed"@,
            },
    {
        match *self {
            StorageError::BulkInsert => String::from_str("bulk insert failed"),
            StorageError::Seed => String::from_str("seeding failed"),
        }
    }
}

/// The pair of ids a dual create-and-link transaction should try to link:
/// present exactly when both parent inserts reported a generated id.
pub fn link_candidates(author_id: Option<AuthorId>, book_id: Option<BookId>) -> (r: Option<
    (AuthorId, BookId),
>)
    ensures
        match r {
            Some(p) => author_id == Some(p.0) && book_id == Some(p.1),
            None => author_id is None || book_id is None,
        },
{
    match (author_id, book_id) {
        (Some(a), Some(b)) => Some((a, b)),
        _ => None,
    }
}

/// Final disposition of a dual create-and-link transaction, from the
/// captured outcome of each statement: the transaction commits, and the
/// two generated ids are returned, exactly when both parent inserts and
/// the link insert succeeded; any failure forces a rollback reported as
/// one aggregated error.
pub fn bulk_disposition(first_id: Option<i32>, second_id: Option<i32>, link_ok: bool) -> (r: Result<
    (i32, i32),
    StorageError,
>)
    ensures
        match r {
            Ok(p) => first_id == Some(p.0) && second_id == Some(p.1) && link_ok,
            Err(e) => {
                &&& (first_id is None || second_id is None || !link_ok)
                &&& e == StorageError::BulkInsert
            },
        },
{
    match (first_id, second_id) {
        (Some(a), Some(b)) => if link_ok {
            Ok((a, b))
        } else {
            Err(StorageError::BulkInsert)
        },
        _ => Err(StorageError::BulkInsert),
    }
}

} // verus!
