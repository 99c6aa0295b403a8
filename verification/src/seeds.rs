//! Seeding: load three fixed datasets — authors, books, links — against
//! one transaction. Each load's outcome is captured on its own; the
//! transaction commits only when all three succeeded, otherwise every
//! effect is rolled back and the failure is surfaced.
//!
//! The datasets are external fixtures handed in as plain rows with
//! explicit ids, as a versioned seed file would carry them.

use vstd::prelude::*;
use crate::authors::{Author, AuthorId};
use crate::books::{Book, BookId};
use crate::store::{
    author_views, book_views, distinct_author_ids, distinct_book_ids, distinct_links, has_author_id,
    has_book_id, link_views, AuthorBookLink, AuthorV, BookV, LinkV, StorageError, Store, StoreV,
};

verus! {

/// The captured outcome of the three seed statements, reported when the
/// transaction was rolled back.
#[derive(Clone, Copy, Debug, PartialEq, Eq, Structural)]
pub struct SeedFailure {
    pub authors_ok: bool,
    pub books_ok: bool,
    pub links_ok: bool,
}

/// Final disposition of the seeding transaction from the captured
/// outcome of each statement: commit exactly when all three loads
/// succeeded, otherwise roll back and surface one aggregated error.
pub fn seed_disposition(authors_ok: bool, books_ok: bool, links_ok: bool) -> (r: Result<
    (),
    StorageError,
>)
    ensures
        r is Ok <==> (authors_ok && books_ok && links_ok),
        r matches Err(e) ==> e == StorageError::Seed,
{
    if authors_ok && books_ok && links_ok {
        Ok(())
    } else {
        Err(StorageError::Seed)
    }
}

/// The author load succeeds exactly when every row carries a usable
/// fresh id and no two rows collide.
pub open spec fn author_rows_valid(existing: Seq<AuthorV>, rows: Seq<AuthorV>) -> bool {
    &&& forall|i: int|
        0 <= i < rows.len() ==> 1 <= (#[trigger] rows[i]).author_id < i32::MAX as int
    &&& forall|i: int|
        0 <= i < rows.len() ==> !has_author_id(existing, (#[trigger] rows[i]).author_id)
    &&& distinct_author_ids(rows)
}

/// The book load succeeds exactly when every row carries a usable fresh
/// id and no two rows collide.
pub open spec fn book_rows_valid(existing: Seq<BookV>, rows: Seq<BookV>) -> bool {
    &&& forall|i: int| 0 <= i < rows.len() ==> 1 <= (#[trigger] rows[i]).book_id < i32::MAX as int
    &&& forall|i: int|
        0 <= i < rows.len() ==> !has_book_id(existing, (#[trigger] rows[i]).book_id)
    &&& distinct_book_ids(rows)
}

/// The link load succeeds exactly when every pair references parents
/// visible to the transaction (including the two earlier loads) and no
/// pair is repeated.
pub open spec fn link_rows_valid(
    authors: Seq<AuthorV>,
    books: Seq<BookV>,
    existing: Seq<LinkV>,
    rows: Seq<LinkV>,
) -> bool {
    &&& forall|i: int|
        0 <= i < rows.len() ==> has_author_id(authors, (#[trigger] rows[i]).author_id)
            && has_book_id(books, rows[i].book_id)
    &&& forall|i: int| 0 <= i < rows.len() ==> !existing.contains(#[trigger] rows[i])
    &&& distinct_links(rows)
}

/// The id sequence after rows with explicit ids were loaded: it stays
/// ahead of every id seen.
pub open spec fn bumped_author_next(next: int, rows: Seq<AuthorV>) -> int
    decreases rows.len(),
{
    if rows.len() == 0 {
        next
    } else {
        let b = bumped_author_next(next, rows.drop_last());
        if rows.last().author_id + 1 > b {
            rows.last().author_id + 1
        } else {
            b
        }
    }
}

/// Symmetric to `bumped_author_next` for book ids.
pub open spec fn bumped_book_next(next: int, rows: Seq<BookV>) -> int
    decreases rows.len(),
{
    if rows.len() == 0 {
        next
    } else {
        let b = bumped_book_next(next, rows.drop_last());
        if rows.last().book_id + 1 > b {
            rows.last().book_id + 1
        } else {
            b
        }
    }
}

/// The bumped sequence is ahead of where it started and of every id
/// loaded, and stays within the id type when they do.
pub proof fn lemma_bumped_author_next(next: int, rows: Seq<AuthorV>)
    ensures
        bumped_author_next(next, rows) >= next,
        forall|i: int|
            0 <= i < rows.len() ==> (#[trigger] rows[i]).author_id < bumped_author_next(next, rows),
        (next <= i32::MAX as int && forall|i: int|
            0 <= i < rows.len() ==> (#[trigger] rows[i]).author_id < i32::MAX as int)
            ==> bumped_author_next(next, rows) <= i32::MAX as int,
    decreases rows.len(),
{
    if rows.len() > 0 {
        let dl = rows.drop_last();
        lemma_bumped_author_next(next, dl);
        let b = bumped_author_next(next, rows);
        assert forall|i: int| 0 <= i < rows.len() implies (#[trigger] rows[i]).author_id < b by {
            if i < rows.len() - 1 {
                assert(dl[i] == rows[i]);
                assert(dl[i].author_id < bumped_author_next(next, dl));
            }
        }
        if next <= i32::MAX as int && forall|i: int|
            0 <= i < rows.len() ==> (#[trigger] rows[i]).author_id < i32::MAX as int {
            assert forall|i: int| 0 <= i < dl.len() implies (#[trigger] dl[i]).author_id
                < i32::MAX as int by {
                assert(dl[i] == rows[i]);
            }
            assert(bumped_author_next(next, dl) <= i32::MAX as int);
            assert(rows[rows.len() - 1].author_id < i32::MAX as int);
        }
    }
}

/// Symmetric to `lemma_bumped_author_next` for book ids.
pub proof fn lemma_bumped_book_next(next: int, rows: Seq<BookV>)
    ensures
        bumped_book_next(next, rows) >= next,
        forall|i: int|
            0 <= i < rows.len() ==> (#[trigger] rows[i]).book_id < bumped_book_next(next, rows),
        (next <= i32::MAX as int && forall|i: int|
            0 <= i < rows.len() ==> (#[trigger] rows[i]).book_id < i32::MAX as int)
            ==> bumped_book_next(next, rows) <= i32::MAX as int,
    decreases rows.len(),
{
    if rows.len() > 0 {
        let dl = rows.drop_last();
        lemma_bumped_book_next(next, dl);
        let b = bumped_book_next(next, rows);
        assert forall|i: int| 0 <= i < rows.len() implies (#[trigger] rows[i]).book_id < b by {
            if i < rows.len() - 1 {
                assert(dl[i] == rows[i]);
                assert(dl[i].book_id < bumped_book_next(next, dl));
            }
        }
        if next <= i32::MAX as int && forall|i: int|
            0 <= i < rows.len() ==> (#[trigger] rows[i]).book_id < i32::MAX as int {
            assert forall|i: int| 0 <= i < dl.len() implies (#[trigger] dl[i]).book_id
                < i32::MAX as int by {
                assert(dl[i] == rows[i]);
            }
            assert(bumped_book_next(next, dl) <= i32::MAX as int);
            assert(rows[rows.len() - 1].book_id < i32::MAX as int);
        }
    }
}

/// The state after a committed seed: all three datasets appended, the id
/// sequences moved past every loaded id.
pub open spec fn seed_spec(
    s: StoreV,
    a_rows: Seq<AuthorV>,
    b_rows: Seq<BookV>,
    l_rows: Seq<LinkV>,
) -> StoreV {
    StoreV {
        authors: s.authors + a_rows,
        books: s.books + b_rows,
        links: s.links + l_rows,
        next_author_id: bumped_author_next(s.next_author_id, a_rows),
        next_book_id: bumped_book_next(s.next_book_id, b_rows),
    }
}

/// A committed seed preserves the schema's invariants.
pub proof fn lemma_seed_wf(s: StoreV, a_rows: Seq<AuthorV>, b_rows: Seq<BookV>, l_rows: Seq<LinkV>)
    requires
        s.wf(),
        author_rows_valid(s.authors, a_rows),
        book_rows_valid(s.books, b_rows),
        link_rows_valid(s.authors + a_rows, s.books + b_rows, s.links, l_rows),
    ensures
        seed_spec(s, a_rows, b_rows, l_rows).wf(),
{
    let t = seed_spec(s, a_rows, b_rows, l_rows);
    lemma_bumped_author_next(s.next_author_id, a_rows);
    lemma_bumped_book_next(s.next_book_id, b_rows);
    assert forall|i: int| 0 <= i < t.authors.len() implies 1 <= (#[trigger] t.authors[i]).author_id
        < t.next_author_id by {
        if i < s.authors.len() {
            assert(t.authors[i] == s.authors[i]);
        } else {
            assert(t.authors[i] == a_rows[i - s.authors.len()]);
        }
    }
    assert forall|i: int, j: int| 0 <= i < j < t.authors.len() implies (
    #[trigger] t.authors[i]).author_id != (#[trigger] t.authors[j]).author_id by {
        if j < s.authors.len() {
            assert(t.authors[i] == s.authors[i] && t.authors[j] == s.authors[j]);
        } else if i >= s.authors.len() {
            assert(t.authors[i] == a_rows[i - s.authors.len()]);
            assert(t.authors[j] == a_rows[j - s.authors.len()]);
        } else {
            assert(t.authors[i] == s.authors[i]);
            assert(t.authors[j] == a_rows[j - s.authors.len()]);
            if s.authors[i].author_id == a_rows[j - s.authors.len()].author_id {
                assert(has_author_id(s.authors, a_rows[j - s.authors.len()].author_id));
            }
        }
    }
    assert forall|i: int| 0 <= i < t.books.len() implies 1 <= (#[trigger] t.books[i]).book_id
        < t.next_book_id by {
        if i < s.books.len() {
            assert(t.books[i] == s.books[i]);
        } else {
            assert(t.books[i] == b_rows[i - s.books.len()]);
        }
    }
    assert forall|i: int, j: int| 0 <= i < j < t.books.len() implies (
    #[trigger] t.books[i]).book_id != (#[trigger] t.books[j]).book_id by {
        if j < s.books.len() {
            assert(t.books[i] == s.books[i] && t.books[j] == s.books[j]);
        } else if i >= s.books.len() {
            assert(t.books[i] == b_rows[i - s.books.len()]);
            assert(t.books[j] == b_rows[j - s.books.len()]);
        } else {
            assert(t.books[i] == s.books[i]);
            assert(t.books[j] == b_rows[j - s.books.len()]);
            if s.books[i].book_id == b_rows[j - s.books.len()].book_id {
                assert(has_book_id(s.books, b_rows[j - s.books.len()].book_id));
            }
        }
    }
    assert forall|k: int| 0 <= k < t.links.len() implies has_author_id(
        t.authors,
        (#[trigger] t.links[k]).author_id,
    ) && has_book_id(t.books, t.links[k].book_id) by {
        if k < s.links.len() {
            assert(t.links[k] == s.links[k]);
            assert(has_author_id(s.authors, s.links[k].author_id));
            let i = crate::store::author_row_index(s.authors, s.links[k].author_id);
            assert(t.authors[i].author_id == s.links[k].author_id);
            assert(has_book_id(s.books, s.links[k].book_id));
            let j = crate::store::book_row_index(s.books, s.links[k].book_id);
            assert(t.books[j].book_id == s.links[k].book_id);
        } else {
            assert(t.links[k] == l_rows[k - s.links.len()]);
        }
    }
    assert forall|i: int, j: int| 0 <= i < j < t.links.len() implies #[trigger] t.links[i]
        != #[trigger] t.links[j] by {
        if j < s.links.len() {
            assert(t.links[i] == s.links[i] && t.links[j] == s.links[j]);
        } else if i >= s.links.len() {
            assert(t.links[i] == l_rows[i - s.links.len()]);
            assert(t.links[j] == l_rows[j - s.links.len()]);
        } else {
            assert(t.links[i] == s.links[i]);
            assert(t.links[j] == l_rows[j - s.links.len()]);
            if s.links[i] == l_rows[j - s.links.len()] {
                assert(s.links.contains(l_rows[j - s.links.len()]));
            }
        }
    }
}

/// Whether any of the first `upto` author rows carries the given id.
fn prefix_has_author_id(rows: &Vec<Author>, upto: usize, id: AuthorId) -> (b: bool)
    requires
        upto <= rows.len(),
    ensures
        b == has_author_id(author_views(rows@).take(upto as int), id as int),
{
    let ghost rv = author_views(rows@);
    let mut j: usize = 0;
    while j < upto
        invariant
            upto <= rows.len(),
            j <= upto,
            rv == author_views(rows@),
            forall|k: int| 0 <= k < j ==> (#[trigger] rv[k]).author_id != id as int,
        decreases upto - j,
    {
        if rows[j].author_id == id {
            proof {
                assert(rv.take(upto as int)[j as int].author_id == id as int);
            }
            return true;
        }
        j = j + 1;
    }
    proof {
        assert forall|k: int| 0 <= k < upto implies (#[trigger] rv.take(upto as int)[k]).author_id
            != id as int by {
            assert(rv.take(upto as int)[k] == rv[k]);
        }
    }
    false
}

/// Whether any of the first `upto` book rows carries the given id.
fn prefix_has_book_id(rows: &Vec<Book>, upto: usize, id: BookId) -> (b: bool)
    requires
        upto <= rows.len(),
    ensures
        b == has_book_id(book_views(rows@).take(upto as int), id as int),
{
    let ghost rv = book_views(rows@);
    let mut j: usize = 0;
    while j < upto
        invariant
            upto <= rows.len(),
            j <= upto,
            rv == book_views(rows@),
            forall|k: int| 0 <= k < j ==> (#[trigger] rv[k]).book_id != id as int,
        decreases upto - j,
    {
        if rows[j].book_id == id {
            proof {
                assert(rv.take(upto as int)[j as int].book_id == id as int);
            }
            return true;
        }
        j = j + 1;
    }
    proof {
        assert forall|k: int| 0 <= k < upto implies (#[trigger] rv.take(upto as int)[k]).book_id
            != id as int by {
            assert(rv.take(upto as int)[k] == rv[k]);
        }
    }
    false
}

/// Whether any of the first `upto` link rows is the given pair.
fn prefix_has_link(rows: &Vec<AuthorBookLink>, upto: usize, l: AuthorBookLink) -> (b: bool)
    requires
        upto <= rows.len(),
    ensures
        b == link_views(rows@).take(upto as int).contains(l@),
{
    let ghost rv = link_views(rows@);
    let mut j: usize = 0;
    while j < upto
        invariant
            upto <= rows.len(),
            j <= upto,
            rv == link_views(rows@),
            forall|k: int| 0 <= k < j ==> #[trigger] rv[k] != l@,
        decreases upto - j,
    {
        if rows[j].author_id == l.author_id && rows[j].book_id == l.book_id {
            proof {
                assert(rv.take(upto as int)[j as int] == l@);
            }
            return true;
        }
        j = j + 1;
    }
    proof {
        assert forall|k: int| 0 <= k < upto implies #[trigger] rv.take(upto as int)[k] != l@ by {
            assert(rv.take(upto as int)[k] == rv[k]);
        }
    }
    false
}

/// Run the author load's validity check against the transaction state.
fn author_rows_ok(existing: &Vec<Author>, rows: &Vec<Author>) -> (ok: bool)
    ensures
        ok == author_rows_valid(author_views(existing@), author_views(rows@)),
{
    let ghost ex = author_views(existing@);
    let ghost rv = author_views(rows@);
    let n = rows.len();
    let mut i: usize = 0;
    while i < n
        invariant
            n == rows.len(),
            i <= n,
            ex == author_views(existing@),
            rv == author_views(rows@),
            forall|k: int| 0 <= k < i ==> 1 <= (#[trigger] rv[k]).author_id < i32::MAX as int,
            forall|k: int| 0 <= k < i ==> !has_author_id(ex, (#[trigger] rv[k]).author_id),
            forall|k1: int, k2: int|
                0 <= k1 < k2 < i ==> (#[trigger] rv[k1]).author_id != (
                #[trigger] rv[k2]).author_id,
        decreases n - i,
    {
        let id = rows[i].author_id;
        if id < 1 || id == i32::MAX {
            proof {
                assert(!(1 <= rv[i as int].author_id < i32::MAX as int));
            }
            return false;
        }
        if prefix_has_author_id(existing, existing.len(), id) {
            proof {
                assert(ex.take(existing@.len() as int) =~= ex);
                assert(has_author_id(ex, rv[i as int].author_id));
            }
            return false;
        }
        if prefix_has_author_id(rows, i, id) {
            proof {
                let k = crate::store::author_row_index(rv.take(i as int), id as int);
                assert(rv[k].author_id == rv[i as int].author_id);
            }
            return false;
        }
        proof {
            assert(ex.take(existing@.len() as int) =~= ex);
            assert forall|k: int| 0 <= k < i as int implies (#[trigger] rv[k]).author_id != rv[i
                as int].author_id by {
                assert(rv.take(i as int)[k] == rv[k]);
            }
        }
        i = i + 1;
    }
    proof {
        assert(rv.len() == n);
    }
    true
}

/// Run the book load's validity check against the transaction state.
fn book_rows_ok(existing: &Vec<Book>, rows: &Vec<Book>) -> (ok: bool)
    ensures
        ok == book_rows_valid(book_views(existing@), book_views(rows@)),
{
    let ghost ex = book_views(existing@);
    let ghost rv = book_views(rows@);
    let n = rows.len();
    let mut i: usize = 0;
    while i < n
        invariant
            n == rows.len(),
            i <= n,
            ex == book_views(existing@),
            rv == book_views(rows@),
            forall|k: int| 0 <= k < i ==> 1 <= (#[trigger] rv[k]).book_id < i32::MAX as int,
            forall|k: int| 0 <= k < i ==> !has_book_id(ex, (#[trigger] rv[k]).book_id),
            forall|k1: int, k2: int|
                0 <= k1 < k2 < i ==> (#[trigger] rv[k1]).book_id != (#[trigger] rv[k2]).book_id,
        decreases n - i,
    {
        let id = rows[i].book_id;
        if id < 1 || id == i32::MAX {
            proof {
                assert(!(1 <= rv[i as int].book_id < i32::MAX as int));
            }
            return false;
        }
        if prefix_has_book_id(existing, existing.len(), id) {
            proof {
                assert(ex.take(existing@.len() as int) =~= ex);
                assert(has_book_id(ex, rv[i as int].book_id));
            }
            return false;
        }
        if prefix_has_book_id(rows, i, id) {
            proof {
                let k = crate::store::book_row_index(rv.take(i as int), id as int);
                assert(rv[k].book_id == rv[i as int].book_id);
            }
            return false;
        }
        proof {
            assert(ex.take(existing@.len() as int) =~= ex);
            assert forall|k: int| 0 <= k < i as int implies (#[trigger] rv[k]).book_id != rv[i
                as int].book_id by {
                assert(rv.take(i as int)[k] == rv[k]);
            }
        }
        i = i + 1;
    }
    proof {
        assert(rv.len() == n);
    }
    true
}

/// Run the link load's validity check against the transaction state,
/// with both parent loads already visible.
fn link_rows_ok(
    ex_authors: &Vec<Author>,
    new_authors: &Vec<Author>,
    ex_books: &Vec<Book>,
    new_books: &Vec<Book>,
    ex_links: &Vec<AuthorBookLink>,
    rows: &Vec<AuthorBookLink>,
) -> (ok: bool)
    ensures
        ok == link_rows_valid(
            author_views(ex_authors@) + author_views(new_authors@),
            book_views(ex_books@) + book_views(new_books@),
            link_views(ex_links@),
            link_views(rows@),
        ),
{
    let ghost cat_a = author_views(ex_authors@) + author_views(new_authors@);
    let ghost cat_b = book_views(ex_books@) + book_views(new_books@);
    let ghost elv = link_views(ex_links@);
    let ghost lrv = link_views(rows@);
    let n = rows.len();
    let mut i: usize = 0;
    while i < n
        invariant
            n == rows.len(),
            i <= n,
            cat_a == author_views(ex_authors@) + author_views(new_authors@),
            cat_b == book_views(ex_books@) + book_views(new_books@),
            elv == link_views(ex_links@),
            lrv == link_views(rows@),
            forall|k: int|
                0 <= k < i ==> has_author_id(cat_a, (#[trigger] lrv[k]).author_id) && has_book_id(
                    cat_b,
                    lrv[k].book_id,
                ),
            forall|k: int| 0 <= k < i ==> !elv.contains(#[trigger] lrv[k]),
            forall|k1: int, k2: int| 0 <= k1 < k2 < i ==> #[trigger] lrv[k1] != #[trigger] lrv[k2],
        decreases n - i,
    {
        let l = rows[i];
        let a_seen = prefix_has_author_id(ex_authors, ex_authors.len(), l.author_id)
            || prefix_has_author_id(new_authors, new_authors.len(), l.author_id);
        proof {
            assert(author_views(ex_authors@).take(ex_authors@.len() as int) =~= author_views(
                ex_authors@,
            ));
            assert(author_views(new_authors@).take(new_authors@.len() as int) =~= author_views(
                new_authors@,
            ));
            if a_seen {
                if has_author_id(author_views(ex_authors@), l.author_id as int) {
                    let k = crate::store::author_row_index(
                        author_views(ex_authors@),
                        l.author_id as int,
                    );
                    assert(cat_a[k].author_id == l.author_id as int);
                } else {
                    let k = crate::store::author_row_index(
                        author_views(new_authors@),
                        l.author_id as int,
                    );
                    assert(cat_a[author_views(ex_authors@).len() + k].author_id
                        == l.author_id as int);
                }
                assert(has_author_id(cat_a, l.author_id as int));
            } else {
                if has_author_id(cat_a, l.author_id as int) {
                    let k = crate::store::author_row_index(cat_a, l.author_id as int);
                    if k < author_views(ex_authors@).len() {
                        assert(author_views(ex_authors@)[k].author_id == l.author_id as int);
                    } else {
                        assert(author_views(new_authors@)[k - author_views(
                            ex_authors@,
                        ).len()].author_id == l.author_id as int);
                    }
                    assert(false);
                }
            }
        }
        if !a_seen {
            proof {
                assert(!has_author_id(cat_a, lrv[i as int].author_id));
            }
            return false;
        }
        let b_seen = prefix_has_book_id(ex_books, ex_books.len(), l.book_id)
            || prefix_has_book_id(new_books, new_books.len(), l.book_id);
        proof {
            assert(book_views(ex_books@).take(ex_books@.len() as int) =~= book_views(ex_books@));
            assert(book_views(new_books@).take(new_books@.len() as int) =~= book_views(new_books@));
            if b_seen {
                if has_book_id(book_views(ex_books@), l.book_id as int) {
                    let k = crate::store::book_row_index(book_views(ex_books@), l.book_id as int);
                    assert(cat_b[k].book_id == l.book_id as int);
                } else {
                    let k = crate::store::book_row_index(book_views(new_books@), l.book_id as int);
                    assert(cat_b[book_views(ex_books@).len() + k].book_id == l.book_id as int);
                }
                assert(has_book_id(cat_b, l.book_id as int));
            } else {
                if has_book_id(cat_b, l.book_id as int) {
                    let k = crate::store::book_row_index(cat_b, l.book_id as int);
                    if k < book_views(ex_books@).len() {
                        assert(book_views(ex_books@)[k].book_id == l.book_id as int);
                    } else {
                        assert(book_views(new_books@)[k - book_views(ex_books@).len()].book_id
                            == l.book_id as int);
                    }
                    assert(false);
                }
            }
        }
        if !b_seen {
            proof {
                assert(!has_book_id(cat_b, lrv[i as int].book_id));
            }
            return false;
        }
        if prefix_has_link(ex_links, ex_links.len(), l) {
            proof {
                assert(elv.take(ex_links@.len() as int) =~= elv);
                assert(elv.contains(lrv[i as int]));
            }
            return false;
        }
        if prefix_has_link(rows, i, l) {
            proof {
                let k = choose|k: int|
                    0 <= k < lrv.take(i as int).len() && lrv.take(i as int)[k] == l@;
                assert(lrv[k] == lrv[i as int]);
            }
            return false;
        }
        proof {
            assert(elv.take(ex_links@.len() as int) =~= elv);
            assert(!elv.contains(lrv[i as int]));
            assert forall|k: int| 0 <= k < i as int implies #[trigger] lrv[k] != lrv[i as int] by {
                assert(lrv.take(i as int)[k] == lrv[k]);
            }
        }
        i = i + 1;
    }
    proof {
        assert(lrv.len() == n);
    }
    true
}

/// Seed the store with the three fixed datasets inside one transaction:
/// each load's outcome is captured on its own, the batch commits only if
/// all three succeeded, and otherwise the store is left exactly as it
/// was — no partial seed data persists.
pub fn run(
    store: &mut Store,
    authors: &Vec<Author>,
    books: &Vec<Book>,
    links: &Vec<AuthorBookLink>,
) -> (r: Result<(), SeedFailure>)
    requires
        old(store).wf(),
    ensures
        final(store).wf(),
        r is Ok <==> {
            &&& author_rows_valid(old(store)@.authors, author_views(authors@))
            &&& book_rows_valid(old(store)@.books, book_views(books@))
            &&& link_rows_valid(
                old(store)@.authors + author_views(authors@),
                old(store)@.books + book_views(books@),
                old(store)@.links,
                link_views(links@),
            )
        },
        r is Ok ==> final(store)@ == seed_spec(
            old(store)@,
            author_views(authors@),
            book_views(books@),
            link_views(links@),
        ),
        r matches Err(f) ==> {
            &&& final(store)@ == old(store)@
            &&& f.authors_ok == author_rows_valid(old(store)@.authors, author_views(authors@))
            &&& f.books_ok == book_rows_valid(old(store)@.books, book_views(books@))
            &&& f.links_ok == link_rows_valid(
                old(store)@.authors + author_views(authors@),
                old(store)@.books + book_views(books@),
                old(store)@.links,
                link_views(links@),
            )
        },
{
    let ghost pre = old(store)@;
    let authors_ok = author_rows_ok(&store.authors, authors);
    let books_ok = book_rows_ok(&store.books, books);
    let links_ok = link_rows_ok(
        &store.authors,
        authors,
        &store.books,
        books,
        &store.links,
        links,
    );
    if !(authors_ok && books_ok && links_ok) {
        return Err(SeedFailure { authors_ok, books_ok, links_ok });
    }
    let ghost a_rows = author_views(authors@);
    let ghost b_rows = book_views(books@);
    let ghost l_rows = link_views(links@);
    proof {
        lemma_bumped_author_next(pre.next_author_id, a_rows);
        lemma_bumped_book_next(pre.next_book_id, b_rows);
        assert(pre.authors + a_rows.take(0) =~= pre.authors);
        assert(a_rows.take(0).len() == 0);
    }
    let mut i: usize = 0;
    while i < authors.len()
        invariant
            i <= authors.len(),
            a_rows == author_views(authors@),
            author_rows_valid(pre.authors, a_rows),
            pre.next_author_id <= i32::MAX as int,
            store@.books == pre.books,
            store@.links == pre.links,
            store@.next_book_id == pre.next_book_id,
            store@.authors == pre.authors + a_rows.take(i as int),
            store@.next_author_id == bumped_author_next(pre.next_author_id, a_rows.take(i as int)),
        decreases authors.len() - i,
    {
        proof {
            lemma_bumped_author_next(pre.next_author_id, a_rows.take(i as int));
            assert(1 <= a_rows[i as int].author_id < i32::MAX as int);
            assert(a_rows.take(i as int + 1).drop_last() =~= a_rows.take(i as int));
            assert(a_rows.take(i as int + 1).last() == a_rows[i as int]);
            assert forall|k: int| 0 <= k < a_rows.take(i as int).len() implies (
            #[trigger] a_rows.take(i as int)[k]).author_id < i32::MAX as int by {
                assert(a_rows.take(i as int)[k] == a_rows[k]);
            }
        }
        let row = authors[i].clone();
        let rid = row.author_id;
        let ghost pvec = store.authors@;
        store.authors.push(row);
        if rid >= store.next_author_id {
            store.next_author_id = rid + 1;
        }
        proof {
            assert(store.authors@ == pvec.push(row));
            assert(row@ == a_rows[i as int]);
            assert(author_views(pvec) == pre.authors + a_rows.take(i as int));
            assert(author_views(pvec).len() == pvec.len());
            assert forall|q: int| 0 <= q < pvec.len() + 1 implies author_views(store.authors@)[q]
                == (pre.authors + a_rows.take(i as int + 1))[q] by {
                if q < pvec.len() {
                    assert(store.authors@[q] == pvec[q]);
                    assert(author_views(pvec)[q] == (pre.authors + a_rows.take(i as int))[q]);
                } else {
                    assert(store.authors@[q] == row);
                }
            }
            assert(store@.authors =~= pre.authors + a_rows.take(i as int + 1));
        }
        i = i + 1;
    }
    proof {
        assert(a_rows.take(authors@.len() as int) =~= a_rows);
        assert(pre.books + b_rows.take(0) =~= pre.books);
        assert(b_rows.take(0).len() == 0);
    }
    let mut j: usize = 0;
    while j < books.len()
        invariant
            j <= books.len(),
            a_rows == author_views(authors@),
            b_rows == book_views(books@),
            book_rows_valid(pre.books, b_rows),
            pre.next_book_id <= i32::MAX as int,
            store@.links == pre.links,
            store@.authors == pre.authors + a_rows,
            store@.next_author_id == bumped_author_next(pre.next_author_id, a_rows),
            store@.books == pre.books + b_rows.take(j as int),
            store@.next_book_id == bumped_book_next(pre.next_book_id, b_rows.take(j as int)),
        decreases books.len() - j,
    {
        proof {
            lemma_bumped_book_next(pre.next_book_id, b_rows.take(j as int));
            assert(1 <= b_rows[j as int].book_id < i32::MAX as int);
            assert(b_rows.take(j as int + 1).drop_last() =~= b_rows.take(j as int));
            assert(b_rows.take(j as int + 1).last() == b_rows[j as int]);
            assert forall|k: int| 0 <= k < b_rows.take(j as int).len() implies (
            #[trigger] b_rows.take(j as int)[k]).book_id < i32::MAX as int by {
                assert(b_rows.take(j as int)[k] == b_rows[k]);
            }
        }
        let row = books[j].clone();
        let rid = row.book_id;
        let ghost pvec = store.books@;
        store.books.push(row);
        if rid >= store.next_book_id {
            store.next_book_id = rid + 1;
        }
        proof {
            assert(store.books@ == pvec.push(row));
            assert(row@ == b_rows[j as int]);
            assert(book_views(pvec) == pre.books + b_rows.take(j as int));
            assert(book_views(pvec).len() == pvec.len());
            assert forall|q: int| 0 <= q < pvec.len() + 1 implies book_views(store.books@)[q] == (
            pre.books + b_rows.take(j as int + 1))[q] by {
                if q < pvec.len() {
                    assert(store.books@[q] == pvec[q]);
                    assert(book_views(pvec)[q] == (pre.books + b_rows.take(j as int))[q]);
                } else {
                    assert(store.books@[q] == row);
                }
            }
            assert(store@.books =~= pre.books + b_rows.take(j as int + 1));
        }
        j = j + 1;
    }
    proof {
        assert(b_rows.take(books@.len() as int) =~= b_rows);
        assert(pre.links + l_rows.take(0) =~= pre.links);
    }
    let mut k: usize = 0;
    while k < links.len()
        invariant
            k <= links.len(),
            a_rows == author_views(authors@),
            b_rows == book_views(books@),
            l_rows == link_views(links@),
            store@.authors == pre.authors + a_rows,
            store@.next_author_id == bumped_author_next(pre.next_author_id, a_rows),
            store@.books == pre.books + b_rows,
            store@.next_book_id == bumped_book_next(pre.next_book_id, b_rows),
            store@.links == pre.links + l_rows.take(k as int),
        decreases links.len() - k,
    {
        let l = AuthorBookLink { author_id: links[k].author_id, book_id: links[k].book_id };
        let ghost pvec = store.links@;
        store.links.push(l);
        proof {
            assert(store.links@ == pvec.push(l));
            assert(l@ == l_rows[k as int]);
            assert(link_views(pvec) == pre.links + l_rows.take(k as int));
            assert(link_views(pvec).len() == pvec.len());
            assert forall|q: int| 0 <= q < pvec.len() + 1 implies link_views(store.links@)[q] == (
            pre.links + l_rows.take(k as int + 1))[q] by {
                if q < pvec.len() {
                    assert(store.links@[q] == pvec[q]);
                    assert(link_views(pvec)[q] == (pre.links + l_rows.take(k as int))[q]);
                } else {
                    assert(store.links@[q] == l);
                }
            }
            assert(store@.links =~= pre.links + l_rows.take(k as int + 1));
        }
        k = k + 1;
    }
    proof {
        assert(a_rows.take(authors@.len() as int) =~= a_rows);
        assert(b_rows.take(books@.len() as int) =~= b_rows);
        assert(l_rows.take(links@.len() as int) =~= l_rows);
        lemma_seed_wf(pre, a_rows, b_rows, l_rows);
        assert(store@ =~~= seed_spec(pre, a_rows, b_rows, l_rows));
    }
    Ok(())
}

} // verus!
