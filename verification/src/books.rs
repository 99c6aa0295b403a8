//! CRUD over the books entity, the book-first dual create-and-link
//! transaction, and the books-with-authors join-and-group query.
//!
//! Symmetric to the authors module: every operation takes the store it
//! acts against and is specified by a ghost transition over [`StoreV`].

use vstd::prelude::*;
use vstd::string::StringExecFns;
use crate::store::{
    book_row_index, book_views, distinct_book_ids, find_book, has_book_id, lemma_find_book_at,
    link_views, AuthorBookLink, BookV, LinkV, Store, StoreV,
};

verus! {

/// Identifier of a book row, assigned by the store on insert.
pub type BookId = i32;

/// Single book row: just its id and name, without the related authors.
#[derive(Debug, PartialEq)]
pub struct Book {
    pub book_id: BookId,
    pub name: String,
}

impl View for Book {
    type V = BookV;

    open spec fn view(&self) -> BookV {
        BookV { book_id: self.book_id as int, name: self.name@ }
    }
}

impl Clone for Book {
    fn clone(&self) -> (r: Self)
        ensures
            r@ == self@,
    {
        Book { book_id: self.book_id, name: self.name.clone() }
    }
}

/// The rows kept by a delete of the given book id.
pub open spec fn book_keep(id: int) -> spec_fn(BookV) -> bool {
    |b: BookV| b.book_id != id
}

/// The link rows kept by a delete of the given book id.
pub open spec fn link_keep_book(id: int) -> spec_fn(LinkV) -> bool {
    |l: LinkV| l.book_id != id
}

/// The row-wise effect of an update of the given book id.
pub open spec fn book_rename(id: int, name: Seq<char>) -> spec_fn(BookV) -> BookV {
    |b: BookV| if b.book_id == id {
        BookV { book_id: b.book_id, name: name }
    } else {
        b
    }
}

/// The state after `create_book`, paired with the id it returns.
pub open spec fn create_book_spec(s: StoreV, name: Seq<char>) -> (StoreV, int) {
    (StoreV {
        books: s.books.push(BookV { book_id: s.next_book_id, name: name }),
        next_book_id: s.next_book_id + 1,
        ..s
    }, s.next_book_id)
}

/// The state after `update_book`.
pub open spec fn update_book_spec(s: StoreV, id: int, name: Seq<char>) -> StoreV {
    StoreV { books: s.books.map_values(book_rename(id, name)), ..s }
}

/// The state after `delete_book`: the book row goes, and with it every
/// link row that referenced it (the store's cascading constraint).
pub open spec fn delete_book_spec(s: StoreV, id: int) -> StoreV {
    StoreV { books: s.books.filter(book_keep(id)), links: s.links.filter(link_keep_book(id)), ..s }
}

/// Insert one book row. The store assigns the next generated id, returns
/// it, and leaves every other row untouched.
pub fn create_book(store: &mut Store, name: &str) -> (id: BookId)
    requires
        old(store).wf(),
        old(store)@.next_book_id < i32::MAX as int,
    ensures
        final(store).wf(),
        final(store)@ == create_book_spec(old(store)@, name@).0,
        id as int == create_book_spec(old(store)@, name@).1,
        !has_book_id(old(store)@.books, id as int),
{
    let id: BookId = store.next_book_id;
    store.next_book_id = store.next_book_id + 1;
    let row = Book { book_id: id, name: String::from_str(name) };
    store.books.push(row);
    proof {
        let pre = old(store)@;
        let post = create_book_spec(pre, name@).0;
        assert(store@.books =~= post.books);
        assert(store@ =~~= post);
        assert forall|k: int| 0 <= k < post.links.len() implies has_book_id(
            post.books,
            (#[trigger] post.links[k]).book_id,
        ) by {
            let i = book_row_index(pre.books, pre.links[k].book_id);
            assert(post.books[i].book_id == pre.links[k].book_id);
        }
        assert(!has_book_id(pre.books, id as int));
    }
    id
}

/// Fetch the book row with the given id. A miss is an explicit absent
/// value, never an error.
pub fn get_book_by_id(store: &Store, book_id: BookId) -> (r: Option<Book>)
    requires
        store.wf(),
    ensures
        r matches Some(b) ==> find_book(store@.books, book_id as int) == Some(b@),
        r is None ==> !has_book_id(store@.books, book_id as int),
{
    let n = store.books.len();
    let mut i: usize = 0;
    while i < n
        invariant
            store.wf(),
            n == store.books.len(),
            i <= n,
            forall|j: int| 0 <= j < i ==> (#[trigger] store@.books[j]).book_id != book_id as int,
        decreases n - i,
    {
        if store.books[i].book_id == book_id {
            let b = store.books[i].clone();
            proof {
                lemma_find_book_at(store@.books, i as int);
            }
            return Some(b);
        }
        i = i + 1;
    }
    None
}

/// Every book row, in store order.
pub fn get_all_books(store: &Store) -> (r: Vec<Book>)
    ensures
        book_views(r@) == store@.books,
{
    let n = store.books.len();
    let mut out: Vec<Book> = Vec::new();
    let mut i: usize = 0;
    while i < n
        invariant
            n == store.books.len(),
            i <= n,
            book_views(out@) == store@.books.take(i as int),
        decreases n - i,
    {
        let bk = store.books[i].clone();
        let ghost prev = out@;
        out.push(bk);
        proof {
            assert(out@ == prev.push(bk));
            assert(book_views(prev).len() == prev.len());
            assert(store@.books.take(i as int).len() == i as int);
            assert forall|k: int| 0 <= k < i as int + 1 implies book_views(out@)[k]
                == store@.books.take(i as int + 1)[k] by {
                if k < i as int {
                    assert(book_views(prev)[k] == store@.books.take(i as int)[k]);
                    assert(out@[k] == prev[k]);
                } else {
                    assert(out@[k] == bk);
                }
            }
            assert(book_views(out@) =~= store@.books.take(i as int + 1));
        }
        i = i + 1;
    }
    proof {
        assert(store@.books.take(n as int) =~= store@.books);
    }
    out
}

/// Set the name of the book row with the given id. A nonexistent id is a
/// no-op that still reports success: the store merely touched no row.
pub fn update_book(store: &mut Store, name: &str, book_id: BookId)
    requires
        old(store).wf(),
    ensures
        final(store).wf(),
        final(store)@ == update_book_spec(old(store)@, book_id as int, name@),
{
    let ghost pre = old(store)@;
    let n = store.books.len();
    let mut i: usize = 0;
    while i < n
        invariant
            store == old(store),
            pre == store@,
            old(store).wf(),
            n == store.books.len(),
            i <= n,
            forall|j: int| 0 <= j < i ==> (#[trigger] store@.books[j]).book_id != book_id as int,
        decreases n - i,
    {
        if store.books[i].book_id == book_id {
            proof {
                assert(pre.books[i as int].book_id == book_id as int);
            }
            let mut row = store.books.remove(i);
            row.name = String::from_str(name);
            store.books.insert(i, row);
            proof {
                assert(store.books@ =~= old(store).books@.update(i as int, row));
                assert forall|j: int| 0 <= j < pre.books.len() implies store@.books[j]
                    == book_rename(book_id as int, name@)(pre.books[j]) by {
                    if j != i as int {
                        assert(store.books@[j] == old(store).books@[j]);
                        assert(pre.books[j].book_id != pre.books[i as int].book_id);
                    }
                }
                assert(store@.books =~= pre.books.map_values(book_rename(book_id as int, name@)));
                assert(store@ =~~= update_book_spec(pre, book_id as int, name@));
                lemma_update_book_wf(pre, book_id as int, name@);
            }
            return ;
        }
        i = i + 1;
    }
    proof {
        assert forall|j: int| 0 <= j < pre.books.len() implies pre.books.map_values(
            book_rename(book_id as int, name@),
        )[j] == pre.books[j] by {
            assert(pre.books[j].book_id != book_id as int);
        }
        assert(pre.books.map_values(book_rename(book_id as int, name@)) =~= pre.books);
        assert(store@ =~~= update_book_spec(pre, book_id as int, name@));
    }
}

/// Updating preserves the schema's invariants: ids are untouched.
pub proof fn lemma_update_book_wf(s: StoreV, id: int, name: Seq<char>)
    requires
        s.wf(),
    ensures
        update_book_spec(s, id, name).wf(),
{
    let t = update_book_spec(s, id, name);
    assert forall|i: int| 0 <= i < t.books.len() implies 1 <= (#[trigger] t.books[i]).book_id
        < t.next_book_id by {
        assert(t.books[i] == book_rename(id, name)(s.books[i]));
    }
    assert forall|i: int, j: int| 0 <= i < j < t.books.len() implies (
    #[trigger] t.books[i]).book_id != (#[trigger] t.books[j]).book_id by {
        assert(t.books[i] == book_rename(id, name)(s.books[i]));
        assert(t.books[j] == book_rename(id, name)(s.books[j]));
    }
    assert forall|k: int| 0 <= k < t.links.len() implies crate::store::has_author_id(
        t.authors,
        (#[trigger] t.links[k]).author_id,
    ) && has_book_id(t.books, t.links[k].book_id) by {
        let i = book_row_index(s.books, s.links[k].book_id);
        assert(t.books[i] == book_rename(id, name)(s.books[i]));
        assert(t.books[i].book_id == s.links[k].book_id);
    }
}

/// Delete the book row with the given id, cascading to its link rows.
/// A nonexistent id is a no-op that still reports success.
pub fn delete_book(store: &mut Store, book_id: BookId)
    requires
        old(store).wf(),
    ensures
        final(store).wf(),
        final(store)@ == delete_book_spec(old(store)@, book_id as int),
{
    let ghost pre = old(store)@;
    let n = store.books.len();
    let mut kept: Vec<Book> = Vec::new();
    let mut i: usize = 0;
    while i < n
        invariant
            store == old(store),
            pre == store@,
            n == store.books.len(),
            i <= n,
            book_views(kept@) == pre.books.take(i as int).filter(book_keep(book_id as int)),
        decreases n - i,
    {
        proof {
            reveal(Seq::filter);
            assert(pre.books.take(i as int + 1).drop_last() =~= pre.books.take(i as int));
            assert(pre.books.take(i as int + 1).last() == pre.books[i as int]);
        }
        if store.books[i].book_id != book_id {
            kept.push(store.books[i].clone());
        }
        proof {
            reveal(Seq::filter);
            assert(book_views(kept@) =~= pre.books.take(i as int + 1).filter(
                book_keep(book_id as int),
            ));
        }
        i = i + 1;
    }
    let m = store.links.len();
    let mut kept_links: Vec<AuthorBookLink> = Vec::new();
    let mut k: usize = 0;
    while k < m
        invariant
            store == old(store),
            pre == store@,
            m == store.links.len(),
            k <= m,
            link_views(kept_links@) == pre.links.take(k as int).filter(
                link_keep_book(book_id as int),
            ),
        decreases m - k,
    {
        proof {
            reveal(Seq::filter);
            assert(pre.links.take(k as int + 1).drop_last() =~= pre.links.take(k as int));
            assert(pre.links.take(k as int + 1).last() == pre.links[k as int]);
        }
        if store.links[k].book_id != book_id {
            let l = AuthorBookLink {
                author_id: store.links[k].author_id,
                book_id: store.links[k].book_id,
            };
            kept_links.push(l);
        }
        proof {
            reveal(Seq::filter);
            assert(link_views(kept_links@) =~= pre.links.take(k as int + 1).filter(
                link_keep_book(book_id as int),
            ));
        }
        k = k + 1;
    }
    store.books = kept;
    store.links = kept_links;
    proof {
        assert(pre.books.take(n as int) =~= pre.books);
        assert(pre.links.take(m as int) =~= pre.links);
        assert(store@ =~~= delete_book_spec(pre, book_id as int));
        lemma_delete_book_wf(pre, book_id as int);
    }
}

/// Deleting a book preserves the schema's invariants: the kept rows are a
/// subsequence, and every kept link's book survived the delete.
pub proof fn lemma_delete_book_wf(s: StoreV, id: int)
    requires
        s.wf(),
    ensures
        delete_book_spec(s, id).wf(),
        forall|x: int|
            #[trigger] has_book_id(delete_book_spec(s, id).books, x) <==> (has_book_id(s.books, x)
                && x != id),
{
    let t = delete_book_spec(s, id);
    lemma_filter_book_ids(s.books, id);
    assert forall|k: int| 0 <= k < t.books.len() implies 1 <= (#[trigger] t.books[k]).book_id
        < t.next_book_id by {
        assert(t.books == s.books.filter(book_keep(id)));
        crate::store::lemma_filter_element_of(s.books, book_keep(id), k);
        let i = choose|i: int|
            0 <= i < s.books.len() && #[trigger] s.books[i] == s.books.filter(book_keep(id))[k];
        assert(1 <= s.books[i].book_id < s.next_book_id);
    }
    assert forall|k: int| 0 <= k < t.links.len() implies crate::store::has_author_id(
        t.authors,
        (#[trigger] t.links[k]).author_id,
    ) && has_book_id(t.books, t.links[k].book_id) by {
        crate::store::lemma_filter_element_of(s.links, link_keep_book(id), k);
        let j = choose|j: int| 0 <= j < s.links.len() && #[trigger] s.links[j] == t.links[k];
        s.links.lemma_filter_pred(link_keep_book(id), k);
        assert(t.links[k].book_id != id);
        assert(has_book_id(s.books, s.links[j].book_id));
        assert(crate::store::has_author_id(s.authors, s.links[j].author_id));
    }
    assert forall|k1: int, k2: int| 0 <= k1 < k2 < t.links.len() implies #[trigger] t.links[k1]
        != #[trigger] t.links[k2] by {
        crate::authors::lemma_filter_links_distinct(s.links, link_keep_book(id), k1, k2);
    }
}

/// Filtering book rows on their id keeps ids distinct and in range, and
/// keeps exactly the ids the predicate admits.
pub proof fn lemma_filter_book_ids(rows: Seq<BookV>, id: int)
    ensures
        distinct_book_ids(rows) ==> distinct_book_ids(rows.filter(book_keep(id))),
        forall|x: int|
            #[trigger] has_book_id(rows.filter(book_keep(id)), x) <==> (has_book_id(rows, x) && x
                != id),
    decreases rows.len(),
{
    reveal(Seq::filter);
    let f = rows.filter(book_keep(id));
    if rows.len() > 0 {
        let dl = rows.drop_last();
        lemma_filter_book_ids(dl, id);
        let fd = dl.filter(book_keep(id));
        if distinct_book_ids(rows) {
            assert(distinct_book_ids(dl));
            if book_keep(id)(rows.last()) {
                assert forall|k1: int, k2: int| 0 <= k1 < k2 < f.len() implies (
                #[trigger] f[k1]).book_id != (#[trigger] f[k2]).book_id by {
                    if k2 < f.len() - 1 {
                        assert(f[k1] == fd[k1] && f[k2] == fd[k2]);
                    } else {
                        assert(f[k1] == fd[k1]);
                        assert(f[k2] == rows.last());
                        if f[k1].book_id == rows.last().book_id {
                            assert(has_book_id(fd, rows.last().book_id));
                            assert(has_book_id(dl, rows.last().book_id));
                            let i = book_row_index(dl, rows.last().book_id);
                            assert(rows[i].book_id == rows[rows.len() - 1].book_id);
                            assert(false);
                        }
                    }
                }
            }
        }
        assert forall|x: int| has_book_id(f, x) implies (has_book_id(rows, x) && x != id) by {
            let k = book_row_index(f, x);
            if book_keep(id)(rows.last()) && k == f.len() - 1 {
                assert(rows[rows.len() - 1].book_id == x);
            } else {
                assert(has_book_id(fd, x));
                assert(has_book_id(dl, x) && x != id);
                let i = book_row_index(dl, x);
                assert(dl[i].book_id == x);
                assert(rows[i] == dl[i]);
                assert(has_book_id(rows, x));
            }
        }
        assert forall|x: int| has_book_id(rows, x) && x != id implies has_book_id(f, x) by {
            let i = book_row_index(rows, x);
            if i == rows.len() - 1 {
                assert(f[f.len() - 1].book_id == x);
            } else {
                assert(dl[i].book_id == x);
                assert(has_book_id(dl, x));
                assert(has_book_id(fd, x));
                let k = book_row_index(fd, x);
                assert(f[k].book_id == x);
            }
        }
    }
}


use crate::authors::{
    join_rows, join_spec, row_views, Author, AuthorId, BookAuthors, RowV,
};
use crate::store::{
    author_views, find_author, has_author_id, lemma_find_author_at, AuthorV, StorageError,
};

/// One book together with every author linked to it, in link order.
#[derive(Debug, PartialEq)]
pub struct BookWithAuthors {
    pub book_id: BookId,
    pub name: String,
    pub authors: Vec<Author>,
}

/// Ghost view of a book with its authors.
#[verifier::ext_equal]
pub ghost struct BookWithAuthorsV {
    pub book_id: int,
    pub name: Seq<char>,
    pub authors: Seq<AuthorV>,
}

impl View for BookWithAuthors {
    type V = BookWithAuthorsV;

    open spec fn view(&self) -> BookWithAuthorsV {
        BookWithAuthorsV {
            book_id: self.book_id as int,
            name: self.name@,
            authors: author_views(self.authors@),
        }
    }
}

/// The views of a sequence of grouped books.
pub open spec fn bwa_views(rows: Seq<BookWithAuthors>) -> Seq<BookWithAuthorsV> {
    rows.map_values(|b: BookWithAuthors| b@)
}

/// The grouped result of the books-with-authors query: a mapping from
/// book id to the assembled view, kept as a vector in first-seen order so
/// that iteration is deterministic; ids are unique by construction.
pub type Books = Vec<BookWithAuthors>;

/// Whether some group carries the given book id.
pub open spec fn has_book_group_for(groups: Seq<BookWithAuthorsV>, id: int) -> bool {
    exists|k: int| 0 <= k < groups.len() && (#[trigger] groups[k]).book_id == id
}

/// The index of the group carrying the given book id, when one exists.
pub open spec fn book_group_index_of(groups: Seq<BookWithAuthorsV>, id: int) -> int {
    choose|k: int| 0 <= k < groups.len() && (#[trigger] groups[k]).book_id == id
}

/// No two groups share a book id: the result is a mapping.
pub open spec fn distinct_book_group_ids(groups: Seq<BookWithAuthorsV>) -> bool {
    forall|k1: int, k2: int|
        0 <= k1 < k2 < groups.len() ==> (#[trigger] groups[k1]).book_id != (
        #[trigger] groups[k2]).book_id
}

/// The author carried by one flat join row.
pub open spec fn row_author(r: RowV) -> AuthorV {
    AuthorV { author_id: r.author_id, name: r.author_name }
}

/// Group flat join rows by book id: the owning book's fields come from
/// the first row seen for that id, and each row appends its author to the
/// owning group, preserving row order.
pub open spec fn group_books_spec(rows: Seq<RowV>) -> Seq<BookWithAuthorsV>
    decreases rows.len(),
{
    if rows.len() == 0 {
        Seq::empty()
    } else {
        let prev = group_books_spec(rows.drop_last());
        let r = rows.last();
        if has_book_group_for(prev, r.book_id) {
            let k = book_group_index_of(prev, r.book_id);
            prev.update(
                k,
                BookWithAuthorsV { authors: prev[k].authors.push(row_author(r)), ..prev[k] },
            )
        } else {
            prev.push(
                BookWithAuthorsV {
                    book_id: r.book_id,
                    name: r.book_name,
                    authors: seq![row_author(r)],
                },
            )
        }
    }
}

/// Shape of the grouped result: group ids are unique, a group exists for
/// an id exactly when some row carries it, and no group is empty.
pub proof fn lemma_group_books_spec(rows: Seq<RowV>)
    ensures
        distinct_book_group_ids(group_books_spec(rows)),
        forall|x: int|
            #[trigger] has_book_group_for(group_books_spec(rows), x) <==> exists|i: int|
                0 <= i < rows.len() && (#[trigger] rows[i]).book_id == x,
        forall|k: int|
            0 <= k < group_books_spec(rows).len() ==> (
            #[trigger] group_books_spec(rows)[k]).authors.len() >= 1,
    decreases rows.len(),
{
    let g = group_books_spec(rows);
    if rows.len() > 0 {
        let dl = rows.drop_last();
        let r = rows.last();
        lemma_group_books_spec(dl);
        let p = group_books_spec(dl);
        if has_book_group_for(p, r.book_id) {
            let k0 = book_group_index_of(p, r.book_id);
            assert(g == p.update(
                k0,
                BookWithAuthorsV { authors: p[k0].authors.push(row_author(r)), ..p[k0] },
            ));
            assert(g.len() == p.len());
            assert forall|k: int| 0 <= k < g.len() implies (#[trigger] g[k]).book_id
                == p[k].book_id && g[k].authors.len() >= 1 by {
                if k != k0 {
                    assert(g[k] == p[k]);
                }
            }
            assert forall|x: int| #[trigger] has_book_group_for(g, x) implies exists|i: int|
                0 <= i < rows.len() && (#[trigger] rows[i]).book_id == x by {
                let k = book_group_index_of(g, x);
                assert(p[k].book_id == x);
                assert(has_book_group_for(p, x));
                let i = choose|i: int| 0 <= i < dl.len() && (#[trigger] dl[i]).book_id == x;
                assert(rows[i].book_id == x);
            }
            assert forall|x: int|
                (exists|i: int| 0 <= i < rows.len() && (#[trigger] rows[i]).book_id == x) implies
                #[trigger] has_book_group_for(g, x) by {
                let i = choose|i: int| 0 <= i < rows.len() && (#[trigger] rows[i]).book_id == x;
                if i < rows.len() - 1 {
                    assert(dl[i].book_id == x);
                    assert(has_book_group_for(p, x));
                    let k = book_group_index_of(p, x);
                    assert(g[k].book_id == x);
                } else {
                    assert(x == r.book_id);
                    assert(g[k0].book_id == x);
                }
            }
        } else {
            assert(g == p.push(
                BookWithAuthorsV {
                    book_id: r.book_id,
                    name: r.book_name,
                    authors: seq![row_author(r)],
                },
            ));
            assert forall|k1: int, k2: int| 0 <= k1 < k2 < g.len() implies (
            #[trigger] g[k1]).book_id != (#[trigger] g[k2]).book_id by {
                if k2 == g.len() - 1 {
                    assert(g[k1] == p[k1]);
                    if p[k1].book_id == r.book_id {
                        assert(has_book_group_for(p, r.book_id));
                        assert(false);
                    }
                } else {
                    assert(g[k1] == p[k1] && g[k2] == p[k2]);
                }
            }
            assert forall|k: int| 0 <= k < g.len() implies (#[trigger] g[k]).authors.len()
                >= 1 by {
                if k < g.len() - 1 {
                    assert(g[k] == p[k]);
                }
            }
            assert forall|x: int| #[trigger] has_book_group_for(g, x) implies exists|i: int|
                0 <= i < rows.len() && (#[trigger] rows[i]).book_id == x by {
                let k = book_group_index_of(g, x);
                if k < g.len() - 1 {
                    assert(p[k].book_id == x);
                    assert(has_book_group_for(p, x));
                    let i = choose|i: int| 0 <= i < dl.len() && (#[trigger] dl[i]).book_id == x;
                    assert(rows[i].book_id == x);
                } else {
                    assert(rows[rows.len() - 1].book_id == x);
                }
            }
            assert forall|x: int|
                (exists|i: int| 0 <= i < rows.len() && (#[trigger] rows[i]).book_id == x) implies
                #[trigger] has_book_group_for(g, x) by {
                let i = choose|i: int| 0 <= i < rows.len() && (#[trigger] rows[i]).book_id == x;
                if i < rows.len() - 1 {
                    assert(dl[i].book_id == x);
                    assert(has_book_group_for(p, x));
                    let k = book_group_index_of(p, x);
                    assert(g[k].book_id == x);
                } else {
                    assert(g[g.len() - 1].book_id == x);
                }
            }
        }
    }
}

/// Group flat join rows by book id, in first-seen order, appending each
/// row's author to its owning group in row order.
pub fn group_by_book(rows: &Vec<BookAuthors>) -> (r: Books)
    ensures
        bwa_views(r@) == group_books_spec(row_views(rows@)),
{
    let ghost rv = row_views(rows@);
    let mut out: Vec<BookWithAuthors> = Vec::new();
    let n = rows.len();
    let mut i: usize = 0;
    while i < n
        invariant
            n == rows.len(),
            rv == row_views(rows@),
            i <= n,
            bwa_views(out@) == group_books_spec(rv.take(i as int)),
        decreases n - i,
    {
        proof {
            lemma_group_books_spec(rv.take(i as int));
            assert(rv.take(i as int + 1).drop_last() =~= rv.take(i as int));
            assert(rv.take(i as int + 1).last() == rv[i as int]);
            assert(bwa_views(out@).len() == out@.len());
        }
        let ghost g = group_books_spec(rv.take(i as int));
        let bid = rows[i].book_id;
        let m = out.len();
        let mut k: usize = 0;
        let mut found: bool = false;
        while !found && k < m
            invariant
                m == out.len(),
                k <= m,
                found ==> k < m && out@[k as int]@.book_id == bid as int,
                !found ==> forall|j: int|
                    0 <= j < k ==> (#[trigger] out@[j])@.book_id != bid as int,
            decreases m - k + (if found { 0int } else { 1int }),
        {
            if out[k].book_id == bid {
                found = true;
            } else {
                k = k + 1;
            }
        }
        let ghost prev = out@;
        if found {
            proof {
                assert(g[k as int].book_id == bid as int);
                assert(has_book_group_for(g, bid as int));
                let k0 = book_group_index_of(g, bid as int);
                if k0 != k as int {
                    assert(g[k0].book_id != g[k as int].book_id);
                }
                assert(book_group_index_of(g, bid as int) == k as int);
            }
            let mut e = out.remove(k);
            let a = Author { author_id: rows[i].author_id, name: rows[i].author_name.clone() };
            e.authors.push(a);
            out.insert(k, e);
            proof {
                assert(out@ =~= prev.update(k as int, e));
                assert(e@ == (BookWithAuthorsV {
                    authors: g[k as int].authors.push(row_author(rv[i as int])),
                    ..g[k as int]
                }));
                assert forall|j: int| 0 <= j < out@.len() implies bwa_views(out@)[j]
                    == group_books_spec(rv.take(i as int + 1))[j] by {
                    if j != k as int {
                        assert(out@[j] == prev[j]);
                    }
                }
                assert(bwa_views(out@) =~= group_books_spec(rv.take(i as int + 1)));
            }
        } else {
            proof {
                assert(!has_book_group_for(g, bid as int));
            }
            let mut auths: Vec<Author> = Vec::new();
            auths.push(Author { author_id: rows[i].author_id, name: rows[i].author_name.clone() });
            let e = BookWithAuthors { book_id: bid, name: rows[i].book_name.clone(), authors: auths };
            out.push(e);
            proof {
                assert(out@ == prev.push(e));
                assert(bwa_views(out@).len() == out@.len());
                assert(out@[out@.len() - 1]@.authors =~= seq![row_author(rv[i as int])]);
                assert forall|j: int| 0 <= j < out@.len() implies bwa_views(out@)[j]
                    == group_books_spec(rv.take(i as int + 1))[j] by {
                    if j < out@.len() - 1 {
                        assert(out@[j] == prev[j]);
                    } else {
                        assert(bwa_views(out@)[j] == out@[j]@);
                    }
                }
                assert(bwa_views(out@) =~= group_books_spec(rv.take(i as int + 1)));
            }
        }
        i = i + 1;
    }
    proof {
        assert(rv.take(n as int) =~= rv);
    }
    out
}

/// The books-with-authors query result: the join, grouped by book id.
pub open spec fn books_with_authors_spec(s: StoreV) -> Seq<BookWithAuthorsV> {
    group_books_spec(join_spec(s))
}

/// Fetch every book that has at least one linked author, with its
/// authors, as a mapping from book id to the assembled view: one single
/// join query, then grouping in row order. An empty join is an empty
/// result, not an error.
pub fn get_all_books_with_authors(store: &Store) -> (r: Books)
    requires
        store.wf(),
    ensures
        bwa_views(r@) == books_with_authors_spec(store@),
        distinct_book_group_ids(bwa_views(r@)),
{
    let rows = join_rows(store);
    let r = group_by_book(&rows);
    proof {
        lemma_group_books_spec(join_spec(store@));
    }
    r
}

/// The state after a successful `create_book_and_author`, with the two
/// generated ids.
pub open spec fn create_book_and_author_spec(
    s: StoreV,
    book_name: Seq<char>,
    author_name: Seq<char>,
) -> (StoreV, int, int) {
    (StoreV {
        authors: s.authors.push(AuthorV { author_id: s.next_author_id, name: author_name }),
        books: s.books.push(BookV { book_id: s.next_book_id, name: book_name }),
        links: s.links.push(
            LinkV { author_id: s.next_author_id, book_id: s.next_book_id },
        ),
        next_author_id: s.next_author_id + 1,
        next_book_id: s.next_book_id + 1,
    }, s.next_book_id, s.next_author_id)
}

/// Create a book, an author, and the link joining them, all in one
/// transaction: either every row is committed and both generated ids are
/// returned, or nothing is. On a well-formed store with id capacity every
/// statement succeeds, so the transaction commits.
pub fn create_book_and_author(store: &mut Store, book_name: &str, author_name: &str) -> (r: Result<
    (BookId, AuthorId),
    StorageError,
>)
    requires
        old(store).wf(),
        old(store)@.next_author_id < i32::MAX as int,
        old(store)@.next_book_id < i32::MAX as int,
    ensures
        final(store).wf(),
        r is Ok,
        r matches Ok(p) ==> {
            &&& final(store)@ == create_book_and_author_spec(
                old(store)@,
                book_name@,
                author_name@,
            ).0
            &&& p.0 as int == create_book_and_author_spec(old(store)@, book_name@, author_name@).1
            &&& p.1 as int == create_book_and_author_spec(old(store)@, book_name@, author_name@).2
        },
{
    let bid = create_book(store, book_name);
    let aid = crate::authors::create_author(store, author_name);
    let ghost mid = store@;
    store.links.push(AuthorBookLink { author_id: aid, book_id: bid });
    proof {
        let pre = old(store)@;
        let t = create_book_and_author_spec(pre, book_name@, author_name@).0;
        assert(store@.links =~= t.links);
        assert(store@ =~~= t);
        assert forall|k: int| 0 <= k < t.links.len() implies has_author_id(
            t.authors,
            (#[trigger] t.links[k]).author_id,
        ) && has_book_id(t.books, t.links[k].book_id) by {
            if k < t.links.len() - 1 {
                assert(t.links[k] == mid.links[k]);
                assert(has_author_id(mid.authors, mid.links[k].author_id));
                assert(has_book_id(mid.books, mid.links[k].book_id));
            } else {
                assert(t.authors[t.authors.len() - 1].author_id == aid as int);
                assert(t.books[t.books.len() - 1].book_id == bid as int);
            }
        }
        assert forall|k1: int, k2: int| 0 <= k1 < k2 < t.links.len() implies #[trigger] t.links[k1]
            != #[trigger] t.links[k2] by {
            if k2 == t.links.len() - 1 {
                assert(t.links[k1] == pre.links[k1]);
                assert(has_author_id(pre.authors, pre.links[k1].author_id));
                let i = crate::store::author_row_index(pre.authors, pre.links[k1].author_id);
                assert(pre.authors[i].author_id < pre.next_author_id);
                assert(t.links[k1].author_id != aid as int);
            } else {
                assert(t.links[k1] == pre.links[k1] && t.links[k2] == pre.links[k2]);
            }
        }
    }
    Ok((bid, aid))
}

/// Creating a book and then fetching the returned id yields exactly a
/// book row with the created name.
pub proof fn lemma_create_then_get_book(s: StoreV, name: Seq<char>)
    requires
        s.wf(),
        s.next_book_id < i32::MAX as int,
    ensures
        ({
            let (t, id) = create_book_spec(s, name);
            find_book(t.books, id) == Some(BookV { book_id: id, name: name })
        }),
{
    let (t, id) = create_book_spec(s, name);
    assert forall|i: int, j: int| 0 <= i < j < t.books.len() implies (
    #[trigger] t.books[i]).book_id != (#[trigger] t.books[j]).book_id by {
        assert(t.books[i] == s.books[i]);
        if j < t.books.len() - 1 {
            assert(t.books[j] == s.books[j]);
        } else {
            assert(s.books[i].book_id < s.next_book_id);
        }
    }
    lemma_find_book_at(t.books, t.books.len() - 1);
}

/// A never-used book id is reported absent, not as an error.
pub proof fn lemma_get_book_missing(s: StoreV, id: int)
    requires
        s.wf(),
        id >= s.next_book_id,
    ensures
        find_book(s.books, id) is None,
{
    if has_book_id(s.books, id) {
        let i = book_row_index(s.books, id);
        assert(s.books[i].book_id < s.next_book_id);
    }
}

/// Reading all books is a pure function of the store: two reads with no
/// intervening write return equal rows.
pub proof fn lemma_get_all_books_idempotent(s: StoreV, r1: Seq<BookV>, r2: Seq<BookV>)
    requires
        r1 == s.books,
        r2 == s.books,
    ensures
        r1 == r2,
{
}

/// Updating a nonexistent book id changes nothing, yet still succeeds.
pub proof fn lemma_update_book_missing_is_noop(s: StoreV, id: int, name: Seq<char>)
    requires
        !has_book_id(s.books, id),
    ensures
        update_book_spec(s, id, name) == s,
{
    let t = update_book_spec(s, id, name);
    assert forall|j: int| 0 <= j < s.books.len() implies t.books[j] == s.books[j] by {
        assert(t.books[j] == book_rename(id, name)(s.books[j]));
        if s.books[j].book_id == id {
            assert(has_book_id(s.books, id));
        }
    }
    assert(t.books =~= s.books);
    assert(t =~~= s);
}

/// Deleting a nonexistent book id changes nothing, yet still succeeds.
pub proof fn lemma_delete_book_missing_is_noop(s: StoreV, id: int)
    requires
        s.wf(),
        !has_book_id(s.books, id),
    ensures
        delete_book_spec(s, id) == s,
{
    assert forall|i: int| 0 <= i < s.books.len() implies book_keep(id)(#[trigger] s.books[i]) by {
        if s.books[i].book_id == id {
            assert(has_book_id(s.books, id));
        }
    }
    assert forall|i: int| 0 <= i < s.links.len() implies link_keep_book(id)(
        #[trigger] s.links[i],
    ) by {
        if s.links[i].book_id == id {
            assert(has_book_id(s.books, s.links[i].book_id));
        }
    }
    crate::store::lemma_filter_all_kept(s.books, book_keep(id));
    crate::store::lemma_filter_all_kept(s.links, link_keep_book(id));
    assert(delete_book_spec(s, id) =~~= s);
}

/// The books-with-authors result carries exactly the books with at least
/// one link, and every group holds at least one author: a book with no
/// linked author never appears.
pub proof fn lemma_books_with_authors_excludes_unlinked(s: StoreV)
    requires
        s.wf(),
    ensures
        forall|x: int|
            #[trigger] has_book_group_for(books_with_authors_spec(s), x) <==> exists|i: int|
                0 <= i < s.links.len() && (#[trigger] s.links[i]).book_id == x,
        forall|k: int|
            0 <= k < books_with_authors_spec(s).len() ==> (
            #[trigger] books_with_authors_spec(s)[k]).authors.len() >= 1,
{
    let jr = join_spec(s);
    lemma_group_books_spec(jr);
    assert(jr.len() == s.links.len());
    assert forall|x: int| #[trigger] has_book_group_for(books_with_authors_spec(s), x) implies
        exists|i: int| 0 <= i < s.links.len() && (#[trigger] s.links[i]).book_id == x by {
        let i = choose|i: int| 0 <= i < jr.len() && (#[trigger] jr[i]).book_id == x;
        assert(s.links[i].book_id == x);
    }
    assert forall|x: int|
        (exists|i: int| 0 <= i < s.links.len() && (#[trigger] s.links[i]).book_id == x) implies
        #[trigger] has_book_group_for(books_with_authors_spec(s), x) by {
        let i = choose|i: int| 0 <= i < s.links.len() && (#[trigger] s.links[i]).book_id == x;
        assert(jr[i].book_id == x);
        assert(exists|i: int| 0 <= i < jr.len() && (#[trigger] jr[i]).book_id == x);
    }
}

} // verus!
