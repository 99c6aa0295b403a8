//! CRUD over the authors entity, the author-first dual create-and-link
//! transaction, and the authors-with-books join-and-group query.
//!
//! Every operation takes the store it acts against as its first argument
//! and is specified by a ghost transition function over [`StoreV`].

use vstd::prelude::*;
use vstd::string::StringExecFns;
use crate::books::{Book, BookId};
use crate::store::{
    author_row_index, author_views, distinct_author_ids, find_author, has_author_id,
    lemma_find_author_at, link_views, AuthorBookLink, AuthorV, BookV, LinkV, Store, StoreV,
};

verus! {

/// Identifier of an author row, assigned by the store on insert.
pub type AuthorId = i32;

/// Single author row: just its id and name, without the related books.
#[derive(Debug, PartialEq)]
pub struct Author {
    pub author_id: AuthorId,
    pub name: String,
}

impl View for Author {
    type V = AuthorV;

    open spec fn view(&self) -> AuthorV {
        AuthorV { author_id: self.author_id as int, name: self.name@ }
    }
}

impl Clone for Author {
    fn clone(&self) -> (r: Self)
        ensures
            r@ == self@,
    {
        Author { author_id: self.author_id, name: self.name.clone() }
    }
}

/// The rows kept by a delete of the given author id.
pub open spec fn author_keep(id: int) -> spec_fn(AuthorV) -> bool {
    |a: AuthorV| a.author_id != id
}

/// The link rows kept by a delete of the given author id.
pub open spec fn link_keep_author(id: int) -> spec_fn(LinkV) -> bool {
    |l: LinkV| l.author_id != id
}

/// The row-wise effect of an update of the given author id.
pub open spec fn author_rename(id: int, name: Seq<char>) -> spec_fn(AuthorV) -> AuthorV {
    |a: AuthorV| if a.author_id == id {
        AuthorV { author_id: a.author_id, name: name }
    } else {
        a
    }
}

/// The state after `create_author`, paired with the id it returns.
pub open spec fn create_author_spec(s: StoreV, name: Seq<char>) -> (StoreV, int) {
    (StoreV {
        authors: s.authors.push(AuthorV { author_id: s.next_author_id, name: name }),
        next_author_id: s.next_author_id + 1,
        ..s
    }, s.next_author_id)
}

/// The state after `update_author`.
pub open spec fn update_author_spec(s: StoreV, id: int, name: Seq<char>) -> StoreV {
    StoreV { authors: s.authors.map_values(author_rename(id, name)), ..s }
}

/// The state after `delete_author`: the author row goes, and with it every
/// link row that referenced it (the store's cascading constraint).
pub open spec fn delete_author_spec(s: StoreV, id: int) -> StoreV {
    StoreV {
        authors: s.authors.filter(author_keep(id)),
        links: s.links.filter(link_keep_author(id)),
        ..s
    }
}

/// Insert one author row. The store assigns the next generated id,
/// returns it, and leaves every other row untouched.
pub fn create_author(store: &mut Store, name: &str) -> (id: AuthorId)
    requires
        old(store).wf(),
        old(store)@.next_author_id < i32::MAX as int,
    ensures
        final(store).wf(),
        final(store)@ == create_author_spec(old(store)@, name@).0,
        id as int == create_author_spec(old(store)@, name@).1,
        !has_author_id(old(store)@.authors, id as int),
{
    let id: AuthorId = store.next_author_id;
    store.next_author_id = store.next_author_id + 1;
    let row = Author { author_id: id, name: String::from_str(name) };
    store.authors.push(row);
    proof {
        let pre = old(store)@;
        let post = create_author_spec(pre, name@).0;
        assert(store@.authors =~= post.authors);
        assert(store@ =~~= post);
        assert forall|k: int| 0 <= k < post.links.len() implies has_author_id(
            post.authors,
            (#[trigger] post.links[k]).author_id,
        ) by {
            let i = author_row_index(pre.authors, pre.links[k].author_id);
            assert(post.authors[i].author_id == pre.links[k].author_id);
        }
        assert(!has_author_id(pre.authors, id as int));
    }
    id
}

/// Fetch the author row with the given id. A miss is an explicit absent
/// value, never an error.
pub fn get_author_by_id(store: &Store, id: AuthorId) -> (r: Option<Author>)
    requires
        store.wf(),
    ensures
        r matches Some(a) ==> find_author(store@.authors, id as int) == Some(a@),
        r is None ==> !has_author_id(store@.authors, id as int),
{
    let n = store.authors.len();
    let mut i: usize = 0;
    while i < n
        invariant
            store.wf(),
            n == store.authors.len(),
            i <= n,
            forall|j: int| 0 <= j < i ==> (#[trigger] store@.authors[j]).author_id != id as int,
        decreases n - i,
    {
        if store.authors[i].author_id == id {
            let a = store.authors[i].clone();
            proof {
                lemma_find_author_at(store@.authors, i as int);
            }
            return Some(a);
        }
        i = i + 1;
    }
    None
}

/// Every author row, in store order.
pub fn get_all_authors(store: &Store) -> (r: Vec<Author>)
    ensures
        author_views(r@) == store@.authors,
{
    let n = store.authors.len();
    let mut out: Vec<Author> = Vec::new();
    let mut i: usize = 0;
    while i < n
        invariant
            n == store.authors.len(),
            i <= n,
            author_views(out@) == store@.authors.take(i as int),
        decreases n - i,
    {
        let a = store.authors[i].clone();
        let ghost prev = out@;
        out.push(a);
        proof {
            assert(out@ == prev.push(a));
            assert(author_views(prev).len() == prev.len());
            assert(store@.authors.take(i as int).len() == i as int);
            assert forall|k: int| 0 <= k < i as int + 1 implies author_views(out@)[k]
                == store@.authors.take(i as int + 1)[k] by {
                if k < i as int {
                    assert(author_views(prev)[k] == store@.authors.take(i as int)[k]);
                    assert(out@[k] == prev[k]);
                } else {
                    assert(out@[k] == a);
                }
            }
            assert(author_views(out@) =~= store@.authors.take(i as int + 1));
        }
        i = i + 1;
    }
    proof {
        assert(store@.authors.take(n as int) =~= store@.authors);
    }
    out
}

/// Set the name of the author row with the given id. A nonexistent id is
/// a no-op that still reports success: the store merely touched no row.
pub fn update_author(store: &mut Store, id: AuthorId, name: &str)
    requires
        old(store).wf(),
    ensures
        final(store).wf(),
        final(store)@ == update_author_spec(old(store)@, id as int, name@),
{
    let ghost pre = old(store)@;
    let n = store.authors.len();
    let mut i: usize = 0;
    while i < n
        invariant
            store == old(store),
            pre == store@,
            old(store).wf(),
            n == store.authors.len(),
            i <= n,
            forall|j: int| 0 <= j < i ==> (#[trigger] store@.authors[j]).author_id != id as int,
        decreases n - i,
    {
        if store.authors[i].author_id == id {
            proof {
                assert(pre.authors[i as int].author_id == id as int);
            }
            let mut row = store.authors.remove(i);
            row.name = String::from_str(name);
            store.authors.insert(i, row);
            proof {
                assert(store.authors@ =~= old(store).authors@.update(i as int, row));
                assert forall|j: int| 0 <= j < pre.authors.len() implies store@.authors[j]
                    == author_rename(id as int, name@)(pre.authors[j]) by {
                    if j != i as int {
                        assert(store.authors@[j] == old(store).authors@[j]);
                        assert(pre.authors[j].author_id != pre.authors[i as int].author_id);
                    }
                }
                assert(store@.authors =~= pre.authors.map_values(
                    author_rename(id as int, name@),
                ));
                assert(store@ =~~= update_author_spec(pre, id as int, name@));
                lemma_update_author_wf(pre, id as int, name@);
            }
            return ;
        }
        i = i + 1;
    }
    proof {
        assert forall|j: int| 0 <= j < pre.authors.len() implies pre.authors.map_values(
            author_rename(id as int, name@),
        )[j] == pre.authors[j] by {
            assert(pre.authors[j].author_id != id as int);
        }
        assert(pre.authors.map_values(author_rename(id as int, name@)) =~= pre.authors);
        assert(store@ =~~= update_author_spec(pre, id as int, name@));
    }
}

/// Updating preserves the schema's invariants: ids are untouched.
pub proof fn lemma_update_author_wf(s: StoreV, id: int, name: Seq<char>)
    requires
        s.wf(),
    ensures
        update_author_spec(s, id, name).wf(),
{
    let t = update_author_spec(s, id, name);
    assert forall|i: int| 0 <= i < t.authors.len() implies 1 <= (#[trigger] t.authors[i]).author_id
        < t.next_author_id by {
        assert(t.authors[i] == author_rename(id, name)(s.authors[i]));
    }
    assert forall|i: int, j: int| 0 <= i < j < t.authors.len() implies (
    #[trigger] t.authors[i]).author_id != (#[trigger] t.authors[j]).author_id by {
        assert(t.authors[i] == author_rename(id, name)(s.authors[i]));
        assert(t.authors[j] == author_rename(id, name)(s.authors[j]));
    }
    assert forall|k: int| 0 <= k < t.links.len() implies has_author_id(
        t.authors,
        (#[trigger] t.links[k]).author_id,
    ) && crate::store::has_book_id(t.books, t.links[k].book_id) by {
        let i = author_row_index(s.authors, s.links[k].author_id);
        assert(t.authors[i] == author_rename(id, name)(s.authors[i]));
        assert(t.authors[i].author_id == s.links[k].author_id);
    }
}

/// Delete the author row with the given id, cascading to its link rows.
/// A nonexistent id is a no-op that still reports success.
pub fn delete_author(store: &mut Store, id: AuthorId)
    requires
        old(store).wf(),
    ensures
        final(store).wf(),
        final(store)@ == delete_author_spec(old(store)@, id as int),
{
    let ghost pre = old(store)@;
    let n = store.authors.len();
    let mut kept: Vec<Author> = Vec::new();
    let mut i: usize = 0;
    while i < n
        invariant
            store == old(store),
            pre == store@,
            n == store.authors.len(),
            i <= n,
            author_views(kept@) == pre.authors.take(i as int).filter(author_keep(id as int)),
        decreases n - i,
    {
        proof {
            reveal(Seq::filter);
            assert(pre.authors.take(i as int + 1).drop_last() =~= pre.authors.take(i as int));
            assert(pre.authors.take(i as int + 1).last() == pre.authors[i as int]);
        }
        if store.authors[i].author_id != id {
            kept.push(store.authors[i].clone());
        }
        proof {
            reveal(Seq::filter);
            assert(author_views(kept@) =~= pre.authors.take(i as int + 1).filter(
                author_keep(id as int),
            ));
        }
        i = i + 1;
    }
    let m = store.links.len();
    let mut kept_links: Vec<AuthorBookLink> = Vec::new();
    let mut k: usize = 0;
    while k < m
        invariant
            store == old(store),
            pre == store@,
            m == store.links.len(),
            k <= m,
            link_views(kept_links@) == pre.links.take(k as int).filter(
                link_keep_author(id as int),
            ),
        decreases m - k,
    {
        proof {
            reveal(Seq::filter);
            assert(pre.links.take(k as int + 1).drop_last() =~= pre.links.take(k as int));
            assert(pre.links.take(k as int + 1).last() == pre.links[k as int]);
        }
        if store.links[k].author_id != id {
            let l = AuthorBookLink {
                author_id: store.links[k].author_id,
                book_id: store.links[k].book_id,
            };
            kept_links.push(l);
        }
        proof {
            reveal(Seq::filter);
            assert(link_views(kept_links@) =~= pre.links.take(k as int + 1).filter(
                link_keep_author(id as int),
            ));
        }
        k = k + 1;
    }
    store.authors = kept;
    store.links = kept_links;
    proof {
        assert(pre.authors.take(n as int) =~= pre.authors);
        assert(pre.links.take(m as int) =~= pre.links);
        assert(store@ =~~= delete_author_spec(pre, id as int));
        lemma_delete_author_wf(pre, id as int);
    }
}

/// Deleting an author preserves the schema's invariants: the kept rows
/// are a subsequence, and every kept link's author survived the delete.
pub proof fn lemma_delete_author_wf(s: StoreV, id: int)
    requires
        s.wf(),
    ensures
        delete_author_spec(s, id).wf(),
        forall|x: int|
            #[trigger] has_author_id(delete_author_spec(s, id).authors, x) <==> (has_author_id(
                s.authors,
                x,
            ) && x != id),
{
    let t = delete_author_spec(s, id);
    lemma_filter_author_ids(s.authors, id);
    assert forall|k: int| 0 <= k < t.authors.len() implies 1 <= (
    #[trigger] t.authors[k]).author_id < t.next_author_id by {
        assert(t.authors == s.authors.filter(author_keep(id)));
        crate::store::lemma_filter_element_of(s.authors, author_keep(id), k);
        let i = choose|i: int|
            0 <= i < s.authors.len() && #[trigger] s.authors[i] == s.authors.filter(
                author_keep(id),
            )[k];
        assert(1 <= s.authors[i].author_id < s.next_author_id);
    }
    assert forall|k: int| 0 <= k < t.links.len() implies has_author_id(
        t.authors,
        (#[trigger] t.links[k]).author_id,
    ) && crate::store::has_book_id(t.books, t.links[k].book_id) by {
        crate::store::lemma_filter_element_of(s.links, link_keep_author(id), k);
        let j = choose|j: int| 0 <= j < s.links.len() && #[trigger] s.links[j] == t.links[k];
        s.links.lemma_filter_pred(link_keep_author(id), k);
        assert(t.links[k].author_id != id);
        assert(has_author_id(s.authors, s.links[j].author_id));
    }
    assert forall|k1: int, k2: int| 0 <= k1 < k2 < t.links.len() implies #[trigger] t.links[k1]
        != #[trigger] t.links[k2] by {
        lemma_filter_links_distinct(s.links, link_keep_author(id), k1, k2);
    }
}

/// Filtering author rows on their id keeps ids distinct and in range, and
/// keeps exactly the ids the predicate admits.
pub proof fn lemma_filter_author_ids(rows: Seq<AuthorV>, id: int)
    ensures
        distinct_author_ids(rows) ==> distinct_author_ids(rows.filter(author_keep(id))),
        forall|x: int|
            has_author_id(#[trigger] rows.filter(author_keep(id)), x) <==> (has_author_id(rows, x)
                && x != id),
    decreases rows.len(),
{
    reveal(Seq::filter);
    let f = rows.filter(author_keep(id));
    if rows.len() > 0 {
        let dl = rows.drop_last();
        lemma_filter_author_ids(dl, id);
        let fd = dl.filter(author_keep(id));
        if distinct_author_ids(rows) {
            assert(distinct_author_ids(dl));
            if author_keep(id)(rows.last()) {
                assert forall|k1: int, k2: int| 0 <= k1 < k2 < f.len() implies (
                #[trigger] f[k1]).author_id != (#[trigger] f[k2]).author_id by {
                    if k2 < f.len() - 1 {
                        assert(f[k1] == fd[k1] && f[k2] == fd[k2]);
                    } else {
                        assert(f[k1] == fd[k1]);
                        assert(f[k2] == rows.last());
                        if f[k1].author_id == rows.last().author_id {
                            assert(has_author_id(fd, rows.last().author_id));
                            assert(has_author_id(dl, rows.last().author_id));
                            let i = author_row_index(dl, rows.last().author_id);
                            assert(rows[i].author_id == rows[rows.len() - 1].author_id);
                            assert(false);
                        }
                    }
                }
            }
        }
        assert forall|x: int| has_author_id(f, x) implies (has_author_id(rows, x) && x != id) by {
            let k = author_row_index(f, x);
            if author_keep(id)(rows.last()) && k == f.len() - 1 {
                assert(rows[rows.len() - 1].author_id == x);
            } else {
                assert(has_author_id(fd, x));
                assert(has_author_id(dl, x) && x != id);
                let i = author_row_index(dl, x);
                assert(dl[i].author_id == x);
                assert(rows[i] == dl[i]);
                assert(has_author_id(rows, x));
            }
        }
        assert forall|x: int| has_author_id(rows, x) && x != id implies has_author_id(f, x) by {
            let i = author_row_index(rows, x);
            if i == rows.len() - 1 {
                assert(f[f.len() - 1].author_id == x);
            } else {
                assert(dl[i].author_id == x);
                assert(has_author_id(dl, x));
                assert(has_author_id(fd, x));
                let k = author_row_index(fd, x);
                assert(f[k].author_id == x);
            }
        }
    }
}

/// Filtering link rows keeps distinct pairs distinct.
pub proof fn lemma_filter_links_distinct(
    rows: Seq<LinkV>,
    pred: spec_fn(LinkV) -> bool,
    k1: int,
    k2: int,
)
    requires
        crate::store::distinct_links(rows),
        0 <= k1 < k2 < rows.filter(pred).len(),
    ensures
        rows.filter(pred)[k1] != rows.filter(pred)[k2],
    decreases rows.len(),
{
    reveal(Seq::filter);
    if rows.len() > 0 {
        let dl = rows.drop_last();
        let f = rows.filter(pred);
        let fd = dl.filter(pred);
        assert(crate::store::distinct_links(dl));
        if pred(rows.last()) && k2 == f.len() - 1 {
            assert(f[k1] == fd[k1]);
            crate::store::lemma_filter_element_of(dl, pred, k1);
            let i = choose|i: int| 0 <= i < dl.len() && dl[i] == fd[k1];
            assert(rows[i] == f[k1]);
            assert(rows[rows.len() - 1] == f[k2]);
        } else {
            lemma_filter_links_distinct(dl, pred, k1, k2);
        }
    }
}


/// Flat row of the single join query across the link table and both
/// parent tables: one row per (author, book) link.
#[derive(Debug, PartialEq)]
pub struct BookAuthors {
    pub author_id: AuthorId,
    pub book_id: BookId,
    pub author_name: String,
    pub book_name: String,
}

/// Ghost view of one flat join row.
#[verifier::ext_equal]
pub ghost struct RowV {
    pub author_id: int,
    pub book_id: int,
    pub author_name: Seq<char>,
    pub book_name: Seq<char>,
}

impl View for BookAuthors {
    type V = RowV;

    open spec fn view(&self) -> RowV {
        RowV {
            author_id: self.author_id as int,
            book_id: self.book_id as int,
            author_name: self.author_name@,
            book_name: self.book_name@,
        }
    }
}

/// The views of a sequence of flat join rows.
pub open spec fn row_views(rows: Seq<BookAuthors>) -> Seq<RowV> {
    rows.map_values(|r: BookAuthors| r@)
}

/// One author together with every book linked to it, in link order.
#[derive(Debug, PartialEq)]
pub struct AuthorWithBooks {
    pub author_id: AuthorId,
    pub name: String,
    pub books: Vec<Book>,
}

/// Ghost view of an author with its books.
#[verifier::ext_equal]
pub ghost struct AuthorWithBooksV {
    pub author_id: int,
    pub name: Seq<char>,
    pub books: Seq<BookV>,
}

impl View for AuthorWithBooks {
    type V = AuthorWithBooksV;

    open spec fn view(&self) -> AuthorWithBooksV {
        AuthorWithBooksV {
            author_id: self.author_id as int,
            name: self.name@,
            books: crate::store::book_views(self.books@),
        }
    }
}

/// The views of a sequence of grouped authors.
pub open spec fn awb_views(rows: Seq<AuthorWithBooks>) -> Seq<AuthorWithBooksV> {
    rows.map_values(|a: AuthorWithBooks| a@)
}

/// The grouped result of the authors-with-books query: a mapping from
/// author id to the assembled view, kept as a vector in first-seen order
/// so that iteration is deterministic; ids are unique by construction.
pub type Authors = Vec<AuthorWithBooks>;

/// Whether some group carries the given author id.
pub open spec fn has_group_for(groups: Seq<AuthorWithBooksV>, id: int) -> bool {
    exists|k: int| 0 <= k < groups.len() && (#[trigger] groups[k]).author_id == id
}

/// The index of the group carrying the given author id, when one exists.
pub open spec fn group_index_of(groups: Seq<AuthorWithBooksV>, id: int) -> int {
    choose|k: int| 0 <= k < groups.len() && (#[trigger] groups[k]).author_id == id
}

/// No two groups share an author id: the result is a mapping.
pub open spec fn distinct_group_ids(groups: Seq<AuthorWithBooksV>) -> bool {
    forall|k1: int, k2: int|
        0 <= k1 < k2 < groups.len() ==> (#[trigger] groups[k1]).author_id != (
        #[trigger] groups[k2]).author_id
}

/// The book carried by one flat join row.
pub open spec fn row_book(r: RowV) -> BookV {
    BookV { book_id: r.book_id, name: r.book_name }
}

/// Group flat join rows by author id: the owning author's fields come
/// from the first row seen for that id, and each row appends its book to
/// the owning group, preserving row order.
pub open spec fn group_authors_spec(rows: Seq<RowV>) -> Seq<AuthorWithBooksV>
    decreases rows.len(),
{
    if rows.len() == 0 {
        Seq::empty()
    } else {
        let prev = group_authors_spec(rows.drop_last());
        let r = rows.last();
        if has_group_for(prev, r.author_id) {
            let k = group_index_of(prev, r.author_id);
            prev.update(
                k,
                AuthorWithBooksV { books: prev[k].books.push(row_book(r)), ..prev[k] },
            )
        } else {
            prev.push(
                AuthorWithBooksV {
                    author_id: r.author_id,
                    name: r.author_name,
                    books: seq![row_book(r)],
                },
            )
        }
    }
}

/// Shape of the grouped result: group ids are unique, a group exists for
/// an id exactly when some row carries it, and no group is empty.
pub proof fn lemma_group_authors_spec(rows: Seq<RowV>)
    ensures
        distinct_group_ids(group_authors_spec(rows)),
        forall|x: int|
            #[trigger] has_group_for(group_authors_spec(rows), x) <==> exists|i: int|
                0 <= i < rows.len() && (#[trigger] rows[i]).author_id == x,
        forall|k: int|
            0 <= k < group_authors_spec(rows).len() ==> (
            #[trigger] group_authors_spec(rows)[k]).books.len() >= 1,
    decreases rows.len(),
{
    let g = group_authors_spec(rows);
    if rows.len() > 0 {
        let dl = rows.drop_last();
        let r = rows.last();
        lemma_group_authors_spec(dl);
        let p = group_authors_spec(dl);
        if has_group_for(p, r.author_id) {
            let k0 = group_index_of(p, r.author_id);
            assert(g == p.update(
                k0,
                AuthorWithBooksV { books: p[k0].books.push(row_book(r)), ..p[k0] },
            ));
            assert(g.len() == p.len());
            assert forall|k: int| 0 <= k < g.len() implies (#[trigger] g[k]).author_id
                == p[k].author_id && g[k].books.len() >= 1 by {
                if k != k0 {
                    assert(g[k] == p[k]);
                }
            }
            assert forall|x: int| #[trigger] has_group_for(g, x) implies exists|i: int|
                0 <= i < rows.len() && (#[trigger] rows[i]).author_id == x by {
                let k = group_index_of(g, x);
                assert(p[k].author_id == x);
                assert(has_group_for(p, x));
                let i = choose|i: int| 0 <= i < dl.len() && (#[trigger] dl[i]).author_id == x;
                assert(rows[i].author_id == x);
            }
            assert forall|x: int|
                (exists|i: int| 0 <= i < rows.len() && (#[trigger] rows[i]).author_id == x)
                implies #[trigger] has_group_for(g, x) by {
                let i = choose|i: int| 0 <= i < rows.len() && (#[trigger] rows[i]).author_id == x;
                if i < rows.len() - 1 {
                    assert(dl[i].author_id == x);
                    assert(has_group_for(p, x));
                    let k = group_index_of(p, x);
                    assert(g[k].author_id == x);
                } else {
                    assert(x == r.author_id);
                    assert(g[k0].author_id == x);
                }
            }
        } else {
            assert(g == p.push(
                AuthorWithBooksV {
                    author_id: r.author_id,
                    name: r.author_name,
                    books: seq![row_book(r)],
                },
            ));
            assert forall|k1: int, k2: int| 0 <= k1 < k2 < g.len() implies (
            #[trigger] g[k1]).author_id != (#[trigger] g[k2]).author_id by {
                if k2 == g.len() - 1 {
                    assert(g[k1] == p[k1]);
                    if p[k1].author_id == r.author_id {
                        assert(has_group_for(p, r.author_id));
                        assert(false);
                    }
                } else {
                    assert(g[k1] == p[k1] && g[k2] == p[k2]);
                }
            }
            assert forall|k: int| 0 <= k < g.len() implies (#[trigger] g[k]).books.len() >= 1 by {
                if k < g.len() - 1 {
                    assert(g[k] == p[k]);
                }
            }
            assert forall|x: int| #[trigger] has_group_for(g, x) implies exists|i: int|
                0 <= i < rows.len() && (#[trigger] rows[i]).author_id == x by {
                let k = group_index_of(g, x);
                if k < g.len() - 1 {
                    assert(p[k].author_id == x);
                    assert(has_group_for(p, x));
                    let i = choose|i: int| 0 <= i < dl.len() && (#[trigger] dl[i]).author_id == x;
                    assert(rows[i].author_id == x);
                } else {
                    assert(rows[rows.len() - 1].author_id == x);
                }
            }
            assert forall|x: int|
                (exists|i: int| 0 <= i < rows.len() && (#[trigger] rows[i]).author_id == x)
                implies #[trigger] has_group_for(g, x) by {
                let i = choose|i: int| 0 <= i < rows.len() && (#[trigger] rows[i]).author_id == x;
                if i < rows.len() - 1 {
                    assert(dl[i].author_id == x);
                    assert(has_group_for(p, x));
                    let k = group_index_of(p, x);
                    assert(g[k].author_id == x);
                } else {
                    assert(g[g.len() - 1].author_id == x);
                }
            }
        }
    }
}

/// Group flat join rows by author id, in first-seen order, appending each
/// row's book to its owning group in row order.
pub fn group_by_author(rows: &Vec<BookAuthors>) -> (r: Authors)
    ensures
        awb_views(r@) == group_authors_spec(row_views(rows@)),
{
    let ghost rv = row_views(rows@);
    let mut out: Vec<AuthorWithBooks> = Vec::new();
    let n = rows.len();
    let mut i: usize = 0;
    while i < n
        invariant
            n == rows.len(),
            rv == row_views(rows@),
            i <= n,
            awb_views(out@) == group_authors_spec(rv.take(i as int)),
        decreases n - i,
    {
        proof {
            lemma_group_authors_spec(rv.take(i as int));
            assert(rv.take(i as int + 1).drop_last() =~= rv.take(i as int));
            assert(rv.take(i as int + 1).last() == rv[i as int]);
            assert(awb_views(out@).len() == out@.len());
        }
        let ghost g = group_authors_spec(rv.take(i as int));
        let aid = rows[i].author_id;
        let m = out.len();
        let mut k: usize = 0;
        let mut found: bool = false;
        while !found && k < m
            invariant
                m == out.len(),
                k <= m,
                found ==> k < m && out@[k as int]@.author_id == aid as int,
                !found ==> forall|j: int|
                    0 <= j < k ==> (#[trigger] out@[j])@.author_id != aid as int,
            decreases m - k + (if found { 0int } else { 1int }),
        {
            if out[k].author_id == aid {
                found = true;
            } else {
                k = k + 1;
            }
        }
        let ghost prev = out@;
        if found {
            proof {
                assert(g[k as int].author_id == aid as int);
                assert(has_group_for(g, aid as int));
                let k0 = group_index_of(g, aid as int);
                if k0 != k as int {
                    assert(g[k0].author_id != g[k as int].author_id);
                }
                assert(group_index_of(g, aid as int) == k as int);
            }
            let mut e = out.remove(k);
            let b = Book { book_id: rows[i].book_id, name: rows[i].book_name.clone() };
            e.books.push(b);
            out.insert(k, e);
            proof {
                assert(out@ =~= prev.update(k as int, e));
                assert(e@ == (AuthorWithBooksV {
                    books: g[k as int].books.push(row_book(rv[i as int])),
                    ..g[k as int]
                }));
                assert forall|j: int| 0 <= j < out@.len() implies awb_views(out@)[j]
                    == group_authors_spec(rv.take(i as int + 1))[j] by {
                    if j != k as int {
                        assert(out@[j] == prev[j]);
                    }
                }
                assert(awb_views(out@) =~= group_authors_spec(rv.take(i as int + 1)));
            }
        } else {
            proof {
                assert(!has_group_for(g, aid as int));
            }
            let mut bs: Vec<Book> = Vec::new();
            bs.push(Book { book_id: rows[i].book_id, name: rows[i].book_name.clone() });
            let e = AuthorWithBooks {
                author_id: aid,
                name: rows[i].author_name.clone(),
                books: bs,
            };
            out.push(e);
            proof {
                assert(out@ == prev.push(e));
                assert(awb_views(out@).len() == out@.len());
                assert(out@[out@.len() - 1]@.books =~= seq![row_book(rv[i as int])]);
                assert forall|j: int| 0 <= j < out@.len() implies awb_views(out@)[j]
                    == group_authors_spec(rv.take(i as int + 1))[j] by {
                    if j < out@.len() - 1 {
                        assert(out@[j] == prev[j]);
                    } else {
                        assert(awb_views(out@)[j] == out@[j]@);
                    }
                }
                assert(awb_views(out@) =~= group_authors_spec(rv.take(i as int + 1)));
            }
        }
        i = i + 1;
    }
    proof {
        assert(rv.take(n as int) =~= rv);
    }
    out
}


use crate::store::{find_book, has_book_id, lemma_find_book_at, spec_author_name, spec_book_name,
    StorageError};

/// One flat row of the join, as produced for one link row.
pub open spec fn join_row(s: StoreV, l: LinkV) -> RowV {
    RowV {
        author_id: l.author_id,
        book_id: l.book_id,
        author_name: spec_author_name(s.authors, l.author_id),
        book_name: spec_book_name(s.books, l.book_id),
    }
}

/// The flat result of the single join query: one row per link row, in
/// link order, carrying both parents' names.
pub open spec fn join_spec(s: StoreV) -> Seq<RowV> {
    s.links.map_values(|l: LinkV| join_row(s, l))
}

/// Run the join across the link table and both parent tables: one flat
/// row per link, in link order.
pub fn join_rows(store: &Store) -> (rows: Vec<BookAuthors>)
    requires
        store.wf(),
    ensures
        row_views(rows@) == join_spec(store@),
{
    let mut out: Vec<BookAuthors> = Vec::new();
    let n = store.links.len();
    let mut i: usize = 0;
    while i < n
        invariant
            store.wf(),
            n == store.links.len(),
            i <= n,
            row_views(out@) == join_spec(store@).take(i as int),
        decreases n - i,
    {
        proof {
            assert(has_author_id(store@.authors, store@.links[i as int].author_id));
            assert(has_book_id(store@.books, store@.links[i as int].book_id));
        }
        let l = store.links[i];
        let a = match get_author_by_id(store, l.author_id) {
            Some(a) => a,
            None => {
                proof {
                    assert(false);
                }
                Author { author_id: 0, name: String::new() }
            },
        };
        let b = match crate::books::get_book_by_id(store, l.book_id) {
            Some(b) => b,
            None => {
                proof {
                    assert(false);
                }
                Book { book_id: 0, name: String::new() }
            },
        };
        let ghost av = a@;
        let ghost bv = b@;
        let row = BookAuthors {
            author_id: l.author_id,
            book_id: l.book_id,
            author_name: a.name,
            book_name: b.name,
        };
        let ghost prev = out@;
        out.push(row);
        proof {
            assert(row@ == join_row(store@, store@.links[i as int]));
            assert(out@ == prev.push(row));
            assert(row_views(prev).len() == prev.len());
            assert(join_spec(store@).take(i as int).len() == i as int);
            assert forall|k: int| 0 <= k < i as int + 1 implies row_views(out@)[k]
                == join_spec(store@).take(i as int + 1)[k] by {
                if k < i as int {
                    assert(row_views(prev)[k] == join_spec(store@).take(i as int)[k]);
                    assert(out@[k] == prev[k]);
                } else {
                    assert(out@[k] == row);
                }
            }
            assert(row_views(out@) =~= join_spec(store@).take(i as int + 1));
        }
        i = i + 1;
    }
    proof {
        assert(join_spec(store@).take(n as int) =~= join_spec(store@));
    }
    out
}

/// The authors-with-books query result: the join, grouped by author id.
pub open spec fn authors_with_books_spec(s: StoreV) -> Seq<AuthorWithBooksV> {
    group_authors_spec(join_spec(s))
}

/// Fetch every author that has at least one linked book, with its books,
/// as a mapping from author id to the assembled view: one single join
/// query, then grouping in row order. An empty join is an empty result,
/// not an error.
pub fn get_all_authors_with_books(store: &Store) -> (r: Authors)
    requires
        store.wf(),
    ensures
        awb_views(r@) == authors_with_books_spec(store@),
        distinct_group_ids(awb_views(r@)),
{
    let rows = join_rows(store);
    let r = group_by_author(&rows);
    proof {
        lemma_group_authors_spec(join_spec(store@));
    }
    r
}

/// The state after a successful `create_author_and_book`, with the two
/// generated ids.
pub open spec fn create_author_and_book_spec(
    s: StoreV,
    author_name: Seq<char>,
    book_name: Seq<char>,
) -> (StoreV, int, int) {
    (StoreV {
        authors: s.authors.push(AuthorV { author_id: s.next_author_id, name: author_name }),
        books: s.books.push(BookV { book_id: s.next_book_id, name: book_name }),
        links: s.links.push(
            LinkV { author_id: s.next_author_id, book_id: s.next_book_id },
        ),
        next_author_id: s.next_author_id + 1,
        next_book_id: s.next_book_id + 1,
    }, s.next_author_id, s.next_book_id)
}

/// Create an author, a book, and the link joining them, all in one
/// transaction: either every row is committed and both generated ids are
/// returned, or nothing is. On a well-formed store with id capacity every
/// statement succeeds, so the transaction commits.
pub fn create_author_and_book(store: &mut Store, author_name: &str, book_name: &str) -> (r: Result<
    (AuthorId, BookId),
    StorageError,
>)
    requires
        old(store).wf(),
        old(store)@.next_author_id < i32::MAX as int,
        old(store)@.next_book_id < i32::MAX as int,
    ensures
        final(store).wf(),
        r is Ok,
        r matches Ok(p) ==> {
            &&& final(store)@ == create_author_and_book_spec(
                old(store)@,
                author_name@,
                book_name@,
            ).0
            &&& p.0 as int == create_author_and_book_spec(old(store)@, author_name@, book_name@).1
            &&& p.1 as int == create_author_and_book_spec(old(store)@, author_name@, book_name@).2
        },
{
    let aid = create_author(store, author_name);
    let bid = crate::books::create_book(store, book_name);
    let ghost mid = store@;
    store.links.push(AuthorBookLink { author_id: aid, book_id: bid });
    proof {
        let pre = old(store)@;
        let t = create_author_and_book_spec(pre, author_name@, book_name@).0;
        assert(store@.links =~= t.links);
        assert(store@ =~~= t);
        assert forall|k: int| 0 <= k < t.links.len() implies has_author_id(
            t.authors,
            (#[trigger] t.links[k]).author_id,
        ) && has_book_id(t.books, t.links[k].book_id) by {
            if k < t.links.len() - 1 {
                assert(t.links[k] == mid.links[k]);
                assert(has_author_id(mid.authors, mid.links[k].author_id));
                assert(has_book_id(mid.books, mid.links[k].book_id));
            } else {
                assert(t.authors[t.authors.len() - 1].author_id == aid as int);
                assert(t.books[t.books.len() - 1].book_id == bid as int);
            }
        }
        assert forall|k1: int, k2: int| 0 <= k1 < k2 < t.links.len() implies #[trigger] t.links[k1]
            != #[trigger] t.links[k2] by {
            if k2 == t.links.len() - 1 {
                assert(t.links[k1] == pre.links[k1]);
                assert(has_author_id(pre.authors, pre.links[k1].author_id));
                let i = author_row_index(pre.authors, pre.links[k1].author_id);
                assert(pre.authors[i].author_id < pre.next_author_id);
                assert(t.links[k1].author_id != aid as int);
            } else {
                assert(t.links[k1] == pre.links[k1] && t.links[k2] == pre.links[k2]);
            }
        }
    }
    Ok((aid, bid))
}

/// Creating an author and then fetching the returned id yields exactly an
/// author row with the created name.
pub proof fn lemma_create_then_get_author(s: StoreV, name: Seq<char>)
    requires
        s.wf(),
        s.next_author_id < i32::MAX as int,
    ensures
        ({
            let (t, id) = create_author_spec(s, name);
            find_author(t.authors, id) == Some(AuthorV { author_id: id, name: name })
        }),
{
    let (t, id) = create_author_spec(s, name);
    assert forall|i: int, j: int| 0 <= i < j < t.authors.len() implies (
    #[trigger] t.authors[i]).author_id != (#[trigger] t.authors[j]).author_id by {
        assert(t.authors[i] == s.authors[i]);
        if j < t.authors.len() - 1 {
            assert(t.authors[j] == s.authors[j]);
        } else {
            assert(s.authors[i].author_id < s.next_author_id);
        }
    }
    lemma_find_author_at(t.authors, t.authors.len() - 1);
}

/// A never-used author id is reported absent, not as an error.
pub proof fn lemma_get_author_missing(s: StoreV, id: int)
    requires
        s.wf(),
        id >= s.next_author_id,
    ensures
        find_author(s.authors, id) is None,
{
    if has_author_id(s.authors, id) {
        let i = author_row_index(s.authors, id);
        assert(s.authors[i].author_id < s.next_author_id);
    }
}

/// Reading all authors is a pure function of the store: two reads with no
/// intervening write return equal rows.
pub proof fn lemma_get_all_authors_idempotent(s: StoreV, r1: Seq<AuthorV>, r2: Seq<AuthorV>)
    requires
        r1 == s.authors,
        r2 == s.authors,
    ensures
        r1 == r2,
{
}

/// Updating a nonexistent author id changes nothing, yet still succeeds.
pub proof fn lemma_update_author_missing_is_noop(s: StoreV, id: int, name: Seq<char>)
    requires
        !has_author_id(s.authors, id),
    ensures
        update_author_spec(s, id, name) == s,
{
    let t = update_author_spec(s, id, name);
    assert forall|j: int| 0 <= j < s.authors.len() implies t.authors[j] == s.authors[j] by {
        assert(t.authors[j] == author_rename(id, name)(s.authors[j]));
        if s.authors[j].author_id == id {
            assert(has_author_id(s.authors, id));
        }
    }
    assert(t.authors =~= s.authors);
    assert(t =~~= s);
}

/// Deleting a nonexistent author id changes nothing, yet still succeeds.
pub proof fn lemma_delete_author_missing_is_noop(s: StoreV, id: int)
    requires
        s.wf(),
        !has_author_id(s.authors, id),
    ensures
        delete_author_spec(s, id) == s,
{
    assert forall|i: int| 0 <= i < s.authors.len() implies author_keep(id)(
        #[trigger] s.authors[i],
    ) by {
        if s.authors[i].author_id == id {
            assert(has_author_id(s.authors, id));
        }
    }
    assert forall|i: int| 0 <= i < s.links.len() implies link_keep_author(id)(
        #[trigger] s.links[i],
    ) by {
        if s.links[i].author_id == id {
            assert(has_author_id(s.authors, s.links[i].author_id));
        }
    }
    crate::store::lemma_filter_all_kept(s.authors, author_keep(id));
    crate::store::lemma_filter_all_kept(s.links, link_keep_author(id));
    assert(delete_author_spec(s, id) =~~= s);
}

/// The authors-with-books result carries exactly the authors with at
/// least one link, and every group holds at least one book: an author
/// with no linked book never appears.
pub proof fn lemma_authors_with_books_excludes_unlinked(s: StoreV)
    requires
        s.wf(),
    ensures
        forall|x: int|
            #[trigger] has_group_for(authors_with_books_spec(s), x) <==> exists|i: int|
                0 <= i < s.links.len() && (#[trigger] s.links[i]).author_id == x,
        forall|k: int|
            0 <= k < authors_with_books_spec(s).len() ==> (
            #[trigger] authors_with_books_spec(s)[k]).books.len() >= 1,
{
    let jr = join_spec(s);
    lemma_group_authors_spec(jr);
    assert(jr.len() == s.links.len());
    assert forall|x: int| #[trigger] has_group_for(authors_with_books_spec(s), x) implies exists|
        i: int,
    | 0 <= i < s.links.len() && (#[trigger] s.links[i]).author_id == x by {
        let i = choose|i: int| 0 <= i < jr.len() && (#[trigger] jr[i]).author_id == x;
        assert(s.links[i].author_id == x);
    }
    assert forall|x: int|
        (exists|i: int| 0 <= i < s.links.len() && (#[trigger] s.links[i]).author_id == x) implies
        #[trigger] has_group_for(authors_with_books_spec(s), x) by {
        let i = choose|i: int| 0 <= i < s.links.len() && (#[trigger] s.links[i]).author_id == x;
        assert(jr[i].author_id == x);
        assert(exists|i: int| 0 <= i < jr.len() && (#[trigger] jr[i]).author_id == x);
    }
}

/// A dual create-and-link commits as a whole: afterwards both generated
/// ids are fetchable with the created names, and the authors-with-books
/// result groups the new book under the new author.
pub proof fn lemma_create_author_and_book_observable(
    s: StoreV,
    author_name: Seq<char>,
    book_name: Seq<char>,
)
    requires
        s.wf(),
        s.next_author_id < i32::MAX as int,
        s.next_book_id < i32::MAX as int,
    ensures
        ({
            let (t, aid, bid) = create_author_and_book_spec(s, author_name, book_name);
            &&& find_author(t.authors, aid) == Some(AuthorV { author_id: aid, name: author_name })
            &&& find_book(t.books, bid) == Some(BookV { book_id: bid, name: book_name })
            &&& has_group_for(authors_with_books_spec(t), aid)
            &&& authors_with_books_spec(t)[group_index_of(authors_with_books_spec(t), aid)].books
                .contains(BookV { book_id: bid, name: book_name })
        }),
{
    let (t, aid, bid) = create_author_and_book_spec(s, author_name, book_name);
    assert forall|i: int, j: int| 0 <= i < j < t.authors.len() implies (
    #[trigger] t.authors[i]).author_id != (#[trigger] t.authors[j]).author_id by {
        assert(t.authors[i] == s.authors[i]);
        if j < t.authors.len() - 1 {
            assert(t.authors[j] == s.authors[j]);
        } else {
            assert(s.authors[i].author_id < s.next_author_id);
        }
    }
    lemma_find_author_at(t.authors, t.authors.len() - 1);
    assert forall|i: int, j: int| 0 <= i < j < t.books.len() implies (
    #[trigger] t.books[i]).book_id != (#[trigger] t.books[j]).book_id by {
        assert(t.books[i] == s.books[i]);
        if j < t.books.len() - 1 {
            assert(t.books[j] == s.books[j]);
        } else {
            assert(s.books[i].book_id < s.next_book_id);
        }
    }
    lemma_find_book_at(t.books, t.books.len() - 1);
    let jr = join_spec(t);
    lemma_group_authors_spec(jr);
    let g = group_authors_spec(jr);
    assert(jr.len() == t.links.len());
    let last = jr.len() - 1;
    assert(jr[last] == join_row(t, t.links[last]));
    assert(t.links[last] == (LinkV { author_id: aid, book_id: bid }));
    assert(row_book(jr[last]) == (BookV { book_id: bid, name: book_name }));
    assert(jr[last].author_id == aid);
    assert(has_group_for(g, aid));
    let kk = group_index_of(g, aid);
    assert(g[kk].author_id == aid);
    let prev = group_authors_spec(jr.drop_last());
    let r = jr.last();
    assert(r == jr[last]);
    if has_group_for(prev, r.author_id) {
        let k0 = group_index_of(prev, r.author_id);
        assert(g == prev.update(
            k0,
            AuthorWithBooksV { books: prev[k0].books.push(row_book(r)), ..prev[k0] },
        ));
        assert(g[k0].books[g[k0].books.len() - 1] == row_book(r));
        assert(g[k0].books.contains(row_book(r)));
        assert(g[k0].author_id == aid);
        if kk != k0 {
            assert(g[kk].author_id != g[k0].author_id);
        }
    } else {
        assert(g == prev.push(
            AuthorWithBooksV { author_id: r.author_id, name: r.author_name, books: seq![
                row_book(r),
            ] },
        ));
        assert(g[g.len() - 1].books[0] == row_book(r));
        assert(g[g.len() - 1].books.contains(row_book(r)));
        assert(g[g.len() - 1].author_id == aid);
        if kk != g.len() - 1 {
            assert(g[kk].author_id != g[g.len() - 1].author_id);
        }
    }
}

} // verus!
