use vstd::prelude::*;
use crate::model::{BookView, ErrorView, add_step, has_title, titles_unique, find_first, lemma_find_first, with_availability};
use crate::library::{lower_of, keys_of, borrow_on, return_on};

verus! {

/// The catalog left by adding `(titles[k], authors[k])` for each `k` in turn to `books`.
pub open spec fn add_all(books: Seq<BookView>, titles: Seq<Seq<char>>, authors: Seq<Seq<char>>) -> Seq<BookView>
    decreases titles.len(),
{
    if titles.len() == 0 || authors.len() == 0 {
        books
    } else {
        add_step(add_all(books, titles.drop_last(), authors.drop_last()), titles.last(), authors.last()).0
    }
}

/// Adding keeps the titles of a catalog pairwise distinct.
pub proof fn law_add_keeps_titles_unique(books: Seq<BookView>, t: Seq<char>, a: Seq<char>)
    requires
        titles_unique(books),
    ensures
        titles_unique(add_step(books, t, a).0),
{
    let after = add_step(books, t, a).0;
    if after != books {
        assert forall|i: int, j: int|
            0 <= i < after.len() && 0 <= j < after.len() && i != j implies after[i].title != after[j].title by {
            if i == books.len() as int {
                assert(books[j].title != t);
            } else if j == books.len() as int {
                assert(books[i].title != t);
            }
        }
    }
}

/// Borrowing and returning change no title, no author and no length.
pub proof fn law_lending_keeps_entries(books: Seq<BookView>, title: Seq<char>)
    ensures
        ({
            let b = borrow_on(books, title).0;
            let r = return_on(books, title).0;
            b.len() == books.len() && r.len() == books.len()
                && forall|i: int| 0 <= i < books.len() ==>
                    b[i].title == books[i].title && b[i].author == books[i].author
                    && r[i].title == books[i].title && r[i].author == books[i].author
        }),
{
    lemma_find_first(keys_of(books), lower_of(title));
}

/// Marking an entry available or not leaves every lookup key as it was.
proof fn lemma_keys_unchanged(books: Seq<BookView>, i: int, available: bool)
    requires
        0 <= i < books.len(),
    ensures
        keys_of(with_availability(books, i, available)) == keys_of(books),
{
    assert(keys_of(with_availability(books, i, available)) =~= keys_of(books));
}

/// Adding `n` entries with non-empty, pairwise distinct titles and non-empty
/// authors to an empty catalog succeeds each time and leaves exactly those `n`
/// entries, in order, each available.
pub proof fn law_distinct_adds_fill(titles: Seq<Seq<char>>, authors: Seq<Seq<char>>)
    requires
        titles.len() == authors.len(),
        forall|k: int| 0 <= k < titles.len() ==> #[trigger] titles[k].len() > 0 && authors[k].len() > 0,
        forall|k: int, m: int| 0 <= k < titles.len() && 0 <= m < titles.len() && k != m ==> titles[k] != titles[m],
    ensures
        ({
            let books = add_all(Seq::empty(), titles, authors);
            books.len() == titles.len()
                && forall|k: int| 0 <= k < books.len() ==>
                    (#[trigger] books[k]).available && books[k].title == titles[k] && books[k].author == authors[k]
        }),
        forall|k: int| 0 <= k < titles.len() ==>
            add_step(add_all(Seq::empty(), titles.take(k), authors.take(k)), #[trigger] titles[k], authors[k]).1 == Ok::<(), ErrorView>(()),
    decreases titles.len(),
{
    if titles.len() > 0 {
        let n = titles.len() - 1;
        let ts = titles.drop_last();
        let aus = authors.drop_last();
        law_distinct_adds_fill(ts, aus);
        let prev = add_all(Seq::empty(), ts, aus);
        assert(!has_title(prev, titles.last())) by {
            if has_title(prev, titles.last()) {
                let i = choose|i: int| 0 <= i < prev.len() && #[trigger] prev[i].title == titles.last();
                assert(prev[i].title == ts[i]);
                assert(titles[i] == titles[n]);
            }
        }
        assert(titles[n].len() > 0);
        let books = add_all(Seq::empty(), titles, authors);
        assert(books == prev.push(BookView { title: titles[n], author: authors[n], available: true }));
        assert forall|k: int| 0 <= k < books.len() implies
            (#[trigger] books[k]).available && books[k].title == titles[k] && books[k].author == authors[k] by {
            if k < n {
                assert(books[k] == prev[k]);
                assert(ts[k] == titles[k] && aus[k] == authors[k]);
            }
        }
        assert forall|k: int| 0 <= k < titles.len() implies
            add_step(add_all(Seq::empty(), titles.take(k), authors.take(k)), #[trigger] titles[k], authors[k]).1 == Ok::<(), ErrorView>(()) by {
            if k < n {
                assert(ts.take(k) =~= titles.take(k));
                assert(aus.take(k) =~= authors.take(k));
                assert(ts[k] == titles[k]);
            } else {
                assert(titles.take(k) =~= ts);
                assert(authors.take(k) =~= aus);
            }
        }
    }
}

/// Adding a title that was just added fails, whatever the author, and leaves the
/// catalog as it was.
pub proof fn law_add_same_title_twice(books: Seq<BookView>, t: Seq<char>, a1: Seq<char>, a2: Seq<char>)
    requires
        t.len() > 0,
        a1.len() > 0,
        a2.len() > 0,
    ensures
        ({
            let once = add_step(books, t, a1).0;
            add_step(once, t, a2) == (once, Err::<(), ErrorView>(ErrorView::BookAlreadyExists(t)))
        }),
{
    let once = add_step(books, t, a1).0;
    if !has_title(books, t) {
        assert(once[books.len() as int].title == t);
    }
}

/// Borrowing then returning a title that some entry matches leaves that entry
/// available; where the borrow succeeded, the catalog is back as it was. A
/// second return right after fails with `BookAlreadyAvailable`.
pub proof fn law_borrow_then_return(books: Seq<BookView>, title: Seq<char>)
    requires
        find_first(keys_of(books), lower_of(title)) is Some,
    ensures
        ({
            let (lent, r1) = borrow_on(books, title);
            let (back, r2) = return_on(lent, title);
            let i = find_first(keys_of(books), lower_of(title))->Some_0;
            &&& back[i].available
            &&& r1 is Ok ==> back == books && r2 == Ok::<(), ErrorView>(())
            &&& return_on(back, title).1 == Err::<(), ErrorView>(ErrorView::BookAlreadyAvailable(title))
        }),
{
    let key = lower_of(title);
    lemma_find_first(keys_of(books), key);
    let i = find_first(keys_of(books), key)->Some_0;
    let lent = borrow_on(books, title).0;
    if books[i].available {
        lemma_keys_unchanged(books, i, false);
        lemma_keys_unchanged(lent, i, true);
        assert(with_availability(lent, i, true) =~= books);
    } else {
        lemma_keys_unchanged(books, i, true);
    }
    let back = return_on(lent, title).0;
    if back != lent {
        lemma_keys_unchanged(lent, i, true);
    }
}

/// Borrowing a title twice in a row fails the second time with
/// `BookNotAvailable` where the first succeeded.
pub proof fn law_borrow_twice(books: Seq<BookView>, title: Seq<char>)
    requires
        borrow_on(books, title).1 is Ok,
    ensures
        borrow_on(borrow_on(books, title).0, title) == (borrow_on(books, title).0, Err::<(), ErrorView>(ErrorView::BookNotAvailable(title))),
{
    let key = lower_of(title);
    lemma_find_first(keys_of(books), key);
    let i = find_first(keys_of(books), key)->Some_0;
    lemma_keys_unchanged(books, i, false);
}

} // verus!
