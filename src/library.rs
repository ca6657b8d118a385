use vstd::prelude::*;
use crate::model::{
    BookView, ErrorView, Error, outcome, book_line, has_title, titles_unique, add_step, find_first,
    lemma_find_first, with_availability, borrow_step, return_step, available_of,
};
use crate::laws::law_add_keeps_titles_unique;

verus! {

/// The lower-case form of a string, as `str::to_lowercase` computes it.
pub uninterp spec fn lower_of(s: Seq<char>) -> Seq<char>;

/// Relies on `str::to_lowercase`: its result depends on the characters of `s` alone.
#[verifier::external_body]
pub(crate) fn lowercase(s: &str) -> (r: String)
    ensures
        r@ == lower_of(s@),
{
    s.to_lowercase()
}

/// The lookup key of each entry: its title in lower case.
pub open spec fn keys_of(books: Seq<BookView>) -> Seq<Seq<char>> {
    books.map_values(|b: BookView| lower_of(b.title))
}

/// Borrowing `title` from `books`, each entry looked up by its title in lower case.
pub open spec fn borrow_on(books: Seq<BookView>, title: Seq<char>) -> (Seq<BookView>, Result<(), ErrorView>) {
    borrow_step(books, keys_of(books), lower_of(title), title)
}

/// Returning `title` to `books`, each entry looked up by its title in lower case.
pub open spec fn return_on(books: Seq<BookView>, title: Seq<char>) -> (Seq<BookView>, Result<(), ErrorView>) {
    return_step(books, keys_of(books), lower_of(title), title)
}

/// The views of a sequence of strings.
pub open spec fn views_of(v: Seq<String>) -> Seq<Seq<char>> {
    v.map_values(|s: String| s@)
}

/// A catalog entry.
#[derive(Clone)]
pub struct Book {
    title: String,
    author: String,
    available: bool,
}

impl View for Book {
    type V = BookView;

    closed spec fn view(&self) -> BookView {
        BookView { title: self.title@, author: self.author@, available: self.available }
    }
}

/// The catalog: its entries in the order in which they were added.
pub struct Library {
    books: Vec<Book>,
}

impl Library {
    /// No two entries of the catalog carry the same title.
    pub open spec fn well_formed(&self) -> bool {
        titles_unique(self@)
    }
}

impl View for Library {
    type V = Seq<BookView>;

    closed spec fn view(&self) -> Seq<BookView> {
        self.books@.map_values(|b: Book| b@)
    }
}

/// The first position of `keys` that holds `key`.
pub fn position_of(keys: &Vec<String>, key: &String) -> (r: Option<usize>)
    ensures
        match r {
            Some(i) => find_first(views_of(keys@), key@) == Some(i as int),
            None => find_first(views_of(keys@), key@) == None::<int>,
        },
{
    let mut i: usize = 0;
    while i < keys.len()
        invariant
            i <= keys@.len(),
            find_first(views_of(keys@).take(i as int), key@) == None::<int>,
        decreases keys@.len() - i,
    {
        let ghost ks = views_of(keys@);
        assert(ks.take(i + 1).drop_last() =~= ks.take(i as int));
        if keys[i] == *key {
            assert(find_first(ks.take(i + 1), key@) == Some(i as int));
            proof { lemma_find_first_prefix(ks, key@, i + 1); }
            return Some(i);
        }
        i += 1;
    }
    assert(views_of(keys@).take(i as int) =~= views_of(keys@));
    None
}

/// A match found in a prefix is the first match of the whole sequence.
proof fn lemma_find_first_prefix(ks: Seq<Seq<char>>, key: Seq<char>, n: int)
    requires
        0 <= n <= ks.len(),
        find_first(ks.take(n), key) is Some,
    ensures
        find_first(ks, key) == find_first(ks.take(n), key),
    decreases ks.len() - n,
{
    if n < ks.len() {
        assert(ks.take(n + 1).drop_last() =~= ks.take(n));
        lemma_find_first_prefix(ks, key, n + 1);
    } else {
        assert(ks.take(n) =~= ks);
    }
}

} // verus!

verus! {

impl Book {
    /// The entry's title.
    pub fn title(&self) -> (r: &str)
        ensures
            r@ == self@.title,
    {
        self.title.as_str()
    }

    /// The entry's author.
    pub fn author(&self) -> (r: &str)
        ensures
            r@ == self@.author,
    {
        self.author.as_str()
    }

    /// The line that describes the entry: `"<title> by <author> - <Available|Borrowed>"`.
    pub fn to_string(&self) -> (r: String)
        ensures
            r@ == book_line(self@),
    {
        let mut s = self.title.clone();
        s.append(" by ");
        s.append(self.author.as_str());
        s.append(" - ");
        if self.available {
            s.append("Available");
        } else {
            s.append("Borrowed");
        }
        s
    }

    /// Whether the entry is on the shelf.
    pub fn is_available(&self) -> (r: bool)
        ensures
            r == self@.available,
    {
        self.available
    }
}

impl Library {
    /// An empty catalog.
    pub fn new() -> (r: Library)
        ensures
            r@ == Seq::<BookView>::empty(),
            r.well_formed(),
    {
        let r = Library { books: Vec::new() };
        assert(r@ =~= Seq::<BookView>::empty());
        r
    }

    /// Whether some entry carries exactly the title `t`.
    fn contains_title(&self, t: &String) -> (r: bool)
        ensures
            r == has_title(self@, t@),
    {
        let mut i: usize = 0;
        while i < self.books.len()
            invariant
                i <= self@.len(),
                forall|j: int| 0 <= j < i ==> self@[j].title != t@,
            decreases self@.len() - i,
        {
            if self.books[i].title == *t {
                assert(self@[i as int].title == t@);
                return true;
            }
            i += 1;
        }
        false
    }

    /// Adds an available entry `(title, author)` at the end of the catalog.
    /// Fails where the title or the author is empty, or where an entry already
    /// carries exactly this title; the catalog is then left as it was.
    pub fn add_book(&mut self, title: &str, author: &str) -> (r: Result<(), Error>)
        ensures
            final(self)@ == add_step(old(self)@, title@, author@).0,
            outcome(r) == add_step(old(self)@, title@, author@).1,
            title@.len() == 0 || author@.len() == 0 ==> r == Err::<(), Error>(Error::EmptyTitleOrAuthor),
            old(self).well_formed() ==> final(self).well_formed(),
    {
        if title.is_empty() || author.is_empty() {
            return Err(Error::EmptyTitleOrAuthor);
        }
        let t = title.to_owned();
        if self.contains_title(&t) {
            return Err(Error::BookAlreadyExists(t));
        }
        let book = Book { title: t, author: author.to_owned(), available: true };
        self.books.push(book);
        proof {
            if titles_unique(old(self)@) {
                law_add_keeps_titles_unique(old(self)@, title@, author@);
            }
        }
        assert(self@ =~= old(self)@.push(BookView { title: title@, author: author@, available: true }));
        Ok(())
    }

    /// The lookup key of each entry, in catalog order.
    fn lookup_keys(&self) -> (r: Vec<String>)
        ensures
            views_of(r@) == keys_of(self@),
    {
        let mut keys: Vec<String> = Vec::new();
        let mut i: usize = 0;
        while i < self.books.len()
            invariant
                i <= self@.len(),
                keys@.len() == i,
                forall|j: int| 0 <= j < i ==> #[trigger] keys@[j]@ == lower_of(self@[j].title),
            decreases self@.len() - i,
        {
            keys.push(lowercase(self.books[i].title.as_str()));
            i += 1;
        }
        assert(views_of(keys@) =~= keys_of(self@));
        keys
    }

    /// Borrows the first entry whose key in `keys` equals `key`, where `keys`
    /// holds one key for each entry. Fails with the given `title` where no key
    /// matches or where the entry is already out.
    pub fn borrow_by_key(&mut self, keys: &Vec<String>, key: &String, title: &str) -> (r: Result<(), Error>)
        requires
            keys@.len() == old(self)@.len(),
        ensures
            (final(self)@, outcome(r)) == borrow_step(old(self)@, views_of(keys@), key@, title@),
            old(self).well_formed() ==> final(self).well_formed(),
    {
        proof { lemma_find_first(views_of(keys@), key@); }
        match position_of(keys, key) {
            None => Err(Error::BookNotFound(title.to_owned())),
            Some(i) => {
                if self.books[i].available {
                    self.books[i].available = false;
                    assert(self@ =~= with_availability(old(self)@, i as int, false));
                    Ok(())
                } else {
                    Err(Error::BookNotAvailable(title.to_owned()))
                }
            },
        }
    }

    /// Returns the first entry whose key in `keys` equals `key`, where `keys`
    /// holds one key for each entry. Fails with the given `title` where no key
    /// matches or where the entry is already on the shelf.
    pub fn return_by_key(&mut self, keys: &Vec<String>, key: &String, title: &str) -> (r: Result<(), Error>)
        requires
            keys@.len() == old(self)@.len(),
        ensures
            (final(self)@, outcome(r)) == return_step(old(self)@, views_of(keys@), key@, title@),
            old(self).well_formed() ==> final(self).well_formed(),
    {
        proof { lemma_find_first(views_of(keys@), key@); }
        match position_of(keys, key) {
            None => Err(Error::BookNotFound(title.to_owned())),
            Some(i) => {
                if !self.books[i].available {
                    self.books[i].available = true;
                    assert(self@ =~= with_availability(old(self)@, i as int, true));
                    Ok(())
                } else {
                    Err(Error::BookAlreadyAvailable(title.to_owned()))
                }
            },
        }
    }

    /// Borrows the first entry whose title equals `title` regardless of case.
    pub fn borrow_item(&mut self, title: &str) -> (r: Result<(), Error>)
        ensures
            (final(self)@, outcome(r)) == borrow_on(old(self)@, title@),
            old(self).well_formed() ==> final(self).well_formed(),
    {
        let keys = self.lookup_keys();
        let key = lowercase(title);
        assert(views_of(keys@).len() == keys@.len());
        self.borrow_by_key(&keys, &key, title)
    }

    /// Returns the first entry whose title equals `title` regardless of case.
    pub fn return_borrowed_item(&mut self, title: &str) -> (r: Result<(), Error>)
        ensures
            (final(self)@, outcome(r)) == return_on(old(self)@, title@),
            old(self).well_formed() ==> final(self).well_formed(),
    {
        let keys = self.lookup_keys();
        let key = lowercase(title);
        assert(views_of(keys@).len() == keys@.len());
        self.return_by_key(&keys, &key, title)
    }

    /// The available entries, in catalog order; fails where there is none.
    pub fn list_available_books(&self) -> (r: Result<Vec<&Book>, Error>)
        ensures
            match r {
                Ok(v) => v@.map_values(|b: &Book| b@) == available_of(self@) && v@.len() > 0,
                Err(e) => e == Error::NoAvailableBooks && available_of(self@).len() == 0,
            },
            r is Err <==> forall|i: int| 0 <= i < self@.len() ==> !self@[i].available,
    {
        let mut out: Vec<&Book> = Vec::new();
        let mut i: usize = 0;
        while i < self.books.len()
            invariant
                i <= self@.len(),
                out@.map_values(|b: &Book| b@) == available_of(self@.take(i as int)),
                out@.len() == 0 <==> forall|j: int| 0 <= j < i ==> !self@[j].available,
            decreases self@.len() - i,
        {
            let ghost before = out@;
            let b = &self.books[i];
            proof {
                reveal(Seq::filter);
                assert(self@.take(i + 1).drop_last() =~= self@.take(i as int));
            }
            if b.available {
                out.push(b);
                assert(out@.map_values(|b: &Book| b@) =~= before.map_values(|b: &Book| b@).push(self@[i as int]));
            }
            i += 1;
        }
        assert(self@.take(i as int) =~= self@);
        if out.len() == 0 {
            Err(Error::NoAvailableBooks)
        } else {
            Ok(out)
        }
    }

    /// Whether the catalog holds no entry at all.
    pub fn is_library_empty(&self) -> (r: bool)
        ensures
            r == (self@.len() == 0),
    {
        self.books.is_empty()
    }
}

} // verus!

verus! {

/// Lending and taking back entries by title.
pub trait Borrowable {
    fn borrow_item(&mut self, title: &str) -> Result<(), Error>;

    fn return_borrowed_item(&mut self, title: &str) -> Result<(), Error>;
}

impl Borrowable for Library {
    fn borrow_item(&mut self, title: &str) -> Result<(), Error> {
        Library::borrow_item(self, title)
    }

    fn return_borrowed_item(&mut self, title: &str) -> Result<(), Error> {
        Library::return_borrowed_item(self, title)
    }
}

} // verus!
