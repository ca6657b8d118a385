use vstd::prelude::*;

verus! {

/// What a catalog entry is, as the contracts see it.
pub struct BookView {
    pub title: Seq<char>,
    pub author: Seq<char>,
    pub available: bool,
}

/// The failures of the catalog's operations, with titles as character sequences.
pub enum ErrorView {
    BookNotFound(Seq<char>),
    BookNotAvailable(Seq<char>),
    BookAlreadyExists(Seq<char>),
    BookAlreadyAvailable(Seq<char>),
    NoAvailableBooks,
    EmptyTitleOrAuthor,
}

/// The failures of the catalog's operations.
#[derive(Debug, Clone, PartialEq)]
pub enum Error {
    BookNotFound(String),
    BookNotAvailable(String),
    BookAlreadyExists(String),
    BookAlreadyAvailable(String),
    NoAvailableBooks,
    EmptyTitleOrAuthor,
}

impl View for Error {
    type V = ErrorView;

    open spec fn view(&self) -> ErrorView {
        match self {
            Error::BookNotFound(t) => ErrorView::BookNotFound(t@),
            Error::BookNotAvailable(t) => ErrorView::BookNotAvailable(t@),
            Error::BookAlreadyExists(t) => ErrorView::BookAlreadyExists(t@),
            Error::BookAlreadyAvailable(t) => ErrorView::BookAlreadyAvailable(t@),
            Error::NoAvailableBooks => ErrorView::NoAvailableBooks,
            Error::EmptyTitleOrAuthor => ErrorView::EmptyTitleOrAuthor,
        }
    }
}

/// The sentence that describes an error.
pub open spec fn error_text(e: ErrorView) -> Seq<char> {
    match e {
        ErrorView::BookNotFound(t) => "Book '"@ + t + "' not found."@,
        ErrorView::BookNotAvailable(t) => "Book '"@ + t + "' is not available."@,
        ErrorView::BookAlreadyExists(t) => "Book '"@ + t + "' already exists."@,
        ErrorView::BookAlreadyAvailable(t) => "Book '"@ + t + "' is already available."@,
        ErrorView::NoAvailableBooks => "No available books in the library."@,
        ErrorView::EmptyTitleOrAuthor => "Title or author cannot be empty."@,
    }
}

/// The line that describes an entry: title, author and state.
pub open spec fn book_line(b: BookView) -> Seq<char> {
    b.title + " by "@ + b.author + " - "@ + if b.available {
        "Available"@
    } else {
        "Borrowed"@
    }
}

/// `"Book '" + title + tail`.
fn quoted(title: &String, tail: &str) -> (r: String)
    ensures
        r@ == "Book '"@ + title@ + tail@,
{
    let mut s = "Book '".to_owned();
    s.append(title.as_str());
    s.append(tail);
    s
}

impl Error {
    /// The sentence that describes this error.
    pub fn to_string(&self) -> (r: String)
        ensures
            r@ == error_text(self@),
    {
        match self {
            Error::BookNotFound(t) => quoted(t, "' not found."),
            Error::BookNotAvailable(t) => quoted(t, "' is not available."),
            Error::BookAlreadyExists(t) => quoted(t, "' already exists."),
            Error::BookAlreadyAvailable(t) => quoted(t, "' is already available."),
            Error::NoAvailableBooks => "No available books in the library.".to_owned(),
            Error::EmptyTitleOrAuthor => "Title or author cannot be empty.".to_owned(),
        }
    }
}

/// The outcome of an operation, with its error seen through `ErrorView`.
pub open spec fn outcome(r: Result<(), Error>) -> Result<(), ErrorView> {
    match r {
        Ok(()) => Ok(()),
        Err(e) => Err(e@),
    }
}

/// Some entry of `books` carries exactly the title `t`.
pub open spec fn has_title(books: Seq<BookView>, t: Seq<char>) -> bool {
    exists|i: int| 0 <= i < books.len() && #[trigger] books[i].title == t
}

/// No two entries carry the same title.
pub open spec fn titles_unique(books: Seq<BookView>) -> bool {
    forall|i: int, j: int|
        0 <= i < books.len() && 0 <= j < books.len() && i != j ==> books[i].title != books[j].title
}

/// Adding `(t, a)` to `books`: the catalog after the call and what the call returns.
pub open spec fn add_step(books: Seq<BookView>, t: Seq<char>, a: Seq<char>) -> (Seq<BookView>, Result<(), ErrorView>) {
    if t.len() == 0 || a.len() == 0 {
        (books, Err(ErrorView::EmptyTitleOrAuthor))
    } else if has_title(books, t) {
        (books, Err(ErrorView::BookAlreadyExists(t)))
    } else {
        (books.push(BookView { title: t, author: a, available: true }), Ok(()))
    }
}

/// The first position of `keys` that holds `key`, if any.
pub open spec fn find_first(keys: Seq<Seq<char>>, key: Seq<char>) -> Option<int>
    decreases keys.len(),
{
    if keys.len() == 0 {
        None
    } else {
        match find_first(keys.drop_last(), key) {
            Some(i) => Some(i),
            None => if keys.last() == key {
                Some(keys.len() - 1)
            } else {
                None
            },
        }
    }
}

/// Where `find_first` points, the key is found; where it points nowhere, no
/// position holds the key.
pub proof fn lemma_find_first(keys: Seq<Seq<char>>, key: Seq<char>)
    ensures
        match find_first(keys, key) {
            Some(i) => 0 <= i < keys.len() && keys[i] == key
                && forall|j: int| 0 <= j < i ==> keys[j] != key,
            None => forall|j: int| 0 <= j < keys.len() ==> keys[j] != key,
        },
    decreases keys.len(),
{
    if keys.len() > 0 {
        let prefix = keys.drop_last();
        lemma_find_first(prefix, key);
        assert(forall|j: int| 0 <= j < prefix.len() ==> prefix[j] == keys[j]);
    }
}

/// `books` with the entry at `i` marked available or not.
pub open spec fn with_availability(books: Seq<BookView>, i: int, available: bool) -> Seq<BookView> {
    books.update(i, BookView { available, ..books[i] })
}

/// Borrowing `title` from `books`, where `keys` holds the lookup key of each entry
/// and `key` that of `title`.
pub open spec fn borrow_step(books: Seq<BookView>, keys: Seq<Seq<char>>, key: Seq<char>, title: Seq<char>)
    -> (Seq<BookView>, Result<(), ErrorView>)
{
    match find_first(keys, key) {
        None => (books, Err(ErrorView::BookNotFound(title))),
        Some(i) => if books[i].available {
            (with_availability(books, i, false), Ok(()))
        } else {
            (books, Err(ErrorView::BookNotAvailable(title)))
        },
    }
}

/// Returning `title` to `books`, with lookup keys as in `borrow_step`.
pub open spec fn return_step(books: Seq<BookView>, keys: Seq<Seq<char>>, key: Seq<char>, title: Seq<char>)
    -> (Seq<BookView>, Result<(), ErrorView>)
{
    match find_first(keys, key) {
        None => (books, Err(ErrorView::BookNotFound(title))),
        Some(i) => if !books[i].available {
            (with_availability(books, i, true), Ok(()))
        } else {
            (books, Err(ErrorView::BookAlreadyAvailable(title)))
        },
    }
}

/// The entries that are available, in catalog order.
pub open spec fn available_of(books: Seq<BookView>) -> Seq<BookView> {
    books.filter(|b: BookView| b.available)
}

} // verus!
