use library_cli::library::position_of;
use library_cli::{Borrowable, Error, Library};

fn titles_of(library: &Library) -> Vec<String> {
    match library.list_available_books() {
        Ok(books) => books.iter().map(|b| b.title().to_string()).collect(),
        Err(_) => Vec::new(),
    }
}

#[test]
fn distinct_adds_all_available() {
    let mut library = Library::new();
    let pairs = [("Dune", "Herbert"), ("Emma", "Austen"), ("Ulysses", "Joyce")];
    for (t, a) in pairs.iter() {
        assert_eq!(library.add_book(t, a), Ok(()));
    }
    assert!(!library.is_library_empty());
    let listed = library.list_available_books().unwrap();
    assert_eq!(listed.len(), 3);
    assert!(listed.iter().all(|b| b.is_available()));
    assert_eq!(titles_of(&library), vec!["Dune", "Emma", "Ulysses"]);
}

#[test]
fn same_title_twice_is_refused() {
    let mut library = Library::new();
    assert_eq!(library.add_book("Dune", "Herbert"), Ok(()));
    assert_eq!(
        library.add_book("Dune", "Someone Else"),
        Err(Error::BookAlreadyExists("Dune".to_string()))
    );
    assert_eq!(library.list_available_books().unwrap().len(), 1);
}

#[test]
fn titles_differing_in_case_may_both_be_added() {
    let mut library = Library::new();
    assert_eq!(library.add_book("Dune", "Herbert"), Ok(()));
    assert_eq!(library.add_book("DUNE", "Herbert"), Ok(()));
    assert_eq!(titles_of(&library), vec!["Dune", "DUNE"]);
    // The first match in catalog order is the one lent.
    assert_eq!(library.borrow_item("dune"), Ok(()));
    assert_eq!(titles_of(&library), vec!["DUNE"]);
}

#[test]
fn empty_title_or_author_is_refused() {
    let mut library = Library::new();
    assert_eq!(library.add_book("", "Herbert"), Err(Error::EmptyTitleOrAuthor));
    assert_eq!(library.add_book("Dune", ""), Err(Error::EmptyTitleOrAuthor));
    assert_eq!(library.add_book("", ""), Err(Error::EmptyTitleOrAuthor));
    assert!(library.is_library_empty());
}

#[test]
fn borrow_then_return_restores_availability() {
    let mut library = Library::new();
    library.add_book("Dune", "Herbert").unwrap();
    assert_eq!(library.borrow_item("Dune"), Ok(()));
    assert_eq!(library.return_borrowed_item("Dune"), Ok(()));
    let listed = library.list_available_books().unwrap();
    assert_eq!(listed.len(), 1);
    assert!(listed[0].is_available());
    assert_eq!(
        library.return_borrowed_item("Dune"),
        Err(Error::BookAlreadyAvailable("Dune".to_string()))
    );
}

#[test]
fn borrow_ignores_case() {
    let mut library = Library::new();
    library.add_book("Dune", "Herbert").unwrap();
    assert_eq!(library.borrow_item("dune"), Ok(()));
    assert_eq!(library.list_available_books().err(), Some(Error::NoAvailableBooks));
}

#[test]
fn borrow_missing_or_lent_title_fails() {
    let mut library = Library::new();
    library.add_book("Dune", "Herbert").unwrap();
    assert_eq!(library.borrow_item("Emma"), Err(Error::BookNotFound("Emma".to_string())));
    assert_eq!(library.borrow_item("Dune"), Ok(()));
    assert_eq!(library.borrow_item("DUNE"), Err(Error::BookNotAvailable("DUNE".to_string())));
}

#[test]
fn return_missing_title_fails() {
    let mut library = Library::new();
    assert_eq!(
        library.return_borrowed_item("Emma"),
        Err(Error::BookNotFound("Emma".to_string()))
    );
}

#[test]
fn list_on_empty_or_all_lent_fails() {
    let mut library = Library::new();
    assert_eq!(library.list_available_books().err(), Some(Error::NoAvailableBooks));
    library.add_book("Dune", "Herbert").unwrap();
    library.add_book("Emma", "Austen").unwrap();
    library.borrow_item("Dune").unwrap();
    library.borrow_item("Emma").unwrap();
    assert_eq!(library.list_available_books().err(), Some(Error::NoAvailableBooks));
}

#[test]
fn list_keeps_insertion_order() {
    let mut library = Library::new();
    for (t, a) in [("C", "c"), ("A", "a"), ("B", "b"), ("D", "d")].iter() {
        library.add_book(t, a).unwrap();
    }
    library.borrow_item("a").unwrap();
    assert_eq!(titles_of(&library), vec!["C", "B", "D"]);
    library.return_borrowed_item("A").unwrap();
    assert_eq!(titles_of(&library), vec!["C", "A", "B", "D"]);
}

#[test]
fn dune_scenario() {
    let mut library = Library::new();
    assert_eq!(library.add_book("Dune", "Herbert"), Ok(()));
    assert_eq!(
        library.add_book("Dune", "Herbert"),
        Err(Error::BookAlreadyExists("Dune".to_string()))
    );
    assert_eq!(library.borrow_item("dune"), Ok(()));
    assert_eq!(library.list_available_books().err(), Some(Error::NoAvailableBooks));
    assert_eq!(library.return_borrowed_item("DUNE"), Ok(()));
    let listed = library.list_available_books().unwrap();
    assert_eq!(listed.len(), 1);
    assert_eq!(listed[0].title(), "Dune");
    assert_eq!(listed[0].author(), "Herbert");
    assert!(listed[0].is_available());
}

#[test]
fn trait_methods_act_like_inherent_ones() {
    let mut library = Library::new();
    library.add_book("Dune", "Herbert").unwrap();
    assert_eq!(Borrowable::borrow_item(&mut library, "DUNE"), Ok(()));
    assert_eq!(
        Borrowable::borrow_item(&mut library, "Dune"),
        Err(Error::BookNotAvailable("Dune".to_string()))
    );
    assert_eq!(Borrowable::return_borrowed_item(&mut library, "dune"), Ok(()));
}

#[test]
fn book_line_shows_state() {
    let mut library = Library::new();
    library.add_book("Dune", "Herbert").unwrap();
    library.add_book("Emma", "Austen").unwrap();
    library.borrow_item("Emma").unwrap();
    let listed = library.list_available_books().unwrap();
    assert_eq!(listed[0].to_string(), "Dune by Herbert - Available");
    library.return_borrowed_item("Emma").unwrap();
    library.borrow_item("Dune").unwrap();
    let listed = library.list_available_books().unwrap();
    assert_eq!(listed[0].to_string(), "Emma by Austen - Available");
}

#[test]
fn error_sentences() {
    let t = "Dune".to_string();
    assert_eq!(Error::BookNotFound(t.clone()).to_string(), "Book 'Dune' not found.");
    assert_eq!(Error::BookNotAvailable(t.clone()).to_string(), "Book 'Dune' is not available.");
    assert_eq!(Error::BookAlreadyExists(t.clone()).to_string(), "Book 'Dune' already exists.");
    assert_eq!(
        Error::BookAlreadyAvailable(t).to_string(),
        "Book 'Dune' is already available."
    );
    assert_eq!(Error::NoAvailableBooks.to_string(), "No available books in the library.");
    assert_eq!(Error::EmptyTitleOrAuthor.to_string(), "Title or author cannot be empty.");
}

#[test]
fn position_of_finds_first_match() {
    let keys: Vec<String> = vec!["emma".to_string(), "dune".to_string(), "dune".to_string()];
    assert_eq!(position_of(&keys, &"dune".to_string()), Some(1));
    assert_eq!(position_of(&keys, &"emma".to_string()), Some(0));
    assert_eq!(position_of(&keys, &"ulysses".to_string()), None);
    assert_eq!(position_of(&Vec::new(), &"dune".to_string()), None);
}

#[test]
fn lending_by_given_keys() {
    let mut library = Library::new();
    library.add_book("Dune", "Herbert").unwrap();
    library.add_book("Emma", "Austen").unwrap();
    let keys: Vec<String> = vec!["x".to_string(), "y".to_string()];
    assert_eq!(library.borrow_by_key(&keys, &"y".to_string(), "Y"), Ok(()));
    assert_eq!(titles_of(&library), vec!["Dune"]);
    assert_eq!(
        library.borrow_by_key(&keys, &"y".to_string(), "Y"),
        Err(Error::BookNotAvailable("Y".to_string()))
    );
    assert_eq!(
        library.borrow_by_key(&keys, &"z".to_string(), "Z"),
        Err(Error::BookNotFound("Z".to_string()))
    );
    assert_eq!(
        library.return_by_key(&keys, &"x".to_string(), "X"),
        Err(Error::BookAlreadyAvailable("X".to_string()))
    );
    assert_eq!(library.return_by_key(&keys, &"y".to_string(), "Y"), Ok(()));
    assert_eq!(titles_of(&library), vec!["Dune", "Emma"]);
}
