//! The interactive edit session and the query helpers around it.

use bookbuddy::edit::EditSession;
use bookbuddy::error::BookError;
use bookbuddy::record::{to_i64, Book};
use bookbuddy::search::first_opt;
use bookbuddy::query::SearchQuery;

#[test]
fn edits_replace_named_fields() {
    let mut session = EditSession::new(Book::new());
    assert_eq!(session.apply("title", "Dune".to_string()), Ok(()));
    assert_eq!(session.apply("language", "eng".to_string()), Ok(()));
    assert_eq!(session.apply("isbn10", "441172717".to_string()), Ok(()));
    assert_eq!(session.apply("page_count", "412".to_string()), Ok(()));
    let book = session.finish();
    assert_eq!(book.title.as_deref(), Some("Dune"));
    assert_eq!(book.language.as_deref(), Some("eng"));
    assert_eq!(book.isbn10, Some(441172717));
    assert_eq!(book.page_count, Some(412));
    assert_eq!(book.authors, None);
}

#[test]
fn authors_edit_replaces_the_whole_list() {
    let mut session = EditSession::new(Book::new());
    assert_eq!(session.apply("authors", "Frank Herbert,Brian Herbert".to_string()), Ok(()));
    assert_eq!(session.apply("authors", "Kevin J. Anderson".to_string()), Ok(()));
    let book = session.finish();
    assert_eq!(book.authors, Some(vec!["Kevin J. Anderson".to_string()]));
}

#[test]
fn numeric_edit_that_does_not_parse_fails_only_that_attempt() {
    let mut session = EditSession::new(Book::new());
    assert_eq!(session.apply("title", "Dune".to_string()), Ok(()));
    assert_eq!(
        session.apply("publish_year", "nineteen sixty-five".to_string()),
        Err(BookError::InvalidFieldValue)
    );
    assert_eq!(session.apply("publish_year", "1965".to_string()), Ok(()));
    let book = session.finish();
    assert_eq!(book.title.as_deref(), Some("Dune"));
    assert_eq!(book.publish_year, Some(1965));
}

#[test]
fn unknown_field_names_are_rejected() {
    let mut session = EditSession::new(Book::new());
    assert_eq!(
        session.apply("publisher", "Chilton Books".to_string()),
        Err(BookError::UnknownField)
    );
    let book = session.finish();
    assert_eq!(book.title, None);
}

#[test]
fn isbn13_edit_parses_signed_integers() {
    let mut session = EditSession::new(Book::new());
    assert_eq!(session.apply("isbn13", "9780441172719".to_string()), Ok(()));
    assert_eq!(
        session.apply("isbn13", "978-0441172719".to_string()),
        Err(BookError::InvalidFieldValue)
    );
    let book = session.finish();
    assert_eq!(book.isbn13, Some(9780441172719));
}

#[test]
fn new_record_starts_unknown_with_equal_stamps() {
    let book = Book::new();
    assert_eq!(book.title, None);
    assert_eq!(book.isbn10, None);
    assert_eq!(book.isbn13, None);
    assert_eq!(book.last_modified, book.created_at);
}

#[test]
fn record_clone_preserves_every_field() {
    let mut book = Book::new();
    book.title = Some("Dune".to_string());
    book.authors = Some(vec!["Frank Herbert".to_string()]);
    book.isbn10 = Some(441172717);
    let copy = book.clone();
    assert_eq!(copy.title, book.title);
    assert_eq!(copy.authors, book.authors);
    assert_eq!(copy.isbn10, book.isbn10);
    assert_eq!(copy.last_modified, book.last_modified);
}

#[test]
fn query_helpers_keep_parameter_order() {
    let q = SearchQuery::new(
        Some("Herbert".to_string()),
        Some("Dune".to_string()),
        Some("eng".to_string()),
        None,
    );
    assert_eq!(q.get_keys(), vec!["author", "title", "lang", "sort"]);
    let flat = q.flatten();
    assert_eq!(flat, vec![Some("Herbert"), Some("Dune"), Some("eng"), None]);
}

#[test]
fn widening_helpers_map_values_through() {
    assert_eq!(to_i64(Some(7)), Some(7i64));
    assert_eq!(to_i64(None), None);
    assert_eq!(first_opt(&Some(vec!["a".to_string(), "b".to_string()])), Some("a".to_string()));
    assert_eq!(first_opt(&Some(vec![])), None);
    assert_eq!(first_opt(&None), None);
}
