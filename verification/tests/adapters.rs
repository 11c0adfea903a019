//! The three source adapters: catalog search hits, catalog edition
//! documents, and e-book container metadata.

use bookbuddy::ebook::{read_epub_to_book, MetaEntry};
use bookbuddy::edition::{collect_author_names, edition_to_book, Created, EditionJson, Key};
use bookbuddy::error::BookError;
use bookbuddy::search::{SearchResp, Works};

fn sample_hit() -> Works {
    Works {
        title: Some("A Wizard of Earthsea".to_string()),
        author_name: Some(vec!["Ursula K. Le Guin".to_string()]),
        first_publish_year: Some(1968),
        cover_edition_key: Some("OL123M".to_string()),
        key: Some("/works/OL45883W".to_string()),
        language: Some(vec!["eng".to_string(), "ger".to_string()]),
        isbn: Some(vec!["0395276535".to_string(), "9780395276532".to_string()]),
        edition_key: Some(vec!["OL123M".to_string()]),
        first_sentence: Some(vec![
            "The island of Gont is a land famous for wizards.".to_string(),
        ]),
    }
}

fn sample_edition() -> EditionJson {
    EditionJson {
        authors: Some(vec![Key { key: Some("/authors/OL31353A".to_string()) }]),
        title: Some("A Wizard of Earthsea".to_string()),
        isbn_10: Some(vec!["0395276535".to_string()]),
        isbn_13: Some(vec!["9780395276532".to_string()]),
        publish_date: Some("1968".to_string()),
        publishers: Some(vec!["Parnassus Press".to_string()]),
        full_title: None,
        pagination: Some("183".to_string()),
        works: Some(vec![Key { key: Some("/works/OL45883W".to_string()) }]),
        key: Some("/books/OL123M".to_string()),
        created: Some(Created { value: None }),
    }
}

#[test]
fn search_hit_maps_to_partial_record() {
    let book = sample_hit().to_book().unwrap();
    assert_eq!(book.title.as_deref(), Some("A Wizard of Earthsea"));
    assert_eq!(book.authors, Some(vec!["Ursula K. Le Guin".to_string()]));
    assert_eq!(book.isbn10, Some(395276535));
    assert_eq!(book.isbn13, None);
    assert_eq!(
        book.cover_url.as_deref(),
        Some("https://covers.openlibrary.org/b/olid/OL123M-M.jpg")
    );
    assert_eq!(book.language.as_deref(), Some("eng"));
    assert_eq!(
        book.first_sentence.as_deref(),
        Some("The island of Gont is a land famous for wizards.")
    );
    assert_eq!(book.catalog_key.as_deref(), Some("/works/OL45883W"));
    assert_eq!(book.publish_year, Some(1968));
    assert_eq!(book.page_count, None);
    assert_eq!(book.cover_path, None);
    assert_eq!(book.last_modified, book.created_at);
}

#[test]
fn search_hit_with_empty_isbn_list_fails_missing_identifier() {
    let mut hit = sample_hit();
    hit.isbn = Some(vec![]);
    assert_eq!(hit.to_book().unwrap_err(), BookError::MissingIdentifier);
    hit.isbn = None;
    assert_eq!(hit.to_book().unwrap_err(), BookError::MissingIdentifier);
}

#[test]
fn search_hit_with_unclassifiable_isbn_fails_missing_identifier() {
    let mut hit = sample_hit();
    hit.isbn = Some(vec!["12345".to_string()]);
    assert_eq!(hit.to_book().unwrap_err(), BookError::MissingIdentifier);
}

#[test]
fn search_hit_with_malformed_isbn_fails_malformed_identifier() {
    let mut hit = sample_hit();
    hit.isbn = Some(vec!["123456789X".to_string()]);
    assert_eq!(hit.to_book().unwrap_err(), BookError::MalformedIdentifier);
}

#[test]
fn cover_image_needs_a_cover_edition_key() {
    let mut hit = sample_hit();
    assert_eq!(
        hit.get_cover_image().unwrap(),
        "https://covers.openlibrary.org/b/olid/OL123M-M.jpg"
    );
    hit.cover_edition_key = None;
    assert_eq!(hit.get_cover_image().unwrap_err(), BookError::MissingIdentifier);
    let book = hit.to_book().unwrap();
    assert_eq!(book.cover_url, None);
}

#[test]
fn search_response_without_docs_is_unreadable() {
    let resp = SearchResp { num_found: Some(0), q: None, docs: None };
    assert_eq!(resp.get_works().unwrap_err(), BookError::SourceUnavailable);
    assert_eq!(resp.get_work(0).unwrap_err(), BookError::SourceUnavailable);
}

#[test]
fn search_response_indexing_is_bounded() {
    let resp = SearchResp { num_found: Some(1), q: None, docs: Some(vec![sample_hit()]) };
    assert_eq!(resp.get_works().unwrap().len(), 1);
    assert!(resp.get_work(0).is_ok());
    assert_eq!(resp.get_work(1).unwrap_err(), BookError::InvalidFieldValue);
}

#[test]
fn edition_maps_with_best_effort_numerals() {
    let book = edition_to_book(sample_edition(), vec!["Ursula K. Le Guin".to_string()]);
    assert_eq!(book.title.as_deref(), Some("A Wizard of Earthsea"));
    assert_eq!(book.authors, Some(vec!["Ursula K. Le Guin".to_string()]));
    assert_eq!(book.page_count, Some(183));
    assert_eq!(book.publish_year, Some(1968));
    assert_eq!(book.isbn10, Some(395276535));
    assert_eq!(book.isbn13, Some(9780395276532));
    assert_eq!(book.catalog_key.as_deref(), Some("/books/OL123M"));
    assert_eq!(book.language, None);
    assert_eq!(book.last_modified, book.created_at);
}

#[test]
fn edition_free_text_numerals_become_unknown() {
    let mut ed = sample_edition();
    ed.pagination = Some("xii, 336 p.".to_string());
    ed.publish_date = Some("June 1968".to_string());
    let book = edition_to_book(ed, vec![]);
    assert_eq!(book.page_count, None);
    assert_eq!(book.publish_year, None);
}

#[test]
fn author_resolution_is_all_or_nothing() {
    let ok = collect_author_names(&vec![Some("A".to_string()), Some("B".to_string())]);
    assert_eq!(ok.unwrap(), vec!["A".to_string(), "B".to_string()]);
    let bad = collect_author_names(&vec![Some("A".to_string()), None]);
    assert_eq!(bad.unwrap_err(), BookError::SourceUnavailable);
}

fn entry(key: &str, values: &[&str]) -> MetaEntry {
    MetaEntry {
        key: key.to_string(),
        values: values.iter().map(|v| v.to_string()).collect(),
    }
}

#[test]
fn ebook_metadata_maps_recognized_keys() {
    let meta = vec![
        entry("creator", &["Ursula K. Le Guin", "Another"]),
        entry("identifier", &["97803", "95276532"]),
        entry("title", &["A Wizard of Earthsea"]),
        entry("language", &["en"]),
        entry("description", &["A boy becomes a wizard."]),
        entry("publisher", &["ignored"]),
    ];
    let (book, ident) = read_epub_to_book(&meta).unwrap();
    assert_eq!(ident, Some(9780395276532));
    assert_eq!(
        book.authors,
        Some(vec!["Ursula K. Le Guin".to_string(), "Another".to_string()])
    );
    assert_eq!(book.title.as_deref(), Some("A Wizard of Earthsea"));
    assert_eq!(book.language.as_deref(), Some("en"));
    assert_eq!(book.description.as_deref(), Some("A boy becomes a wizard."));
    assert_eq!(book.isbn10, None);
    assert_eq!(book.isbn13, None);
    assert_eq!(book.last_modified, book.created_at);
}

#[test]
fn ebook_without_identifier_still_imports() {
    let meta = vec![entry("title", &["Nameless"])];
    let (book, ident) = read_epub_to_book(&meta).unwrap();
    assert_eq!(ident, None);
    assert_eq!(book.title.as_deref(), Some("Nameless"));
}

#[test]
fn ebook_unparsable_identifier_is_fatal() {
    let meta = vec![
        entry("title", &["Broken"]),
        entry("identifier", &["urn:isbn:9780395276532"]),
    ];
    assert_eq!(read_epub_to_book(&meta).unwrap_err(), BookError::MalformedIdentifier);
}

#[test]
fn ebook_later_entries_overwrite_earlier_ones() {
    let meta = vec![
        entry("title", &["First"]),
        entry("title", &["Second"]),
    ];
    let (book, _) = read_epub_to_book(&meta).unwrap();
    assert_eq!(book.title.as_deref(), Some("Second"));
}
