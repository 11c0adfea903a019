//! The record store: upsert reconciliation, ordered reads and deletion.

use bookbuddy::error::BookError;
use bookbuddy::record::Book;
use bookbuddy::store::{RemoveOutcome, Store};

fn empty_at(stamp: i64) -> Book {
    Book {
        title: None,
        authors: None,
        cover_url: None,
        cover_path: None,
        page_count: None,
        description: None,
        first_sentence: None,
        language: None,
        isbn10: None,
        isbn13: None,
        catalog_key: None,
        publish_year: None,
        current_page: None,
        finished: None,
        date_started: None,
        last_modified: stamp,
        created_at: stamp,
    }
}

fn full_record(stamp: i64) -> Book {
    Book {
        title: Some("A Deepness in the Sky".to_string()),
        authors: Some(vec!["Vernor Vinge".to_string()]),
        cover_url: Some("https://covers.openlibrary.org/b/olid/OL24TM-M.jpg".to_string()),
        cover_path: Some("covers/OL24TM-M.jpg".to_string()),
        page_count: Some(775),
        description: Some("Space opera".to_string()),
        first_sentence: Some("The manhunt extended across more than one hundred light-years.".to_string()),
        language: Some("eng".to_string()),
        isbn10: Some(812536355),
        isbn13: Some(9780812536355),
        catalog_key: Some("/works/OL24TM".to_string()),
        publish_year: Some(1999),
        current_page: Some(10),
        finished: Some(false),
        date_started: Some(20240101),
        last_modified: stamp,
        created_at: stamp,
    }
}

#[test]
fn upsert_same_record_twice_keeps_one_row() {
    let mut store = Store::new();
    let first = full_record(100);
    let second = full_record(200);
    assert_eq!(store.upsert(first), Ok(()));
    assert_eq!(store.upsert(second), Ok(()));
    assert_eq!(store.len(), 1);
    let rows = store.list_recent(10);
    assert_eq!(rows.len(), 1);
    let row = &rows[0];
    assert_eq!(row.title.as_deref(), Some("A Deepness in the Sky"));
    assert_eq!(row.page_count, Some(775));
    assert_eq!(row.created_at, 100);
    assert_eq!(row.last_modified, 200);
}

#[test]
fn merge_preserves_stored_description_when_incoming_is_silent() {
    let mut store = Store::new();
    let mut stored = empty_at(10);
    stored.isbn10 = Some(1111111111);
    stored.description = Some("D1".to_string());
    assert_eq!(store.upsert(stored), Ok(()));

    let mut incoming = empty_at(20);
    incoming.isbn10 = Some(1111111111);
    incoming.title = Some("New Title".to_string());
    assert_eq!(store.upsert(incoming), Ok(()));

    let rows = store.list_recent(10);
    assert_eq!(rows.len(), 1);
    assert_eq!(rows[0].description.as_deref(), Some("D1"));
    assert_eq!(rows[0].title.as_deref(), Some("New Title"));
    assert_eq!(rows[0].created_at, 10);
    assert_eq!(rows[0].last_modified, 20);
}

#[test]
fn record_with_only_isbn13_does_not_touch_isbn10_only_row() {
    let mut store = Store::new();
    let mut a = empty_at(10);
    a.isbn10 = Some(1111111111);
    a.title = Some("Same Title".to_string());
    assert_eq!(store.upsert(a), Ok(()));

    let mut b = empty_at(10);
    b.isbn13 = Some(9781111111112);
    b.title = Some("Same Title".to_string());
    assert_eq!(store.upsert(b), Ok(()));

    assert_eq!(store.len(), 2);
    let rows = store.list_recent(10);
    let isbn10_row = rows.iter().find(|r| r.isbn10.is_some()).unwrap();
    assert_eq!(isbn10_row.isbn10, Some(1111111111));
    assert_eq!(isbn10_row.isbn13, None);
    assert_eq!(isbn10_row.title.as_deref(), Some("Same Title"));
}

#[test]
fn list_recent_three_of_five_in_descending_order() {
    let mut store = Store::new();
    for (i, stamp) in [30i64, 10, 50, 20, 40].iter().enumerate() {
        let mut b = empty_at(*stamp);
        b.isbn10 = Some(1000000000 + i as i64);
        b.title = Some(format!("t{}", stamp));
        assert_eq!(store.upsert(b), Ok(()));
    }
    let rows = store.list_recent(3);
    let stamps: Vec<i64> = rows.iter().map(|r| r.last_modified).collect();
    assert_eq!(stamps, vec![50, 40, 30]);
}

#[test]
fn list_recent_limit_zero_or_negative_is_empty() {
    let mut store = Store::new();
    let mut b = empty_at(10);
    b.isbn10 = Some(1234567890);
    assert_eq!(store.upsert(b), Ok(()));
    assert!(store.list_recent(0).is_empty());
    assert!(store.list_recent(-5).is_empty());
    assert_eq!(store.list_recent(100).len(), 1);
}

#[test]
fn remove_by_isbn10_leaves_isbn13_rows_untouched() {
    let mut store = Store::new();
    let mut a = empty_at(10);
    a.isbn10 = Some(1111111111);
    a.cover_path = Some("covers/a.jpg".to_string());
    assert_eq!(store.upsert(a), Ok(()));

    let mut b = empty_at(20);
    b.isbn13 = Some(9782222222222);
    assert_eq!(store.upsert(b), Ok(()));

    let mut doomed = empty_at(30);
    doomed.isbn10 = Some(1111111111);
    doomed.cover_path = Some("covers/a.jpg".to_string());
    assert_eq!(store.remove(&doomed), RemoveOutcome::ByIsbn10(true));

    assert_eq!(store.len(), 1);
    let rows = store.list_recent(10);
    assert_eq!(rows[0].isbn13, Some(9782222222222));
}

#[test]
fn remove_prefers_isbn10_when_record_carries_both() {
    let mut store = Store::new();
    let mut a = empty_at(10);
    a.isbn10 = Some(1111111111);
    assert_eq!(store.upsert(a), Ok(()));
    let mut b = empty_at(20);
    b.isbn13 = Some(9782222222222);
    assert_eq!(store.upsert(b), Ok(()));

    let mut req = empty_at(30);
    req.isbn10 = Some(1111111111);
    req.isbn13 = Some(9782222222222);
    assert_eq!(store.remove(&req), RemoveOutcome::ByIsbn10(true));
    assert_eq!(store.len(), 1);
    assert_eq!(store.list_recent(10)[0].isbn13, Some(9782222222222));
}

#[test]
fn remove_without_identifier_is_a_reported_no_op() {
    let mut store = Store::new();
    let mut a = empty_at(10);
    a.isbn10 = Some(1111111111);
    assert_eq!(store.upsert(a), Ok(()));
    let ghostless = empty_at(20);
    assert_eq!(store.remove(&ghostless), RemoveOutcome::NoIdentifier);
    assert_eq!(store.len(), 1);
}

#[test]
fn remove_missing_key_reports_no_match() {
    let mut store = Store::new();
    let mut req = empty_at(10);
    req.isbn10 = Some(4040404040);
    assert_eq!(store.remove(&req), RemoveOutcome::ByIsbn10(false));
}

#[test]
fn scenario_title_revision_keeps_page_count() {
    let mut store = Store::new();
    let mut first = empty_at(100);
    first.isbn10 = Some(1234567890);
    first.title = Some("A".to_string());
    first.page_count = Some(100);
    assert_eq!(store.upsert(first), Ok(()));

    let mut second = empty_at(200);
    second.isbn10 = Some(1234567890);
    second.title = Some("A Revised".to_string());
    assert_eq!(store.upsert(second), Ok(()));

    let rows = store.list_recent(10);
    assert_eq!(rows.len(), 1);
    assert_eq!(rows[0].title.as_deref(), Some("A Revised"));
    assert_eq!(rows[0].page_count, Some(100));
}

#[test]
fn upsert_breaking_the_other_key_fails_and_changes_nothing() {
    let mut store = Store::new();
    let mut a = empty_at(10);
    a.isbn10 = Some(1111111111);
    a.isbn13 = Some(9781111111112);
    assert_eq!(store.upsert(a), Ok(()));

    let mut b = empty_at(20);
    b.isbn10 = Some(3333333333);
    b.isbn13 = Some(9781111111112);
    assert_eq!(store.upsert(b), Err(BookError::PersistenceError));

    assert_eq!(store.len(), 1);
    let rows = store.list_recent(10);
    assert_eq!(rows[0].isbn10, Some(1111111111));
    assert_eq!(rows[0].last_modified, 10);
}

#[test]
fn merge_stealing_another_rows_key_fails() {
    let mut store = Store::new();
    let mut a = empty_at(10);
    a.isbn10 = Some(1111111111);
    a.isbn13 = Some(9781111111112);
    assert_eq!(store.upsert(a), Ok(()));
    let mut b = empty_at(20);
    b.isbn10 = Some(3333333333);
    b.isbn13 = Some(9783333333334);
    assert_eq!(store.upsert(b), Ok(()));

    // Updating the first row must not hand it the second row's other key.
    let mut thief = empty_at(30);
    thief.isbn10 = Some(1111111111);
    thief.isbn13 = Some(9783333333334);
    assert_eq!(store.upsert(thief), Err(BookError::PersistenceError));
    assert_eq!(store.len(), 2);
    let rows = store.list_recent(10);
    assert!(rows.iter().all(|r| r.last_modified != 30));
}

#[test]
fn records_without_identifiers_insert_as_duplicates() {
    let mut store = Store::new();
    let mut a = empty_at(10);
    a.title = Some("unaddressable".to_string());
    let b = a.clone();
    assert_eq!(store.upsert(a), Ok(()));
    assert_eq!(store.upsert(b), Ok(()));
    assert_eq!(store.len(), 2);
}
