//! The catalog edition adapter: turns a per-edition document, together
//! with its already-resolved author names, into a partial book record.
//! Free-text pagination and publish-date fields parse best-effort: a value
//! that is not a plain numeral becomes "unknown" rather than an error.

use vstd::prelude::*;
use crate::error::BookError;
use crate::record::{now_unix_timestamp, Book, BookView};
use crate::search::first_of;
use crate::text::{is_i64_string, is_u32_string, parse_i64, parse_u32, spec_i64_value, spec_u32_value};

verus! {

/// A reference to another catalog document.
#[derive(Debug)]
pub struct Key {
    pub key: Option<String>,
}

/// The mathematical value of a [`Key`].
#[verifier::ext_equal]
pub struct KeyView {
    pub key: Option<Seq<char>>,
}

impl View for Key {
    type V = KeyView;

    open spec fn view(&self) -> KeyView {
        KeyView { key: self.key.deep_view() }
    }
}

impl DeepView for Key {
    type V = KeyView;

    open spec fn deep_view(&self) -> KeyView {
        self.view()
    }
}

/// A creation note attached to an edition document.
#[derive(Debug)]
pub struct Created {
    pub value: Option<String>,
}

/// The mathematical value of a [`Created`].
#[verifier::ext_equal]
pub struct CreatedView {
    pub value: Option<Seq<char>>,
}

impl View for Created {
    type V = CreatedView;

    open spec fn view(&self) -> CreatedView {
        CreatedView { value: self.value.deep_view() }
    }
}

/// One edition document, as the catalog's edition endpoint shapes it.
#[derive(Debug)]
pub struct EditionJson {
    pub authors: Option<Vec<Key>>,
    pub title: Option<String>,
    pub isbn_10: Option<Vec<String>>,
    pub isbn_13: Option<Vec<String>>,
    pub publish_date: Option<String>,
    pub publishers: Option<Vec<String>>,
    pub full_title: Option<String>,
    pub pagination: Option<String>,
    pub works: Option<Vec<Key>>,
    pub key: Option<String>,
    pub created: Option<Created>,
}

/// The mathematical value of an [`EditionJson`].
#[verifier::ext_equal]
pub struct EditionView {
    pub authors: Option<Seq<KeyView>>,
    pub title: Option<Seq<char>>,
    pub isbn_10: Option<Seq<Seq<char>>>,
    pub isbn_13: Option<Seq<Seq<char>>>,
    pub publish_date: Option<Seq<char>>,
    pub publishers: Option<Seq<Seq<char>>>,
    pub full_title: Option<Seq<char>>,
    pub pagination: Option<Seq<char>>,
    pub works: Option<Seq<KeyView>>,
    pub key: Option<Seq<char>>,
    pub created: Option<CreatedView>,
}

impl View for EditionJson {
    type V = EditionView;

    open spec fn view(&self) -> EditionView {
        EditionView {
            authors: self.authors.deep_view(),
            title: self.title.deep_view(),
            isbn_10: self.isbn_10.deep_view(),
            isbn_13: self.isbn_13.deep_view(),
            publish_date: self.publish_date.deep_view(),
            publishers: self.publishers.deep_view(),
            full_title: self.full_title.deep_view(),
            pagination: self.pagination.deep_view(),
            works: self.works.deep_view(),
            key: self.key.deep_view(),
            created: match self.created {
                Some(ref c) => Some(c@),
                None => None,
            },
        }
    }
}

/// A best-effort read of an optional free-text field as a `u32`.
pub open spec fn spec_parse_u32_opt(o: Option<Seq<char>>) -> Option<u32> {
    match o {
        Some(s) => if is_u32_string(s) {
            Some(spec_u32_value(s) as u32)
        } else {
            None
        },
        None => None,
    }
}

/// A best-effort read of the first element of an identifier list.
pub open spec fn spec_first_i64(o: Option<Seq<Seq<char>>>) -> Option<i64> {
    match first_of(o) {
        Some(s) => if is_i64_string(s) {
            Some(spec_i64_value(s) as i64)
        } else {
            None
        },
        None => None,
    }
}

/// Exec mirror of [`spec_parse_u32_opt`].
pub fn parse_u32_opt(o: &Option<String>) -> (r: Option<u32>)
    ensures
        r == spec_parse_u32_opt(o.deep_view()),
{
    match o {
        Some(s) => parse_u32(s.as_str()),
        None => None,
    }
}

/// Exec mirror of [`spec_first_i64`].
pub fn first_i64(o: &Option<Vec<String>>) -> (r: Option<i64>)
    ensures
        r == spec_first_i64(o.deep_view()),
{
    match o {
        Some(v) => {
            if v.len() > 0 {
                parse_i64(v[0].as_str())
            } else {
                None
            }
        },
        None => None,
    }
}

/// Every author fetch came back with a name.
pub open spec fn all_resolved(fetched: Seq<Option<Seq<char>>>) -> bool {
    forall|i: int| 0 <= i < fetched.len() ==> (#[trigger] fetched[i]) is Some
}

/// The names behind a fully-resolved fetch list.
pub open spec fn resolved_names(fetched: Seq<Option<Seq<char>>>) -> Seq<Seq<char>> {
    Seq::new(fetched.len(), |i: int| fetched[i]->0)
}

/// Joins the per-author fetch results all-or-nothing: one missing name
/// fails the whole list, and no partial list is observable.
pub fn collect_author_names(fetched: &Vec<Option<String>>) -> (r: Result<Vec<String>, BookError>)
    ensures
        match r {
            Ok(names) => all_resolved(fetched.deep_view()) && names.deep_view() == resolved_names(
                fetched.deep_view(),
            ),
            Err(e) => !all_resolved(fetched.deep_view()) && e == BookError::SourceUnavailable,
        },
{
    let mut names: Vec<String> = Vec::new();
    let mut i: usize = 0;
    while i < fetched.len()
        invariant
            0 <= i <= fetched.len(),
            names.deep_view().len() == i,
            forall|j: int| 0 <= j < i ==> (#[trigger] fetched.deep_view()[j]) is Some,
            forall|j: int|
                0 <= j < i ==> #[trigger] names.deep_view()[j] == fetched.deep_view()[j]->0,
        decreases fetched.len() - i,
    {
        match &fetched[i] {
            Some(s) => {
                let ghost nv = names.deep_view();
                names.push(s.clone());
                proof {
                    assert(fetched.deep_view()[i as int] == Some(s@));
                    assert(names.deep_view() =~= nv.push(s@));
                }
            },
            None => {
                proof {
                    assert(fetched.deep_view()[i as int] is None);
                }
                return Err(BookError::SourceUnavailable);
            },
        }
        i = i + 1;
    }
    proof {
        assert(names.deep_view() =~= resolved_names(fetched.deep_view()));
    }
    Ok(names)
}

/// The record an edition document maps to, given the resolved author
/// `names`, stamped at `stamp`.
pub open spec fn spec_edition_record(e: EditionView, names: Seq<Seq<char>>, stamp: int) -> BookView {
    BookView {
        title: e.title,
        authors: Some(names),
        cover_url: None,
        cover_path: None,
        page_count: spec_parse_u32_opt(e.pagination),
        description: None,
        first_sentence: None,
        language: None,
        isbn10: spec_first_i64(e.isbn_10),
        isbn13: spec_first_i64(e.isbn_13),
        catalog_key: e.key,
        publish_year: spec_parse_u32_opt(e.publish_date),
        current_page: None,
        finished: None,
        date_started: None,
        last_modified: stamp,
        created_at: stamp,
    }
}

/// Translates an edition document and its resolved author names into a
/// partial record per [`spec_edition_record`], stamping both timestamps
/// with the same current time.
pub fn edition_to_book(edition: EditionJson, authors: Vec<String>) -> (b: Book)
    ensures
        b@.last_modified == b@.created_at,
        b@ == spec_edition_record(edition@, authors.deep_view(), b@.created_at),
{
    let ghost ev = edition@;
    let ghost av = authors.deep_view();
    let page_count = parse_u32_opt(&edition.pagination);
    let publish_year = parse_u32_opt(&edition.publish_date);
    let isbn10 = first_i64(&edition.isbn_10);
    let isbn13 = first_i64(&edition.isbn_13);
    let now = now_unix_timestamp();
    let b = Book {
        title: edition.title,
        authors: Some(authors),
        cover_url: None,
        cover_path: None,
        page_count,
        description: None,
        first_sentence: None,
        language: None,
        isbn10,
        isbn13,
        catalog_key: edition.key,
        publish_year,
        current_page: None,
        finished: None,
        date_started: None,
        last_modified: now,
        created_at: now,
    };
    proof {
        assert(b@ =~= spec_edition_record(ev, av, now as int));
    }
    b
}

} // verus!
