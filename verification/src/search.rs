//! The catalog search adapter: turns one search-hit entry into a partial
//! book record. Multi-valued fields of the source keep only their first
//! element, since record fields are single-valued; an identifier is
//! mandatory on this path, because a hit without one could never be
//! re-imported later.

use vstd::prelude::*;
use vstd::string::StringExecFns;
use crate::error::BookError;
use crate::ident::{classify_isbn, spec_classify, IsbnClass};
use crate::record::{clone_opt_string, clone_opt_vec_string, now_unix_timestamp, Book, BookView};

verus! {

/// One search hit, as the catalog's search endpoint shapes it.
#[derive(Debug)]
pub struct Works {
    pub title: Option<String>,
    pub author_name: Option<Vec<String>>,
    pub first_publish_year: Option<u32>,
    pub cover_edition_key: Option<String>,
    pub key: Option<String>,
    pub language: Option<Vec<String>>,
    pub isbn: Option<Vec<String>>,
    pub edition_key: Option<Vec<String>>,
    pub first_sentence: Option<Vec<String>>,
}

/// The mathematical value of a [`Works`] hit.
#[verifier::ext_equal]
pub struct WorksView {
    pub title: Option<Seq<char>>,
    pub author_name: Option<Seq<Seq<char>>>,
    pub first_publish_year: Option<u32>,
    pub cover_edition_key: Option<Seq<char>>,
    pub key: Option<Seq<char>>,
    pub language: Option<Seq<Seq<char>>>,
    pub isbn: Option<Seq<Seq<char>>>,
    pub edition_key: Option<Seq<Seq<char>>>,
    pub first_sentence: Option<Seq<Seq<char>>>,
}

impl View for Works {
    type V = WorksView;

    open spec fn view(&self) -> WorksView {
        WorksView {
            title: self.title.deep_view(),
            author_name: self.author_name.deep_view(),
            first_publish_year: self.first_publish_year,
            cover_edition_key: self.cover_edition_key.deep_view(),
            key: self.key.deep_view(),
            language: self.language.deep_view(),
            isbn: self.isbn.deep_view(),
            edition_key: self.edition_key.deep_view(),
            first_sentence: self.first_sentence.deep_view(),
        }
    }
}

impl DeepView for Works {
    type V = WorksView;

    open spec fn deep_view(&self) -> WorksView {
        self.view()
    }
}

/// The first element of a multi-valued source field, when there is one.
pub open spec fn first_of(o: Option<Seq<Seq<char>>>) -> Option<Seq<char>> {
    match o {
        Some(l) => if l.len() > 0 {
            Some(l[0])
        } else {
            None
        },
        None => None,
    }
}

/// Clones the first element of a multi-valued field.
pub fn first_opt(o: &Option<Vec<String>>) -> (r: Option<String>)
    ensures
        r.deep_view() == first_of(o.deep_view()),
{
    match o {
        Some(v) => {
            if v.len() > 0 {
                Some(v[0].clone())
            } else {
                None
            }
        },
        None => None,
    }
}

/// The derived cover-image location for a cover edition key.
pub open spec fn spec_cover_url(k: Seq<char>) -> Seq<char> {
    "https://covers.openlibrary.org/b/olid/"@ + k + "-M.jpg"@
}

/// The record a search hit maps to, once its identifier classified as a
/// ten-digit (`i10`) or thirteen-digit (`i13`) key, stamped at `stamp`.
pub open spec fn search_record(
    w: WorksView,
    i10: Option<i64>,
    i13: Option<i64>,
    stamp: int,
) -> BookView {
    BookView {
        title: w.title,
        authors: w.author_name,
        cover_url: match w.cover_edition_key {
            Some(k) => Some(spec_cover_url(k)),
            None => None,
        },
        cover_path: None,
        page_count: None,
        description: None,
        first_sentence: first_of(w.first_sentence),
        language: first_of(w.language),
        isbn10: i10,
        isbn13: i13,
        catalog_key: w.key,
        publish_year: w.first_publish_year,
        current_page: None,
        finished: None,
        date_started: None,
        last_modified: stamp,
        created_at: stamp,
    }
}

/// What [`Works::to_book`] yields: the first listed identifier is
/// classified; a missing or empty identifier list, and one that classifies
/// as unrecognized, fail with `MissingIdentifier`; a malformed identifier
/// fails with `MalformedIdentifier`; otherwise the partial record carries
/// the hit's fields.
pub open spec fn spec_to_book(w: WorksView, stamp: int) -> Result<BookView, BookError> {
    match first_of(w.isbn) {
        None => Err(BookError::MissingIdentifier),
        Some(s) => match spec_classify(s) {
            Err(e) => Err(e),
            Ok(IsbnClass::Unrecognized) => Err(BookError::MissingIdentifier),
            Ok(IsbnClass::Isbn10(v)) => Ok(search_record(w, Some(v), None, stamp)),
            Ok(IsbnClass::Isbn13(v)) => Ok(search_record(w, None, Some(v), stamp)),
        },
    }
}

impl Works {
    /// The derived cover-image location, of the fixed form
    /// `https://covers.openlibrary.org/b/olid/{key}-M.jpg`, when the hit
    /// carries a cover edition key.
    pub fn get_cover_image(&self) -> (r: Result<String, BookError>)
        ensures
            match r {
                Ok(u) => self@.cover_edition_key is Some && u@ == spec_cover_url(
                    self@.cover_edition_key->0,
                ),
                Err(e) => self@.cover_edition_key is None && e == BookError::MissingIdentifier,
            },
    {
        match &self.cover_edition_key {
            Some(k) => {
                let mut u = String::from_str("https://covers.openlibrary.org/b/olid/");
                u.append(k.as_str());
                u.append("-M.jpg");
                Ok(u)
            },
            None => Err(BookError::MissingIdentifier),
        }
    }

    /// Translates this hit into a partial record per [`spec_to_book`],
    /// stamping both timestamps with the same current time.
    pub fn to_book(&self) -> (r: Result<Book, BookError>)
        ensures
            match r {
                Ok(b) => b@.last_modified == b@.created_at && spec_to_book(self@, b@.created_at)
                    == Ok::<BookView, BookError>(b@),
                Err(e) => spec_to_book(self@, 0) == Err::<BookView, BookError>(e),
            },
    {
        let s = match first_opt(&self.isbn) {
            Some(s) => s,
            None => {
                return Err(BookError::MissingIdentifier);
            },
        };
        let class = match classify_isbn(s.as_str()) {
            Ok(c) => c,
            Err(e) => {
                return Err(e);
            },
        };
        let (isbn10, isbn13) = match class {
            IsbnClass::Isbn10(v) => (Some(v), None),
            IsbnClass::Isbn13(v) => (None, Some(v)),
            IsbnClass::Unrecognized => {
                return Err(BookError::MissingIdentifier);
            },
        };
        let cover_url = match self.get_cover_image() {
            Ok(u) => Some(u),
            Err(_) => None,
        };
        let now = now_unix_timestamp();
        let b = Book {
            title: clone_opt_string(&self.title),
            authors: clone_opt_vec_string(&self.author_name),
            cover_url,
            cover_path: None,
            page_count: None,
            description: None,
            first_sentence: first_opt(&self.first_sentence),
            language: first_opt(&self.language),
            isbn10,
            isbn13,
            catalog_key: clone_opt_string(&self.key),
            publish_year: self.first_publish_year,
            current_page: None,
            finished: None,
            date_started: None,
            last_modified: now,
            created_at: now,
        };
        proof {
            assert(b@ =~= spec_to_book(self@, now as int)->Ok_0);
        }
        Ok(b)
    }
}

/// The catalog's reply to a search: the list of hits, when it has any.
#[derive(Debug)]
pub struct SearchResp {
    pub num_found: Option<u32>,
    pub q: Option<String>,
    pub docs: Option<Vec<Works>>,
}

/// The mathematical value of a [`SearchResp`].
#[verifier::ext_equal]
pub struct SearchRespView {
    pub num_found: Option<u32>,
    pub q: Option<Seq<char>>,
    pub docs: Option<Seq<WorksView>>,
}

impl View for SearchResp {
    type V = SearchRespView;

    open spec fn view(&self) -> SearchRespView {
        SearchRespView {
            num_found: self.num_found,
            q: self.q.deep_view(),
            docs: self.docs.deep_view(),
        }
    }
}

impl SearchResp {
    /// The hit list; a reply without one is structurally unreadable.
    pub fn get_works(&self) -> (r: Result<&Vec<Works>, BookError>)
        ensures
            match r {
                Ok(v) => self@.docs == Some(v.deep_view()),
                Err(e) => self@.docs is None && e == BookError::SourceUnavailable,
            },
    {
        match &self.docs {
            Some(v) => Ok(v),
            None => Err(BookError::SourceUnavailable),
        }
    }

    /// The `i`-th hit; an index past the list is a caller input problem.
    pub fn get_work(&self, i: usize) -> (r: Result<&Works, BookError>)
        ensures
            match r {
                Ok(w) => {
                    &&& self@.docs is Some
                    &&& i < self@.docs->0.len()
                    &&& w@ == self@.docs->0[i as int]
                },
                Err(e) => {
                    ||| (self@.docs is None && e == BookError::SourceUnavailable)
                    ||| (self@.docs is Some && i >= self@.docs->0.len() && e
                        == BookError::InvalidFieldValue)
                },
            },
    {
        let v = match self.get_works() {
            Ok(v) => v,
            Err(e) => {
                return Err(e);
            },
        };
        if i < v.len() {
            Ok(&v[i])
        } else {
            Err(BookError::InvalidFieldValue)
        }
    }
}

} // verus!
