//! The interactive edit session: applies a sequence of user-supplied
//! named-field edits to an in-memory record before it reaches the store.
//! A failed edit attempt is recoverable — the caller may retry — and never
//! fails the session as a whole.

use vstd::prelude::*;
use crate::error::BookError;
use crate::record::{now_unix_timestamp, Book, BookView};
use crate::text::{
    is_i64_string, is_u32_string, parse_i64, parse_u32, spec_i64_value, spec_split_commas,
    spec_u32_value, split_commas, str_eq,
};

verus! {

/// `rec` re-stamped at `stamp`, every other field unchanged. Every edit
/// attempt, successful or not, re-stamps the record it touched.
pub open spec fn stamped(rec: BookView, stamp: int) -> BookView {
    BookView { last_modified: stamp, ..rec }
}

/// What one edit does to a record: the named field is replaced by the
/// supplied value and `last_modified` becomes `stamp`. String fields take
/// the value as given; `authors` is replaced wholesale by the value split
/// at commas; the identifier and numeric fields parse their value, and a
/// value that does not parse fails the attempt with `InvalidFieldValue`.
/// A name outside the editable set fails it with `UnknownField`; either
/// failure leaves every field but the stamp unchanged.
pub open spec fn spec_apply(
    rec: BookView,
    field: Seq<char>,
    value: Seq<char>,
    stamp: int,
) -> Result<BookView, BookError> {
    let base = stamped(rec, stamp);
    if field == "title"@ {
        Ok(BookView { title: Some(value), ..base })
    } else if field == "authors"@ {
        Ok(BookView { authors: Some(spec_split_commas(value)), ..base })
    } else if field == "cover_path"@ {
        Ok(BookView { cover_path: Some(value), ..base })
    } else if field == "cover_url"@ {
        Ok(BookView { cover_url: Some(value), ..base })
    } else if field == "description"@ {
        Ok(BookView { description: Some(value), ..base })
    } else if field == "first_sentence"@ {
        Ok(BookView { first_sentence: Some(value), ..base })
    } else if field == "language"@ {
        Ok(BookView { language: Some(value), ..base })
    } else if field == "catalog_key"@ {
        Ok(BookView { catalog_key: Some(value), ..base })
    } else if field == "isbn10"@ {
        if is_i64_string(value) {
            Ok(BookView { isbn10: Some(spec_i64_value(value) as i64), ..base })
        } else {
            Err(BookError::InvalidFieldValue)
        }
    } else if field == "isbn13"@ {
        if is_i64_string(value) {
            Ok(BookView { isbn13: Some(spec_i64_value(value) as i64), ..base })
        } else {
            Err(BookError::InvalidFieldValue)
        }
    } else if field == "publish_year"@ {
        if is_u32_string(value) {
            Ok(BookView { publish_year: Some(spec_u32_value(value) as u32), ..base })
        } else {
            Err(BookError::InvalidFieldValue)
        }
    } else if field == "page_count"@ {
        if is_u32_string(value) {
            Ok(BookView { page_count: Some(spec_u32_value(value) as u32), ..base })
        } else {
            Err(BookError::InvalidFieldValue)
        }
    } else {
        Err(BookError::UnknownField)
    }
}

/// An edit session exclusively owning the one record being edited.
#[derive(Debug)]
pub struct EditSession {
    record: Book,
}

impl View for EditSession {
    type V = BookView;

    closed spec fn view(&self) -> BookView {
        self.record@
    }
}

impl EditSession {
    /// Opens a session on the given record.
    pub fn new(record: Book) -> (s: EditSession)
        ensures
            s@ == record@,
    {
        EditSession { record }
    }

    /// Applies one named-field edit per [`spec_apply`], stamping
    /// `last_modified` with the current time even when the attempt fails.
    /// A failure changes nothing else and the caller may retry.
    pub fn apply(&mut self, field: &str, value: String) -> (r: Result<(), BookError>)
        ensures
            spec_apply(old(self)@, field@, value@, final(self)@.last_modified) == (match r {
                Ok(_) => Ok::<BookView, BookError>(final(self)@),
                Err(e) => Err::<BookView, BookError>(e),
            }),
            r is Err ==> final(self)@ == stamped(old(self)@, final(self)@.last_modified),
    {
        let now = now_unix_timestamp();
        self.record.last_modified = now;
        if str_eq(field, "title") {
            self.record.title = Some(value);
            proof {
                assert(Ok::<BookView, BookError>(self.record@) == spec_apply(old(self)@, field@, value@, now as int));
            }
            Ok(())
        } else if str_eq(field, "authors") {
            self.record.authors = Some(split_commas(value.as_str()));
            proof {
                assert(Ok::<BookView, BookError>(self.record@) == spec_apply(old(self)@, field@, value@, now as int));
            }
            Ok(())
        } else if str_eq(field, "cover_path") {
            self.record.cover_path = Some(value);
            proof {
                assert(Ok::<BookView, BookError>(self.record@) == spec_apply(old(self)@, field@, value@, now as int));
            }
            Ok(())
        } else if str_eq(field, "cover_url") {
            self.record.cover_url = Some(value);
            proof {
                assert(Ok::<BookView, BookError>(self.record@) == spec_apply(old(self)@, field@, value@, now as int));
            }
            Ok(())
        } else if str_eq(field, "description") {
            self.record.description = Some(value);
            proof {
                assert(Ok::<BookView, BookError>(self.record@) == spec_apply(old(self)@, field@, value@, now as int));
            }
            Ok(())
        } else if str_eq(field, "first_sentence") {
            self.record.first_sentence = Some(value);
            proof {
                assert(Ok::<BookView, BookError>(self.record@) == spec_apply(old(self)@, field@, value@, now as int));
            }
            Ok(())
        } else if str_eq(field, "language") {
            self.record.language = Some(value);
            proof {
                assert(Ok::<BookView, BookError>(self.record@) == spec_apply(old(self)@, field@, value@, now as int));
            }
            Ok(())
        } else if str_eq(field, "catalog_key") {
            self.record.catalog_key = Some(value);
            proof {
                assert(Ok::<BookView, BookError>(self.record@) == spec_apply(old(self)@, field@, value@, now as int));
            }
            Ok(())
        } else if str_eq(field, "isbn10") {
            match parse_i64(value.as_str()) {
                Some(v) => {
                    self.record.isbn10 = Some(v);
                    Ok(())
                },
                None => Err(BookError::InvalidFieldValue),
            }
        } else if str_eq(field, "isbn13") {
            match parse_i64(value.as_str()) {
                Some(v) => {
                    self.record.isbn13 = Some(v);
                    Ok(())
                },
                None => Err(BookError::InvalidFieldValue),
            }
        } else if str_eq(field, "publish_year") {
            match parse_u32(value.as_str()) {
                Some(v) => {
                    self.record.publish_year = Some(v);
                    Ok(())
                },
                None => Err(BookError::InvalidFieldValue),
            }
        } else if str_eq(field, "page_count") {
            match parse_u32(value.as_str()) {
                Some(v) => {
                    self.record.page_count = Some(v);
                    Ok(())
                },
                None => Err(BookError::InvalidFieldValue),
            }
        } else {
            Err(BookError::UnknownField)
        }
    }

    /// Ends the session, handing the edited record back.
    pub fn finish(self) -> (b: Book)
        ensures
            b@ == self@,
    {
        self.record
    }
}

} // verus!
