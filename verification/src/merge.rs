//! The field merge policy: a last-writer-wins-per-field reconciliation of
//! an incoming partial record over an existing stored row.

use vstd::prelude::*;
use crate::record::{Book, BookView, clone_opt_string, clone_opt_vec_string};

verus! {

/// The row to write when `incoming` arrives and `existing` is the stored
/// row sharing its conflict key, or `None` when no row shares it.
///
/// For every field, a present incoming value wins and an absent one
/// preserves the stored value; `authors` is replaced as a whole list, never
/// merged element-wise. `last_modified` always takes the incoming stamp,
/// while `created_at` keeps the stored row's stamp and so is never
/// overwritten after first insert.
pub open spec fn spec_merge(existing: Option<BookView>, incoming: BookView) -> BookView {
    match existing {
        None => incoming,
        Some(e) => BookView {
            title: if incoming.title is Some {
                incoming.title
            } else {
                e.title
            },
            authors: if incoming.authors is Some {
                incoming.authors
            } else {
                e.authors
            },
            cover_url: if incoming.cover_url is Some {
                incoming.cover_url
            } else {
                e.cover_url
            },
            cover_path: if incoming.cover_path is Some {
                incoming.cover_path
            } else {
                e.cover_path
            },
            page_count: if incoming.page_count is Some {
                incoming.page_count
            } else {
                e.page_count
            },
            description: if incoming.description is Some {
                incoming.description
            } else {
                e.description
            },
            first_sentence: if incoming.first_sentence is Some {
                incoming.first_sentence
            } else {
                e.first_sentence
            },
            language: if incoming.language is Some {
                incoming.language
            } else {
                e.language
            },
            isbn10: if incoming.isbn10 is Some {
                incoming.isbn10
            } else {
                e.isbn10
            },
            isbn13: if incoming.isbn13 is Some {
                incoming.isbn13
            } else {
                e.isbn13
            },
            catalog_key: if incoming.catalog_key is Some {
                incoming.catalog_key
            } else {
                e.catalog_key
            },
            publish_year: if incoming.publish_year is Some {
                incoming.publish_year
            } else {
                e.publish_year
            },
            current_page: if incoming.current_page is Some {
                incoming.current_page
            } else {
                e.current_page
            },
            finished: if incoming.finished is Some {
                incoming.finished
            } else {
                e.finished
            },
            date_started: if incoming.date_started is Some {
                incoming.date_started
            } else {
                e.date_started
            },
            last_modified: incoming.last_modified,
            created_at: e.created_at,
        },
    }
}

/// The view of an optional borrowed record.
pub open spec fn opt_view(o: Option<&Book>) -> Option<BookView> {
    match o {
        Some(b) => Some(b@),
        None => None,
    }
}

/// Merges `incoming` over `existing` per [`spec_merge`].
pub fn merge(existing: Option<&Book>, incoming: Book) -> (r: Book)
    ensures
        r@ == spec_merge(opt_view(existing), incoming@),
{
    match existing {
        None => incoming,
        Some(e) => {
            let r = Book {
                title: if incoming.title.is_some() {
                    incoming.title
                } else {
                    clone_opt_string(&e.title)
                },
                authors: if incoming.authors.is_some() {
                    incoming.authors
                } else {
                    clone_opt_vec_string(&e.authors)
                },
                cover_url: if incoming.cover_url.is_some() {
                    incoming.cover_url
                } else {
                    clone_opt_string(&e.cover_url)
                },
                cover_path: if incoming.cover_path.is_some() {
                    incoming.cover_path
                } else {
                    clone_opt_string(&e.cover_path)
                },
                page_count: if incoming.page_count.is_some() {
                    incoming.page_count
                } else {
                    e.page_count
                },
                description: if incoming.description.is_some() {
                    incoming.description
                } else {
                    clone_opt_string(&e.description)
                },
                first_sentence: if incoming.first_sentence.is_some() {
                    incoming.first_sentence
                } else {
                    clone_opt_string(&e.first_sentence)
                },
                language: if incoming.language.is_some() {
                    incoming.language
                } else {
                    clone_opt_string(&e.language)
                },
                isbn10: if incoming.isbn10.is_some() {
                    incoming.isbn10
                } else {
                    e.isbn10
                },
                isbn13: if incoming.isbn13.is_some() {
                    incoming.isbn13
                } else {
                    e.isbn13
                },
                catalog_key: if incoming.catalog_key.is_some() {
                    incoming.catalog_key
                } else {
                    clone_opt_string(&e.catalog_key)
                },
                publish_year: if incoming.publish_year.is_some() {
                    incoming.publish_year
                } else {
                    e.publish_year
                },
                current_page: if incoming.current_page.is_some() {
                    incoming.current_page
                } else {
                    e.current_page
                },
                finished: if incoming.finished.is_some() {
                    incoming.finished
                } else {
                    e.finished
                },
                date_started: if incoming.date_started.is_some() {
                    incoming.date_started
                } else {
                    e.date_started
                },
                last_modified: incoming.last_modified,
                created_at: e.created_at,
            };
            proof {
                assert(r@ =~= spec_merge(opt_view(existing), incoming@));
            }
            r
        },
    }
}

} // verus!
