//! The e-book container adapter: turns the raw key/value-list metadata
//! extracted from a local e-book file into a partial book record.
//!
//! Only the `creator`, `identifier`, `language`, `title` and `description`
//! keys are read; all others are ignored. The identifier is parsed as a
//! plain integer — this path does not distinguish ten- from thirteen-digit
//! length — and is returned beside the record as the import's natural key;
//! its parse failure is fatal to the import, since no fallback identifier
//! exists.

use vstd::prelude::*;
use crate::error::BookError;
use crate::record::{clone_vec_string, now_unix_timestamp, Book, BookView};
use crate::text::{concat_all, is_i64_string, parse_i64, spec_concat, spec_i64_value, str_eq};

verus! {

/// One metadata entry of an e-book container: a key and its value list.
#[derive(Debug)]
pub struct MetaEntry {
    pub key: String,
    pub values: Vec<String>,
}

/// The mathematical value of a [`MetaEntry`].
#[verifier::ext_equal]
pub struct MetaEntryView {
    pub key: Seq<char>,
    pub values: Seq<Seq<char>>,
}

impl View for MetaEntry {
    type V = MetaEntryView;

    open spec fn view(&self) -> MetaEntryView {
        MetaEntryView { key: self.key@, values: self.values.deep_view() }
    }
}

impl DeepView for MetaEntry {
    type V = MetaEntryView;

    open spec fn deep_view(&self) -> MetaEntryView {
        self.view()
    }
}

/// The value list of the last entry keyed `k`, if any; later entries of a
/// repeated key overwrite earlier ones.
pub open spec fn last_values(meta: Seq<MetaEntryView>, k: Seq<char>) -> Option<Seq<Seq<char>>>
    decreases meta.len(),
{
    if meta.len() == 0 {
        None
    } else if meta.last().key == k {
        Some(meta.last().values)
    } else {
        last_values(meta.drop_last(), k)
    }
}

/// The concatenated value of the last entry keyed `k`, if any.
pub open spec fn field_concat(meta: Seq<MetaEntryView>, k: Seq<char>) -> Option<Seq<char>> {
    match last_values(meta, k) {
        Some(vs) => Some(spec_concat(vs)),
        None => None,
    }
}

/// Every `identifier` entry's concatenated value parses as an `i64`.
pub open spec fn identifiers_parse(meta: Seq<MetaEntryView>) -> bool {
    forall|i: int|
        0 <= i < meta.len() && (#[trigger] meta[i]).key == "identifier"@ ==> is_i64_string(
            spec_concat(meta[i].values),
        )
}

/// The parsed identifier of the container, when one is present; meaningful
/// under [`identifiers_parse`].
pub open spec fn spec_ebook_identifier(meta: Seq<MetaEntryView>) -> Option<i64> {
    match field_concat(meta, "identifier"@) {
        Some(s) => Some(spec_i64_value(s) as i64),
        None => None,
    }
}

/// The record the container metadata maps to, stamped at `stamp`: authors
/// from the whole `creator` value list, the other recognized fields from
/// the concatenated values of their last entry.
pub open spec fn spec_ebook_record(meta: Seq<MetaEntryView>, stamp: int) -> BookView {
    BookView {
        title: field_concat(meta, "title"@),
        authors: last_values(meta, "creator"@),
        cover_url: None,
        cover_path: None,
        page_count: None,
        description: field_concat(meta, "description"@),
        first_sentence: None,
        language: field_concat(meta, "language"@),
        isbn10: None,
        isbn13: None,
        catalog_key: None,
        publish_year: None,
        current_page: None,
        finished: None,
        date_started: None,
        last_modified: stamp,
        created_at: stamp,
    }
}

/// The five recognized metadata keys name five different fields.
proof fn lemma_keys_distinct()
    ensures
        "creator"@ != "identifier"@,
        "creator"@ != "language"@,
        "creator"@ != "title"@,
        "creator"@ != "description"@,
        "identifier"@ != "language"@,
        "identifier"@ != "title"@,
        "identifier"@ != "description"@,
        "language"@ != "title"@,
        "language"@ != "description"@,
        "title"@ != "description"@,
{
    reveal_strlit("creator");
    reveal_strlit("identifier");
    reveal_strlit("language");
    reveal_strlit("title");
    reveal_strlit("description");
    assert("creator"@.len() == 7);
    assert("identifier"@.len() == 10);
    assert("language"@.len() == 8);
    assert("title"@.len() == 5);
    assert("description"@.len() == 11);
}

/// How one more metadata entry changes what the recognized keys resolve
/// to: the entry's own key now resolves to its values, every other key
/// resolves as before, and identifier parsability extends when the new
/// entry's identifier (if it is one) parses.
proof fn lemma_meta_step(dv: Seq<MetaEntryView>, i: int)
    requires
        0 <= i < dv.len(),
        identifiers_parse(dv.take(i)),
        dv[i].key == "identifier"@ ==> is_i64_string(spec_concat(dv[i].values)),
    ensures
        identifiers_parse(dv.take(i + 1)),
        last_values(dv.take(i + 1), "creator"@) == (if dv[i].key == "creator"@ {
            Some(dv[i].values)
        } else {
            last_values(dv.take(i), "creator"@)
        }),
        field_concat(dv.take(i + 1), "title"@) == (if dv[i].key == "title"@ {
            Some(spec_concat(dv[i].values))
        } else {
            field_concat(dv.take(i), "title"@)
        }),
        field_concat(dv.take(i + 1), "language"@) == (if dv[i].key == "language"@ {
            Some(spec_concat(dv[i].values))
        } else {
            field_concat(dv.take(i), "language"@)
        }),
        field_concat(dv.take(i + 1), "description"@) == (if dv[i].key == "description"@ {
            Some(spec_concat(dv[i].values))
        } else {
            field_concat(dv.take(i), "description"@)
        }),
        spec_ebook_identifier(dv.take(i + 1)) == (if dv[i].key == "identifier"@ {
            Some(spec_i64_value(spec_concat(dv[i].values)) as i64)
        } else {
            spec_ebook_identifier(dv.take(i))
        }),
{
    let pre = dv.take(i);
    let ext = dv.take(i + 1);
    assert(ext.drop_last() =~= pre);
    assert(ext.last() == dv[i]);
    assert(last_values(ext, "creator"@) == (if dv[i].key == "creator"@ {
        Some(dv[i].values)
    } else {
        last_values(pre, "creator"@)
    }));
    assert(last_values(ext, "title"@) == (if dv[i].key == "title"@ {
        Some(dv[i].values)
    } else {
        last_values(pre, "title"@)
    }));
    assert(last_values(ext, "language"@) == (if dv[i].key == "language"@ {
        Some(dv[i].values)
    } else {
        last_values(pre, "language"@)
    }));
    assert(last_values(ext, "description"@) == (if dv[i].key == "description"@ {
        Some(dv[i].values)
    } else {
        last_values(pre, "description"@)
    }));
    assert(last_values(ext, "identifier"@) == (if dv[i].key == "identifier"@ {
        Some(dv[i].values)
    } else {
        last_values(pre, "identifier"@)
    }));
    assert forall|j: int|
        0 <= j < ext.len() && (#[trigger] ext[j]).key == "identifier"@ implies is_i64_string(
        spec_concat(ext[j].values),
    ) by {
        if j < i {
            assert(ext[j] == pre[j]);
        } else {
            assert(ext[j] == dv[i]);
        }
    }
}

/// Translates container metadata into a partial record per
/// [`spec_ebook_record`], both timestamps stamped with the same current
/// time, and the parsed identifier beside it. Fails, producing no record,
/// exactly when some `identifier` entry does not parse as an integer.
pub fn read_epub_to_book(meta: &Vec<MetaEntry>) -> (r: Result<(Book, Option<i64>), BookError>)
    ensures
        match r {
            Ok(p) => {
                &&& identifiers_parse(meta.deep_view())
                &&& p.0@.last_modified == p.0@.created_at
                &&& p.0@ == spec_ebook_record(meta.deep_view(), p.0@.created_at)
                &&& p.1 == spec_ebook_identifier(meta.deep_view())
            },
            Err(e) => !identifiers_parse(meta.deep_view()) && e == BookError::MalformedIdentifier,
        },
{
    let ghost dv = meta.deep_view();
    let mut title: Option<String> = None;
    let mut authors: Option<Vec<String>> = None;
    let mut language: Option<String> = None;
    let mut description: Option<String> = None;
    let mut ident: Option<i64> = None;
    let mut i: usize = 0;
    proof {
        assert(dv.take(0) =~= Seq::<MetaEntryView>::empty());
    }
    while i < meta.len()
        invariant
            0 <= i <= meta.len(),
            dv == meta.deep_view(),
            dv.len() == meta.len(),
            title.deep_view() == field_concat(dv.take(i as int), "title"@),
            authors.deep_view() == last_values(dv.take(i as int), "creator"@),
            language.deep_view() == field_concat(dv.take(i as int), "language"@),
            description.deep_view() == field_concat(dv.take(i as int), "description"@),
            identifiers_parse(dv.take(i as int)),
            ident == spec_ebook_identifier(dv.take(i as int)),
        decreases meta.len() - i,
    {
        let entry = &meta[i];
        proof {
            assert(dv[i as int] == meta@[i as int]@);
            lemma_keys_distinct();
        }
        if str_eq(entry.key.as_str(), "creator") {
            authors = Some(clone_vec_string(&entry.values));
            proof {
                lemma_keys_distinct();
                lemma_meta_step(dv, i as int);
            }
        } else if str_eq(entry.key.as_str(), "identifier") {
            let s = concat_all(&entry.values);
            match parse_i64(s.as_str()) {
                Some(v) => {
                    ident = Some(v);
                    proof {
                        lemma_keys_distinct();
                        assert(s@ == spec_concat(dv[i as int].values));
                        lemma_meta_step(dv, i as int);
                    }
                },
                None => {
                    proof {
                        assert(s@ == spec_concat(dv[i as int].values));
                        assert(!is_i64_string(spec_concat(dv[i as int].values)));
                        assert(!identifiers_parse(dv));
                    }
                    return Err(BookError::MalformedIdentifier);
                },
            }
        } else if str_eq(entry.key.as_str(), "language") {
            language = Some(concat_all(&entry.values));
            proof {
                lemma_keys_distinct();
                lemma_meta_step(dv, i as int);
            }
        } else if str_eq(entry.key.as_str(), "title") {
            title = Some(concat_all(&entry.values));
            proof {
                lemma_keys_distinct();
                lemma_meta_step(dv, i as int);
            }
        } else if str_eq(entry.key.as_str(), "description") {
            description = Some(concat_all(&entry.values));
            proof {
                lemma_keys_distinct();
                lemma_meta_step(dv, i as int);
            }
        } else {
            proof {
                lemma_keys_distinct();
                lemma_meta_step(dv, i as int);
            }
        }
        i = i + 1;
    }
    proof {
        assert(dv.take(dv.len() as int) =~= dv);
    }
    let now = now_unix_timestamp();
    let b = Book {
        title,
        authors,
        cover_url: None,
        cover_path: None,
        page_count: None,
        description,
        first_sentence: None,
        language,
        isbn10: None,
        isbn13: None,
        catalog_key: None,
        publish_year: None,
        current_page: None,
        finished: None,
        date_started: None,
        last_modified: now,
        created_at: now,
    };
    proof {
        assert(b@ =~= spec_ebook_record(dv, now as int));
    }
    Ok((b, ident))
}

} // verus!

