//! The canonical persisted entity: one record per book, every descriptive
//! field independently optional, two always-present timestamps.

use vstd::prelude::*;

verus! {

/// The canonical book record.
///
/// Every optional field holds either a fully-formed value or is absent;
/// absence always means "unknown". `isbn10` and `isbn13` are the two
/// alternate keys: each is unique across stored records when present.
/// `created_at` is set once at first write; `last_modified` is updated on
/// every write. Both are whole seconds since the Unix epoch.
#[derive(Debug)]
pub struct Book {
    pub title: Option<String>,
    /// Ordered as supplied by the source; no deduplication.
    pub authors: Option<Vec<String>>,
    /// Remote location of cover art.
    pub cover_url: Option<String>,
    /// Local file path once the cover has been downloaded.
    pub cover_path: Option<String>,
    pub page_count: Option<u32>,
    pub description: Option<String>,
    pub first_sentence: Option<String>,
    pub language: Option<String>,
    /// Ten-digit numeric identifier.
    pub isbn10: Option<i64>,
    /// Thirteen-digit numeric identifier.
    pub isbn13: Option<i64>,
    /// Opaque external catalog identifier.
    pub catalog_key: Option<String>,
    pub publish_year: Option<u32>,
    pub current_page: Option<u32>,
    pub finished: Option<bool>,
    /// Encoded date, source-defined.
    pub date_started: Option<u32>,
    pub last_modified: i64,
    pub created_at: i64,
}

/// The mathematical value of a [`Book`]: strings as character sequences,
/// timestamps as unbounded integers.
#[verifier::ext_equal]
pub struct BookView {
    pub title: Option<Seq<char>>,
    pub authors: Option<Seq<Seq<char>>>,
    pub cover_url: Option<Seq<char>>,
    pub cover_path: Option<Seq<char>>,
    pub page_count: Option<u32>,
    pub description: Option<Seq<char>>,
    pub first_sentence: Option<Seq<char>>,
    pub language: Option<Seq<char>>,
    pub isbn10: Option<i64>,
    pub isbn13: Option<i64>,
    pub catalog_key: Option<Seq<char>>,
    pub publish_year: Option<u32>,
    pub current_page: Option<u32>,
    pub finished: Option<bool>,
    pub date_started: Option<u32>,
    pub last_modified: int,
    pub created_at: int,
}

impl View for Book {
    type V = BookView;

    open spec fn view(&self) -> BookView {
        BookView {
            title: self.title.deep_view(),
            authors: self.authors.deep_view(),
            cover_url: self.cover_url.deep_view(),
            cover_path: self.cover_path.deep_view(),
            page_count: self.page_count,
            description: self.description.deep_view(),
            first_sentence: self.first_sentence.deep_view(),
            language: self.language.deep_view(),
            isbn10: self.isbn10,
            isbn13: self.isbn13,
            catalog_key: self.catalog_key.deep_view(),
            publish_year: self.publish_year,
            current_page: self.current_page,
            finished: self.finished,
            date_started: self.date_started,
            last_modified: self.last_modified as int,
            created_at: self.created_at as int,
        }
    }
}

impl DeepView for Book {
    type V = BookView;

    open spec fn deep_view(&self) -> BookView {
        self.view()
    }
}

/// A record with every field unknown, stamped at `stamp`.
pub open spec fn empty_record(stamp: int) -> BookView {
    BookView {
        title: None,
        authors: None,
        cover_url: None,
        cover_path: None,
        page_count: None,
        description: None,
        first_sentence: None,
        language: None,
        isbn10: None,
        isbn13: None,
        catalog_key: None,
        publish_year: None,
        current_page: None,
        finished: None,
        date_started: None,
        last_modified: stamp,
        created_at: stamp,
    }
}

/// Relies on `time::OffsetDateTime::now_utc` and `unix_timestamp`: the
/// current wall-clock time as whole seconds since the Unix epoch. Nothing
/// is assumed about the value returned.
#[verifier::external_body]
pub(crate) fn now_unix_timestamp() -> i64 {
    time::OffsetDateTime::now_utc().unix_timestamp()
}

impl Book {
    /// A record with every field unknown, both timestamps set to now.
    pub fn new() -> (b: Book)
        ensures
            b@ == empty_record(b@.created_at),
    {
        let now = now_unix_timestamp();
        Book {
            title: None,
            authors: None,
            cover_url: None,
            cover_path: None,
            page_count: None,
            description: None,
            first_sentence: None,
            language: None,
            isbn10: None,
            isbn13: None,
            catalog_key: None,
            publish_year: None,
            current_page: None,
            finished: None,
            date_started: None,
            last_modified: now,
            created_at: now,
        }
    }
}

/// Clones an optional string, preserving its value.
pub fn clone_opt_string(o: &Option<String>) -> (r: Option<String>)
    ensures
        r == *o,
{
    match o {
        Some(s) => Some(s.clone()),
        None => None,
    }
}

/// Clones a vector of strings, preserving its value.
pub fn clone_vec_string(v: &Vec<String>) -> (r: Vec<String>)
    ensures
        r@ == v@,
{
    let mut r: Vec<String> = Vec::new();
    let mut i: usize = 0;
    while i < v.len()
        invariant
            0 <= i <= v.len(),
            r@ == v@.take(i as int),
        decreases v.len() - i,
    {
        r.push(v[i].clone());
        proof {
            assert(v@.take(i + 1 as int) =~= v@.take(i as int).push(v@[i as int]));
        }
        i = i + 1;
    }
    proof {
        assert(v@.take(v@.len() as int) =~= v@);
    }
    r
}

/// Clones an optional vector of strings, preserving its value.
pub fn clone_opt_vec_string(o: &Option<Vec<String>>) -> (r: Option<Vec<String>>)
    ensures
        r.deep_view() == o.deep_view(),
        r is Some <==> *o is Some,
{
    match o {
        Some(v) => Some(clone_vec_string(v)),
        None => None,
    }
}

impl Clone for Book {
    /// A clone carries the same record value.
    fn clone(&self) -> (r: Self)
        ensures
            r@ == self@,
    {
        let r = Book {
            title: clone_opt_string(&self.title),
            authors: clone_opt_vec_string(&self.authors),
            cover_url: clone_opt_string(&self.cover_url),
            cover_path: clone_opt_string(&self.cover_path),
            page_count: self.page_count,
            description: clone_opt_string(&self.description),
            first_sentence: clone_opt_string(&self.first_sentence),
            language: clone_opt_string(&self.language),
            isbn10: self.isbn10,
            isbn13: self.isbn13,
            catalog_key: clone_opt_string(&self.catalog_key),
            publish_year: self.publish_year,
            current_page: self.current_page,
            finished: self.finished,
            date_started: self.date_started,
            last_modified: self.last_modified,
            created_at: self.created_at,
        };
        proof {
            assert(r@ =~= self@);
        }
        r
    }
}

/// Widens an optional page-style count to the storage layer's integer type.
pub fn to_i64(opt: Option<u32>) -> (r: Option<i64>)
    ensures
        match opt {
            Some(v) => r == Some(v as i64),
            None => r is None,
        },
{
    match opt {
        Some(v) => Some(v as i64),
        None => None,
    }
}

} // verus!
