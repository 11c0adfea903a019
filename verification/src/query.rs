//! A free-form catalog search query: up to four named parameters, each
//! optional, ready to be turned into a request by the transport layer.

use vstd::prelude::*;
use vstd::string::StrSliceExecFns;
use crate::text::{spec_trim, trim_str};

verus! {

/// A catalog search query.
#[derive(Debug)]
pub struct SearchQuery {
    author: Option<String>,
    title: Option<String>,
    lang: Option<String>,
    sort: Option<String>,
}

/// The mathematical value of a [`SearchQuery`].
#[verifier::ext_equal]
pub struct SearchQueryView {
    pub author: Option<Seq<char>>,
    pub title: Option<Seq<char>>,
    pub lang: Option<Seq<char>>,
    pub sort: Option<Seq<char>>,
}

impl View for SearchQuery {
    type V = SearchQueryView;

    closed spec fn view(&self) -> SearchQueryView {
        SearchQueryView {
            author: self.author.deep_view(),
            title: self.title.deep_view(),
            lang: self.lang.deep_view(),
            sort: self.sort.deep_view(),
        }
    }
}

/// The view behind an optional borrowed string.
pub open spec fn opt_str_view(o: Option<&str>) -> Option<Seq<char>> {
    match o {
        Some(s) => Some(s@),
        None => None,
    }
}

impl SearchQuery {
    /// A query over the given parameter values.
    pub fn new(
        author: Option<String>,
        title: Option<String>,
        lang: Option<String>,
        sort: Option<String>,
    ) -> (q: SearchQuery)
        ensures
            q@.author == author.deep_view(),
            q@.title == title.deep_view(),
            q@.lang == lang.deep_view(),
            q@.sort == sort.deep_view(),
    {
        SearchQuery { author, title, lang, sort }
    }

    /// The four parameter values, in the order of [`SearchQuery::get_keys`].
    pub fn flatten(&self) -> (r: Vec<Option<&str>>)
        ensures
            r@.len() == 4,
            opt_str_view(r@[0]) == self@.author,
            opt_str_view(r@[1]) == self@.title,
            opt_str_view(r@[2]) == self@.lang,
            opt_str_view(r@[3]) == self@.sort,
    {
        let mut r: Vec<Option<&str>> = Vec::new();
        r.push(
            match &self.author {
                Some(s) => Some(s.as_str()),
                None => None,
            },
        );
        r.push(
            match &self.title {
                Some(s) => Some(s.as_str()),
                None => None,
            },
        );
        r.push(
            match &self.lang {
                Some(s) => Some(s.as_str()),
                None => None,
            },
        );
        r.push(
            match &self.sort {
                Some(s) => Some(s.as_str()),
                None => None,
            },
        );
        r
    }

    /// The four parameter names, in the order of [`SearchQuery::flatten`].
    pub fn get_keys(&self) -> (r: Vec<&'static str>)
        ensures
            r@.len() == 4,
            r@[0]@ == "author"@,
            r@[1]@ == "title"@,
            r@[2]@ == "lang"@,
            r@[3]@ == "sort"@,
    {
        let mut r: Vec<&'static str> = Vec::new();
        r.push("author");
        r.push("title");
        r.push("lang");
        r.push("sort");
        r
    }

    /// A raw user-entered parameter: present once trimmed of surrounding
    /// whitespace, absent when nothing but whitespace was entered.
    pub fn str_to_opt(s: String) -> (r: Option<String>)
        ensures
            match r {
                Some(t) => spec_trim(s@).len() > 0 && t@ == spec_trim(s@),
                None => spec_trim(s@).len() == 0,
            },
    {
        let t = trim_str(s.as_str());
        if t.unicode_len() == 0 {
            None
        } else {
            Some(t.to_owned())
        }
    }
}

} // verus!
