//! A personal book-tracking core: reconciliation and persistence of book
//! records gathered from a metadata catalog, e-book files and manual edits.
//!
//! The crate models one canonical record per book ([`record::Book`]), merges
//! partial incoming records over stored ones field by field ([`merge`]),
//! and keeps the stored table unique per alternate key ([`store::Store`]):
//! a ten-digit and a thirteen-digit identifier form two independent
//! uniqueness domains. Source adapters translate catalog search hits
//! ([`search`]), catalog edition documents ([`edition`]) and e-book
//! container metadata ([`ebook`]) into partial records; an interactive
//! edit session ([`edit`]) applies named field edits before a record
//! reaches the store.

pub mod ebook;

pub mod edit;

pub mod edition;

pub mod error;

pub mod ident;

pub mod merge;

pub mod query;

pub mod record;

pub mod search;

pub mod store;

pub mod text;
