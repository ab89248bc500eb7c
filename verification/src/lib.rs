//! A handle-based bridge over an HTML document store.
//!
//! The crate keeps parsed HTML documents in an arena addressed by integer
//! handles, extends CSS selectors with a family of `:contains` text filters,
//! and edits attributes, classes and subtrees of a live document tree.
//! Parsing and base-selector matching are delegated to the `scraper` crate,
//! URL joining to the `url` crate; everything else is verified.

pub mod api;
pub mod arena;
pub mod attrs;
pub mod dom;
pub mod edit;
pub mod laws;
pub mod mutate;
pub mod provider;
pub mod query;
pub mod selector;
pub mod select;
pub mod ser;
pub mod text;
pub mod urls;
