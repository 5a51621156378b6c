//! Importing browser bookmark exports: reading the markup into bookmark
//! records, and reconciling those records with a user's stored bookmarks
//! and collections.

pub mod ident;
pub mod markup;
pub mod models;
pub mod parser;
pub mod reconcile;
pub mod store;
