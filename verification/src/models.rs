//! The plain records that travel between the transport layer and the
//! library.

use vstd::prelude::*;

verus! {

/// What a session token carries: the user's identifier as text, and the
/// time at which the token expires.
#[derive(Debug, Clone)]
pub struct Claims {
    pub sub: String,
    pub exp: usize,
}

/// The settings that the service starts with.
#[derive(Debug, Clone)]
pub struct EnvConfig {
    pub port: String,
    pub mongo_uri: String,
    pub db_name: String,
    pub jwt_secret: String,
    pub allowed_origins: Vec<String>,
}

/// A failure of the service outside an import.
#[derive(Debug, Clone, Copy, PartialEq, Eq)]
pub enum AppError {
    DatabaseError,
}

/// A full-text search.
#[derive(Debug, Clone)]
pub struct SearchQuery {
    pub q: String,
}

/// A request for the bookmarks with one tag.
#[derive(Debug, Clone)]
pub struct TagQuery {
    pub tag: String,
}

/// A request to store a bookmark.
#[derive(Debug, Clone)]
pub struct CreateBookmarkRequest {
    pub title: String,
    pub url: String,
    pub description: Option<String>,
    pub tags: Vec<String>,
    pub collection_id: Option<String>,
}

/// A request to change a bookmark; a field that is `None` stays as it is.
#[derive(Debug, Clone)]
pub struct UpdateBookmarkRequest {
    pub title: Option<String>,
    pub url: Option<String>,
    pub description: Option<String>,
    pub tags: Option<Vec<String>>,
    pub collection_id: Option<String>,
}

/// A request to create a collection.
#[derive(Debug, Clone)]
pub struct CreateCollectionRequest {
    pub name: String,
    pub description: Option<String>,
}

/// A request to change a collection; a field that is `None` stays as it is.
#[derive(Debug, Clone)]
pub struct UpdateCollectionRequest {
    pub name: Option<String>,
    pub description: Option<String>,
}

/// A request to open an account.
#[derive(Debug, Clone)]
pub struct RegisterRequest {
    pub email: String,
    pub password: String,
}

/// A request to sign in.
#[derive(Debug, Clone)]
pub struct LoginRequest {
    pub email: String,
    pub password: String,
}

} // verus!
