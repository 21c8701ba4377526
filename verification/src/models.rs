//! The data shapes that callers exchange with their own persistence layer:
//! posts, their outward-facing responses, stored asset rows, creation
//! payloads, and pagination with its defaults. Identifiers are carried as
//! their textual form and timestamps as seconds, so every field is a plain
//! value.
use vstd::prelude::*;

verus! {

/// A stored post.
#[derive(Debug)]
pub struct Post {
    /// The internal numeric identifier.
    pub id: i32,
    /// The public identifier, in its hyphenated textual form.
    pub uuid: String,
    pub title: String,
    pub content: String,
    /// Creation time, in seconds since the epoch.
    pub created_at: u64,
}

/// The outward-facing form of a post: everything but the internal identifier.
#[derive(Debug)]
pub struct PostResponse {
    pub uuid: String,
    pub title: String,
    pub content: String,
    pub created_at: u64,
}

impl From<Post> for PostResponse {
    /// Drops the internal identifier and keeps every other field.
    fn from(post: Post) -> (r: Self) {
        PostResponse {
            uuid: post.uuid,
            title: post.title,
            content: post.content,
            created_at: post.created_at,
        }
    }
}

impl vstd::std_specs::convert::FromSpecImpl<Post> for PostResponse {
    open spec fn obeys_from_spec() -> bool {
        true
    }

    open spec fn from_spec(post: Post) -> Self {
        PostResponse {
            uuid: post.uuid,
            title: post.title,
            content: post.content,
            created_at: post.created_at,
        }
    }
}

/// One stored asset row, as the caller persists it.
#[derive(Debug)]
pub struct PostAsset {
    pub id: i32,
    pub post_id: i32,
    /// The asset's public identifier, in its hyphenated textual form.
    pub asset_uuid: String,
    pub original_url: String,
    pub file_path: String,
    pub content_type: Option<String>,
    pub file_size: Option<i64>,
    /// Creation time, in seconds since the epoch.
    pub created_at: u64,
}

/// The payload that creates a post.
#[derive(Debug)]
pub struct CreatePost {
    pub title: String,
    pub content: String,
}

/// Page selection for listings.
#[derive(Debug, PartialEq, Eq, Structural)]
pub struct Pagination {
    pub page: u64,
    pub limit: u64,
}

/// The page used when none is asked for.
pub fn default_page() -> (r: u64)
    ensures
        r == 1,
{
    1
}

/// The page size used when none is asked for.
pub fn default_limit() -> (r: u64)
    ensures
        r == 10,
{
    10
}

impl Default for Pagination {
    /// The first page, ten entries long.
    fn default() -> (r: Self)
        ensures
            r.page == 1,
            r.limit == 10,
    {
        Pagination { page: default_page(), limit: default_limit() }
    }
}

} // verus!
