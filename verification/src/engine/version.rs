//! Page version history: how many old versions are kept, and how a stored
//! version's tags are read.
use vstd::prelude::*;

use crate::engine::tags::{json_parse_string_list, tags_from_json};

verus! {

/// A saved snapshot of a page.
pub struct PageVersion {
    pub id: String,
    pub page_id: String,
    pub title: String,
    pub body: String,
    pub tags: Vec<String>,
    pub created_at: String,
}

/// How many versions of one page are kept.
pub const MAX_VERSIONS_PER_PAGE: i32 = 50;

/// How many of the oldest versions to delete when a page has `count`.
pub fn excess_versions(count: i32) -> (r: Option<i32>)
    ensures
        match r {
            Some(n) => count > MAX_VERSIONS_PER_PAGE && n == count - MAX_VERSIONS_PER_PAGE,
            None => count <= MAX_VERSIONS_PER_PAGE,
        },
{
    if count > MAX_VERSIONS_PER_PAGE {
        Some(count - MAX_VERSIONS_PER_PAGE)
    } else {
        None
    }
}

/// A version record from its stored columns; tags whose JSON cannot be read
/// are empty.
pub fn version_from_row(
    id: String,
    page_id: String,
    title: String,
    body: String,
    tags_json: &str,
    created_at: String,
) -> (r: PageVersion)
    ensures
        r.id == id,
        r.page_id == page_id,
        r.title == title,
        r.body == body,
        r.created_at == created_at,
        r.tags.deep_view() == match json_parse_string_list(tags_json@) {
            Some(t) => t,
            None => Seq::<Seq<char>>::empty(),
        },
{
    PageVersion { id, page_id, title, body, tags: tags_from_json(tags_json), created_at }
}

} // verus!
