//! The trash: what a deleted page leaves behind, and what its restore
//! writes back.
use vstd::prelude::*;

use crate::engine::page_tree::copy_string;
use crate::engine::tags::{json_parse_string_list, json_string_list, tags_from_json, tags_to_json, TagsEncodingError};
use crate::engine::{MarkdownContent, MarkdownView, Page};
use crate::text::push_chars;

verus! {

/// The body a page leaves in the trash.
pub open spec fn kept_body(page: Page, stored: Option<MarkdownView>) -> Seq<char> {
    if !page.is_folder && stored is Some {
        stored->0.body
    } else {
        Seq::empty()
    }
}

/// What a page leaves in the trash, given its stored file content: the body
/// and the JSON of the tags (which reads back as those tags), or an empty
/// body and `[]` for a folder or a page whose file could not be read.
pub open spec fn trash_payload_of(page: Page, stored: Option<MarkdownView>, body: Seq<char>, tags: Seq<char>) -> bool {
    &&& body == kept_body(page, stored)
    &&& if !page.is_folder && stored is Some {
        &&& tags == json_string_list(stored->0.tags)
        &&& json_parse_string_list(tags) == Some(stored->0.tags)
    } else {
        tags == seq!['[', ']']
    }
}

/// The body and the JSON tag list that a page leaves in the trash.
/// `stored` is the page's file content, if it could be read. A folder, or a
/// page whose file could not be read, leaves an empty body and `[]`.
pub fn trash_payload(page: &Page, stored: Option<MarkdownContent>) -> (r: Result<(String, String), TagsEncodingError>)
    ensures
        match r {
            Ok((body, tags)) => trash_payload_of(*page, opt_content_view(stored), body@, tags@),
            Err(_) => false,
        },
{
    if !page.is_folder {
        if let Some(content) = stored {
            let tags = tags_to_json(&content.tags)?;
            return Ok((content.body, tags));
        }
    }
    let mut empty_list = String::new();
    push_chars(&mut empty_list, &['[', ']']);
    Ok((String::new(), empty_list))
}

pub open spec fn opt_content_view(c: Option<MarkdownContent>) -> Option<MarkdownView> {
    match c {
        Some(c) => Some(c@),
        None => None,
    }
}

/// The file content that restoring `page` at time `now` writes from what
/// the trash kept: the page's title and creation time, the body, and the
/// tags read from their JSON (none when it cannot be read).
pub open spec fn restored_from(page: Page, body: Seq<char>, tags_json: Seq<char>, now: Seq<char>, r: MarkdownView) -> bool {
    &&& r.title == page.title@
    &&& r.created == page.created_at@
    &&& r.updated == now
    &&& r.body == body
    &&& r.tags == match json_parse_string_list(tags_json) {
        Some(t) => t,
        None => Seq::<Seq<char>>::empty(),
    }
}

/// The file content that restoring `page` writes at time `now`: the page's
/// title and creation time, the body and the tags kept in the trash (no
/// tags if their JSON cannot be read).
pub fn restored_content(page: &Page, body: String, tags_json: &str, now: &str) -> (r: MarkdownContent)
    ensures
        restored_from(*page, body@, tags_json@, now@, r@),
{
    let mut u = String::new();
    crate::text::push_str(&mut u, now);
    MarkdownContent {
        title: copy_string(&page.title),
        tags: tags_from_json(tags_json),
        created: copy_string(&page.created_at),
        updated: u,
        body,
    }
}

/// Law: restoring what a page that is not a folder left in the trash gives
/// back the body and the tags its file held when it was deleted, under the
/// page's title and creation time.
pub proof fn lemma_restore_gives_back(
    page: Page,
    stored: MarkdownView,
    body: Seq<char>,
    tags_json: Seq<char>,
    now: Seq<char>,
    restored: MarkdownView,
)
    requires
        !page.is_folder,
        trash_payload_of(page, Some(stored), body, tags_json),
        restored_from(page, body, tags_json, now, restored),
    ensures
        restored.body == stored.body,
        restored.tags == stored.tags,
        restored.title == page.title@,
        restored.created == page.created_at@,
        restored.updated == now,
{
}

} // verus!
