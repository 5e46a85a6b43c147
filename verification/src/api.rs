//! The HTTP API's request bodies and the checks and decisions its handlers
//! make before and after touching storage.
use vstd::prelude::*;

use crate::text::{collect_range, find, find_in, lemma_trim_idempotent, string_from, to_chars, trim, trim_range};

verus! {

pub struct CreateWorkspaceReq {
    pub name: String,
}

pub struct RenameWorkspaceReq {
    pub name: String,
}

pub struct CreatePageReq {
    pub workspace_id: String,
    pub parent_id: Option<String>,
    pub title: String,
    pub is_folder: bool,
}

pub struct UpdatePageReq {
    pub body: String,
}

pub struct RenamePageReq {
    pub title: String,
}

pub struct MovePageReq {
    pub parent_id: Option<String>,
}

pub struct ImportPageReq {
    pub workspace_id: String,
    pub parent_id: Option<String>,
    pub title: String,
    pub body: String,
}

pub struct UpdateTagsReq {
    pub tags: Vec<String>,
}

pub struct SearchQuery {
    pub q: String,
    pub mode: String,
    pub limit: i32,
    pub offset: i32,
}

pub struct RecentQuery {
    pub limit: i32,
}

pub struct ReorderReq {
    pub page_ids: Vec<String>,
}

pub struct UploadQuery {
    pub filename: String,
}

pub struct ImportBackupReq {
    pub workspace_name: String,
}

/// The search mode when none is given.
pub fn default_mode() -> (r: String)
    ensures
        r@ == seq!['a', 'n', 'd'],
{
    crate::text::string_of(&['a', 'n', 'd'])
}

/// The number of search results when no limit is given.
pub fn default_limit() -> (r: i32)
    ensures
        r == 20,
{
    20
}

/// The number of recent pages when no limit is given.
pub fn default_recent_limit() -> (r: i32)
    ensures
        r == 10,
{
    10
}

/// A name or title as stored: trimmed, and refused (`None`) when nothing
/// is left.
pub fn required_text(s: &str) -> (r: Option<String>)
    ensures
        match r {
            Some(t) => t@ == trim(s@) && trim(s@).len() > 0,
            None => trim(s@).len() == 0,
        },
{
    let v = to_chars(s);
    let n = v.len();
    let (a, b) = trim_range(v.as_slice(), 0, n);
    assert(v@.subrange(0, n as int) =~= s@);
    if a == b {
        None
    } else {
        Some(collect_range(v.as_slice(), a, b))
    }
}

/// Law: a name or title that was accepted is accepted again, unchanged.
pub proof fn lemma_required_text_stable(s: Seq<char>)
    requires
        trim(s).len() > 0,
    ensures
        trim(trim(s)) == trim(s),
        trim(trim(s)).len() > 0,
{
    lemma_trim_idempotent(s);
}

/// The error when a workspace name is blank.
pub fn workspace_name_required() -> (r: String)
    ensures
        r@ == "工作区名称不能为空"@,
{
    string_from("工作区名称不能为空")
}

/// The error when a page title is blank.
pub fn page_title_required() -> (r: String)
    ensures
        r@ == "页面标题不能为空"@,
{
    string_from("页面标题不能为空")
}

/// The error when a page does not exist.
pub fn page_not_found() -> (r: String)
    ensures
        r@ == "page not found"@,
{
    string_from("page not found")
}

/// The parent a request names: an empty id means no parent.
pub fn requested_parent(parent_id: Option<String>) -> (r: Option<String>)
    ensures
        match parent_id {
            Some(p) => if p@.len() > 0 {
                r == Some(p)
            } else {
                r is None
            },
            None => r is None,
        },
{
    match parent_id {
        Some(p) => {
            if p.as_str().is_empty() {
                None
            } else {
                Some(p)
            }
        },
        None => None,
    }
}

/// The message a failed page creation reports: a foreign-key failure means
/// the workspace does not exist; any other message is passed on.
pub fn creation_error(msg: &str) -> (r: String)
    ensures
        r@ == if find(msg@, "FOREIGN KEY"@) is Some {
            "工作区不存在"@
        } else {
            msg@
        },
{
    let v = to_chars(msg);
    let key = to_chars("FOREIGN KEY");
    let n = v.len();
    assert(v@.subrange(0, n as int) =~= msg@);
    match find_in(v.as_slice(), 0, n, key.as_slice()) {
        Some(_) => string_from("工作区不存在"),
        None => string_from(msg),
    }
}

/// The sort order given to the `i`-th id of a reorder request: `i + 1`,
/// cut to 32 bits as `as i32` does.
pub fn sort_position(i: usize) -> (r: i32)
    requires
        i < usize::MAX,
    ensures
        r == (i + 1) as i32,
        i < i32::MAX ==> r == i + 1,
{
    (i + 1) as i32
}

} // verus!
