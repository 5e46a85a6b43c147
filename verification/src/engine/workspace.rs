//! Workspaces: the record a new workspace gets.
use vstd::prelude::*;

use crate::engine::page_tree::copy_string;
use crate::engine::Workspace;
use crate::text::string_from;

verus! {

/// The record of a workspace created with id `id` at time `now`, whose
/// files live under `root_path`.
pub fn new_workspace(id: String, name: &str, root_path: String, now: String) -> (r: Workspace)
    ensures
        r.id == id,
        r.name@ == name@,
        r.root_path == root_path,
        r.created_at == now,
        r.updated_at@ == now@,
{
    let updated_at = copy_string(&now);
    Workspace { id, name: string_from(name), root_path, created_at: now, updated_at }
}

} // verus!
