//! The verified core of the LD-Notion knowledge-base backend: the Markdown
//! frontmatter format, the page tree, slugs and file names, search queries,
//! request checks, configuration, workspace backup archives and the MCP
//! protocol decisions.
use vstd::prelude::*;

pub mod api;
pub mod config;
pub mod db;
pub mod engine;
pub mod mcp;
pub mod search;
pub mod text;

pub use api::{
    default_limit, default_mode, default_recent_limit, CreatePageReq, CreateWorkspaceReq, ImportBackupReq,
    ImportPageReq, MovePageReq, RecentQuery, RenamePageReq, RenameWorkspaceReq, ReorderReq, SearchQuery,
    UpdatePageReq, UpdateTagsReq, UploadQuery,
};
