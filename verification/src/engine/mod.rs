//! The knowledge-base engine: workspaces, pages, the page tree and the
//! Markdown files that hold page content.
use vstd::prelude::*;

pub mod backup;
pub mod image;
pub mod markdown_io;
pub mod page;
pub mod page_tree;
pub mod tags;
pub mod trash;
pub mod version;
pub mod workspace;

verus! {

/// A workspace.
pub struct Workspace {
    pub id: String,
    pub name: String,
    pub root_path: String,
    pub created_at: String,
    pub updated_at: String,
}

/// A page record.
pub struct Page {
    pub id: String,
    pub workspace_id: String,
    pub parent_id: Option<String>,
    pub title: String,
    pub slug: String,
    pub file_path: String,
    pub sort_order: i32,
    pub is_folder: bool,
    pub is_pinned: bool,
    pub created_at: String,
    pub updated_at: String,
}

/// A node of the page tree: a page and the nodes of its children.
pub struct PageTreeNode {
    pub page: Page,
    pub children: Vec<PageTreeNode>,
}

/// The content of a Markdown file: frontmatter fields and body.
pub struct MarkdownContent {
    pub title: String,
    pub tags: Vec<String>,
    pub created: String,
    pub updated: String,
    pub body: String,
}

/// A page in the trash.
pub struct TrashItem {
    pub id: String,
    pub workspace_id: String,
    pub parent_id: Option<String>,
    pub title: String,
    pub is_folder: bool,
    pub original_created_at: String,
    pub original_updated_at: String,
    pub deleted_at: String,
}

/// The mathematical value of a `MarkdownContent`.
#[verifier::ext_equal]
pub struct MarkdownView {
    pub title: Seq<char>,
    pub tags: Seq<Seq<char>>,
    pub created: Seq<char>,
    pub updated: Seq<char>,
    pub body: Seq<char>,
}

impl View for MarkdownContent {
    type V = MarkdownView;

    open spec fn view(&self) -> MarkdownView {
        MarkdownView {
            title: self.title@,
            tags: self.tags.deep_view(),
            created: self.created@,
            updated: self.updated@,
            body: self.body@,
        }
    }
}

} // verus!
