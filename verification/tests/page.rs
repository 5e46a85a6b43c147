use ld_notion_backend::engine::page::{content_with_body, initial_content, new_page, page_file_name, title_to_slug};
use ld_notion_backend::engine::MarkdownContent;

#[test]
fn slug_lowercases_and_dashes() {
    assert_eq!(title_to_slug("Hello World!"), "hello-world");
    assert_eq!(title_to_slug("  --Rust 异步--  "), "rust-异步");
    assert_eq!(title_to_slug("A  B"), "a--b");
    assert_eq!(title_to_slug("!!!"), "");
    assert_eq!(title_to_slug(""), "");
}

#[test]
fn slug_never_begins_or_ends_with_dash() {
    for t in ["-x-", "??Rust??", "测试 页面", " a b c "] {
        let s = title_to_slug(t);
        assert!(!s.starts_with('-') && !s.ends_with('-'), "{s}");
        assert!(s.chars().all(|c| c == '-' || c.is_alphanumeric()));
    }
}

#[test]
fn file_name_appends_md() {
    assert_eq!(page_file_name("rust-异步"), "rust-异步.md");
    assert_eq!(page_file_name(""), ".md");
}

#[test]
fn new_page_record() {
    let p = new_page("id-1".to_string(), "ws", Some("parent"), "My Page", 3, "T".to_string());
    assert_eq!(p.id, "id-1");
    assert_eq!(p.workspace_id, "ws");
    assert_eq!(p.parent_id.as_deref(), Some("parent"));
    assert_eq!(p.title, "My Page");
    assert_eq!(p.slug, "my-page");
    assert_eq!(p.file_path, "my-page.md");
    assert_eq!(p.sort_order, 3);
    assert!(!p.is_folder);
    assert!(!p.is_pinned);
    assert_eq!(p.created_at, "T");
    assert_eq!(p.updated_at, "T");
    let q = new_page("id-2".to_string(), "ws", None, "x", 1, "T".to_string());
    assert!(q.parent_id.is_none());
}

#[test]
fn initial_content_of_new_page() {
    let c = initial_content("标题", "2026-01-01");
    assert_eq!(c.title, "标题");
    assert!(c.tags.is_empty());
    assert_eq!(c.created, "2026-01-01");
    assert_eq!(c.updated, "2026-01-01");
    assert_eq!(c.body, "");
}

#[test]
fn body_update_keeps_or_rebuilds_frontmatter() {
    let page = new_page("id".to_string(), "ws", None, "Page", 1, "C0".to_string());
    let existing = MarkdownContent {
        title: "Old".to_string(),
        tags: vec!["t".to_string()],
        created: "C1".to_string(),
        updated: "U1".to_string(),
        body: "old body".to_string(),
    };
    let c = content_with_body(Some(existing), &page, "new body", "NOW");
    assert_eq!(c.title, "Old");
    assert_eq!(c.tags, vec!["t"]);
    assert_eq!(c.created, "C1");
    assert_eq!(c.updated, "NOW");
    assert_eq!(c.body, "new body");
    let d = content_with_body(None, &page, "b", "NOW");
    assert_eq!(d.title, "Page");
    assert!(d.tags.is_empty());
    assert_eq!(d.created, "C0");
    assert_eq!(d.updated, "NOW");
    assert_eq!(d.body, "b");
}

#[test]
fn slug_keeps_the_title_letters() {
    for t in ["Hello, World!", "  --Rust 异步--  ", "Ab-12_cd", "!!!", "Ünïcode Title"] {
        let s = title_to_slug(t);
        let from_slug: String = s.chars().filter(|c| c.is_alphanumeric()).collect();
        let from_title: String = t.to_lowercase().chars().filter(|c| c.is_alphanumeric()).collect();
        assert_eq!(from_slug, from_title);
    }
}

#[test]
fn slug_is_its_own_slug() {
    for t in ["Hello, World!", "A  B", "--x--", "Rust 2024 Edition", "  --Rust 异步--  "] {
        let s = title_to_slug(t);
        assert_eq!(title_to_slug(&s), s);
    }
}
