use ld_notion_backend::api::{
    creation_error, page_not_found, page_title_required, requested_parent, required_text, sort_position,
    workspace_name_required,
};
use ld_notion_backend::db::missing_tables;
use ld_notion_backend::search::fts_query;
use ld_notion_backend::{default_limit, default_mode, default_recent_limit};

#[test]
fn query_defaults() {
    assert_eq!(default_mode(), "and");
    assert_eq!(default_limit(), 20);
    assert_eq!(default_recent_limit(), 10);
}

#[test]
fn blank_names_are_refused_and_others_trimmed() {
    assert_eq!(required_text(""), None);
    assert_eq!(required_text("   "), None);
    assert_eq!(required_text("\t\n\u{3000}"), None);
    assert_eq!(required_text("  测试工作区 "), Some("测试工作区".to_string()));
    assert_eq!(required_text("a b"), Some("a b".to_string()));
    assert!(workspace_name_required().contains("不能为空"));
    assert!(page_title_required().contains("不能为空"));
    assert_eq!(page_not_found(), "page not found");
}

#[test]
fn empty_parent_means_top_level() {
    assert_eq!(requested_parent(None), None);
    assert_eq!(requested_parent(Some(String::new())), None);
    assert_eq!(requested_parent(Some("p".to_string())), Some("p".to_string()));
}

#[test]
fn foreign_key_failure_means_missing_workspace() {
    assert_eq!(creation_error("FOREIGN KEY constraint failed"), "工作区不存在");
    assert_eq!(creation_error("disk full"), "disk full");
}

#[test]
fn reorder_positions_start_at_one() {
    assert_eq!(sort_position(0), 1);
    assert_eq!(sort_position(4), 5);
}

#[test]
fn fts_query_modes() {
    assert_eq!(fts_query("JavaScript 编程", "and"), "JavaScript AND 编程");
    assert_eq!(fts_query("  JavaScript   TypeScript ", "or"), "JavaScript OR TypeScript");
    assert_eq!(fts_query("a b", "other"), "a AND b");
    assert_eq!(fts_query("Tokio", "and"), "Tokio");
    assert_eq!(fts_query("   ", "or"), "");
}

#[test]
fn schema_check_names_missing_tables() {
    let have: Vec<String> = ["pages", "workspaces", "trash"].iter().map(|s| s.to_string()).collect();
    assert_eq!(missing_tables(&have), vec!["page_tree".to_string(), "fts_index".to_string()]);
    let all: Vec<String> =
        ["fts_index", "page_tree", "pages", "workspaces"].iter().map(|s| s.to_string()).collect();
    assert!(missing_tables(&all).is_empty());
}

#[test]
fn accepted_names_are_stable() {
    for s in ["  x  ", "名称", "\ta b\n"] {
        let once = required_text(s).unwrap();
        assert_eq!(required_text(&once), Some(once.clone()));
    }
}
