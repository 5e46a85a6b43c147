use ld_notion_backend::engine::page::new_page;
use ld_notion_backend::engine::tags::{join_tags, tags_from_json, tags_to_json};
use ld_notion_backend::engine::trash::{restored_content, trash_payload};
use ld_notion_backend::engine::version::{excess_versions, version_from_row, MAX_VERSIONS_PER_PAGE};
use ld_notion_backend::engine::MarkdownContent;

fn strings(v: &[&str]) -> Vec<String> {
    v.iter().map(|s| s.to_string()).collect()
}

#[test]
fn tags_json_both_ways() {
    let json = tags_to_json(&strings(&["a", "b\"c"])).ok().unwrap();
    assert_eq!(json, "[\"a\",\"b\\\"c\"]");
    assert_eq!(tags_from_json(&json), strings(&["a", "b\"c"]));
    assert_eq!(tags_to_json(&vec![]).ok().unwrap(), "[]");
    assert!(tags_from_json("not json").is_empty());
    assert!(tags_from_json("{\"a\": 1}").is_empty());
}

#[test]
fn tags_joined_for_the_index() {
    assert_eq!(join_tags(&strings(&["rust", "mcp", "x y"])), "rust, mcp, x y");
    assert_eq!(join_tags(&strings(&["one"])), "one");
    assert_eq!(join_tags(&vec![]), "");
}

#[test]
fn payload_of_folder_page_and_unreadable_file() {
    let mut folder = new_page("f".to_string(), "ws", None, "F", 1, "T".to_string());
    folder.is_folder = true;
    let stored = MarkdownContent {
        title: "F".to_string(),
        tags: strings(&["x"]),
        created: "T".to_string(),
        updated: "T".to_string(),
        body: "body".to_string(),
    };
    let (b, t) = trash_payload(&folder, Some(stored)).ok().unwrap();
    assert_eq!((b.as_str(), t.as_str()), ("", "[]"));

    let page = new_page("p".to_string(), "ws", None, "P", 1, "T".to_string());
    let (b, t) = trash_payload(&page, None).ok().unwrap();
    assert_eq!((b.as_str(), t.as_str()), ("", "[]"));

    let stored = MarkdownContent {
        title: "P".to_string(),
        tags: strings(&["x", "y"]),
        created: "T".to_string(),
        updated: "T".to_string(),
        body: "content".to_string(),
    };
    let (b, t) = trash_payload(&page, Some(stored)).ok().unwrap();
    assert_eq!(b, "content");
    assert_eq!(t, "[\"x\",\"y\"]");
}

#[test]
fn restore_writes_back_kept_body_and_tags() {
    let page = new_page("p".to_string(), "ws", None, "Title", 1, "CREATED".to_string());
    let c = restored_content(&page, "kept".to_string(), "[\"a\",\"b\"]", "NOW");
    assert_eq!(c.title, "Title");
    assert_eq!(c.created, "CREATED");
    assert_eq!(c.updated, "NOW");
    assert_eq!(c.body, "kept");
    assert_eq!(c.tags, strings(&["a", "b"]));
    let d = restored_content(&page, String::new(), "garbage", "NOW");
    assert!(d.tags.is_empty());
}

#[test]
fn old_versions_beyond_the_limit() {
    assert_eq!(MAX_VERSIONS_PER_PAGE, 50);
    assert_eq!(excess_versions(0), None);
    assert_eq!(excess_versions(50), None);
    assert_eq!(excess_versions(51), Some(1));
    assert_eq!(excess_versions(75), Some(25));
}

#[test]
fn version_record_reads_tags() {
    let v = version_from_row(
        "v".to_string(),
        "p".to_string(),
        "t".to_string(),
        "b".to_string(),
        "[\"k\"]",
        "c".to_string(),
    );
    assert_eq!(v.tags, strings(&["k"]));
    assert_eq!((v.id.as_str(), v.page_id.as_str(), v.title.as_str(), v.body.as_str()), ("v", "p", "t", "b"));
    assert_eq!(v.created_at, "c");
    let w = version_from_row(String::new(), String::new(), String::new(), String::new(), "[1]", String::new());
    assert!(w.tags.is_empty());
}

#[test]
fn tags_json_escapes() {
    assert_eq!(tags_to_json(&strings(&[])).ok().unwrap(), "[]");
    let t = strings(&["a\"b", "c\\d", "\u{8}\t\n\u{c}\r", "\u{1}\u{1f}", "é/\u{7f}"]);
    assert_eq!(
        tags_to_json(&t).ok().unwrap(),
        "[\"a\\\"b\",\"c\\\\d\",\"\\b\\t\\n\\f\\r\",\"\\u0001\\u001f\",\"é/\u{7f}\"]"
    );
}

#[test]
fn trash_then_restore_gives_back_body_and_tags() {
    let page = new_page("p".to_string(), "ws", None, "Title", 1, "CREATED".to_string());
    let stored = MarkdownContent {
        title: "Old".to_string(),
        tags: strings(&["x", "q\"uote", ""]),
        created: "C".to_string(),
        updated: "U".to_string(),
        body: "the body\n".to_string(),
    };
    let (body, tags) = trash_payload(&page, Some(stored)).ok().unwrap();
    let back = restored_content(&page, body, &tags, "NOW");
    assert_eq!(back.body, "the body\n");
    assert_eq!(back.tags, strings(&["x", "q\"uote", ""]));
    assert_eq!(back.title, "Title");
}
