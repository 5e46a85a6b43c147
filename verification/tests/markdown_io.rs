use ld_notion_backend::engine::markdown_io::{parse, serialize};
use ld_notion_backend::engine::MarkdownContent;

#[test]
fn test_parse_frontmatter() {
    let md = "---\ntitle: \"测试页面\"\ntags: [\"rust\", \"mcp\"]\ncreated: 2026-05-07\nupdated: 2026-05-07\n---\nHello world";
    let content = parse(md);
    assert_eq!(content.title, "测试页面");
    assert_eq!(content.tags, vec!["rust", "mcp"]);
    assert_eq!(content.body, "Hello world");
}

#[test]
fn test_roundtrip() {
    let original = MarkdownContent {
        title: "测试".to_string(),
        tags: vec!["a".to_string()],
        created: "2026-01-01".to_string(),
        updated: "2026-01-01".to_string(),
        body: "正文内容".to_string(),
    };
    let serialized = serialize(&original);
    let parsed = parse(&serialized);
    assert_eq!(parsed.title, original.title);
    assert_eq!(parsed.tags, original.tags);
    assert_eq!(parsed.body, original.body);
}

#[test]
fn test_roundtrip_quoted_title() {
    let original = MarkdownContent {
        title: r#"Hello "World" Test"#.to_string(),
        tags: vec![],
        created: "2026-01-01".to_string(),
        updated: "2026-01-01".to_string(),
        body: "内容".to_string(),
    };
    let serialized = serialize(&original);
    assert!(serialized.contains(r#"Hello \"World\" Test"#));
    let parsed = parse(&serialized);
    assert_eq!(parsed.title, original.title);
}

#[test]
fn parse_without_frontmatter_keeps_trimmed_text() {
    let content = parse("  \n# Heading\nText");
    assert_eq!(content.title, "");
    assert!(content.tags.is_empty());
    assert_eq!(content.created, "");
    assert_eq!(content.updated, "");
    assert_eq!(content.body, "# Heading\nText");
}

#[test]
fn parse_unclosed_frontmatter_keeps_whole_text() {
    let text = "  ---\ntitle: \"x\"\nno end";
    let content = parse(text);
    assert_eq!(content.title, "");
    assert_eq!(content.body, text);
}

#[test]
fn parse_drops_empty_tags_and_ignores_bad_list() {
    let content = parse("---\ntags: [\"a\", \"\", b ]\n---\n");
    assert_eq!(content.tags, vec!["a", "b"]);
    let content = parse("---\ntags: a, b\n---\nbody");
    assert!(content.tags.is_empty());
    assert_eq!(content.body, "body");
}

#[test]
fn parse_later_line_wins_and_body_is_trimmed_at_start() {
    let content = parse("---\ntitle: first\ntitle: \"second\"\ncreated: \"2026\"\n---\n\n  body  ");
    assert_eq!(content.title, "second");
    assert_eq!(content.created, "2026");
    assert_eq!(content.body, "body  ");
}

#[test]
fn serialize_exact_text() {
    let c = MarkdownContent {
        title: "a\"b".to_string(),
        tags: vec!["x".to_string(), "y".to_string()],
        created: "c".to_string(),
        updated: "u".to_string(),
        body: "B".to_string(),
    };
    assert_eq!(
        serialize(&c),
        "---\ntitle: \"a\\\"b\"\ntags: [\"x\", \"y\"]\ncreated: c\nupdated: u\n---\nB"
    );
    let empty = MarkdownContent {
        title: String::new(),
        tags: vec![],
        created: String::new(),
        updated: String::new(),
        body: String::new(),
    };
    assert_eq!(serialize(&empty), "---\ntitle: \"\"\ntags: []\ncreated: \nupdated: \n---\n");
}

#[test]
fn roundtrip_law_on_full_content() {
    let original = MarkdownContent {
        title: "A -- b \\ \"c\" d".to_string(),
        tags: vec!["one".to_string(), " two ".to_string(), "三".to_string()],
        created: "2026-01-01T00:00:00+00:00".to_string(),
        updated: "2026-02-02".to_string(),
        body: "Body\n---\nwith a rule".to_string(),
    };
    let parsed = parse(&serialize(&original));
    assert_eq!(parsed.title, original.title);
    assert_eq!(parsed.tags, original.tags);
    assert_eq!(parsed.created, original.created);
    assert_eq!(parsed.updated, original.updated);
    assert_eq!(parsed.body, original.body);
}

#[test]
fn roundtrip_fails_for_title_ending_in_quote() {
    let original = MarkdownContent {
        title: "end\"".to_string(),
        tags: vec![],
        created: String::new(),
        updated: String::new(),
        body: String::new(),
    };
    let parsed = parse(&serialize(&original));
    assert_ne!(parsed.title, original.title);
}

#[test]
fn body_survives_even_with_awkward_title_and_tags() {
    let original = MarkdownContent {
        title: "line one\nline \"two\"".to_string(),
        tags: vec!["a,b".to_string(), "\"q\"".to_string(), String::new()],
        created: "  padded ".to_string(),
        updated: String::new(),
        body: "# Rust\n\nTokio --- async".to_string(),
    };
    let parsed = parse(&serialize(&original));
    assert_eq!(parsed.body, original.body);
}

#[test]
fn body_is_lost_when_a_field_holds_three_dashes() {
    let original = MarkdownContent {
        title: "a---b".to_string(),
        tags: vec![],
        created: String::new(),
        updated: String::new(),
        body: "text".to_string(),
    };
    let parsed = parse(&serialize(&original));
    assert_ne!(parsed.body, original.body);
    assert_eq!(parsed.title, "a");
}

#[test]
fn whitespace_matches_std_for_every_char() {
    for u in 0u32..=0x10FFFF {
        if let Some(c) = char::from_u32(u) {
            assert_eq!(ld_notion_backend::text::char_is_whitespace(c), c.is_whitespace(), "{u:#x}");
        }
    }
}

#[test]
fn parsed_body_is_a_final_part_of_the_text() {
    for text in [
        "plain body",
        "  \n# Heading\nText",
        "---\ntitle: \"x\"\n---\n\n  body  ",
        "---\nno closing mark",
        "---\n---",
        "",
    ] {
        let body = parse(text).body;
        assert!(text.ends_with(body.as_str()), "{text:?}");
    }
}
