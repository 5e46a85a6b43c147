use ld_notion_backend::engine::page_tree::{assemble_tree, build_tree, check_descent, prune_tree};
use ld_notion_backend::engine::Page;

fn make_page(id: &str, title: &str) -> Page {
    Page {
        id: id.to_string(),
        workspace_id: "ws".to_string(),
        parent_id: None,
        title: title.to_string(),
        slug: title.to_lowercase(),
        file_path: format!("{title}.md"),
        sort_order: 0,
        is_folder: false,
        is_pinned: false,
        created_at: String::new(),
        updated_at: String::new(),
    }
}

#[test]
fn test_build_tree_flat() {
    let pages = vec![make_page("1", "A"), make_page("2", "B")];
    let tree = build_tree(&pages, None);
    assert_eq!(tree.len(), 2);
}

#[test]
fn test_build_tree_nested() {
    let mut parent = make_page("1", "父");
    let child = Page {
        parent_id: Some("1".to_string()),
        ..make_page("2", "子")
    };
    parent.parent_id = None;
    let pages = vec![parent, child];
    let tree = build_tree(&pages, None);
    assert_eq!(tree.len(), 1);
    assert_eq!(tree[0].children.len(), 1);
    assert_eq!(tree[0].children[0].page.title, "子");
}

#[test]
fn test_prune_tree() {
    let mut root = make_page("1", "根");
    root.parent_id = None;
    let child = Page {
        parent_id: Some("1".to_string()),
        ..make_page("2", "子")
    };
    let pages = vec![root, child];
    let tree = build_tree(&pages, None);

    let pruned = prune_tree(tree, 1);
    assert_eq!(pruned.len(), 1);
    assert!(pruned[0].children.is_empty());
}

#[test]
fn build_tree_keeps_list_order_and_subtree_root() {
    let a = make_page("a", "A");
    let b = Page { parent_id: Some("a".to_string()), ..make_page("b", "B") };
    let c = make_page("c", "C");
    let d = Page { parent_id: Some("a".to_string()), ..make_page("d", "D") };
    let e = Page { parent_id: Some("b".to_string()), ..make_page("e", "E") };
    let pages = vec![a, b, c, d, e];
    let top = build_tree(&pages, None);
    let titles: Vec<&str> = top.iter().map(|n| n.page.title.as_str()).collect();
    assert_eq!(titles, vec!["A", "C"]);
    let under_a: Vec<&str> = top[0].children.iter().map(|n| n.page.title.as_str()).collect();
    assert_eq!(under_a, vec!["B", "D"]);
    assert_eq!(top[0].children[0].children[0].page.title, "E");
    let below_b = build_tree(&pages, Some("b"));
    assert_eq!(below_b.len(), 1);
    assert_eq!(below_b[0].page.id, "e");
    assert!(build_tree(&pages, Some("zzz")).is_empty());
}

#[test]
fn prune_twice_is_prune_at_smaller_depth() {
    let a = make_page("a", "A");
    let b = Page { parent_id: Some("a".to_string()), ..make_page("b", "B") };
    let e = Page { parent_id: Some("b".to_string()), ..make_page("e", "E") };
    let pages = vec![a, b, e];
    let once = prune_tree(prune_tree(build_tree(&pages, None), 3), 2);
    let direct = prune_tree(build_tree(&pages, None), 2);
    assert_eq!(once.len(), direct.len());
    assert_eq!(once[0].children.len(), 1);
    assert!(once[0].children[0].children.is_empty());
    assert!(direct[0].children[0].children.is_empty());
    assert!(prune_tree(build_tree(&pages, None), 0).is_empty());
}

#[test]
fn assemble_tree_with_and_without_depth() {
    let a = make_page("a", "A");
    let b = Page { parent_id: Some("a".to_string()), ..make_page("b", "B") };
    let pages = vec![a, b];
    let full = assemble_tree(&pages, None);
    assert_eq!(full[0].children.len(), 1);
    let cut = assemble_tree(&pages, Some(1));
    assert!(cut[0].children.is_empty());
}

#[test]
fn descent_check_finds_circles_below_a_parent() {
    let a = Page { parent_id: Some("b".to_string()), ..make_page("a", "A") };
    let b = Page { parent_id: Some("a".to_string()), ..make_page("b", "B") };
    let r = make_page("r", "R");
    let pages = vec![a, b, r];
    assert!(check_descent(&pages, None));
    assert!(!check_descent(&pages, Some("a")));
    assert!(check_descent(&pages, Some("r")));
    let top = build_tree(&pages, None);
    assert_eq!(top.len(), 1);
    assert!(check_descent(&[], None));
}

fn height(nodes: &[ld_notion_backend::engine::PageTreeNode]) -> usize {
    nodes.iter().map(|n| 1 + height(&n.children)).max().unwrap_or(0)
}

#[test]
fn pruned_tree_is_no_deeper_than_the_cut() {
    let a = make_page("a", "A");
    let b = Page { parent_id: Some("a".to_string()), ..make_page("b", "B") };
    let e = Page { parent_id: Some("b".to_string()), ..make_page("e", "E") };
    let f = Page { parent_id: Some("e".to_string()), ..make_page("f", "F") };
    let pages = vec![a, b, e, f];
    assert_eq!(height(&build_tree(&pages, None)), 4);
    for d in -1..6 {
        let cut = prune_tree(build_tree(&pages, None), d);
        assert_eq!(height(&cut), (d.max(0) as usize).min(4));
    }
}

#[test]
fn children_listed_once_each_in_list_order() {
    let a = make_page("a", "A");
    let b = Page { parent_id: Some("a".to_string()), ..make_page("b", "B") };
    let c = make_page("c", "C");
    let d = Page { parent_id: Some("a".to_string()), ..make_page("d", "D") };
    let pages = vec![a, b, c, d];
    let below_a: Vec<String> = build_tree(&pages, Some("a")).iter().map(|n| n.page.id.clone()).collect();
    assert_eq!(below_a, vec!["b".to_string(), "d".to_string()]);
    let top: Vec<String> = build_tree(&pages, None).iter().map(|n| n.page.id.clone()).collect();
    assert_eq!(top, vec!["a".to_string(), "c".to_string()]);
}
