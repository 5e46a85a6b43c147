use ld_notion_backend::engine::backup::{
    archive_error, backup_archive, backup_entry_name, body_text, exported_pages, index_text, read_index, read_page_body,
    ZipEntry,
};
use ld_notion_backend::engine::image::{extension_or_png, image_extension, mime_for_path, mime_type, stored_image_name, upload_path};
use ld_notion_backend::engine::page::new_page;
use ld_notion_backend::engine::workspace::new_workspace;

#[test]
fn image_extension_defaults_to_png() {
    assert_eq!(image_extension("photo.JPG"), "JPG");
    assert_eq!(image_extension("archive.tar.gz"), "gz");
    assert_eq!(image_extension("noext"), "png");
    assert_eq!(image_extension(".hidden"), "png");
    assert_eq!(image_extension("dir.d/file"), "png");
}

#[test]
fn image_extension_of_slash_paths() {
    assert_eq!(image_extension("uploads/photo.gif"), "gif");
    assert_eq!(image_extension("/a/b.txt/"), "txt");
    assert_eq!(image_extension("a/b.c/."), "c");
    assert_eq!(image_extension("a//b.d//"), "d");
    assert_eq!(image_extension("a/.."), "png");
    assert_eq!(image_extension("x/.hidden"), "png");
    assert_eq!(image_extension("/"), "png");
    assert_eq!(image_extension("./"), "png");
    assert_eq!(image_extension("./a.e"), "e");
}

#[test]
fn image_extension_edge_names() {
    assert_eq!(image_extension("name."), "");
    assert_eq!(image_extension("..x"), "x");
    assert_eq!(image_extension(".a.b"), "b");
    assert_eq!(image_extension(".."), "png");
    assert_eq!(image_extension(""), "png");
}

#[test]
fn stored_name_and_path() {
    let name = stored_image_name("abc", "gif");
    assert_eq!(name, "abc.gif");
    assert_eq!(upload_path(&name), "uploads/abc.gif");
}

#[test]
fn mime_types() {
    assert_eq!(mime_type("jpg"), "image/jpeg");
    assert_eq!(mime_type("jpeg"), "image/jpeg");
    assert_eq!(mime_type("gif"), "image/gif");
    assert_eq!(mime_type("svg"), "image/svg+xml");
    assert_eq!(mime_type("webp"), "image/webp");
    assert_eq!(mime_type("png"), "image/png");
    assert_eq!(mime_type("JPG"), "image/png");
    assert_eq!(mime_for_path("/root/uploads/x.webp"), "image/webp");
    assert_eq!(mime_for_path("/root/uploads/x"), "image/png");
    assert_eq!(mime_for_path("photo.jpg"), "image/jpeg");
    assert_eq!(mime_for_path("diagram.svg"), "image/svg+xml");
    assert_eq!(mime_for_path("noext"), "image/png");
    assert_eq!(mime_for_path("/root/uploads/x.jpg"), "image/jpeg");
    assert_eq!(mime_for_path("data/storage/uploads/a.b.gif"), "image/gif");
    assert_eq!(mime_for_path("uploads/x.jpeg/"), "image/jpeg");
}

#[test]
fn backup_entries() {
    assert_eq!(backup_entry_name("my-page"), "pages/my-page.md");
    let a = new_page("a".to_string(), "ws", None, "A", 1, "T".to_string());
    let mut f = new_page("f".to_string(), "ws", None, "F", 2, "T".to_string());
    f.is_folder = true;
    let b = new_page("b".to_string(), "ws", None, "B", 3, "T".to_string());
    let out = exported_pages(&[a, f, b]);
    let ids: Vec<&str> = out.iter().map(|p| p.id.as_str()).collect();
    assert_eq!(ids, vec!["a", "b"]);
}

#[test]
fn workspace_record() {
    let w = new_workspace("id".to_string(), "名称", "/data/id".to_string(), "NOW".to_string());
    assert_eq!(w.id, "id");
    assert_eq!(w.name, "名称");
    assert_eq!(w.root_path, "/data/id");
    assert_eq!(w.created_at, "NOW");
    assert_eq!(w.updated_at, "NOW");
}

#[test]
fn extension_found_or_png() {
    assert_eq!(extension_or_png(Some("webp".to_string())), "webp");
    assert_eq!(extension_or_png(None), "png");
}

fn sample_archive() -> Vec<u8> {
    let pages = vec![
        ("alpha".to_string(), "# Alpha\n\nbody".to_string()),
        ("beta".to_string(), String::new()),
    ];
    backup_archive("{\"workspace\":1}", &pages, "[]").expect("archive")
}

#[test]
fn backup_archive_reads_back() {
    let data = sample_archive();
    assert_eq!(&data[0..4], b"PK\x03\x04");
    assert_eq!(archive_error(&data), None);
    assert_eq!(read_index(&data), Ok("[]".to_string()));
    assert_eq!(read_page_body(&data, "alpha"), Ok("# Alpha\n\nbody".to_string()));
    assert_eq!(read_page_body(&data, "beta"), Ok(String::new()));
    assert_eq!(read_page_body(&data, "gamma"), Ok(String::new()));
}

#[test]
fn backup_archive_is_deterministic() {
    assert_eq!(sample_archive(), sample_archive());
}

#[test]
fn backup_archive_refuses_repeated_slug() {
    let pages = vec![("a".to_string(), "1".to_string()), ("a".to_string(), "2".to_string())];
    assert!(backup_archive("{}", &pages, "[]").is_err());
}

#[test]
fn import_of_bytes_that_are_no_archive() {
    let data = b"not an archive at all";
    assert!(archive_error(data).is_some());
    assert!(read_index(data).is_err());
    assert!(read_page_body(data, "alpha").is_err());
}

#[test]
fn entry_outcomes() {
    assert_eq!(index_text(ZipEntry::Text("[]".to_string())), Ok("[]".to_string()));
    assert_eq!(index_text(ZipEntry::Missing("no such entry".to_string())), Err("no such entry".to_string()));
    assert_eq!(index_text(ZipEntry::Unreadable("bad utf-8".to_string())), Err("bad utf-8".to_string()));
    assert_eq!(index_text(ZipEntry::BadArchive("bad".to_string())), Err("bad".to_string()));
    assert_eq!(body_text(ZipEntry::Text("x".to_string())), Ok("x".to_string()));
    assert_eq!(body_text(ZipEntry::Missing("no such entry".to_string())), Ok(String::new()));
    assert_eq!(body_text(ZipEntry::Unreadable("bad utf-8".to_string())), Err("bad utf-8".to_string()));
    assert_eq!(body_text(ZipEntry::BadArchive("bad".to_string())), Err("bad".to_string()));
}
