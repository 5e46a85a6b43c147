//! Workspace backups: which pages go into the archive, under what names,
//! the archive itself, and what an import reads back out of one.
use vstd::prelude::*;

use crate::engine::page_tree::{copy_page, copy_string};
use crate::engine::Page;
use crate::text::{push_chars, push_str, string_of};

verus! {

/// The archive entry of a page's file: `pages/<slug>.md`.
pub open spec fn entry_name_of(slug: Seq<char>) -> Seq<char> {
    seq!['p', 'a', 'g', 'e', 's', '/'] + slug + seq!['.', 'm', 'd']
}

/// The archive entry name for a page's slug.
pub fn backup_entry_name(slug: &str) -> (r: String)
    ensures
        r@ == entry_name_of(slug@),
{
    let mut out = String::new();
    push_chars(&mut out, &['p', 'a', 'g', 'e', 's', '/']);
    push_str(&mut out, slug);
    push_chars(&mut out, &['.', 'm', 'd']);
    out
}

/// The pages whose files go into a backup: all but the folders, in order.
pub open spec fn exported(pages: Seq<Page>) -> Seq<Page>
    decreases pages.len(),
{
    if pages.len() == 0 {
        Seq::empty()
    } else if pages.last().is_folder {
        exported(pages.drop_last())
    } else {
        exported(pages.drop_last()).push(pages.last())
    }
}

/// Law: the pages a backup exports are exactly the pages that are not
/// folders, in order, whatever their other fields.
pub proof fn lemma_exported_are_the_non_folders(pages: Seq<Page>)
    ensures
        exported(pages) == pages.filter(|p: Page| !p.is_folder),
    decreases pages.len(),
{
    reveal(Seq::filter);
    if pages.len() > 0 {
        lemma_exported_are_the_non_folders(pages.drop_last());
    }
}

/// The pages whose files go into a backup.
pub fn exported_pages(pages: &[Page]) -> (r: Vec<Page>)
    ensures
        r@ == exported(pages@),
{
    let mut out: Vec<Page> = Vec::new();
    let mut i: usize = 0;
    while i < pages.len()
        invariant
            i <= pages@.len(),
            out@ == exported(pages@.take(i as int)),
        decreases pages@.len() - i,
    {
        assert(pages@.take(i + 1).drop_last() =~= pages@.take(i as int));
        assert(pages@.take(i + 1).last() == pages@[i as int]);
        if !pages[i].is_folder {
            out.push(copy_page(&pages[i]));
        }
        i = i + 1;
    }
    assert(pages@.take(pages@.len() as int) =~= pages@);
    out
}

/// The name of the archive entry that holds the workspace's metadata.
pub open spec fn metadata_entry() -> Seq<char> {
    seq!['m', 'e', 't', 'a', 'd', 'a', 't', 'a', '.', 'j', 's', 'o', 'n']
}

/// The name of the archive entry that holds the page records.
pub open spec fn index_entry() -> Seq<char> {
    seq!['p', 'a', 'g', 'e', 's', '.', 'j', 's', 'o', 'n']
}

/// Archive entries (name, contents) as text.
pub open spec fn entry_texts(entries: Seq<(String, String)>) -> Seq<(Seq<char>, Seq<char>)> {
    entries.map_values(|e: (String, String)| (e.0@, e.1@))
}

/// The file entries of pages given as (slug, contents): each under
/// `pages/<slug>.md`.
pub open spec fn page_entries(pages: Seq<(Seq<char>, Seq<char>)>) -> Seq<(Seq<char>, Seq<char>)> {
    pages.map_values(|p: (Seq<char>, Seq<char>)| (entry_name_of(p.0), p.1))
}

/// The entries of a backup, in order: the metadata, each page's file, and
/// the page records.
pub open spec fn archive_entries(
    metadata: Seq<char>,
    pages: Seq<(Seq<char>, Seq<char>)>,
    index: Seq<char>,
) -> Seq<(Seq<char>, Seq<char>)> {
    seq![(metadata_entry(), metadata)] + page_entries(pages) + seq![(index_entry(), index)]
}

/// What `zip::ZipWriter` makes of a list of entries written in order with
/// deflate compression: the archive's bytes, or the text of the error it
/// stopped at.
pub uninterp spec fn zip_bytes_of(entries: Seq<(Seq<char>, Seq<char>)>) -> Result<Seq<u8>, Seq<char>>;

/// A written archive, or the error, as plain values.
pub open spec fn archive_result(r: Result<Vec<u8>, String>) -> Result<Seq<u8>, Seq<char>> {
    match r {
        Ok(b) => Ok(b@),
        Err(m) => Err(m@),
    }
}

/// `zip::ZipWriter` over an in-memory buffer: `start_file` and `write_all`
/// for each entry in order with `SimpleFileOptions` and deflate
/// compression, then `finish`. The contract names the outcome
/// (`zip_bytes_of`) as a function of the entries alone: with the crate's
/// `time` feature off, every entry is stamped with the fixed date
/// 1980-01-01, and nothing else the writer records comes from outside its
/// arguments. The outcome itself (for instance the error on a repeated
/// entry name) is left to the crate.
#[verifier::external_body]
fn zip_archive(entries: &Vec<(String, String)>) -> (r: Result<Vec<u8>, String>)
    ensures
        archive_result(r) == zip_bytes_of(entry_texts(entries@)),
{
    let mut buf = std::io::Cursor::new(Vec::new());
    let mut zip = zip::ZipWriter::new(&mut buf);
    let options = zip::write::SimpleFileOptions::default().compression_method(zip::CompressionMethod::Deflated);
    for (name, body) in entries {
        zip.start_file(name.as_str(), options).map_err(|e| e.to_string())?;
        std::io::Write::write_all(&mut zip, body.as_bytes()).map_err(|e| e.to_string())?;
    }
    zip.finish().map_err(|e| e.to_string())?;
    Ok(buf.into_inner())
}

/// A `String` holding the text of `s`.
fn owned(s: &str) -> (r: String)
    ensures
        r@ == s@,
{
    let mut out = String::new();
    push_str(&mut out, s);
    out
}

/// The backup archive of a workspace: `metadata.json` with
/// `metadata_json`, then `pages/<slug>.md` with the contents of each page
/// given as (slug, contents), in order, then `pages.json` with
/// `pages_json`.
pub fn backup_archive(metadata_json: &str, pages: &Vec<(String, String)>, pages_json: &str) -> (r: Result<Vec<u8>, String>)
    ensures
        archive_result(r) == zip_bytes_of(
            archive_entries(metadata_json@, entry_texts(pages@), pages_json@),
        ),
{
    let mut entries: Vec<(String, String)> = Vec::new();
    entries.push((string_of(&['m', 'e', 't', 'a', 'd', 'a', 't', 'a', '.', 'j', 's', 'o', 'n']), owned(metadata_json)));
    let mut i: usize = 0;
    while i < pages.len()
        invariant
            i <= pages@.len(),
            entry_texts(entries@) == seq![(metadata_entry(), metadata_json@)] + page_entries(
                entry_texts(pages@).take(i as int),
            ),
        decreases pages@.len() - i,
    {
        let name = backup_entry_name(pages[i].0.as_str());
        let body = copy_string(&pages[i].1);
        let ghost before = entries@;
        entries.push((name, body));
        assert(entries@ =~= before.push((name, body)));
        assert(entry_texts(pages@).take(i + 1) =~= entry_texts(pages@).take(i as int).push(
            (pages@[i as int].0@, pages@[i as int].1@),
        ));
        assert(entry_texts(entries@) =~= entry_texts(before).push((name@, body@)));
        assert(page_entries(entry_texts(pages@).take(i + 1)) =~= page_entries(
            entry_texts(pages@).take(i as int),
        ).push((entry_name_of(pages@[i as int].0@), pages@[i as int].1@)));
        i = i + 1;
    }
    assert(entry_texts(pages@).take(pages@.len() as int) =~= entry_texts(pages@));
    let ghost before = entries@;
    let index = (string_of(&['p', 'a', 'g', 'e', 's', '.', 'j', 's', 'o', 'n']), owned(pages_json));
    entries.push(index);
    assert(entry_texts(entries@) =~= entry_texts(before).push((index_entry(), pages_json@)));
    assert(entry_texts(entries@) =~= archive_entries(metadata_json@, entry_texts(pages@), pages_json@));
    zip_archive(&entries)
}

/// What reading one entry of an archive as text came to.
pub enum ZipEntry {
    /// The entry's text.
    Text(String),
    /// The entry was found but could not be read as UTF-8 text; the error.
    Unreadable(String),
    /// Looking the entry up by its name failed (most often: the archive has
    /// no entry of that name); the error.
    Missing(String),
    /// The bytes could not be opened as an archive; the error.
    BadArchive(String),
}

/// A `ZipEntry` as plain values: the archive error outermost, then the
/// lookup error, then the read error, then the text.
pub open spec fn entry_outcome(e: ZipEntry) -> Result<Result<Result<Seq<char>, Seq<char>>, Seq<char>>, Seq<char>> {
    match e {
        ZipEntry::Text(t) => Ok(Ok(Ok(t@))),
        ZipEntry::Unreadable(m) => Ok(Ok(Err(m@))),
        ZipEntry::Missing(m) => Ok(Err(m@)),
        ZipEntry::BadArchive(m) => Err(m@),
    }
}

/// What `zip::ZipArchive::new` over the bytes, then `by_name(name)`, then
/// `read_to_string` of the entry come to.
pub uninterp spec fn zip_entry_of(data: Seq<u8>, name: Seq<char>) -> Result<Result<Result<Seq<char>, Seq<char>>, Seq<char>>, Seq<char>>;

/// `zip::ZipArchive::new` over `data`, `by_name(name)` and `read_to_string`:
/// each step's error is kept as its text. Reading an archive held in memory
/// depends on its bytes and the name alone, so the contract names the
/// outcome (`zip_entry_of`); which outcome a given archive gives is left to
/// the crate.
#[verifier::external_body]
fn zip_entry_text(data: &[u8], name: &str) -> (r: ZipEntry)
    ensures
        entry_outcome(r) == zip_entry_of(data@, name@),
{
    let mut archive = match zip::ZipArchive::new(std::io::Cursor::new(data)) {
        Ok(a) => a,
        Err(e) => return ZipEntry::BadArchive(e.to_string()),
    };
    let mut file = match archive.by_name(name) {
        Ok(f) => f,
        Err(e) => return ZipEntry::Missing(e.to_string()),
    };
    let mut text = String::new();
    match std::io::Read::read_to_string(&mut file, &mut text) {
        Ok(_) => ZipEntry::Text(text),
        Err(e) => ZipEntry::Unreadable(e.to_string()),
    }
}

/// The error of an archive that cannot be opened, if it cannot.
pub open spec fn archive_error_of(e: Result<Result<Result<Seq<char>, Seq<char>>, Seq<char>>, Seq<char>>) -> Option<Seq<char>> {
    match e {
        Err(m) => Some(m),
        Ok(_) => None,
    }
}

/// The page records' text read from an archive: the entry's text, or the
/// error of whichever step failed.
pub open spec fn index_of(e: Result<Result<Result<Seq<char>, Seq<char>>, Seq<char>>, Seq<char>>) -> Result<Seq<char>, Seq<char>> {
    match e {
        Ok(Ok(Ok(t))) => Ok(t),
        Ok(Ok(Err(m))) => Err(m),
        Ok(Err(m)) => Err(m),
        Err(m) => Err(m),
    }
}

/// A page's contents read from an archive: the entry's text, empty when
/// looking the entry up fails, or the error of opening the archive or of
/// reading the entry.
pub open spec fn body_of(e: Result<Result<Result<Seq<char>, Seq<char>>, Seq<char>>, Seq<char>>) -> Result<Seq<char>, Seq<char>> {
    match e {
        Ok(Ok(Ok(t))) => Ok(t),
        Ok(Ok(Err(m))) => Err(m),
        Ok(Err(_)) => Ok(Seq::empty()),
        Err(m) => Err(m),
    }
}

/// A text or an error, as plain values.
pub open spec fn text_result(r: Result<String, String>) -> Result<Seq<char>, Seq<char>> {
    match r {
        Ok(t) => Ok(t@),
        Err(m) => Err(m@),
    }
}

/// The page records' text from the outcome of reading `pages.json`.
pub fn index_text(e: ZipEntry) -> (r: Result<String, String>)
    ensures
        text_result(r) == index_of(entry_outcome(e)),
{
    match e {
        ZipEntry::Text(t) => Ok(t),
        ZipEntry::Unreadable(m) => Err(m),
        ZipEntry::Missing(m) => Err(m),
        ZipEntry::BadArchive(m) => Err(m),
    }
}

/// A page's contents from the outcome of reading its entry: a missing entry
/// gives an empty page.
pub fn body_text(e: ZipEntry) -> (r: Result<String, String>)
    ensures
        text_result(r) == body_of(entry_outcome(e)),
{
    match e {
        ZipEntry::Text(t) => Ok(t),
        ZipEntry::Unreadable(m) => Err(m),
        ZipEntry::Missing(_) => Ok(String::new()),
        ZipEntry::BadArchive(m) => Err(m),
    }
}

/// The error of bytes that cannot be opened as an archive, `None` when they
/// can.
pub fn archive_error(data: &[u8]) -> (r: Option<String>)
    ensures
        match r {
            Some(m) => archive_error_of(zip_entry_of(data@, index_entry())) == Some(m@),
            None => archive_error_of(zip_entry_of(data@, index_entry())) is None,
        },
{
    let name = string_of(&['p', 'a', 'g', 'e', 's', '.', 'j', 's', 'o', 'n']);
    match zip_entry_text(data, name.as_str()) {
        ZipEntry::BadArchive(m) => Some(m),
        _ => None,
    }
}

/// The text of an archive's `pages.json`, or the error of opening the
/// archive, finding the entry or reading it.
pub fn read_index(data: &[u8]) -> (r: Result<String, String>)
    ensures
        text_result(r) == index_of(zip_entry_of(data@, index_entry())),
{
    let name = string_of(&['p', 'a', 'g', 'e', 's', '.', 'j', 's', 'o', 'n']);
    index_text(zip_entry_text(data, name.as_str()))
}

/// The contents of a page's file `pages/<slug>.md` in an archive: empty when
/// there is no such entry, an error when the archive or the entry cannot be
/// read.
pub fn read_page_body(data: &[u8], slug: &str) -> (r: Result<String, String>)
    ensures
        text_result(r) == body_of(zip_entry_of(data@, entry_name_of(slug@))),
{
    let name = backup_entry_name(slug);
    body_text(zip_entry_text(data, name.as_str()))
}

} // verus!
