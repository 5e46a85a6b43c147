//! Uploaded images: the stored file name, its path and its MIME type.
use vstd::prelude::*;

use crate::text::{lacks, push_chars, push_str, str_is, string_of};

verus! {

/// The index of the last `c` in `s`, if `c` occurs in it.
pub open spec fn last_index_of(s: Seq<char>, c: char) -> Option<int>
    decreases s.len(),
{
    if s.len() == 0 {
        None
    } else if s.last() == c {
        Some(s.len() - 1)
    } else {
        last_index_of(s.drop_last(), c)
    }
}

/// The extension of a file name as `Path::extension` documents it: `None`
/// when the name has no `.`, or when its only `.` is its first character;
/// otherwise the part after the last `.`.
pub open spec fn documented_extension(name: Seq<char>) -> Option<Seq<char>> {
    match last_index_of(name, '.') {
        None => None,
        Some(k) => if k == 0 {
            None
        } else {
            Some(name.skip(k + 1))
        },
    }
}

/// A path that every platform reads the same way: it holds no `\` and no
/// `:`, and does not begin with `//`, so `/` is its only separator and it
/// has no drive or network prefix.
pub open spec fn slash_path(path: Seq<char>) -> bool {
    &&& lacks(path, '\\')
    &&& lacks(path, ':')
    &&& !(path.len() >= 2 && path[0] == '/' && path[1] == '/')
}

/// `path` without the trailing `/` and `/.` pieces, which `Path::components`
/// skips.
pub open spec fn without_trailing_dots(path: Seq<char>) -> Seq<char>
    decreases path.len(),
{
    if path.len() > 0 && path.last() == '/' {
        without_trailing_dots(path.drop_last())
    } else if path.len() >= 2 && path.last() == '.' && path[path.len() - 2] == '/' {
        without_trailing_dots(path.drop_last().drop_last())
    } else {
        path
    }
}

/// The text after the last `/` of `path`; all of it when it has none.
pub open spec fn last_piece(path: Seq<char>) -> Seq<char> {
    match last_index_of(path, '/') {
        None => path,
        Some(k) => path.skip(k + 1),
    }
}

/// The file name of a `/`-separated path as `Path::file_name` documents it:
/// the path's last component, none when that is the root (nothing left),
/// `.` or `..`.
pub open spec fn slash_path_file_name(path: Seq<char>) -> Option<Seq<char>> {
    let name = last_piece(without_trailing_dots(path));
    if name.len() == 0 || name == seq!['.'] || name == seq!['.', '.'] {
        None
    } else {
        Some(name)
    }
}

/// The extension of a `/`-separated path: that of its file name.
pub open spec fn slash_path_extension(path: Seq<char>) -> Option<Seq<char>> {
    match slash_path_file_name(path) {
        None => None,
        Some(name) => documented_extension(name),
    }
}

/// `Path::new(path).extension()` as text. Its documentation: the extension
/// is taken from the path's file name, its last component after repeated
/// `/`, a trailing `/` and `.` components are skipped (none when that
/// component is the root, `.` or `..`), and is the part after the name's
/// last `.`, with `None` when the name has no `.` or begins with its only
/// `.`. For a path that every platform reads the same way (`slash_path`) the
/// contract states exactly that. Paths with `\`, `:` or a leading `//` are
/// split differently on Windows (separators, drive and network prefixes);
/// for them the contract states only that the extension holds no `.`.
#[verifier::external_body]
fn file_extension(path: &str) -> (r: Option<String>)
    ensures
        r matches Some(e) ==> lacks(e@, '.'),
        slash_path(path@) ==> match r {
            Some(e) => slash_path_extension(path@) == Some(e@),
            None => slash_path_extension(path@) is None,
        },
{
    std::path::Path::new(path).extension().and_then(|e| e.to_str()).map(|e| e.to_string())
}

/// The extension an image is stored or served under: the one found, or
/// `png` when there is none.
pub fn extension_or_png(ext: Option<String>) -> (r: String)
    ensures
        r@ == match ext {
            Some(e) => e@,
            None => seq!['p', 'n', 'g'],
        },
{
    match ext {
        Some(e) => e,
        None => string_of(&['p', 'n', 'g']),
    }
}

/// The extension of an image's file name, `png` when it has none: for a
/// `/`-separated path, the part of its file name after the last `.` (that
/// `.` not being the name's first character), or `png`.
pub fn image_extension(path: &str) -> (r: String)
    ensures
        lacks(r@, '.'),
        slash_path(path@) ==> r@ == match slash_path_extension(path@) {
            Some(e) => e,
            None => seq!['p', 'n', 'g'],
        },
{
    let ext = file_extension(path);
    let r = extension_or_png(ext);
    assert(lacks(seq!['p', 'n', 'g'], '.'));
    r
}

/// The name an uploaded image is stored under: its id, `.`, its extension.
pub fn stored_image_name(id: &str, ext: &str) -> (r: String)
    ensures
        r@ == id@ + seq!['.'] + ext@,
{
    let mut out = String::new();
    push_str(&mut out, id);
    push_chars(&mut out, &['.']);
    push_str(&mut out, ext);
    out
}

/// The path, relative to the storage root, of a stored image.
pub fn upload_path(saved_name: &str) -> (r: String)
    ensures
        r@ == seq!['u', 'p', 'l', 'o', 'a', 'd', 's', '/'] + saved_name@,
{
    let mut out = String::new();
    push_chars(&mut out, &['u', 'p', 'l', 'o', 'a', 'd', 's', '/']);
    push_str(&mut out, saved_name);
    out
}

/// The MIME type served for an extension.
pub open spec fn mime_of(ext: Seq<char>) -> Seq<char> {
    if ext == seq!['j', 'p', 'g'] || ext == seq!['j', 'p', 'e', 'g'] {
        seq!['i', 'm', 'a', 'g', 'e', '/', 'j', 'p', 'e', 'g']
    } else if ext == seq!['g', 'i', 'f'] {
        seq!['i', 'm', 'a', 'g', 'e', '/', 'g', 'i', 'f']
    } else if ext == seq!['s', 'v', 'g'] {
        seq!['i', 'm', 'a', 'g', 'e', '/', 's', 'v', 'g', '+', 'x', 'm', 'l']
    } else if ext == seq!['w', 'e', 'b', 'p'] {
        seq!['i', 'm', 'a', 'g', 'e', '/', 'w', 'e', 'b', 'p']
    } else {
        seq!['i', 'm', 'a', 'g', 'e', '/', 'p', 'n', 'g']
    }
}

/// The MIME type of an extension.
pub fn mime_type(ext: &str) -> (r: String)
    ensures
        r@ == mime_of(ext@),
{
    if str_is(ext, &['j', 'p', 'g']) || str_is(ext, &['j', 'p', 'e', 'g']) {
        string_of(&['i', 'm', 'a', 'g', 'e', '/', 'j', 'p', 'e', 'g'])
    } else if str_is(ext, &['g', 'i', 'f']) {
        string_of(&['i', 'm', 'a', 'g', 'e', '/', 'g', 'i', 'f'])
    } else if str_is(ext, &['s', 'v', 'g']) {
        string_of(&['i', 'm', 'a', 'g', 'e', '/', 's', 'v', 'g', '+', 'x', 'm', 'l'])
    } else if str_is(ext, &['w', 'e', 'b', 'p']) {
        string_of(&['i', 'm', 'a', 'g', 'e', '/', 'w', 'e', 'b', 'p'])
    } else {
        string_of(&['i', 'm', 'a', 'g', 'e', '/', 'p', 'n', 'g'])
    }
}

/// The MIME type an image file is served with, from its path: that of the
/// path's extension, `png` when it has none.
pub fn mime_for_path(path: &str) -> (r: String)
    ensures
        exists|e: Seq<char>| r@ == mime_of(e),
        slash_path(path@) ==> r@ == mime_of(
            match slash_path_extension(path@) {
                Some(e) => e,
                None => seq!['p', 'n', 'g'],
            },
        ),
{
    let ext = image_extension(path);
    mime_type(ext.as_str())
}

} // verus!
