//! Pages: the slug and file name of a title, and the records and file
//! contents that creating or editing a page produces.
use vstd::prelude::*;

use crate::engine::page_tree::copy_string;
use crate::engine::{MarkdownContent, Page};
use crate::text::{
    lemma_trim_matches_range, collect_range, push_chars, push_str, to_chars, trim_char_range, trim_end_char, trim_matches,
    trim_start_char,
};

verus! {

/// A character in the ASCII range.
pub open spec fn is_ascii_char(c: char) -> bool {
    (c as u32) < 128
}

/// A text made of ASCII characters only.
pub open spec fn is_ascii_text(s: Seq<char>) -> bool {
    forall|i: int| 0 <= i < s.len() ==> is_ascii_char(#[trigger] s[i])
}

/// `c` with an ASCII capital letter turned into its small letter.
pub open spec fn ascii_lower(c: char) -> char {
    if 'A' <= c && c <= 'Z' {
        ((c as u32) + 32) as char
    } else {
        c
    }
}

/// An ASCII letter or digit.
pub open spec fn ascii_alphanumeric(c: char) -> bool {
    ('a' <= c && c <= 'z') || ('A' <= c && c <= 'Z') || ('0' <= c && c <= '9')
}

/// What `str::to_lowercase` returns for a text that is not all ASCII.
pub uninterp spec fn unicode_lowercase(s: Seq<char>) -> Seq<char>;

/// What `char::is_alphanumeric` returns for a character outside ASCII.
pub uninterp spec fn unicode_alphanumeric(c: char) -> bool;

/// The lowercase form of a text: for ASCII text its capitals turned into
/// small letters, otherwise Unicode's lowercase mapping.
pub open spec fn lowercase(s: Seq<char>) -> Seq<char> {
    if is_ascii_text(s) {
        s.map_values(|c: char| ascii_lower(c))
    } else {
        unicode_lowercase(s)
    }
}

/// Whether a character is alphanumeric: in ASCII the letters and digits,
/// otherwise Unicode's Alphabetic and Numeric properties.
pub open spec fn alphanumeric(c: char) -> bool {
    if is_ascii_char(c) {
        ascii_alphanumeric(c)
    } else {
        unicode_alphanumeric(c)
    }
}

/// `str::to_lowercase`: each character replaced by its Unicode lowercase
/// mapping (a final capital sigma by `ς`). On ASCII text that mapping turns
/// `A`..`Z` into `a`..`z` and leaves every other character as it is, which
/// the contract states; for other text the result is named
/// (`unicode_lowercase`).
#[verifier::external_body]
fn to_lowercase(s: &str) -> (r: String)
    ensures
        is_ascii_text(s@) ==> r@ == s@.map_values(|c: char| ascii_lower(c)),
        !is_ascii_text(s@) ==> r@ == unicode_lowercase(s@),
{
    s.to_lowercase()
}

/// `char::is_alphanumeric`: whether `c` has Unicode's Alphabetic property
/// or a numeric general category (Nd, Nl, No). Among ASCII characters these
/// are exactly the letters and the digits, which the contract states; for
/// other characters the result is named (`unicode_alphanumeric`).
#[verifier::external_body]
fn is_alphanumeric(c: char) -> (r: bool)
    ensures
        is_ascii_char(c) ==> r == ascii_alphanumeric(c),
        !is_ascii_char(c) ==> r == unicode_alphanumeric(c),
{
    c.is_alphanumeric()
}

/// Every character that is not alphanumeric becomes `-`.
pub open spec fn dash_non_alphanumeric(s: Seq<char>) -> Seq<char> {
    s.map_values(|c: char| if alphanumeric(c) { c } else { '-' })
}

/// The slug of a title: lowercased, non-alphanumerics turned into `-`, and
/// the `-` at both ends removed.
pub open spec fn slug_of(title: Seq<char>) -> Seq<char> {
    trim_matches(dash_non_alphanumeric(lowercase(title)), '-')
}

/// The slug of a title.
pub fn title_to_slug(title: &str) -> (r: String)
    ensures
        r@ == slug_of(title@),
{
    let lower = to_lowercase(title);
    let cs = to_chars(lower.as_str());
    let mut mapped: Vec<char> = Vec::new();
    let mut i: usize = 0;
    while i < cs.len()
        invariant
            i <= cs@.len(),
            cs@ == lowercase(title@),
            mapped@ == dash_non_alphanumeric(cs@).take(i as int),
        decreases cs@.len() - i,
    {
        let c = cs[i];
        if is_alphanumeric(c) {
            mapped.push(c);
        } else {
            mapped.push('-');
        }
        assert(mapped@ =~= dash_non_alphanumeric(cs@).take(i + 1));
        i = i + 1;
    }
    assert(mapped@ =~= dash_non_alphanumeric(cs@));
    let (a, b) = trim_char_range(mapped.as_slice(), 0, mapped.len(), '-');
    assert(mapped@.subrange(0, mapped@.len() as int) =~= mapped@);
    collect_range(mapped.as_slice(), a, b)
}

/// The name of a page's Markdown file: its slug followed by `.md`.
pub open spec fn file_name_of(slug: Seq<char>) -> Seq<char> {
    slug + seq!['.', 'm', 'd']
}

/// The name of the Markdown file for a slug.
pub fn page_file_name(slug: &str) -> (r: String)
    ensures
        r@ == file_name_of(slug@),
{
    let mut out = String::new();
    push_str(&mut out, slug);
    push_chars(&mut out, &['.', 'm', 'd']);
    out
}

/// The record of a page being created with id `id` at time `now`: the slug
/// and file name follow from the title, the page is no folder and not
/// pinned, and both timestamps are `now`.
pub fn new_page(
    id: String,
    workspace_id: &str,
    parent_id: Option<&str>,
    title: &str,
    sort_order: i32,
    now: String,
) -> (r: Page)
    ensures
        r.id == id,
        r.workspace_id@ == workspace_id@,
        match parent_id {
            Some(p) => r.parent_id matches Some(q) && q@ == p@,
            None => r.parent_id is None,
        },
        r.title@ == title@,
        r.slug@ == slug_of(title@),
        r.file_path@ == file_name_of(slug_of(title@)),
        r.sort_order == sort_order,
        !r.is_folder,
        !r.is_pinned,
        r.created_at == now,
        r.updated_at@ == now@,
{
    let slug = title_to_slug(title);
    let file_path = page_file_name(slug.as_str());
    let mut ws = String::new();
    push_str(&mut ws, workspace_id);
    let parent = match parent_id {
        Some(p) => {
            let mut q = String::new();
            push_str(&mut q, p);
            Some(q)
        },
        None => None,
    };
    let mut t = String::new();
    push_str(&mut t, title);
    let updated_at = copy_string(&now);
    Page {
        id,
        workspace_id: ws,
        parent_id: parent,
        title: t,
        slug,
        file_path,
        sort_order,
        is_folder: false,
        is_pinned: false,
        created_at: now,
        updated_at,
    }
}

/// The file content of a new page: its title, no tags, both stamps `now`,
/// an empty body.
pub fn initial_content(title: &str, now: &str) -> (r: MarkdownContent)
    ensures
        r@.title == title@,
        r@.tags.len() == 0,
        r@.created == now@,
        r@.updated == now@,
        r@.body.len() == 0,
{
    let mut t = String::new();
    push_str(&mut t, title);
    let mut c = String::new();
    push_str(&mut c, now);
    let mut u = String::new();
    push_str(&mut u, now);
    let r = MarkdownContent { title: t, tags: Vec::new(), created: c, updated: u, body: String::new() };
    assert(r@.tags =~= Seq::<Seq<char>>::empty());
    r
}

/// The file content after the body of `page` is replaced by `body` at time
/// `now`. `existing` is what the page's file held, if it could be read; when
/// it could not, the page's title and creation time stand in and there are
/// no tags.
pub fn content_with_body(existing: Option<MarkdownContent>, page: &Page, body: &str, now: &str) -> (r:
    MarkdownContent)
    ensures
        r@.body == body@,
        r@.updated == now@,
        match existing {
            Some(c) => r@.title == c@.title && r@.tags == c@.tags && r@.created == c@.created,
            None => r@.title == page.title@ && r@.tags.len() == 0 && r@.created == page.created_at@,
        },
{
    let mut b = String::new();
    push_str(&mut b, body);
    let mut u = String::new();
    push_str(&mut u, now);
    match existing {
        Some(c) => MarkdownContent { title: c.title, tags: c.tags, created: c.created, updated: u, body: b },
        None => {
            let r = MarkdownContent {
                title: copy_string(&page.title),
                tags: Vec::new(),
                created: copy_string(&page.created_at),
                updated: u,
                body: b,
            };
            assert(r@.tags =~= Seq::<Seq<char>>::empty());
            r
        },
    }
}

/// Law: a slug is made of alphanumeric characters and `-` only, and neither
/// begins nor ends with `-`.
pub proof fn lemma_slug_shape(title: Seq<char>)
    ensures
        forall|i: int|
            0 <= i < slug_of(title).len() ==> #[trigger] slug_of(title)[i] == '-' || alphanumeric(
                slug_of(title)[i],
            ),
        slug_of(title).len() > 0 ==> slug_of(title)[0] != '-' && slug_of(title).last() != '-',
{
    let x = dash_non_alphanumeric(lowercase(title));
    let (a, b) = lemma_trim_matches_range(x, '-');
    assert forall|i: int| 0 <= i < slug_of(title).len() implies #[trigger] slug_of(title)[i] == '-'
        || alphanumeric(slug_of(title)[i]) by {
        assert(slug_of(title)[i] == x[a + i]);
    }
}

/// The alphanumeric characters of a text, in order.
pub open spec fn letters(s: Seq<char>) -> Seq<char>
    decreases s.len(),
{
    if s.len() == 0 {
        s
    } else if alphanumeric(s.last()) {
        letters(s.drop_last()).push(s.last())
    } else {
        letters(s.drop_last())
    }
}

proof fn lemma_letters_concat(a: Seq<char>, b: Seq<char>)
    ensures
        letters(a + b) == letters(a) + letters(b),
    decreases b.len(),
{
    if b.len() == 0 {
        assert(a + b =~= a);
        assert(letters(a) + letters(b) =~= letters(a));
    } else {
        assert((a + b).drop_last() =~= a + b.drop_last());
        lemma_letters_concat(a, b.drop_last());
        assert(letters(a + b) =~= letters(a) + letters(b));
    }
}

proof fn lemma_letters_dash(s: Seq<char>)
    ensures
        letters(dash_non_alphanumeric(s)) == letters(s),
    decreases s.len(),
{
    if s.len() > 0 {
        assert(dash_non_alphanumeric(s).drop_last() =~= dash_non_alphanumeric(s.drop_last()));
        lemma_letters_dash(s.drop_last());
    }
}

proof fn lemma_letters_trim_end(s: Seq<char>)
    ensures
        letters(trim_end_char(s, '-')) == letters(s),
    decreases s.len(),
{
    if s.len() > 0 && s.last() == '-' {
        lemma_letters_trim_end(s.drop_last());
    }
}

proof fn lemma_letters_trim_start(s: Seq<char>)
    ensures
        letters(trim_start_char(s, '-')) == letters(s),
    decreases s.len(),
{
    if s.len() > 0 && s[0] == '-' {
        lemma_letters_trim_start(s.drop_first());
        let head = seq![s[0]];
        assert(s =~= head + s.drop_first());
        lemma_letters_concat(head, s.drop_first());
        assert(head.drop_last() =~= Seq::<char>::empty());
        assert(head.last() == '-');
        assert(!alphanumeric('-'));
        assert(letters(head.drop_last()) =~= Seq::<char>::empty());
        assert(letters(head) =~= Seq::<char>::empty());
        assert(letters(head) + letters(s.drop_first()) =~= letters(s.drop_first()));
    }
}

/// Law: a slug keeps every alphanumeric character of the lowercased title,
/// in order, and adds none.
pub proof fn lemma_slug_letters(title: Seq<char>)
    ensures
        letters(slug_of(title)) == letters(lowercase(title)),
{
    let x = dash_non_alphanumeric(lowercase(title));
    lemma_letters_dash(lowercase(title));
    lemma_letters_trim_start(x);
    lemma_letters_trim_end(trim_start_char(x, '-'));
}

/// A text that neither begins nor ends with `c` is left as it is by
/// `trim_matches`.
proof fn lemma_trim_matches_untouched(s: Seq<char>, c: char)
    requires
        s.len() > 0 ==> s[0] != c && s.last() != c,
    ensures
        trim_matches(s, c) == s,
{
}

/// Law: for an ASCII title, the slug is its own slug.
pub proof fn lemma_slug_is_own_slug(title: Seq<char>)
    requires
        is_ascii_text(title),
    ensures
        slug_of(slug_of(title)) == slug_of(title),
{
    let low = lowercase(title);
    let x = dash_non_alphanumeric(low);
    let (a, b) = lemma_trim_matches_range(x, '-');
    let s = slug_of(title);
    assert(s == x.subrange(a, b));
    assert forall|i: int| 0 <= i < s.len() implies is_ascii_char(#[trigger] s[i]) && ascii_lower(s[i]) == s[i]
        && (s[i] == '-' || alphanumeric(s[i])) by {
        assert(s[i] == x[a + i]);
        assert(is_ascii_char(title[a + i]));
    }
    assert(lowercase(s) =~= s);
    assert(dash_non_alphanumeric(s) =~= s);
    lemma_trim_matches_untouched(s, '-');
}

} // verus!
