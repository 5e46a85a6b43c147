//! Markdown files with a YAML-like frontmatter: parsing and serialisation.
//!
//! A file looks like
//! ```text
//! ---
//! title: "Title with \"quotes\""
//! tags: ["a", "b"]
//! created: 2026-01-01
//! updated: 2026-01-01
//! ---
//! body
//! ```
use vstd::prelude::*;

use crate::engine::{MarkdownContent, MarkdownView};
use crate::text::{
    trim_end, dash_at, is_white_space, lacks, lemma_find_first, lemma_find_from_range, lemma_trim_start_shape, lemma_lacks_concat, lemma_no_dash_run_concat,
    lemma_split_at_sep, lemma_split_single, lemma_trim_plain, lemma_trim_space, no_dash_run,
    trim_end_char, trim_start_char, collect_range, find, find_in, push_char, push_chars, push_str, skip_white_space, split_on,
    starts_with, starts_with_at, to_chars, trim, trim_char_range, trim_matches, trim_range,
    trim_start,
};

verus! {

pub open spec fn dash3() -> Seq<char> {
    seq!['-', '-', '-']
}

pub open spec fn title_key() -> Seq<char> {
    seq!['t', 'i', 't', 'l', 'e', ':']
}

pub open spec fn tags_key() -> Seq<char> {
    seq!['t', 'a', 'g', 's', ':']
}

pub open spec fn created_key() -> Seq<char> {
    seq!['c', 'r', 'e', 'a', 't', 'e', 'd', ':']
}

pub open spec fn updated_key() -> Seq<char> {
    seq!['u', 'p', 'd', 'a', 't', 'e', 'd', ':']
}

/// The four frontmatter fields as they are collected line by line.
#[verifier::ext_equal]
pub struct FrontFields {
    pub title: Seq<char>,
    pub tags: Seq<Seq<char>>,
    pub created: Seq<char>,
    pub updated: Seq<char>,
}

pub open spec fn no_fields() -> FrontFields {
    FrontFields {
        title: Seq::empty(),
        tags: Seq::empty(),
        created: Seq::empty(),
        updated: Seq::empty(),
    }
}

/// `s.replace("\\\"", "\"")`: each `\"` read left to right becomes `"`.
pub open spec fn unescape(s: Seq<char>) -> Seq<char>
    decreases s.len(),
{
    if s.len() >= 2 && s[0] == '\\' && s[1] == '"' {
        seq!['"'] + unescape(s.skip(2))
    } else if s.len() > 0 {
        seq![s[0]] + unescape(s.skip(1))
    } else {
        Seq::empty()
    }
}

/// The escaped form of one character: `"` becomes `\"`.
pub open spec fn escape_char(c: char) -> Seq<char> {
    if c == '"' {
        seq!['\\', '"']
    } else {
        seq![c]
    }
}

/// `s.replace('"', "\\\"")`.
pub open spec fn escape(s: Seq<char>) -> Seq<char>
    decreases s.len(),
{
    if s.len() == 0 {
        Seq::empty()
    } else {
        escape(s.drop_last()) + escape_char(s.last())
    }
}

/// The value after a `key:` prefix of length `n`: trimmed, then stripped of quotes.
pub open spec fn field_value(line: Seq<char>, n: int) -> Seq<char> {
    trim_matches(trim(line.skip(n)), '"')
}

/// One tag as read from a piece of the tag list.
pub open spec fn tag_of(piece: Seq<char>) -> Seq<char> {
    trim_matches(trim(piece), '"')
}

/// The tags read from the pieces of a tag list; empty ones are dropped.
pub open spec fn clean_tags(pieces: Seq<Seq<char>>) -> Seq<Seq<char>>
    decreases pieces.len(),
{
    if pieces.len() == 0 {
        Seq::empty()
    } else {
        let prev = clean_tags(pieces.drop_last());
        let t = tag_of(pieces.last());
        if t.len() > 0 {
            prev.push(t)
        } else {
            prev
        }
    }
}

/// The fields after reading one frontmatter line.
pub open spec fn apply_line(f: FrontFields, raw: Seq<char>) -> FrontFields {
    let line = trim(raw);
    if starts_with(line, title_key()) {
        FrontFields { title: unescape(field_value(line, 6)), tags: f.tags, created: f.created, updated: f.updated }
    } else if starts_with(line, tags_key()) {
        let v = trim(line.skip(5));
        if v.len() > 0 && v[0] == '[' && v.last() == ']' {
            FrontFields {
                title: f.title,
                tags: clean_tags(split_on(v.subrange(1, v.len() - 1), ',')),
                created: f.created,
                updated: f.updated,
            }
        } else {
            f
        }
    } else if starts_with(line, created_key()) {
        FrontFields { title: f.title, tags: f.tags, created: field_value(line, 8), updated: f.updated }
    } else if starts_with(line, updated_key()) {
        FrontFields { title: f.title, tags: f.tags, created: f.created, updated: field_value(line, 8) }
    } else {
        f
    }
}

/// The fields after reading all lines, in order.
pub open spec fn fold_lines(lines: Seq<Seq<char>>) -> FrontFields
    decreases lines.len(),
{
    if lines.len() == 0 {
        no_fields()
    } else {
        apply_line(fold_lines(lines.drop_last()), lines.last())
    }
}

/// What `parse` returns for a file's text.
pub open spec fn spec_parse(content: Seq<char>) -> MarkdownView {
    let t = trim_start(content);
    if !starts_with(t, dash3()) {
        MarkdownView {
            title: Seq::empty(),
            tags: Seq::empty(),
            created: Seq::empty(),
            updated: Seq::empty(),
            body: t,
        }
    } else {
        let rest = t.skip(3);
        match find(rest, dash3()) {
            None => MarkdownView {
                title: Seq::empty(),
                tags: Seq::empty(),
                created: Seq::empty(),
                updated: Seq::empty(),
                body: content,
            },
            Some(end) => {
                let f = fold_lines(split_on(rest.take(end), '\n'));
                MarkdownView {
                    title: f.title,
                    tags: f.tags,
                    created: f.created,
                    updated: f.updated,
                    body: trim_start(rest.skip(end + 3)),
                }
            },
        }
    }
}

pub open spec fn quoted(t: Seq<char>) -> Seq<char> {
    seq!['"'] + escape(t) + seq!['"']
}

/// The quoted tags joined by `", "`.
pub open spec fn joined(ts: Seq<Seq<char>>) -> Seq<char>
    decreases ts.len(),
{
    if ts.len() == 0 {
        Seq::empty()
    } else if ts.len() == 1 {
        quoted(ts[0])
    } else {
        joined(ts.drop_last()) + seq![',', ' '] + quoted(ts.last())
    }
}

/// The tag list as written in the frontmatter.
pub open spec fn tags_text(ts: Seq<Seq<char>>) -> Seq<char> {
    if ts.len() == 0 {
        seq!['[', ']']
    } else {
        seq!['['] + joined(ts) + seq![']']
    }
}

pub open spec fn title_open() -> Seq<char> {
    seq!['-', '-', '-', '\n', 't', 'i', 't', 'l', 'e', ':', ' ', '"']
}

pub open spec fn tags_open() -> Seq<char> {
    seq!['"', '\n', 't', 'a', 'g', 's', ':', ' ']
}

pub open spec fn created_open() -> Seq<char> {
    seq!['\n', 'c', 'r', 'e', 'a', 't', 'e', 'd', ':', ' ']
}

pub open spec fn updated_open() -> Seq<char> {
    seq!['\n', 'u', 'p', 'd', 'a', 't', 'e', 'd', ':', ' ']
}

pub open spec fn close_mark() -> Seq<char> {
    seq!['\n', '-', '-', '-', '\n']
}

/// What `serialize` writes for a content value.
pub open spec fn spec_serialize(m: MarkdownView) -> Seq<char> {
    title_open() + escape(m.title) + tags_open() + tags_text(m.tags) + created_open() + m.created
        + updated_open() + m.updated + close_mark() + m.body
}

pub open spec fn fields_of(title: String, tags: Vec<String>, created: String, updated: String) -> FrontFields {
    FrontFields { title: title@, tags: tags.deep_view(), created: created@, updated: updated@ }
}

/// `unescape(s[lo..hi])` as a `String`.
fn unescape_range(s: &[char], lo: usize, hi: usize) -> (r: String)
    requires
        lo <= hi <= s@.len(),
    ensures
        r@ == unescape(s@.subrange(lo as int, hi as int)),
{
    let mut out = String::new();
    let mut i = lo;
    while i < hi
        invariant
            lo <= i <= hi <= s@.len(),
            out@ + unescape(s@.subrange(i as int, hi as int)) == unescape(s@.subrange(lo as int, hi as int)),
        decreases hi - i,
    {
        let ghost sub = s@.subrange(i as int, hi as int);
        if i + 1 < hi && s[i] == '\\' && s[i + 1] == '"' {
            assert(sub.skip(2) =~= s@.subrange(i + 2, hi as int));
            push_char(&mut out, '"');
            i = i + 2;
        } else {
            assert(sub.skip(1) =~= s@.subrange(i + 1, hi as int));
            push_char(&mut out, s[i]);
            i = i + 1;
        }
    }
    assert(s@.subrange(hi as int, hi as int) =~= Seq::<char>::empty());
    out
}

/// Appends `escape(s)` to `out`.
fn push_escaped(out: &mut String, s: &[char])
    ensures
        final(out)@ == old(out)@ + escape(s@),
{
    let mut i: usize = 0;
    while i < s.len()
        invariant
            i <= s@.len(),
            out@ == old(out)@ + escape(s@.subrange(0, i as int)),
        decreases s@.len() - i,
    {
        let c = s[i];
        assert(s@.subrange(0, i + 1).drop_last() =~= s@.subrange(0, i as int));
        if c == '"' {
            push_char(out, '\\');
            push_char(out, '"');
        } else {
            push_char(out, c);
        }
        assert(out@ =~= old(out)@ + escape(s@.subrange(0, i + 1)));
        i = i + 1;
    }
    assert(s@.subrange(0, s@.len() as int) =~= s@);
}

/// Appends `tags_text(tags)` to `out`.
fn push_tags_text(out: &mut String, tags: &Vec<String>)
    ensures
        final(out)@ == old(out)@ + tags_text(tags.deep_view()),
{
    let ghost ts = tags.deep_view();
    if tags.len() == 0 {
        push_chars(out, &['[', ']']);
        return;
    }
    push_char(out, '[');
    let ghost base = out@;
    let mut i: usize = 0;
    while i < tags.len()
        invariant
            i <= tags@.len(),
            ts == tags.deep_view(),
            ts.len() == tags@.len(),
            out@ == base + joined(ts.take(i as int)),
        decreases tags@.len() - i,
    {
        if i > 0 {
            push_chars(out, &[',', ' ']);
        }
        push_char(out, '"');
        let tc = to_chars(tags[i].as_str());
        push_escaped(out, tc.as_slice());
        push_char(out, '"');
        assert(ts.take(i + 1).drop_last() =~= ts.take(i as int));
        assert(ts[i as int] == tags@[i as int]@);
        assert(out@ =~= base + joined(ts.take(i + 1)));
        i = i + 1;
    }
    assert(ts.take(ts.len() as int) =~= ts);
    push_char(out, ']');
    assert(out@ =~= old(out)@ + tags_text(ts));
}

/// The tags of the list `s[lo..hi]` (the text between `[` and `]`).
fn parse_tags(s: &[char], lo: usize, hi: usize) -> (r: Vec<String>)
    requires
        lo <= hi <= s@.len(),
    ensures
        r.deep_view() == clean_tags(split_on(s@.subrange(lo as int, hi as int), ',')),
{
    let mut out: Vec<String> = Vec::new();
    let mut start = lo;
    let mut i = lo;
    let ghost mut done: Seq<Seq<char>> = Seq::empty();
    assert(s@.subrange(lo as int, lo as int) =~= Seq::<char>::empty());
    assert(done.push(Seq::<char>::empty()) =~= seq![Seq::<char>::empty()]);
    assert(out.deep_view() =~= Seq::<Seq<char>>::empty());
    while i < hi
        invariant
            lo <= start <= i <= hi <= s@.len(),
            split_on(s@.subrange(lo as int, i as int), ',') == done.push(s@.subrange(start as int, i as int)),
            out.deep_view() == clean_tags(done),
        decreases hi - i,
    {
        let ghost prev = s@.subrange(lo as int, i as int);
        assert(s@.subrange(lo as int, i + 1).drop_last() =~= prev);
        if s[i] == ',' {
            let (a, b) = trim_range(s, start, i);
            let (c, d) = trim_char_range(s, a, b, '"');
            let ghost old_done = done;
            let ghost old_out = out.deep_view();
            proof {
                done = done.push(s@.subrange(start as int, i as int));
                assert(done.drop_last() =~= old_done);
            }
            if c < d {
                let t = collect_range(s, c, d);
                out.push(t);
                assert(out.deep_view() =~= old_out.push(t@));
            }
            assert(out.deep_view() =~= clean_tags(done));
            assert(s@.subrange(i + 1, i + 1) =~= Seq::<char>::empty());
            start = i + 1;
        } else {
            assert(s@.subrange(start as int, i + 1) =~= s@.subrange(start as int, i as int).push(s@[i as int]));
        }
        assert(split_on(s@.subrange(lo as int, i + 1), ',') =~= done.push(s@.subrange(start as int, i + 1)));
        i = i + 1;
    }
    let (a, b) = trim_range(s, start, hi);
    let (c, d) = trim_char_range(s, a, b, '"');
    let ghost all = done.push(s@.subrange(start as int, hi as int));
    assert(all.drop_last() =~= done);
    let ghost old_out = out.deep_view();
    if c < d {
        let t = collect_range(s, c, d);
        out.push(t);
        assert(out.deep_view() =~= old_out.push(t@));
    }
    assert(out.deep_view() =~= clean_tags(all));
    out
}

/// Reads the frontmatter line `s[a..b]` into the four fields.
fn apply_line_at(
    s: &[char],
    a: usize,
    b: usize,
    title: &mut String,
    tags: &mut Vec<String>,
    created: &mut String,
    updated: &mut String,
)
    requires
        a <= b <= s@.len(),
    ensures
        fields_of(*final(title), *final(tags), *final(created), *final(updated)) == apply_line(
            fields_of(*old(title), *old(tags), *old(created), *old(updated)),
            s@.subrange(a as int, b as int),
        ),
{
    let ghost raw = s@.subrange(a as int, b as int);
    let (la, lb) = trim_range(s, a, b);
    let ghost line = s@.subrange(la as int, lb as int);
    if starts_with_at(s, la, lb, &['t', 'i', 't', 'l', 'e', ':']) {
        assert(line.skip(6) =~= s@.subrange(la + 6, lb as int));
        let (c, d) = trim_range(s, la + 6, lb);
        let (e, f) = trim_char_range(s, c, d, '"');
        *title = unescape_range(s, e, f);
    } else if starts_with_at(s, la, lb, &['t', 'a', 'g', 's', ':']) {
        assert(line.skip(5) =~= s@.subrange(la + 5, lb as int));
        let (c, d) = trim_range(s, la + 5, lb);
        if c < d && s[c] == '[' && s[d - 1] == ']' {
            assert(s@.subrange(c as int, d as int).subrange(1, (d - c) - 1) =~= s@.subrange(c + 1, d - 1));
            *tags = parse_tags(s, c + 1, d - 1);
        }
    } else if starts_with_at(s, la, lb, &['c', 'r', 'e', 'a', 't', 'e', 'd', ':']) {
        assert(line.skip(8) =~= s@.subrange(la + 8, lb as int));
        let (c, d) = trim_range(s, la + 8, lb);
        let (e, f) = trim_char_range(s, c, d, '"');
        *created = collect_range(s, e, f);
    } else if starts_with_at(s, la, lb, &['u', 'p', 'd', 'a', 't', 'e', 'd', ':']) {
        assert(line.skip(8) =~= s@.subrange(la + 8, lb as int));
        let (c, d) = trim_range(s, la + 8, lb);
        let (e, f) = trim_char_range(s, c, d, '"');
        *updated = collect_range(s, e, f);
    }
}

/// The fields read from the frontmatter lines of `s[lo..hi]`.
fn read_frontmatter(s: &[char], lo: usize, hi: usize) -> (r: (String, Vec<String>, String, String))
    requires
        lo <= hi <= s@.len(),
    ensures
        fields_of(r.0, r.1, r.2, r.3) == fold_lines(split_on(s@.subrange(lo as int, hi as int), '\n')),
{
    let rs = lo;
    let e = hi;
    let n = s.len();
    let mut title = String::new();
    let mut tags: Vec<String> = Vec::new();
    let mut created = String::new();
    let mut updated = String::new();
    assert(fields_of(title, tags, created, updated) =~= no_fields());
    let mut start = rs;
    let mut i = rs;
    let ghost mut done: Seq<Seq<char>> = Seq::empty();
    assert(s@.subrange(lo as int, lo as int) =~= Seq::<char>::empty());
    assert(done.push(Seq::<char>::empty()) =~= seq![Seq::<char>::empty()]);
    while i < e
        invariant
            rs <= start <= i <= e <= n == s@.len(),
            split_on(s@.subrange(rs as int, i as int), '\n') == done.push(
                s@.subrange(start as int, i as int),
            ),
            fields_of(title, tags, created, updated) == fold_lines(done),
        decreases e - i,
    {
        assert(s@.subrange(rs as int, i + 1).drop_last() =~= s@.subrange(rs as int, i as int));
        if s[i] == '\n' {
            apply_line_at(s, start, i, &mut title, &mut tags, &mut created, &mut updated);
            proof {
                let nd = done.push(s@.subrange(start as int, i as int));
                assert(nd.drop_last() =~= done);
                done = nd;
            }
            assert(s@.subrange(i + 1, i + 1) =~= Seq::<char>::empty());
            start = i + 1;
        } else {
            assert(s@.subrange(start as int, i + 1) =~= s@.subrange(start as int, i as int).push(
                s@[i as int],
            ));
        }
        assert(split_on(s@.subrange(rs as int, i + 1), '\n') =~= done.push(
            s@.subrange(start as int, i + 1),
        ));
        i = i + 1;
    }
    apply_line_at(s, start, e, &mut title, &mut tags, &mut created, &mut updated);
    proof {
        let all = done.push(s@.subrange(start as int, e as int));
        assert(all.drop_last() =~= done);
    }
    (title, tags, created, updated)
}

/// Parses a Markdown file's text into frontmatter fields and body.
pub fn parse(content: &str) -> (r: MarkdownContent)
    ensures
        r@ == spec_parse(content@),
{
    let v = to_chars(content);
    let s = v.as_slice();
    let n = s.len();
    let st = skip_white_space(s, 0, n);
    assert(s@.subrange(0, n as int) =~= content@);
    let ghost t = s@.subrange(st as int, n as int);
    if !starts_with_at(s, st, n, &['-', '-', '-']) {
        let body = collect_range(s, st, n);
        return MarkdownContent {
            title: String::new(),
            tags: Vec::new(),
            created: String::new(),
            updated: String::new(),
            body,
        };
    }
    let rs = st + 3;
    assert(t.skip(3) =~= s@.subrange(rs as int, n as int));
    match find_in(s, rs, n, &['-', '-', '-']) {
        None => {
            let body = collect_range(s, 0, n);
            MarkdownContent {
                title: String::new(),
                tags: Vec::new(),
                created: String::new(),
                updated: String::new(),
                body,
            }
        },
        Some(e) => {
            let ghost rest = s@.subrange(rs as int, n as int);
            assert(rest.take(e - rs) =~= s@.subrange(rs as int, e as int));
            assert(rest.skip(e - rs + 3) =~= s@.subrange(e + 3, n as int));
            let (title, tags, created, updated) = read_frontmatter(s, rs, e);
            let bs = skip_white_space(s, e + 3, n);
            let body = collect_range(s, bs, n);
            MarkdownContent { title, tags, created, updated, body }
        },
    }
}

/// Renders content as a Markdown file with frontmatter.
pub fn serialize(content: &MarkdownContent) -> (r: String)
    ensures
        r@ == spec_serialize(content@),
{
    let mut out = String::new();
    push_chars(&mut out, &['-', '-', '-', '\n', 't', 'i', 't', 'l', 'e', ':', ' ', '"']);
    let tc = to_chars(content.title.as_str());
    push_escaped(&mut out, tc.as_slice());
    push_chars(&mut out, &['"', '\n', 't', 'a', 'g', 's', ':', ' ']);
    push_tags_text(&mut out, &content.tags);
    push_chars(&mut out, &['\n', 'c', 'r', 'e', 'a', 't', 'e', 'd', ':', ' ']);
    push_str(&mut out, content.created.as_str());
    push_chars(&mut out, &['\n', 'u', 'p', 'd', 'a', 't', 'e', 'd', ':', ' ']);
    push_str(&mut out, content.updated.as_str());
    push_chars(&mut out, &['\n', '-', '-', '-', '\n']);
    push_str(&mut out, content.body.as_str());
    assert(out@ =~= spec_serialize(content@));
    out
}

// ----------------------------------------------------------------------
// The round trip: what `serialize` writes, `parse` reads back.
// ----------------------------------------------------------------------

/// A value that fits on one frontmatter line and cannot end the frontmatter.
pub open spec fn one_line(s: Seq<char>) -> bool {
    lacks(s, '\n') && no_dash_run(s)
}

/// A title that survives a write and a read.
pub open spec fn title_survives(t: Seq<char>) -> bool {
    one_line(t) && (t.len() == 0 || t.last() != '"')
}

/// A tag that survives a write and a read.
pub open spec fn tag_survives(t: Seq<char>) -> bool {
    one_line(t) && t.len() > 0 && lacks(t, ',') && lacks(t, '"')
}

/// A `created` / `updated` stamp that survives a write and a read.
pub open spec fn stamp_survives(s: Seq<char>) -> bool {
    one_line(s) && (s.len() == 0 || (!is_white_space(s[0]) && !is_white_space(s.last()) && s[0]
        != '"' && s.last() != '"'))
}

/// A body that survives a write and a read.
pub open spec fn body_survives(b: Seq<char>) -> bool {
    b.len() == 0 || !is_white_space(b[0])
}

/// Content that `parse` reads back unchanged from what `serialize` wrote.
pub open spec fn survives_roundtrip(m: MarkdownView) -> bool {
    &&& title_survives(m.title)
    &&& forall|i: int| 0 <= i < m.tags.len() ==> #[trigger] tag_survives(m.tags[i])
    &&& stamp_survives(m.created)
    &&& stamp_survives(m.updated)
    &&& body_survives(m.body)
}

pub open spec fn title_line(t: Seq<char>) -> Seq<char> {
    seq!['t', 'i', 't', 'l', 'e', ':', ' ', '"'] + escape(t) + seq!['"']
}

pub open spec fn tags_line(ts: Seq<Seq<char>>) -> Seq<char> {
    seq!['t', 'a', 'g', 's', ':', ' '] + tags_text(ts)
}

pub open spec fn created_line(c: Seq<char>) -> Seq<char> {
    seq!['c', 'r', 'e', 'a', 't', 'e', 'd', ':', ' '] + c
}

pub open spec fn updated_line(u: Seq<char>) -> Seq<char> {
    seq!['u', 'p', 'd', 'a', 't', 'e', 'd', ':', ' '] + u
}

/// The pieces of the tag list split at its commas.
pub open spec fn tag_pieces(ts: Seq<Seq<char>>) -> Seq<Seq<char>>
    decreases ts.len(),
{
    if ts.len() <= 1 {
        if ts.len() == 1 {
            seq![quoted(ts[0])]
        } else {
            Seq::empty()
        }
    } else {
        tag_pieces(ts.drop_last()).push(seq![' '] + quoted(ts.last()))
    }
}

proof fn lemma_escape_append(a: Seq<char>, b: Seq<char>)
    ensures
        escape(a + b) == escape(a) + escape(b),
    decreases b.len(),
{
    if b.len() == 0 {
        assert(a + b =~= a);
        assert(escape(a) + escape(b) =~= escape(a));
    } else {
        let b1 = b.drop_last();
        assert((a + b).drop_last() =~= a + b1);
        assert((a + b).last() == b.last());
        lemma_escape_append(a, b1);
        assert(escape(a) + escape(b1) + escape_char(b.last()) =~= escape(a) + (escape(b1)
            + escape_char(b.last())));
    }
}

proof fn lemma_escape_front(t: Seq<char>)
    requires
        t.len() > 0,
    ensures
        escape(t) == escape_char(t[0]) + escape(t.skip(1)),
        escape(t)[0] != '"',
        escape(t).len() > 0,
        escape(t).last() == t.last(),
{
    assert(seq![t[0]] + t.skip(1) =~= t);
    lemma_escape_append(seq![t[0]], t.skip(1));
    let one = seq![t[0]];
    assert(one.drop_last() =~= Seq::<char>::empty());
    assert(escape(one.drop_last()) =~= Seq::<char>::empty());
    assert(escape(one) == escape(one.drop_last()) + escape_char(one.last()));
    assert(escape(one) =~= escape_char(t[0]));
}

proof fn lemma_unescape_escape(t: Seq<char>)
    ensures
        unescape(escape(t)) == t,
    decreases t.len(),
{
    if t.len() == 0 {
        assert(escape(t) =~= Seq::<char>::empty());
    } else {
        lemma_escape_front(t);
        let t1 = t.skip(1);
        let e1 = escape(t1);
        let e = escape(t);
        lemma_unescape_escape(t1);
        if t[0] == '"' {
            assert(e.skip(2) =~= e1);
            assert(seq!['"'] + t1 =~= t);
        } else {
            assert(e =~= seq![t[0]] + e1);
            assert(e.skip(1) =~= e1);
            if t1.len() > 0 {
                lemma_escape_front(t1);
            }
            assert(seq![t[0]] + t1 =~= t);
        }
    }
}

proof fn lemma_escape_lacks(t: Seq<char>, c: char)
    requires
        lacks(t, c),
        c != '"',
        c != '\\',
    ensures
        lacks(escape(t), c),
    decreases t.len(),
{
    if t.len() > 0 {
        let t1 = t.drop_last();
        assert(lacks(t1, c)) by {
            assert forall|i: int| 0 <= i < t1.len() implies #[trigger] t1[i] != c by {
                assert(t1[i] == t[i]);
            }
        }
        lemma_escape_lacks(t1, c);
        assert(t[t.len() - 1] != c);
        lemma_lacks_concat(escape(t1), escape_char(t.last()), c);
    }
}

proof fn lemma_escape_plain(t: Seq<char>)
    requires
        lacks(t, '"'),
    ensures
        escape(t) == t,
    decreases t.len(),
{
    if t.len() > 0 {
        let t1 = t.drop_last();
        assert(lacks(t1, '"')) by {
            assert forall|i: int| 0 <= i < t1.len() implies #[trigger] t1[i] != '"' by {
                assert(t1[i] == t[i]);
            }
        }
        lemma_escape_plain(t1);
        assert(t[t.len() - 1] != '"');
        assert(t1 + seq![t.last()] =~= t);
    } else {
        assert(escape(t) =~= t);
    }
}

proof fn lemma_no_dash_run_prefix(t: Seq<char>, n: int)
    requires
        no_dash_run(t),
        0 <= n <= t.len(),
    ensures
        no_dash_run(t.take(n)),
{
    let u = t.take(n);
    assert forall|i: int| 0 <= i && i + 3 <= u.len() implies !#[trigger] dash_at(u, i) by {
        assert(!dash_at(t, i));
    }
}

proof fn lemma_short_no_dash_run(t: Seq<char>)
    requires
        t.len() < 3,
    ensures
        no_dash_run(t),
{
}

proof fn lemma_escape_no_dash_run(t: Seq<char>)
    requires
        no_dash_run(t),
    ensures
        no_dash_run(escape(t)),
    decreases t.len(),
{
    if t.len() > 0 {
        let t1 = t.drop_last();
        let x = t.last();
        lemma_no_dash_run_prefix(t, t.len() - 1);
        assert(t1 =~= t.take(t.len() - 1));
        lemma_escape_no_dash_run(t1);
        lemma_short_no_dash_run(escape_char(x));
        if x != '-' {
            lemma_no_dash_run_concat(escape(t1), escape_char(x));
        } else if t1.len() == 0 {
            assert(escape(t1) =~= Seq::<char>::empty());
            assert(escape(t) =~= seq!['-']);
        } else if t1.last() != '-' {
            lemma_escape_front(t1);
            lemma_no_dash_run_concat(escape(t1), escape_char(x));
        } else {
            let t2 = t1.drop_last();
            assert(t2 =~= t.take(t.len() - 2));
            lemma_no_dash_run_prefix(t, t.len() - 2);
            lemma_escape_no_dash_run(t2);
            assert(escape(t) =~= escape(t2) + seq!['-', '-']);
            lemma_short_no_dash_run(seq!['-', '-']);
            if t2.len() == 0 {
                assert(escape(t2) =~= Seq::<char>::empty());
                assert(escape(t) =~= seq!['-', '-']);
            } else {
                assert(!dash_at(t, t.len() - 3));
                assert(t2.last() == t[t.len() - 3]);
                lemma_escape_front(t2);
                lemma_no_dash_run_concat(escape(t2), seq!['-', '-']);
            }
        }
    }
}

proof fn lemma_strip_quotes(x: Seq<char>)
    requires
        x.len() == 0 || (x[0] != '"' && x.last() != '"'),
    ensures
        trim_matches(seq!['"'] + x + seq!['"'], '"') == x,
{
    let q = seq!['"'] + x + seq!['"'];
    let xq = x + seq!['"'];
    assert(q.drop_first() =~= xq);
    assert(q[0] == '"');
    assert(trim_start_char(q, '"') == trim_start_char(xq, '"'));
    if x.len() == 0 {
        assert(xq =~= seq!['"']);
        assert(xq.drop_first() =~= Seq::<char>::empty());
        assert(trim_start_char(xq, '"') == trim_start_char(Seq::<char>::empty(), '"'));
        assert(trim_start_char(q, '"') =~= Seq::<char>::empty());
    } else {
        assert(xq[0] == x[0]);
        assert(trim_start_char(xq, '"') == xq);
        assert(xq.drop_last() =~= x);
        assert(xq.last() == '"');
        assert(trim_end_char(xq, '"') == trim_end_char(x, '"'));
    }
}

proof fn lemma_apply_empty_line(f: FrontFields)
    ensures
        apply_line(f, Seq::empty()) == f,
{
    let e = Seq::<char>::empty();
    lemma_trim_plain(e);
}

proof fn lemma_apply_title_line(f: FrontFields, t: Seq<char>)
    requires
        title_survives(t),
    ensures
        apply_line(f, title_line(t)) == (FrontFields { title: t, ..f }),
{
    let e = escape(t);
    let line = title_line(t);
    assert(line[0] == 't');
    assert(line.last() == '"');
    lemma_trim_plain(line);
    assert(line.subrange(0, 6) =~= title_key());
    let v = seq!['"'] + e + seq!['"'];
    assert(line.skip(6) =~= seq![' '] + v);
    lemma_trim_space(v);
    assert(v[0] == '"');
    assert(v.last() == '"');
    lemma_trim_plain(v);
    if t.len() > 0 {
        lemma_escape_front(t);
    } else {
        assert(e =~= Seq::<char>::empty());
    }
    lemma_strip_quotes(e);
    lemma_unescape_escape(t);
}

proof fn lemma_quoted_tag(t: Seq<char>)
    requires
        tag_survives(t),
    ensures
        quoted(t) == seq!['"'] + t + seq!['"'],
        tag_of(quoted(t)) == t,
        tag_of(seq![' '] + quoted(t)) == t,
        lacks(quoted(t), ','),
        lacks(quoted(t), '\n'),
        quoted(t)[0] == '"',
        quoted(t).last() == '"',
{
    lemma_escape_plain(t);
    let q = seq!['"'] + t + seq!['"'];
    assert(quoted(t) =~= q);
    assert(q[0] == '"');
    assert(q.last() == '"');
    lemma_trim_plain(q);
    lemma_trim_space(q);
    assert(t[0] != '"');
    assert(t[t.len() - 1] != '"');
    lemma_strip_quotes(t);
    lemma_lacks_concat(seq!['"'], t, ',');
    lemma_lacks_concat(seq!['"'] + t, seq!['"'], ',');
    lemma_lacks_concat(seq!['"'], t, '\n');
    lemma_lacks_concat(seq!['"'] + t, seq!['"'], '\n');
}

proof fn lemma_joined(ts: Seq<Seq<char>>)
    requires
        ts.len() >= 1,
        forall|i: int| 0 <= i < ts.len() ==> #[trigger] tag_survives(ts[i]),
    ensures
        split_on(joined(ts), ',') == tag_pieces(ts),
        clean_tags(tag_pieces(ts)) == ts,
        lacks(joined(ts), '\n'),
        joined(ts)[0] == '"',
        joined(ts).last() == '"',
    decreases ts.len(),
{
    let last = ts.last();
    assert(tag_survives(ts[ts.len() - 1]));
    lemma_quoted_tag(last);
    let q = quoted(last);
    if ts.len() == 1 {
        lemma_split_single(q, ',');
        let pieces = seq![q];
        assert(pieces.drop_last() =~= Seq::<Seq<char>>::empty());
        assert(pieces.last() == q);
        assert(clean_tags(pieces.drop_last()) =~= Seq::<Seq<char>>::empty());
        assert(clean_tags(pieces) == clean_tags(pieces.drop_last()).push(tag_of(q)));
        assert(clean_tags(pieces) =~= seq![last]);
        assert(seq![last] =~= ts);
    } else {
        let ts1 = ts.drop_last();
        assert forall|i: int| 0 <= i < ts1.len() implies #[trigger] tag_survives(ts1[i]) by {
            assert(ts1[i] == ts[i]);
            assert(tag_survives(ts[i]));
        }
        lemma_joined(ts1);
        let j1 = joined(ts1);
        let sq = seq![' '] + q;
        assert(joined(ts) =~= j1 + seq![','] + sq);
        lemma_lacks_concat(seq![' '], q, ',');
        lemma_split_single(sq, ',');
        lemma_split_at_sep(j1, sq, ',');
        assert(tag_pieces(ts1) + seq![sq] =~= tag_pieces(ts1).push(sq));
        assert(tag_pieces(ts).drop_last() =~= tag_pieces(ts1));
        assert(clean_tags(tag_pieces(ts)) =~= ts1.push(last));
        assert(ts1.push(last) =~= ts);
        lemma_lacks_concat(j1, seq![','], '\n');
        lemma_lacks_concat(seq![' '], q, '\n');
        lemma_lacks_concat(j1 + seq![','], sq, '\n');
    }
}

proof fn lemma_tags_text(ts: Seq<Seq<char>>)
    requires
        forall|i: int| 0 <= i < ts.len() ==> #[trigger] tag_survives(ts[i]),
    ensures
        tags_text(ts)[0] == '[',
        tags_text(ts).last() == ']',
        tags_text(ts).len() >= 2,
        clean_tags(split_on(tags_text(ts).subrange(1, tags_text(ts).len() - 1), ',')) == ts,
        lacks(tags_text(ts), '\n'),
{
    let tt = tags_text(ts);
    if ts.len() == 0 {
        let e = Seq::<char>::empty();
        assert(tt.subrange(1, 1) =~= e);
        assert(split_on(e, ',') == seq![e]);
        lemma_trim_plain(e);
        assert(seq![e].drop_last() =~= Seq::<Seq<char>>::empty());
        assert(trim_start_char(e, '"') == e);
        assert(trim_end_char(e, '"') == e);
        assert(tag_of(seq![e].last()).len() == 0);
        assert(clean_tags(seq![e]) == clean_tags(seq![e].drop_last()));
        assert(clean_tags(seq![e]) =~= ts);
        assert(lacks(tt, '\n'));
    } else {
        lemma_joined(ts);
        let j = joined(ts);
        assert(tt.subrange(1, tt.len() - 1) =~= j);
        lemma_lacks_concat(seq!['['], j, '\n');
        lemma_lacks_concat(seq!['['] + j, seq![']'], '\n');
    }
}

proof fn lemma_apply_tags_line(f: FrontFields, ts: Seq<Seq<char>>)
    requires
        forall|i: int| 0 <= i < ts.len() ==> #[trigger] tag_survives(ts[i]),
    ensures
        apply_line(f, tags_line(ts)) == (FrontFields { tags: ts, ..f }),
{
    lemma_tags_text(ts);
    let tt = tags_text(ts);
    let line = tags_line(ts);
    assert(line[0] == 't');
    assert(line[1] == 'a');
    assert(line.last() == ']');
    lemma_trim_plain(line);
    assert(line.subrange(0, 6)[1] != title_key()[1]);
    assert(line.subrange(0, 5) =~= tags_key());
    assert(line.skip(5) =~= seq![' '] + tt);
    lemma_trim_space(tt);
    lemma_trim_plain(tt);
}

proof fn lemma_stamp_value(key: Seq<char>, c: Seq<char>)
    requires
        key.len() == 8,
        !is_white_space(key[0]),
        key.last() == ':',
        stamp_survives(c),
    ensures
        trim(key + seq![' '] + c) == (if c.len() == 0 { key } else { key + seq![' '] + c }),
        field_value(trim(key + seq![' '] + c), 8) == c,
{
    let line = key + seq![' '] + c;
    assert(line[0] == key[0]);
    assert(is_white_space(' '));
    assert(!is_white_space(':'));
    if c.len() == 0 {
        assert(line.drop_last() =~= key);
        assert(line.last() == ' ');
        assert(key[key.len() - 1] == ':');
        assert(trim_end(key) == key);
        assert(trim_start(line) == line);
        assert(trim(line) == key);
        let e = Seq::<char>::empty();
        assert(key.skip(8) =~= e);
        lemma_trim_plain(e);
        assert(c =~= e);
    } else {
        assert(line.last() == c.last());
        lemma_trim_plain(line);
        assert(line.skip(8) =~= seq![' '] + c);
        lemma_trim_space(c);
        lemma_trim_plain(c);
        assert(trim_start_char(c, '"') == c);
        assert(trim_end_char(c, '"') == c);
    }
}

proof fn lemma_apply_created_line(f: FrontFields, c: Seq<char>)
    requires
        stamp_survives(c),
    ensures
        apply_line(f, created_line(c)) == (FrontFields { created: c, ..f }),
{
    let key = seq!['c', 'r', 'e', 'a', 't', 'e', 'd', ':'];
    assert(created_line(c) =~= key + seq![' '] + c);
    lemma_stamp_value(key, c);
    let line = trim(created_line(c));
    assert(line.len() >= 8);
    assert(line[0] == 'c');
    assert(line.subrange(0, 6)[0] != title_key()[0]);
    assert(line.subrange(0, 5)[0] != tags_key()[0]);
    assert(line.subrange(0, 8) =~= created_key());
}

proof fn lemma_apply_updated_line(f: FrontFields, u: Seq<char>)
    requires
        stamp_survives(u),
    ensures
        apply_line(f, updated_line(u)) == (FrontFields { updated: u, ..f }),
{
    let key = seq!['u', 'p', 'd', 'a', 't', 'e', 'd', ':'];
    assert(updated_line(u) =~= key + seq![' '] + u);
    lemma_stamp_value(key, u);
    let line = trim(updated_line(u));
    assert(line.len() >= 8);
    assert(line[0] == 'u');
    assert(line.subrange(0, 6)[0] != title_key()[0]);
    assert(line.subrange(0, 5)[0] != tags_key()[0]);
    assert(line.subrange(0, 8)[0] != created_key()[0]);
    assert(line.subrange(0, 8) =~= updated_key());
}

/// A stamp written between double quotes.
pub open spec fn quoted_stamp(v: Seq<char>) -> Seq<char> {
    seq!['"'] + v + seq!['"']
}

proof fn lemma_unquote(v: Seq<char>)
    requires
        lacks(v, '"'),
    ensures
        trim_matches(quoted_stamp(v), '"') == v,
{
    let q = quoted_stamp(v);
    let tail = v + seq!['"'];
    assert(q.drop_first() =~= tail);
    if v.len() == 0 {
        let e = Seq::<char>::empty();
        assert(tail.drop_first() =~= e);
        assert(trim_start_char(e, '"') == e);
        assert(trim_start_char(tail, '"') == e);
        assert(trim_end_char(e, '"') == e);
        assert(v =~= e);
    } else {
        assert(tail[0] == v[0]);
        assert(v[0] != '"');
        assert(trim_start_char(tail, '"') == tail);
        assert(tail.drop_last() =~= v);
        assert(v[v.len() - 1] != '"');
        assert(trim_end_char(v, '"') == v);
        assert(trim_end_char(tail, '"') == v);
    }
}

proof fn lemma_quoted_stamp_value(key: Seq<char>, v: Seq<char>)
    requires
        key.len() == 8,
        !is_white_space(key[0]),
        lacks(v, '"'),
    ensures
        trim(key + seq![' '] + quoted_stamp(v)) == key + seq![' '] + quoted_stamp(v),
        field_value(key + seq![' '] + quoted_stamp(v), 8) == v,
{
    let q = quoted_stamp(v);
    let line = key + seq![' '] + q;
    assert(line[0] == key[0]);
    assert(line.last() == '"');
    assert(!is_white_space('"'));
    lemma_trim_plain(line);
    assert(line.skip(8) =~= seq![' '] + q);
    lemma_trim_space(q);
    assert(q[0] == '"');
    lemma_trim_plain(q);
    lemma_unquote(v);
}

/// Law: a `created` or `updated` line whose value stands between double
/// quotes is read as the value without the quotes, like a title, and sets
/// that field alone.
pub proof fn lemma_quoted_stamp_lines(f: FrontFields, v: Seq<char>)
    requires
        lacks(v, '"'),
    ensures
        apply_line(f, created_line(quoted_stamp(v))) == (FrontFields { created: v, ..f }),
        apply_line(f, updated_line(quoted_stamp(v))) == (FrontFields { updated: v, ..f }),
{
    let kc = seq!['c', 'r', 'e', 'a', 't', 'e', 'd', ':'];
    let ku = seq!['u', 'p', 'd', 'a', 't', 'e', 'd', ':'];
    assert(created_line(quoted_stamp(v)) =~= kc + seq![' '] + quoted_stamp(v));
    assert(updated_line(quoted_stamp(v)) =~= ku + seq![' '] + quoted_stamp(v));
    lemma_quoted_stamp_value(kc, v);
    lemma_quoted_stamp_value(ku, v);
    let lc = kc + seq![' '] + quoted_stamp(v);
    let lu = ku + seq![' '] + quoted_stamp(v);
    assert(lc.subrange(0, 6)[0] != title_key()[0]);
    assert(lc.subrange(0, 5)[0] != tags_key()[0]);
    assert(lc.subrange(0, 8) =~= created_key());
    assert(lu.subrange(0, 6)[0] != title_key()[0]);
    assert(lu.subrange(0, 5)[0] != tags_key()[0]);
    assert(lu.subrange(0, 8)[0] != created_key()[0]);
    assert(lu.subrange(0, 8) =~= updated_key());
}

/// The text between the opening and the closing `---` of a serialised file.
pub open spec fn frontmatter_text(m: MarkdownView) -> Seq<char> {
    let nl = seq!['\n'];
    nl + title_line(m.title) + nl + tags_line(m.tags) + nl + created_line(m.created) + nl
        + updated_line(m.updated) + nl
}

/// The lines of `frontmatter_text(m)`.
pub open spec fn frontmatter_lines(m: MarkdownView) -> Seq<Seq<char>> {
    let em = Seq::<char>::empty();
    seq![em, title_line(m.title), tags_line(m.tags), created_line(m.created), updated_line(m.updated), em]
}

/// Content whose fields each fit on one frontmatter line.
pub open spec fn lines_fit(m: MarkdownView) -> bool {
    &&& title_survives(m.title)
    &&& forall|i: int| 0 <= i < m.tags.len() ==> #[trigger] tag_survives(m.tags[i])
    &&& lacks(m.created, '\n')
    &&& lacks(m.updated, '\n')
}

proof fn lemma_lines_lack_newline(m: MarkdownView)
    requires
        lines_fit(m),
    ensures
        lacks(title_line(m.title), '\n'),
        lacks(tags_line(m.tags), '\n'),
        lacks(created_line(m.created), '\n'),
        lacks(updated_line(m.updated), '\n'),
{
    let t = m.title;
    let e = escape(t);
    let tt = tags_text(m.tags);
    lemma_escape_lacks(t, '\n');
    lemma_tags_text(m.tags);
    let k1 = seq!['t', 'i', 't', 'l', 'e', ':', ' ', '"'];
    let k2 = seq!['t', 'a', 'g', 's', ':', ' '];
    let k3 = seq!['c', 'r', 'e', 'a', 't', 'e', 'd', ':', ' '];
    let k4 = seq!['u', 'p', 'd', 'a', 't', 'e', 'd', ':', ' '];
    let q = seq!['"'];
    assert(lacks(k1, '\n') && lacks(k2, '\n') && lacks(k3, '\n') && lacks(k4, '\n') && lacks(q, '\n'));
    lemma_lacks_concat(k1, e, '\n');
    lemma_lacks_concat(k1 + e, q, '\n');
    lemma_lacks_concat(k2, tt, '\n');
    lemma_lacks_concat(k3, m.created, '\n');
    lemma_lacks_concat(k4, m.updated, '\n');
    assert(title_line(t) =~= k1 + e + q);
    assert(tags_line(m.tags) =~= k2 + tt);
    assert(created_line(m.created) =~= k3 + m.created);
    assert(updated_line(m.updated) =~= k4 + m.updated);
}

proof fn lemma_frontmatter_split(m: MarkdownView)
    requires
        lines_fit(m),
    ensures
        split_on(frontmatter_text(m), '\n') == frontmatter_lines(m),
{
    lemma_lines_lack_newline(m);
    let l1 = title_line(m.title);
    let l2 = tags_line(m.tags);
    let l3 = created_line(m.created);
    let l4 = updated_line(m.updated);
    let nl = seq!['\n'];
    let em = Seq::<char>::empty();
    lemma_split_single(em, '\n');
    lemma_split_single(l1, '\n');
    lemma_split_single(l2, '\n');
    lemma_split_single(l3, '\n');
    lemma_split_single(l4, '\n');
    let r4 = l4 + nl + em;
    let r3 = l3 + nl + r4;
    let r2 = l2 + nl + r3;
    let r1 = l1 + nl + r2;
    lemma_split_at_sep(l4, em, '\n');
    lemma_split_at_sep(l3, r4, '\n');
    lemma_split_at_sep(l2, r3, '\n');
    lemma_split_at_sep(l1, r2, '\n');
    lemma_split_at_sep(em, r1, '\n');
    assert(frontmatter_text(m) =~= em + nl + r1);
    assert(split_on(frontmatter_text(m), '\n') =~= frontmatter_lines(m));
}

proof fn lemma_frontmatter_fields(m: MarkdownView)
    requires
        survives_roundtrip(m),
    ensures
        fold_lines(frontmatter_lines(m)) == (FrontFields {
            title: m.title,
            tags: m.tags,
            created: m.created,
            updated: m.updated,
        }),
{
    let em = Seq::<char>::empty();
    let l1 = title_line(m.title);
    let l2 = tags_line(m.tags);
    let l3 = created_line(m.created);
    let l4 = updated_line(m.updated);
    let ls = frontmatter_lines(m);
    let f0 = no_fields();
    let f2 = FrontFields { title: m.title, ..f0 };
    let f3 = FrontFields { tags: m.tags, ..f2 };
    let f4 = FrontFields { created: m.created, ..f3 };
    let f5 = FrontFields { updated: m.updated, ..f4 };
    lemma_apply_empty_line(f0);
    lemma_apply_title_line(f0, m.title);
    lemma_apply_tags_line(f2, m.tags);
    lemma_apply_created_line(f3, m.created);
    lemma_apply_updated_line(f4, m.updated);
    lemma_apply_empty_line(f5);
    assert(ls.drop_last() =~= seq![em, l1, l2, l3, l4]);
    assert(seq![em, l1, l2, l3, l4].drop_last() =~= seq![em, l1, l2, l3]);
    assert(seq![em, l1, l2, l3].drop_last() =~= seq![em, l1, l2]);
    assert(seq![em, l1, l2].drop_last() =~= seq![em, l1]);
    assert(seq![em, l1].drop_last() =~= seq![em]);
    assert(seq![em].drop_last() =~= Seq::<Seq<char>>::empty());
    assert(fold_lines(Seq::<Seq<char>>::empty()) == f0);
    assert(seq![em].last() == em);
    assert(fold_lines(seq![em]) == apply_line(fold_lines(seq![em].drop_last()), em));
    assert(fold_lines(seq![em]) == f0);
    assert(fold_lines(seq![em, l1]) == f2);
    assert(fold_lines(seq![em, l1, l2]) == f3);
    assert(fold_lines(seq![em, l1, l2, l3]) == f4);
    assert(fold_lines(seq![em, l1, l2, l3, l4]) == f5);
    assert(fold_lines(ls) == f5);
}

/// The serialised text is `---`, the frontmatter text, `---` and the body.
proof fn lemma_serialized_shape(m: MarkdownView)
    ensures
        spec_serialize(m) == dash3() + frontmatter_text(m) + seq!['-', '-', '-', '\n'] + m.body,
{
    assert(spec_serialize(m) =~= dash3() + frontmatter_text(m) + seq!['-', '-', '-', '\n'] + m.body);
}

/// Content whose frontmatter fields cannot end the frontmatter early.
pub open spec fn fields_without_dash_run(m: MarkdownView) -> bool {
    &&& no_dash_run(m.title)
    &&& forall|i: int| 0 <= i < m.tags.len() ==> #[trigger] no_dash_run(m.tags[i])
    &&& no_dash_run(m.created)
    &&& no_dash_run(m.updated)
}

proof fn lemma_quoted_no_dash_run(t: Seq<char>)
    requires
        no_dash_run(t),
    ensures
        no_dash_run(quoted(t)),
        quoted(t)[0] == '"',
        quoted(t).last() == '"',
{
    let q = seq!['"'];
    lemma_escape_no_dash_run(t);
    lemma_short_no_dash_run(q);
    lemma_no_dash_run_concat(q, escape(t));
    lemma_no_dash_run_concat(q + escape(t), q);
}

proof fn lemma_joined_no_dash_run(ts: Seq<Seq<char>>)
    requires
        forall|i: int| 0 <= i < ts.len() ==> #[trigger] no_dash_run(ts[i]),
    ensures
        no_dash_run(joined(ts)),
        ts.len() > 0 ==> joined(ts).last() == '"',
    decreases ts.len(),
{
    if ts.len() == 1 {
        assert(no_dash_run(ts[0]));
        lemma_quoted_no_dash_run(ts[0]);
    } else if ts.len() > 1 {
        let ts1 = ts.drop_last();
        assert forall|i: int| 0 <= i < ts1.len() implies #[trigger] no_dash_run(ts1[i]) by {
            assert(ts1[i] == ts[i]);
            assert(no_dash_run(ts[i]));
        }
        lemma_joined_no_dash_run(ts1);
        assert(no_dash_run(ts[ts.len() - 1]));
        lemma_quoted_no_dash_run(ts.last());
        let sep = seq![',', ' '];
        lemma_short_no_dash_run(sep);
        lemma_no_dash_run_concat(joined(ts1), sep);
        lemma_no_dash_run_concat(joined(ts1) + sep, quoted(ts.last()));
    } else {
        lemma_short_no_dash_run(joined(ts));
    }
}

proof fn lemma_frontmatter_no_dash_run(m: MarkdownView)
    requires
        fields_without_dash_run(m),
    ensures
        no_dash_run(frontmatter_text(m)),
        frontmatter_text(m).last() == '\n',
{
    let e = escape(m.title);
    let tt = tags_text(m.tags);
    let nl = seq!['\n'];
    let q = seq!['"'];
    lemma_escape_no_dash_run(m.title);
    lemma_joined_no_dash_run(m.tags);
    if m.tags.len() == 0 {
        lemma_short_no_dash_run(tt);
    } else {
        lemma_short_no_dash_run(seq!['[']);
        lemma_short_no_dash_run(seq![']']);
        lemma_no_dash_run_concat(seq!['['], joined(m.tags));
        lemma_no_dash_run_concat(seq!['['] + joined(m.tags), seq![']']);
    }
    let k1 = seq!['t', 'i', 't', 'l', 'e', ':', ' ', '"'];
    let k2 = seq!['t', 'a', 'g', 's', ':', ' '];
    let k3 = seq!['c', 'r', 'e', 'a', 't', 'e', 'd', ':', ' '];
    let k4 = seq!['u', 'p', 'd', 'a', 't', 'e', 'd', ':', ' '];
    assert(no_dash_run(k1) && no_dash_run(k2) && no_dash_run(k3) && no_dash_run(k4));
    lemma_short_no_dash_run(q);
    lemma_short_no_dash_run(nl);
    lemma_no_dash_run_concat(k1, e);
    lemma_no_dash_run_concat(k1 + e, q);
    lemma_no_dash_run_concat(k2, tt);
    lemma_no_dash_run_concat(k3, m.created);
    lemma_no_dash_run_concat(k4, m.updated);
    let l1 = title_line(m.title);
    let l2 = tags_line(m.tags);
    let l3 = created_line(m.created);
    let l4 = updated_line(m.updated);
    assert(l1 =~= k1 + e + q);
    assert(l2 =~= k2 + tt);
    assert(l3 =~= k3 + m.created);
    assert(l4 =~= k4 + m.updated);
    let a1 = nl + l1;
    let a2 = a1 + nl;
    let a3 = a2 + l2;
    let a4 = a3 + nl;
    let a5 = a4 + l3;
    let a6 = a5 + nl;
    let a7 = a6 + l4;
    lemma_no_dash_run_concat(nl, l1);
    lemma_no_dash_run_concat(a1, nl);
    lemma_no_dash_run_concat(a2, l2);
    lemma_no_dash_run_concat(a3, nl);
    lemma_no_dash_run_concat(a4, l3);
    lemma_no_dash_run_concat(a5, nl);
    lemma_no_dash_run_concat(a6, l4);
    lemma_no_dash_run_concat(a7, nl);
    assert(frontmatter_text(m) =~= a7 + nl);
}

/// The first `---` after the opening one is the closing one.
proof fn lemma_closing_found(m: MarkdownView)
    requires
        fields_without_dash_run(m),
    ensures
        trim_start(spec_serialize(m)) == spec_serialize(m),
        starts_with(spec_serialize(m), dash3()),
        find(spec_serialize(m).skip(3), dash3()) == Some(frontmatter_text(m).len() as int),
        spec_serialize(m).skip(3).take(frontmatter_text(m).len() as int) == frontmatter_text(m),
        spec_serialize(m).skip(3).skip(frontmatter_text(m).len() + 3int) == seq!['\n'] + m.body,
{
    let p = frontmatter_text(m);
    let nl = seq!['\n'];
    let tail = seq!['-', '-', '-', '\n'] + m.body;
    let s = spec_serialize(m);
    lemma_serialized_shape(m);
    lemma_frontmatter_no_dash_run(m);
    assert(s[0] == '-');
    assert(trim_start(s) == s);
    assert(s.subrange(0, 3) =~= dash3());
    let rest = s.skip(3);
    assert(rest =~= p + tail);
    let k = p.len() as int;
    assert forall|j: int| 0 <= j < k implies #[trigger] rest.subrange(j, j + 3) != dash3() by {
        if rest.subrange(j, j + 3) == dash3() {
            let w = rest.subrange(j, j + 3);
            assert(w[0] == '-' && w[1] == '-' && w[2] == '-');
            if j + 3 <= k {
                assert(rest[j] == p[j] && rest[j + 1] == p[j + 1] && rest[j + 2] == p[j + 2]);
                assert(dash_at(p, j));
            } else {
                assert(rest[k - 1] == '\n');
                assert(w[k - 1 - j] == rest[k - 1]);
            }
        }
    }
    assert(rest.subrange(k, k + 3) =~= dash3());
    lemma_find_first(rest, dash3(), 0, k);
    assert(rest.take(k) =~= p);
    assert(rest.skip(k + 3) =~= nl + m.body);
}

/// Law: the body that `serialize` writes is the body that `parse` reads,
/// whenever no frontmatter field contains `---` and the body does not begin
/// with whitespace. Newlines or quotes in the other fields do not matter.
pub proof fn lemma_body_roundtrip(m: MarkdownView)
    requires
        fields_without_dash_run(m),
        body_survives(m.body),
    ensures
        spec_parse(spec_serialize(m)).body == m.body,
{
    lemma_closing_found(m);
    let nl = seq!['\n'];
    assert((nl + m.body).drop_first() =~= m.body);
    assert(trim_start(nl + m.body) == trim_start(m.body));
}

/// Law: `parse` reads back exactly what `serialize` wrote, for every content
/// whose fields survive the format (see `survives_roundtrip`).
pub proof fn lemma_parse_serialize_roundtrip(m: MarkdownView)
    requires
        survives_roundtrip(m),
    ensures
        spec_parse(spec_serialize(m)) == m,
{
    assert(fields_without_dash_run(m)) by {
        assert forall|i: int| 0 <= i < m.tags.len() implies #[trigger] no_dash_run(m.tags[i]) by {
            assert(tag_survives(m.tags[i]));
        }
    }
    lemma_closing_found(m);
    let nl = seq!['\n'];
    assert((nl + m.body).drop_first() =~= m.body);
    assert(trim_start(nl + m.body) == trim_start(m.body));
    lemma_frontmatter_split(m);
    lemma_frontmatter_fields(m);
    assert(spec_parse(spec_serialize(m)) =~= m);
}

/// Law: the body `parse` returns is a final part of the file's text.
pub proof fn lemma_parse_body_suffix(content: Seq<char>)
    ensures
        spec_parse(content).body.is_suffix_of(content),
{
    let a = lemma_trim_start_shape(content);
    let t = trim_start(content);
    if starts_with(t, dash3()) {
        let rest = t.skip(3);
        lemma_find_from_range(rest, dash3(), 0);
        if let Some(end) = find(rest, dash3()) {
            let tail = rest.skip(end + 3);
            let b = lemma_trim_start_shape(tail);
            assert(trim_start(tail) =~= content.subrange(a + 3 + end + 3 + b, content.len() as int));
        }
    }
}

proof fn lemma_quoted_stamp_fits(v: Seq<char>)
    requires
        one_line(v),
        lacks(v, '"'),
    ensures
        lacks(quoted_stamp(v), '\n'),
        no_dash_run(quoted_stamp(v)),
{
    let q = seq!['"'];
    assert(lacks(q, '\n'));
    lemma_lacks_concat(q, v, '\n');
    lemma_lacks_concat(q + v, q, '\n');
    lemma_short_no_dash_run(q);
    lemma_no_dash_run_concat(q, v);
    lemma_no_dash_run_concat(q + v, q);
    assert(quoted_stamp(v) =~= q + v + q);
}

proof fn lemma_frontmatter_fields_quoted(m: MarkdownView, c: Seq<char>, u: Seq<char>)
    requires
        title_survives(m.title),
        forall|i: int| 0 <= i < m.tags.len() ==> #[trigger] tag_survives(m.tags[i]),
        m.created == quoted_stamp(c),
        m.updated == quoted_stamp(u),
        lacks(c, '"'),
        lacks(u, '"'),
    ensures
        fold_lines(frontmatter_lines(m)) == (FrontFields { title: m.title, tags: m.tags, created: c, updated: u }),
{
    let em = Seq::<char>::empty();
    let l1 = title_line(m.title);
    let l2 = tags_line(m.tags);
    let l3 = created_line(m.created);
    let l4 = updated_line(m.updated);
    let ls = frontmatter_lines(m);
    let f0 = no_fields();
    let f2 = FrontFields { title: m.title, ..f0 };
    let f3 = FrontFields { tags: m.tags, ..f2 };
    let f4 = FrontFields { created: c, ..f3 };
    let f5 = FrontFields { updated: u, ..f4 };
    lemma_apply_empty_line(f0);
    lemma_apply_title_line(f0, m.title);
    lemma_apply_tags_line(f2, m.tags);
    lemma_quoted_stamp_lines(f3, c);
    lemma_quoted_stamp_lines(f4, u);
    lemma_apply_empty_line(f5);
    assert(ls.drop_last() =~= seq![em, l1, l2, l3, l4]);
    assert(seq![em, l1, l2, l3, l4].drop_last() =~= seq![em, l1, l2, l3]);
    assert(seq![em, l1, l2, l3].drop_last() =~= seq![em, l1, l2]);
    assert(seq![em, l1, l2].drop_last() =~= seq![em, l1]);
    assert(seq![em, l1].drop_last() =~= seq![em]);
    assert(seq![em].drop_last() =~= Seq::<Seq<char>>::empty());
    assert(fold_lines(Seq::<Seq<char>>::empty()) == f0);
    assert(seq![em].last() == em);
    assert(fold_lines(seq![em]) == apply_line(fold_lines(seq![em].drop_last()), em));
    assert(fold_lines(seq![em]) == f0);
    assert(fold_lines(seq![em, l1]) == f2);
    assert(fold_lines(seq![em, l1, l2]) == f3);
    assert(fold_lines(seq![em, l1, l2, l3]) == f4);
    assert(fold_lines(seq![em, l1, l2, l3, l4]) == f5);
    assert(fold_lines(ls) == f5);
}

/// Law: `parse` reads `created` and `updated` written between double quotes
/// without the quotes. A file laid out as `serialize` writes it, but with the
/// lines `created: "c"` and `updated: "u"`, is read with the stamps `c` and
/// `u` and every other field as written.
pub proof fn lemma_parse_quoted_stamps(m: MarkdownView, c: Seq<char>, u: Seq<char>)
    requires
        title_survives(m.title),
        forall|i: int| 0 <= i < m.tags.len() ==> #[trigger] tag_survives(m.tags[i]),
        body_survives(m.body),
        one_line(c),
        lacks(c, '"'),
        one_line(u),
        lacks(u, '"'),
    ensures
        spec_parse(
            spec_serialize(MarkdownView { created: quoted_stamp(c), updated: quoted_stamp(u), ..m }),
        ) == (MarkdownView { created: c, updated: u, ..m }),
{
    let m2 = MarkdownView { created: quoted_stamp(c), updated: quoted_stamp(u), ..m };
    lemma_quoted_stamp_fits(c);
    lemma_quoted_stamp_fits(u);
    assert(fields_without_dash_run(m2)) by {
        assert forall|i: int| 0 <= i < m2.tags.len() implies #[trigger] no_dash_run(m2.tags[i]) by {
            assert(tag_survives(m.tags[i]));
        }
    }
    lemma_closing_found(m2);
    let nl = seq!['\n'];
    assert((nl + m2.body).drop_first() =~= m2.body);
    assert(trim_start(nl + m2.body) == trim_start(m2.body));
    lemma_frontmatter_split(m2);
    lemma_frontmatter_fields_quoted(m2, c, u);
    assert(spec_parse(spec_serialize(m2)) =~= (MarkdownView { created: c, updated: u, ..m }));
}

} // verus!
