//! Character-sequence primitives: whitespace, trimming, splitting and searching.
//!
//! Every operation is stated over `Seq<char>` and implemented over a range
//! `lo..hi` of a `[char]` slice, so that parsers can work without copying.
use vstd::prelude::*;

verus! {

/// The Unicode `White_Space` property, as listed in `PropList.txt`.
pub open spec fn is_white_space(c: char) -> bool {
    let u = c as u32;
    ||| 0x09 <= u <= 0x0D
    ||| u == 0x20
    ||| u == 0x85
    ||| u == 0xA0
    ||| u == 0x1680
    ||| 0x2000 <= u <= 0x200A
    ||| u == 0x2028
    ||| u == 0x2029
    ||| u == 0x202F
    ||| u == 0x205F
    ||| u == 0x3000
}

/// Whether `c` has the Unicode `White_Space` property, as
/// `char::is_whitespace` answers it.
pub fn char_is_whitespace(c: char) -> (r: bool)
    ensures
        r == is_white_space(c),
{
    let u = c as u32;
    (0x09 <= u && u <= 0x0D) || u == 0x20 || u == 0x85 || u == 0xA0 || u == 0x1680
        || (0x2000 <= u && u <= 0x200A) || u == 0x2028 || u == 0x2029 || u == 0x202F || u == 0x205F
        || u == 0x3000
}

/// `String::push`: appends one character.
#[verifier::external_body]
pub fn push_char(s: &mut String, c: char)
    ensures
        final(s)@ == old(s)@.push(c),
{
    s.push(c);
}

/// The characters of a string slice, in order.
pub fn to_chars(s: &str) -> (v: Vec<char>)
    ensures
        v@ == s@,
{
    let mut v: Vec<char> = Vec::new();
    for c in it: s.chars()
        invariant
            it.seq() == s@,
            v@ == it.seq().take(it.index() as int),
    {
        v.push(c);
    }
    v
}

/// `s` with leading whitespace removed.
pub open spec fn trim_start(s: Seq<char>) -> Seq<char>
    decreases s.len(),
{
    if s.len() > 0 && is_white_space(s[0]) {
        trim_start(s.drop_first())
    } else {
        s
    }
}

/// `s` with trailing whitespace removed.
pub open spec fn trim_end(s: Seq<char>) -> Seq<char>
    decreases s.len(),
{
    if s.len() > 0 && is_white_space(s.last()) {
        trim_end(s.drop_last())
    } else {
        s
    }
}

/// `s` with leading and trailing whitespace removed (`str::trim`).
pub open spec fn trim(s: Seq<char>) -> Seq<char> {
    trim_end(trim_start(s))
}

/// `s` with every leading `c` removed.
pub open spec fn trim_start_char(s: Seq<char>, c: char) -> Seq<char>
    decreases s.len(),
{
    if s.len() > 0 && s[0] == c {
        trim_start_char(s.drop_first(), c)
    } else {
        s
    }
}

/// `s` with every trailing `c` removed.
pub open spec fn trim_end_char(s: Seq<char>, c: char) -> Seq<char>
    decreases s.len(),
{
    if s.len() > 0 && s.last() == c {
        trim_end_char(s.drop_last(), c)
    } else {
        s
    }
}

/// `str::trim_matches(c)`: every leading and trailing `c` removed.
pub open spec fn trim_matches(s: Seq<char>, c: char) -> Seq<char> {
    trim_end_char(trim_start_char(s, c), c)
}

/// `s` begins with `p`.
pub open spec fn starts_with(s: Seq<char>, p: Seq<char>) -> bool {
    p.len() <= s.len() && s.subrange(0, p.len() as int) == p
}

/// The first position at or after `i` where `p` occurs in `s`.
pub open spec fn find_from(s: Seq<char>, p: Seq<char>, i: int) -> Option<int>
    decreases s.len() + 1 - i,
{
    if i < 0 || i + p.len() > s.len() {
        None
    } else if s.subrange(i, i + p.len()) == p {
        Some(i)
    } else {
        find_from(s, p, i + 1)
    }
}

/// `str::find`: the first position where `p` occurs in `s`.
pub open spec fn find(s: Seq<char>, p: Seq<char>) -> Option<int> {
    find_from(s, p, 0)
}

/// `str::split(c)`: the pieces of `s` between occurrences of `c`; there is
/// always one piece more than there are separators.
pub open spec fn split_on(s: Seq<char>, c: char) -> Seq<Seq<char>>
    decreases s.len(),
{
    if s.len() == 0 {
        seq![Seq::<char>::empty()]
    } else {
        let p = split_on(s.drop_last(), c);
        if s.last() == c {
            p.push(Seq::<char>::empty())
        } else {
            p.update(p.len() - 1, p.last().push(s.last()))
        }
    }
}

pub proof fn lemma_split_on_nonempty(s: Seq<char>, c: char)
    ensures
        split_on(s, c).len() >= 1,
    decreases s.len(),
{
    if s.len() > 0 {
        lemma_split_on_nonempty(s.drop_last(), c);
    }
}

/// Three dashes start at position `i` of `s`.
pub open spec fn dash_at(s: Seq<char>, i: int) -> bool {
    s[i] == '-' && s[i + 1] == '-' && s[i + 2] == '-'
}

/// `s` does not contain `---`.
pub open spec fn no_dash_run(s: Seq<char>) -> bool {
    forall|i: int| 0 <= i && i + 3 <= s.len() ==> !#[trigger] dash_at(s, i)
}

/// `s` does not contain `c`.
pub open spec fn lacks(s: Seq<char>, c: char) -> bool {
    forall|i: int| 0 <= i < s.len() ==> #[trigger] s[i] != c
}

pub proof fn lemma_no_dash_run_concat(a: Seq<char>, b: Seq<char>)
    requires
        no_dash_run(a),
        no_dash_run(b),
        (a.len() > 0 && a.last() != '-') || (b.len() > 0 && b[0] != '-'),
    ensures
        no_dash_run(a + b),
{
    let s = a + b;
    assert forall|i: int| 0 <= i && i + 3 <= s.len() implies !#[trigger] dash_at(s, i) by {
        if i + 3 <= a.len() {
            assert(s[i] == a[i] && s[i + 1] == a[i + 1] && s[i + 2] == a[i + 2]);
            assert(!dash_at(a, i));
        } else if i >= a.len() {
            let j = i - a.len();
            assert(s[i] == b[j] && s[i + 1] == b[j + 1] && s[i + 2] == b[j + 2]);
            assert(!dash_at(b, j));
        } else {
            assert(s[a.len() - 1] == a.last());
            assert(s[a.len() as int] == b[0]);
        }
    }
}

pub proof fn lemma_lacks_concat(a: Seq<char>, b: Seq<char>, c: char)
    requires
        lacks(a, c),
        lacks(b, c),
    ensures
        lacks(a + b, c),
{
    assert forall|i: int| 0 <= i < (a + b).len() implies #[trigger] (a + b)[i] != c by {
        if i < a.len() {
            assert((a + b)[i] == a[i]);
        } else {
            assert((a + b)[i] == b[i - a.len()]);
        }
    }
}

/// The first occurrence of `p` at or after `i` is at `k`.
pub proof fn lemma_find_first(s: Seq<char>, p: Seq<char>, i: int, k: int)
    requires
        0 <= i <= k,
        k + p.len() <= s.len(),
        s.subrange(k, k + p.len()) == p,
        forall|j: int| i <= j < k ==> #[trigger] s.subrange(j, j + p.len()) != p,
    ensures
        find_from(s, p, i) == Some(k),
    decreases k - i,
{
    if i < k {
        lemma_find_first(s, p, i + 1, k);
    }
}

/// A text without `c` is a single piece.
pub proof fn lemma_split_single(a: Seq<char>, c: char)
    requires
        lacks(a, c),
    ensures
        split_on(a, c) == seq![a],
    decreases a.len(),
{
    if a.len() > 0 {
        let d = a.drop_last();
        assert(lacks(d, c)) by {
            assert forall|i: int| 0 <= i < d.len() implies #[trigger] d[i] != c by {
                assert(d[i] == a[i]);
            }
        }
        lemma_split_single(d, c);
        assert(a[a.len() - 1] != c);
        assert(d.push(a.last()) =~= a);
        assert(seq![d].update(0, d.push(a.last())) =~= seq![a]);
    } else {
        assert(a =~= Seq::<char>::empty());
    }
}

/// Splitting at a separator splits the two sides independently.
pub proof fn lemma_split_at_sep(a: Seq<char>, b: Seq<char>, c: char)
    ensures
        split_on(a + seq![c] + b, c) == split_on(a, c) + split_on(b, c),
    decreases b.len(),
{
    let s = a + seq![c] + b;
    if b.len() == 0 {
        assert(s.drop_last() =~= a);
        assert(b =~= Seq::<char>::empty());
        assert(split_on(a, c).push(Seq::<char>::empty()) =~= split_on(a, c) + seq![Seq::<char>::empty()]);
    } else {
        let b1 = b.drop_last();
        assert(s.drop_last() =~= a + seq![c] + b1);
        assert(s.last() == b.last());
        lemma_split_at_sep(a, b1, c);
        lemma_split_on_nonempty(b1, c);
        let pa = split_on(a, c);
        let pb = split_on(b1, c);
        if b.last() == c {
            assert((pa + pb).push(Seq::<char>::empty()) =~= pa + pb.push(Seq::<char>::empty()));
        } else {
            let p = pa + pb;
            assert(p.update(p.len() - 1, p.last().push(b.last())) =~= pa + pb.update(
                pb.len() - 1,
                pb.last().push(b.last()),
            ));
        }
    }
}

/// `trim` leaves a text alone that neither begins nor ends with whitespace.
pub proof fn lemma_trim_plain(s: Seq<char>)
    requires
        s.len() == 0 || (!is_white_space(s[0]) && !is_white_space(s.last())),
    ensures
        trim(s) == s,
{
}

/// A leading space is trimmed away.
pub proof fn lemma_trim_space(s: Seq<char>)
    ensures
        trim(seq![' '] + s) == trim(s),
{
    let t = seq![' '] + s;
    assert(t.drop_first() =~= s);
    assert(is_white_space(' '));
}

/// The index where `trim_start` of `s[lo..hi]` begins.
pub fn skip_white_space(s: &[char], lo: usize, hi: usize) -> (r: usize)
    requires
        lo <= hi <= s@.len(),
    ensures
        lo <= r <= hi,
        trim_start(s@.subrange(lo as int, hi as int)) == s@.subrange(r as int, hi as int),
{
    let mut i = lo;
    while i < hi && char_is_whitespace(s[i])
        invariant
            lo <= i <= hi <= s@.len(),
            trim_start(s@.subrange(lo as int, hi as int)) == trim_start(s@.subrange(i as int, hi as int)),
        decreases hi - i,
    {
        assert(s@.subrange(i as int, hi as int).drop_first() =~= s@.subrange(i + 1, hi as int));
        i = i + 1;
    }
    i
}

/// The range of `trim(s[lo..hi])`.
pub fn trim_range(s: &[char], lo: usize, hi: usize) -> (r: (usize, usize))
    requires
        lo <= hi <= s@.len(),
    ensures
        lo <= r.0 <= r.1 <= hi,
        trim(s@.subrange(lo as int, hi as int)) == s@.subrange(r.0 as int, r.1 as int),
{
    let i = skip_white_space(s, lo, hi);
    let mut j = hi;
    while j > i && char_is_whitespace(s[j - 1])
        invariant
            lo <= i <= j <= hi <= s@.len(),
            trim_end(s@.subrange(i as int, hi as int)) == trim_end(s@.subrange(i as int, j as int)),
        decreases j - i,
    {
        assert(s@.subrange(i as int, j as int).drop_last() =~= s@.subrange(i as int, j - 1));
        j = j - 1;
    }
    (i, j)
}

/// The range of `trim_matches(s[lo..hi], c)`.
pub fn trim_char_range(s: &[char], lo: usize, hi: usize, c: char) -> (r: (usize, usize))
    requires
        lo <= hi <= s@.len(),
    ensures
        lo <= r.0 <= r.1 <= hi,
        trim_matches(s@.subrange(lo as int, hi as int), c) == s@.subrange(r.0 as int, r.1 as int),
{
    let mut i = lo;
    while i < hi && s[i] == c
        invariant
            lo <= i <= hi <= s@.len(),
            trim_start_char(s@.subrange(lo as int, hi as int), c) == trim_start_char(
                s@.subrange(i as int, hi as int),
                c,
            ),
        decreases hi - i,
    {
        assert(s@.subrange(i as int, hi as int).drop_first() =~= s@.subrange(i + 1, hi as int));
        i = i + 1;
    }
    let mut j = hi;
    while j > i && s[j - 1] == c
        invariant
            lo <= i <= j <= hi <= s@.len(),
            trim_end_char(s@.subrange(i as int, hi as int), c) == trim_end_char(
                s@.subrange(i as int, j as int),
                c,
            ),
        decreases j - i,
    {
        assert(s@.subrange(i as int, j as int).drop_last() =~= s@.subrange(i as int, j - 1));
        j = j - 1;
    }
    (i, j)
}

/// Whether `s[lo..hi]` begins with `p`.
pub fn starts_with_at(s: &[char], lo: usize, hi: usize, p: &[char]) -> (r: bool)
    requires
        lo <= hi <= s@.len(),
    ensures
        r == starts_with(s@.subrange(lo as int, hi as int), p@),
{
    if p.len() > hi - lo {
        return false;
    }
    let mut k: usize = 0;
    while k < p.len()
        invariant
            p.len() <= hi - lo,
            lo <= hi <= s@.len(),
            k <= p.len(),
            forall|m: int| 0 <= m < k ==> s@[lo + m] == p@[m],
        decreases p.len() - k,
    {
        if s[lo + k] != p[k] {
            assert(s@.subrange(lo as int, hi as int).subrange(0, p@.len() as int)[k as int] != p@[k as int]);
            return false;
        }
        k = k + 1;
    }
    assert(s@.subrange(lo as int, hi as int).subrange(0, p@.len() as int) =~= p@);
    true
}

/// The first occurrence of `p` in `s[lo..hi]`, as an index into `s`.
pub fn find_in(s: &[char], lo: usize, hi: usize, p: &[char]) -> (r: Option<usize>)
    requires
        lo <= hi <= s@.len(),
    ensures
        match r {
            Some(k) => lo <= k && k + p@.len() <= hi && find(s@.subrange(lo as int, hi as int), p@)
                == Some((k - lo) as int),
            None => find(s@.subrange(lo as int, hi as int), p@) is None,
        },
{
    let ghost t = s@.subrange(lo as int, hi as int);
    if p.len() == 0 {
        assert(t.subrange(0, 0) =~= p@);
        return Some(lo);
    }
    let mut i = lo;
    while p.len() <= hi - i
        invariant
            lo <= i <= hi,
            p@.len() > 0,
            lo <= hi <= s@.len(),
            t == s@.subrange(lo as int, hi as int),
            find_from(t, p@, 0) == find_from(t, p@, i - lo),
        decreases hi - i,
    {
        let m = starts_with_at(s, i, hi, p);
        assert(t.subrange(i - lo, i - lo + p@.len()) =~= s@.subrange(i as int, hi as int).subrange(
            0,
            p@.len() as int,
        ));
        if m {
            return Some(i);
        }
        i = i + 1;
    }
    None
}

/// The characters `s[lo..hi]` as a `String`.
pub fn collect_range(s: &[char], lo: usize, hi: usize) -> (r: String)
    requires
        lo <= hi <= s@.len(),
    ensures
        r@ == s@.subrange(lo as int, hi as int),
{
    let mut out = String::new();
    let mut i = lo;
    while i < hi
        invariant
            lo <= i <= hi <= s@.len(),
            out@ == s@.subrange(lo as int, i as int),
        decreases hi - i,
    {
        push_char(&mut out, s[i]);
        assert(s@.subrange(lo as int, i + 1) =~= s@.subrange(lo as int, i as int).push(s@[i as int]));
        i = i + 1;
    }
    out
}

/// Appends all of `p` to `out`.
pub fn push_chars(out: &mut String, p: &[char])
    ensures
        final(out)@ == old(out)@ + p@,
{
    let mut k: usize = 0;
    while k < p.len()
        invariant
            k <= p.len(),
            out@ == old(out)@ + p@.subrange(0, k as int),
        decreases p.len() - k,
    {
        push_char(out, p[k]);
        assert(p@.subrange(0, k + 1) =~= p@.subrange(0, k as int).push(p@[k as int]));
        k = k + 1;
    }
    assert(p@.subrange(0, p@.len() as int) =~= p@);
}

/// Appends the characters of `s` to `out`.
pub fn push_str(out: &mut String, s: &str)
    ensures
        final(out)@ == old(out)@ + s@,
{
    let v = to_chars(s);
    push_chars(out, v.as_slice());
}

/// Whether `s` and `p` hold the same characters.
pub fn same_chars(s: &[char], p: &[char]) -> (r: bool)
    ensures
        r == (s@ == p@),
{
    if s.len() != p.len() {
        return false;
    }
    let r = starts_with_at(s, 0, s.len(), p);
    assert(s@.subrange(0, s@.len() as int) =~= s@);
    if r {
        assert(s@.subrange(0, p@.len() as int) =~= s@);
    }
    r
}

/// Whether the string `s` is the text `p`.
pub fn str_is(s: &str, p: &[char]) -> (r: bool)
    ensures
        r == (s@ == p@),
{
    let v = to_chars(s);
    same_chars(v.as_slice(), p)
}

/// A new string holding the characters of `p`.
pub fn string_of(p: &[char]) -> (r: String)
    ensures
        r@ == p@,
{
    let mut out = String::new();
    push_chars(&mut out, p);
    out
}

/// A copy of the string slice `s`.
pub fn string_from(s: &str) -> (r: String)
    ensures
        r@ == s@,
{
    let mut out = String::new();
    push_str(&mut out, s);
    out
}

/// The texts joined with `sep` between neighbours (`[T]::join`).
pub open spec fn joined_with(ts: Seq<Seq<char>>, sep: Seq<char>) -> Seq<char>
    decreases ts.len(),
{
    if ts.len() == 0 {
        Seq::empty()
    } else if ts.len() == 1 {
        ts[0]
    } else {
        joined_with(ts.drop_last(), sep) + sep + ts.last()
    }
}

/// The strings joined with `sep` between neighbours.
pub fn join_with(items: &Vec<String>, sep: &[char]) -> (r: String)
    ensures
        r@ == joined_with(items.deep_view(), sep@),
{
    let ghost ts = items.deep_view();
    let mut out = String::new();
    let mut i: usize = 0;
    while i < items.len()
        invariant
            i <= items@.len(),
            ts == items.deep_view(),
            ts.len() == items@.len(),
            out@ == joined_with(ts.take(i as int), sep@),
        decreases items@.len() - i,
    {
        if i > 0 {
            push_chars(&mut out, sep);
        }
        push_str(&mut out, items[i].as_str());
        assert(ts.take(i + 1).drop_last() =~= ts.take(i as int));
        assert(ts[i as int] == items@[i as int]@);
        assert(out@ =~= joined_with(ts.take(i + 1), sep@));
        i = i + 1;
    }
    assert(ts.take(ts.len() as int) =~= ts);
    out
}

/// The pieces of `s` between whitespace characters.
pub open spec fn split_white(s: Seq<char>) -> Seq<Seq<char>>
    decreases s.len(),
{
    if s.len() == 0 {
        seq![Seq::<char>::empty()]
    } else {
        let p = split_white(s.drop_last());
        if is_white_space(s.last()) {
            p.push(Seq::<char>::empty())
        } else {
            p.update(p.len() - 1, p.last().push(s.last()))
        }
    }
}

/// The pieces that are not empty, in order.
pub open spec fn nonempty_pieces(ps: Seq<Seq<char>>) -> Seq<Seq<char>>
    decreases ps.len(),
{
    if ps.len() == 0 {
        Seq::empty()
    } else if ps.last().len() > 0 {
        nonempty_pieces(ps.drop_last()).push(ps.last())
    } else {
        nonempty_pieces(ps.drop_last())
    }
}

/// `str::split_whitespace`: the maximal runs of non-whitespace characters.
pub open spec fn words(s: Seq<char>) -> Seq<Seq<char>> {
    nonempty_pieces(split_white(s))
}

/// The words of `s`.
pub fn split_words(s: &str) -> (r: Vec<String>)
    ensures
        r.deep_view() == words(s@),
{
    let v = to_chars(s);
    let cs = v.as_slice();
    let n = cs.len();
    let mut out: Vec<String> = Vec::new();
    let mut start: usize = 0;
    let mut i: usize = 0;
    let ghost mut done: Seq<Seq<char>> = Seq::empty();
    assert(cs@.subrange(0, 0) =~= Seq::<char>::empty());
    assert(done.push(Seq::<char>::empty()) =~= seq![Seq::<char>::empty()]);
    assert(out.deep_view() =~= Seq::<Seq<char>>::empty());
    while i < n
        invariant
            start <= i <= n == cs@.len(),
            split_white(cs@.subrange(0, i as int)) == done.push(cs@.subrange(start as int, i as int)),
            out.deep_view() == nonempty_pieces(done),
        decreases n - i,
    {
        assert(cs@.subrange(0, i + 1).drop_last() =~= cs@.subrange(0, i as int));
        if char_is_whitespace(cs[i]) {
            let ghost old_done = done;
            let ghost old_out = out.deep_view();
            proof {
                done = done.push(cs@.subrange(start as int, i as int));
                assert(done.drop_last() =~= old_done);
            }
            if start < i {
                let w = collect_range(cs, start, i);
                out.push(w);
                assert(out.deep_view() =~= old_out.push(w@));
            }
            assert(out.deep_view() =~= nonempty_pieces(done));
            assert(cs@.subrange(i + 1, i + 1) =~= Seq::<char>::empty());
            start = i + 1;
        } else {
            assert(cs@.subrange(start as int, i + 1) =~= cs@.subrange(start as int, i as int).push(cs@[i as int]));
        }
        assert(split_white(cs@.subrange(0, i + 1)) =~= done.push(cs@.subrange(start as int, i + 1)));
        i = i + 1;
    }
    let ghost all = done.push(cs@.subrange(start as int, n as int));
    assert(all.drop_last() =~= done);
    let ghost old_out = out.deep_view();
    if start < n {
        let w = collect_range(cs, start, n);
        out.push(w);
        assert(out.deep_view() =~= old_out.push(w@));
    }
    assert(out.deep_view() =~= nonempty_pieces(all));
    assert(cs@.subrange(0, n as int) =~= s@);
    out
}

proof fn lemma_trim_start_char_range(s: Seq<char>, c: char) -> (a: int)
    ensures
        0 <= a <= s.len(),
        trim_start_char(s, c) == s.subrange(a, s.len() as int),
        a < s.len() ==> s[a] != c,
    decreases s.len(),
{
    if s.len() > 0 && s[0] == c {
        let a1 = lemma_trim_start_char_range(s.drop_first(), c);
        assert(s.drop_first().subrange(a1, s.len() - 1) =~= s.subrange(a1 + 1, s.len() as int));
        a1 + 1
    } else {
        assert(s.subrange(0, s.len() as int) =~= s);
        0
    }
}

proof fn lemma_trim_end_char_range(s: Seq<char>, c: char) -> (b: int)
    ensures
        0 <= b <= s.len(),
        trim_end_char(s, c) == s.subrange(0, b),
        b > 0 ==> s[b - 1] != c,
    decreases s.len(),
{
    if s.len() > 0 && s.last() == c {
        let b1 = lemma_trim_end_char_range(s.drop_last(), c);
        assert(s.drop_last().subrange(0, b1) =~= s.subrange(0, b1));
        b1
    } else {
        assert(s.subrange(0, s.len() as int) =~= s);
        s.len() as int
    }
}

/// `trim_matches(s, c)` is a part `s[a..b]` of `s` that neither begins nor
/// ends with `c`.
pub proof fn lemma_trim_matches_range(s: Seq<char>, c: char) -> (ab: (int, int))
    ensures
        0 <= ab.0 <= ab.1 <= s.len(),
        trim_matches(s, c) == s.subrange(ab.0, ab.1),
        trim_matches(s, c).len() > 0 ==> trim_matches(s, c)[0] != c && trim_matches(s, c).last() != c,
{
    let a = lemma_trim_start_char_range(s, c);
    let t = s.subrange(a, s.len() as int);
    let b = lemma_trim_end_char_range(t, c);
    assert(t.subrange(0, b) =~= s.subrange(a, a + b));
    (a, a + b)
}

pub proof fn lemma_trim_start_shape(s: Seq<char>) -> (a: int)
    ensures
        0 <= a <= s.len(),
        trim_start(s) == s.subrange(a, s.len() as int),
        a < s.len() ==> !is_white_space(s[a]),
    decreases s.len(),
{
    if s.len() > 0 && is_white_space(s[0]) {
        let a1 = lemma_trim_start_shape(s.drop_first());
        assert(s.drop_first().subrange(a1, s.len() - 1) =~= s.subrange(a1 + 1, s.len() as int));
        a1 + 1
    } else {
        assert(s.subrange(0, s.len() as int) =~= s);
        0
    }
}

proof fn lemma_trim_end_shape(s: Seq<char>) -> (b: int)
    ensures
        0 <= b <= s.len(),
        trim_end(s) == s.subrange(0, b),
        b > 0 ==> !is_white_space(s[b - 1]),
    decreases s.len(),
{
    if s.len() > 0 && is_white_space(s.last()) {
        let b1 = lemma_trim_end_shape(s.drop_last());
        assert(s.drop_last().subrange(0, b1) =~= s.subrange(0, b1));
        b1
    } else {
        assert(s.subrange(0, s.len() as int) =~= s);
        s.len() as int
    }
}

/// Trimming twice is trimming once.
pub proof fn lemma_trim_idempotent(s: Seq<char>)
    ensures
        trim(trim(s)) == trim(s),
{
    let a = lemma_trim_start_shape(s);
    let t = s.subrange(a, s.len() as int);
    let b = lemma_trim_end_shape(t);
    let r = t.subrange(0, b);
    if r.len() > 0 {
        assert(r[0] == t[0]);
        assert(r.last() == t[b - 1]);
    }
    lemma_trim_plain(r);
}

/// A position `find_from` reports is at or after `i`, with the whole of `p`
/// inside `s` from there.
pub proof fn lemma_find_from_range(s: Seq<char>, p: Seq<char>, i: int)
    ensures
        find_from(s, p, i) matches Some(k) ==> i <= k && k + p.len() <= s.len(),
    decreases s.len() + 1 - i,
{
    if !(i < 0 || i + p.len() > s.len()) && s.subrange(i, i + p.len()) != p {
        lemma_find_from_range(s, p, i + 1);
    }
}

/// The characters of `s` that are not whitespace, in order.
pub open spec fn without_white(s: Seq<char>) -> Seq<char>
    decreases s.len(),
{
    if s.len() == 0 {
        s
    } else if is_white_space(s.last()) {
        without_white(s.drop_last())
    } else {
        without_white(s.drop_last()).push(s.last())
    }
}

/// The strings one after another, with nothing between.
pub open spec fn concat_all(ss: Seq<Seq<char>>) -> Seq<char>
    decreases ss.len(),
{
    if ss.len() == 0 {
        Seq::empty()
    } else {
        concat_all(ss.drop_last()) + ss.last()
    }
}

/// A text with no whitespace character in it.
pub open spec fn no_white(s: Seq<char>) -> bool {
    forall|i: int| 0 <= i < s.len() ==> !is_white_space(#[trigger] s[i])
}

proof fn lemma_split_white_cover(s: Seq<char>)
    ensures
        split_white(s).len() >= 1,
        concat_all(split_white(s)) == without_white(s),
        forall|i: int| 0 <= i < split_white(s).len() ==> no_white(#[trigger] split_white(s)[i]),
    decreases s.len(),
{
    if s.len() == 0 {
        let e = Seq::<char>::empty();
        assert(seq![e].drop_last() =~= Seq::<Seq<char>>::empty());
        assert(concat_all(Seq::<Seq<char>>::empty()) == e);
        assert(concat_all(seq![e]) =~= e);
    } else {
        let s1 = s.drop_last();
        lemma_split_white_cover(s1);
        let p = split_white(s1);
        let q = split_white(s);
        if is_white_space(s.last()) {
            assert(q.drop_last() =~= p);
            assert(concat_all(q) =~= concat_all(p));
            assert forall|i: int| 0 <= i < q.len() implies no_white(#[trigger] q[i]) by {
                if i < p.len() {
                    assert(q[i] == p[i]);
                }
            }
        } else {
            assert(q.drop_last() =~= p.drop_last());
            assert(p.drop_last().len() == p.len() - 1);
            assert(concat_all(p) == concat_all(p.drop_last()) + p.last());
            assert(concat_all(q) =~= concat_all(p).push(s.last()));
            assert forall|i: int| 0 <= i < q.len() implies no_white(#[trigger] q[i]) by {
                if i < p.len() - 1 {
                    assert(q[i] == p[i]);
                } else {
                    assert(q[i] =~= p.last().push(s.last()));
                    assert(no_white(p[p.len() - 1]));
                }
            }
        }
    }
}

proof fn lemma_nonempty_pieces_cover(ps: Seq<Seq<char>>)
    ensures
        concat_all(nonempty_pieces(ps)) == concat_all(ps),
        forall|i: int|
            0 <= i < nonempty_pieces(ps).len() ==> #[trigger] nonempty_pieces(ps)[i].len() > 0
                && ps.contains(nonempty_pieces(ps)[i]),
    decreases ps.len(),
{
    if ps.len() > 0 {
        let p1 = ps.drop_last();
        lemma_nonempty_pieces_cover(p1);
        let n = nonempty_pieces(ps);
        let n1 = nonempty_pieces(p1);
        if ps.last().len() > 0 {
            assert(n.drop_last() =~= n1);
            assert forall|i: int| 0 <= i < n.len() implies #[trigger] n[i].len() > 0 && ps.contains(n[i]) by {
                if i < n1.len() {
                    assert(n[i] == n1[i]);
                    assert(n1[i].len() > 0 && p1.contains(n1[i]));
                    let k = choose|k: int| 0 <= k < p1.len() && p1[k] == n1[i];
                    assert(ps[k] == p1[k]);
                } else {
                    assert(ps[ps.len() - 1] == n[i]);
                }
            }
        } else {
            assert(ps.last() =~= Seq::<char>::empty());
            assert(concat_all(ps) =~= concat_all(p1));
            assert(n == n1);
            assert forall|i: int| 0 <= i < n.len() implies #[trigger] n[i].len() > 0 && ps.contains(n[i]) by {
                assert(n1[i].len() > 0 && p1.contains(n1[i]));
                let k = choose|k: int| 0 <= k < p1.len() && p1[k] == n1[i];
                assert(ps[k] == p1[k]);
            }
        }
    }
}

/// Law: the words of a text are not empty and hold no whitespace, and
/// together, in order, they are exactly the text's characters other than
/// whitespace.
pub proof fn lemma_words_cover_text(s: Seq<char>)
    ensures
        forall|i: int| 0 <= i < words(s).len() ==> #[trigger] words(s)[i].len() > 0 && no_white(words(s)[i]),
        concat_all(words(s)) == without_white(s),
{
    lemma_split_white_cover(s);
    lemma_nonempty_pieces_cover(split_white(s));
    assert forall|i: int| 0 <= i < words(s).len() implies #[trigger] words(s)[i].len() > 0 && no_white(
        words(s)[i],
    ) by {
        let ps = split_white(s);
        assert(nonempty_pieces(ps)[i].len() > 0 && ps.contains(nonempty_pieces(ps)[i]));
        let k = choose|k: int| 0 <= k < ps.len() && ps[k] == words(s)[i];
        assert(no_white(ps[k]));
    }
}

} // verus!
