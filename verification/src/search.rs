//! Full-text search: the FTS5 query built from what the user typed.
use vstd::prelude::*;

use crate::text::{
    is_white_space, join_with, joined_with, lacks, lemma_split_at_sep, lemma_split_single, lemma_words_cover_text,
    no_white, split_on, split_words, str_is, words,
};

verus! {

/// The FTS5 query for a search text: its words joined by ` OR ` in mode
/// `or`, by ` AND ` in every other mode.
pub open spec fn fts_query_of(query: Seq<char>, mode: Seq<char>) -> Seq<char> {
    if mode == seq!['o', 'r'] {
        joined_with(words(query), seq![' ', 'O', 'R', ' '])
    } else {
        joined_with(words(query), seq![' ', 'A', 'N', 'D', ' '])
    }
}

/// The FTS5 query for a search text and mode.
pub fn fts_query(query: &str, mode: &str) -> (r: String)
    ensures
        r@ == fts_query_of(query@, mode@),
{
    let ws = split_words(query);
    if str_is(mode, &['o', 'r']) {
        join_with(&ws, &[' ', 'O', 'R', ' '])
    } else {
        join_with(&ws, &[' ', 'A', 'N', 'D', ' '])
    }
}

/// The words with the connective `k` between neighbours, as the pieces of
/// the query between its spaces (a query without words is one empty piece).
pub open spec fn with_connective(ws: Seq<Seq<char>>, k: Seq<char>) -> Seq<Seq<char>>
    decreases ws.len(),
{
    if ws.len() == 0 {
        seq![Seq::<char>::empty()]
    } else if ws.len() == 1 {
        seq![ws[0]]
    } else {
        with_connective(ws.drop_last(), k) + seq![k, ws.last()]
    }
}

proof fn lemma_split_joined(ws: Seq<Seq<char>>, k: Seq<char>)
    requires
        lacks(k, ' '),
        forall|i: int| 0 <= i < ws.len() ==> lacks(#[trigger] ws[i], ' '),
    ensures
        split_on(joined_with(ws, seq![' '] + k + seq![' ']), ' ') == with_connective(ws, k),
    decreases ws.len(),
{
    let sep = seq![' '] + k + seq![' '];
    if ws.len() == 0 {
        assert(joined_with(ws, sep) =~= Seq::<char>::empty());
    } else if ws.len() == 1 {
        assert(lacks(ws[0], ' '));
        lemma_split_single(ws[0], ' ');
    } else {
        let w1 = ws.drop_last();
        assert forall|i: int| 0 <= i < w1.len() implies lacks(#[trigger] w1[i], ' ') by {
            assert(w1[i] == ws[i]);
        }
        lemma_split_joined(w1, k);
        let a = joined_with(w1, sep);
        let last = ws.last();
        assert(lacks(ws[ws.len() - 1], ' '));
        let b = k + seq![' '] + last;
        assert(joined_with(ws, sep) =~= a + seq![' '] + b);
        lemma_split_at_sep(a, b, ' ');
        lemma_split_at_sep(k, last, ' ');
        lemma_split_single(k, ' ');
        lemma_split_single(last, ' ');
        assert(split_on(b, ' ') =~= seq![k, last]);
    }
}

/// Law: the query keeps every word of the search text, in order: split at
/// its spaces it is the text's words (`str::split_whitespace`) with `AND`
/// between neighbours, or `OR` in mode `or`.
pub proof fn lemma_query_keeps_words(query: Seq<char>, mode: Seq<char>)
    ensures
        split_on(fts_query_of(query, mode), ' ') == with_connective(
            words(query),
            if mode == seq!['o', 'r'] {
                seq!['O', 'R']
            } else {
                seq!['A', 'N', 'D']
            },
        ),
{
    let ws = words(query);
    lemma_words_cover_text(query);
    assert(is_white_space(' '));
    assert forall|i: int| 0 <= i < ws.len() implies lacks(#[trigger] ws[i], ' ') by {
        assert(ws[i].len() > 0 && no_white(ws[i]));
    }
    if mode == seq!['o', 'r'] {
        assert(seq![' ', 'O', 'R', ' '] =~= seq![' '] + seq!['O', 'R'] + seq![' ']);
        lemma_split_joined(ws, seq!['O', 'R']);
    } else {
        assert(seq![' ', 'A', 'N', 'D', ' '] =~= seq![' '] + seq!['A', 'N', 'D'] + seq![' ']);
        lemma_split_joined(ws, seq!['A', 'N', 'D']);
    }
}

} // verus!
