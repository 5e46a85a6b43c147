//! The database schema check: which core tables are missing.
use vstd::prelude::*;

use crate::text::string_from;

verus! {

/// The tables (or views) the database must have, in order.
pub open spec fn expected_tables() -> Seq<Seq<char>> {
    seq!["workspaces"@, "pages"@, "page_tree"@, "fts_index"@]
}

/// The expected tables that `existing` lacks, in the expected order.
pub open spec fn missing_from(expected: Seq<Seq<char>>, existing: Seq<Seq<char>>) -> Seq<Seq<char>>
    decreases expected.len(),
{
    if expected.len() == 0 {
        Seq::empty()
    } else if existing.contains(expected.last()) {
        missing_from(expected.drop_last(), existing)
    } else {
        missing_from(expected.drop_last(), existing).push(expected.last())
    }
}

/// Whether `name` is one of `list`.
pub fn contains_name(list: &Vec<String>, name: &String) -> (r: bool)
    ensures
        r == list.deep_view().contains(name@),
{
    let ghost names = list.deep_view();
    let mut i: usize = 0;
    while i < list.len()
        invariant
            i <= list@.len(),
            names == list.deep_view(),
            names.len() == list@.len(),
            forall|j: int| 0 <= j < i ==> names[j] != name@,
        decreases list@.len() - i,
    {
        assert(names[i as int] == list@[i as int]@);
        if list[i] == *name {
            return true;
        }
        i = i + 1;
    }
    false
}

/// The core tables missing from the names the database lists.
pub fn missing_tables(existing: &Vec<String>) -> (r: Vec<String>)
    ensures
        r.deep_view() == missing_from(expected_tables(), existing.deep_view()),
{
    let expected: Vec<String> = vec![
        string_from("workspaces"),
        string_from("pages"),
        string_from("page_tree"),
        string_from("fts_index"),
    ];
    let ghost exp = expected.deep_view();
    assert(exp =~= expected_tables());
    let mut out: Vec<String> = Vec::new();
    let mut i: usize = 0;
    while i < expected.len()
        invariant
            i <= expected@.len(),
            exp == expected.deep_view(),
            exp.len() == expected@.len(),
            out.deep_view() == missing_from(exp.take(i as int), existing.deep_view()),
        decreases expected@.len() - i,
    {
        assert(exp.take(i + 1).drop_last() =~= exp.take(i as int));
        assert(exp.take(i + 1).last() == expected@[i as int]@);
        let ghost before = out.deep_view();
        if !contains_name(existing, &expected[i]) {
            out.push(expected[i].clone());
            assert(out.deep_view() =~= before.push(expected@[i as int]@));
        }
        i = i + 1;
    }
    assert(exp.take(exp.len() as int) =~= exp);
    out
}

} // verus!
