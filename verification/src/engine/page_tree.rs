//! The page tree: from a flat list of pages to nested nodes.
use vstd::prelude::*;

use crate::engine::{Page, PageTreeNode};
use crate::text::push_str;

verus! {

/// `p` hangs directly below `parent` (`None` is the root).
pub open spec fn is_child_of(p: Page, parent: Option<Seq<char>>) -> bool {
    match parent {
        None => p.parent_id is None,
        Some(t) => p.parent_id matches Some(q) && q@ == t,
    }
}

/// The indices below `n` of the pages that hang below `parent`, in list order.
pub open spec fn child_indices(pages: Seq<Page>, parent: Option<Seq<char>>, n: int) -> Seq<int>
    decreases n,
{
    if n <= 0 {
        Seq::empty()
    } else {
        let prev = child_indices(pages, parent, n - 1);
        if is_child_of(pages[n - 1], parent) {
            prev.push(n - 1)
        } else {
            prev
        }
    }
}

/// The indices of the pages that hang below `parent`, in list order.
pub open spec fn children_of(pages: Seq<Page>, parent: Option<Seq<char>>) -> Seq<int> {
    child_indices(pages, parent, pages.len() as int)
}

proof fn lemma_child_indices_once(pages: Seq<Page>, parent: Option<Seq<char>>, n: int)
    requires
        0 <= n <= pages.len(),
    ensures
        forall|a: int, b: int|
            0 <= a < b < child_indices(pages, parent, n).len() ==> child_indices(pages, parent, n)[a]
                < child_indices(pages, parent, n)[b],
        forall|k: int|
            0 <= k < child_indices(pages, parent, n).len() ==> 0 <= #[trigger] child_indices(
                pages,
                parent,
                n,
            )[k] < n,
        forall|i: int|
            0 <= i < n ==> (#[trigger] child_indices(pages, parent, n).contains(i) <==> is_child_of(
                pages[i],
                parent,
            )),
    decreases n,
{
    if n > 0 {
        lemma_child_indices_once(pages, parent, n - 1);
        let prev = child_indices(pages, parent, n - 1);
        assert forall|i: int| 0 <= i < n implies (#[trigger] child_indices(pages, parent, n).contains(i)
            <==> is_child_of(pages[i], parent)) by {
            if is_child_of(pages[n - 1], parent) {
                if i < n - 1 {
                    if child_indices(pages, parent, n).contains(i) {
                        let k = choose|k: int| 0 <= k < child_indices(pages, parent, n).len() && child_indices(pages, parent, n)[k] == i;
                        assert(k < prev.len());
                        assert(prev.contains(i));
                    }
                    if prev.contains(i) {
                        let k = choose|k: int| 0 <= k < prev.len() && prev[k] == i;
                        assert(child_indices(pages, parent, n)[k] == i);
                    }
                } else {
                    assert(child_indices(pages, parent, n)[prev.len() as int] == i);
                }
            } else if i == n - 1 {
                if prev.contains(i) {
                    let k = choose|k: int| 0 <= k < prev.len() && prev[k] == i;
                    assert(prev[k] < n - 1);
                }
            }
        }
    }
}

/// Law: each page below `parent` is listed once among its children, in the
/// order of `pages`: the listed indices increase, and an index is listed
/// exactly when its page hangs below `parent`.
pub proof fn lemma_children_once(pages: Seq<Page>, parent: Option<Seq<char>>)
    ensures
        forall|a: int, b: int|
            0 <= a < b < children_of(pages, parent).len() ==> children_of(pages, parent)[a]
                < children_of(pages, parent)[b],
        forall|i: int|
            0 <= i < pages.len() ==> (#[trigger] children_of(pages, parent).contains(i) <==> is_child_of(
                pages[i],
                parent,
            )),
{
    lemma_child_indices_once(pages, parent, pages.len() as int);
}

/// `nodes` are the trees of the pages `kids`, in that order: each node holds
/// its page and, below it, the trees of the pages whose parent is that page.
pub open spec fn forest_of(pages: Seq<Page>, kids: Seq<int>, nodes: Seq<PageTreeNode>) -> bool
    decreases nodes,
{
    &&& nodes.len() == kids.len()
    &&& forall|j: int|
        #![trigger nodes[j]]
        0 <= j < nodes.len() ==> {
            &&& 0 <= kids[j] < pages.len()
            &&& nodes[j].page == pages[kids[j]]
            &&& forest_of(pages, children_of(pages, Some(pages[kids[j]].id@)), nodes[j].children@)
        }
}

/// The parent link of a page as text (`None`: a top-level page).
pub open spec fn link_of(p: Page) -> Option<Seq<char>> {
    match p.parent_id {
        Some(q) => Some(q@),
        None => None,
    }
}

/// Law: the nodes of a tree level below `parent` are exactly the pages
/// whose parent link is `parent`, whatever else they are (folders, pinned
/// pages): every such page has a node there, and every node there holds
/// such a page.
pub proof fn lemma_tree_level_is_parent_link(
    pages: Seq<Page>,
    parent: Option<Seq<char>>,
    nodes: Seq<PageTreeNode>,
)
    requires
        forest_of(pages, children_of(pages, parent), nodes),
    ensures
        forall|i: int|
            0 <= i < pages.len() && link_of(#[trigger] pages[i]) == parent ==> exists|j: int|
                0 <= j < nodes.len() && nodes[j].page == pages[i],
        forall|j: int| 0 <= j < nodes.len() ==> link_of(#[trigger] nodes[j].page) == parent,
{
    let kids = children_of(pages, parent);
    lemma_child_indices_once(pages, parent, pages.len() as int);
    assert forall|i: int| 0 <= i < pages.len() && link_of(#[trigger] pages[i]) == parent implies exists|j: int|
        0 <= j < nodes.len() && nodes[j].page == pages[i] by {
        assert(is_child_of(pages[i], parent));
        assert(kids.contains(i));
        let k = choose|k: int| 0 <= k < kids.len() && kids[k] == i;
        assert(nodes[k].page == pages[kids[k]]);
    }
    assert forall|j: int| 0 <= j < nodes.len() implies link_of(#[trigger] nodes[j].page) == parent by {
        let i = kids[j];
        assert(nodes[j].page == pages[i]);
        assert(0 <= i < pages.len());
        assert(kids.contains(i));
        assert(is_child_of(pages[i], parent));
    }
}

/// `chain` is a descent below `parent`: its first page hangs below
/// `parent`, and each further page hangs below the page before it.
pub open spec fn is_descent(pages: Seq<Page>, parent: Option<Seq<char>>, chain: Seq<int>) -> bool {
    &&& chain.len() > 0
    &&& forall|t: int| 0 <= t < chain.len() ==> 0 <= #[trigger] chain[t] < pages.len()
    &&& is_child_of(pages[chain[0]], parent)
    &&& forall|t: int|
        0 <= t < chain.len() - 1 ==> is_child_of(pages[#[trigger] chain[t + 1]], Some(pages[chain[t]].id@))
}

/// Page `i` is reached after `k` steps of descent below `parent`.
pub open spec fn in_level(pages: Seq<Page>, parent: Option<Seq<char>>, k: nat, i: int) -> bool {
    exists|chain: Seq<int>|
        #![trigger is_descent(pages, parent, chain), chain.len()]
        is_descent(pages, parent, chain) && chain.len() == k + 1 && chain.last() == i
}

/// The descent below `parent` ends: no page is reached after as many steps
/// as there are pages. (A descent of that length meets some page twice and
/// so never ends.)
pub open spec fn descent_ends(pages: Seq<Page>, parent: Option<Seq<char>>) -> bool {
    forall|i: int| !#[trigger] in_level(pages, parent, pages.len(), i)
}

/// A level that is reached implies every earlier level is reached.
pub proof fn lemma_level_earlier(pages: Seq<Page>, parent: Option<Seq<char>>, k: nat, m: nat, i: int) -> (j: int)
    requires
        in_level(pages, parent, k, i),
        m <= k,
    ensures
        in_level(pages, parent, m, j),
{
    let chain = choose|c: Seq<int>| is_descent(pages, parent, c) && c.len() == k + 1 && c.last() == i;
    let pre = chain.take(m + 1int);
    assert forall|t: int| 0 <= t < pre.len() implies 0 <= #[trigger] pre[t] < pages.len() by {
        assert(pre[t] == chain[t]);
    }
    assert forall|t: int| 0 <= t < pre.len() - 1 implies is_child_of(
        pages[#[trigger] pre[t + 1]],
        Some(pages[pre[t]].id@),
    ) by {
        assert(pre[t + 1] == chain[t + 1]);
        assert(pre[t] == chain[t]);
    }
    assert(pre[0] == chain[0]);
    assert(is_descent(pages, parent, pre));
    assert(in_level(pages, parent, m, pre.last()));
    pre.last()
}

/// A page that hangs below a page reached after `k` steps is reached after
/// `k + 1` steps.
pub proof fn lemma_level_step(pages: Seq<Page>, parent: Option<Seq<char>>, k: nat, i: int, m: int)
    requires
        in_level(pages, parent, k, i),
        0 <= m < pages.len(),
        is_child_of(pages[m], Some(pages[i].id@)),
    ensures
        in_level(pages, parent, k + 1, m),
{
    let chain = choose|c: Seq<int>| is_descent(pages, parent, c) && c.len() == k + 1 && c.last() == i;
    let ext = chain.push(m);
    assert forall|t: int| 0 <= t < ext.len() implies 0 <= #[trigger] ext[t] < pages.len() by {
        if t < chain.len() {
            assert(ext[t] == chain[t]);
        }
    }
    assert forall|t: int| 0 <= t < ext.len() - 1 implies is_child_of(
        pages[#[trigger] ext[t + 1]],
        Some(pages[ext[t]].id@),
    ) by {
        assert(ext[t] == chain[t]);
        if t + 1 < chain.len() {
            assert(ext[t + 1] == chain[t + 1]);
        } else {
            assert(chain[t] == chain.last());
        }
    }
    assert(ext[0] == chain[0]);
    assert(is_descent(pages, parent, ext));
    assert(ext.len() == k + 1 + 1);
}

/// A page reached after `k + 1` steps hangs below a page reached after `k`.
pub proof fn lemma_level_back(pages: Seq<Page>, parent: Option<Seq<char>>, k: nat, m: int) -> (i: int)
    requires
        in_level(pages, parent, k + 1, m),
    ensures
        in_level(pages, parent, k, i),
        0 <= m < pages.len(),
        is_child_of(pages[m], Some(pages[i].id@)),
{
    let chain = choose|c: Seq<int>| is_descent(pages, parent, c) && c.len() == k + 2 && c.last() == m;
    let pre = chain.drop_last();
    assert forall|t: int| 0 <= t < pre.len() implies 0 <= #[trigger] pre[t] < pages.len() by {
        assert(pre[t] == chain[t]);
    }
    assert forall|t: int| 0 <= t < pre.len() - 1 implies is_child_of(
        pages[#[trigger] pre[t + 1]],
        Some(pages[pre[t]].id@),
    ) by {
        assert(pre[t + 1] == chain[t + 1]);
        assert(pre[t] == chain[t]);
    }
    assert(pre[0] == chain[0]);
    assert(is_descent(pages, parent, pre));
    let i = pre.last();
    assert(0 <= chain[chain.len() - 1] < pages.len());
    assert(is_child_of(pages[chain[(k + 1) as int]], Some(pages[chain[k as int]].id@)));
    assert(in_level(pages, parent, k, i));
    i
}

/// The pages hanging below `parent` are reached after no steps.
pub proof fn lemma_level_zero(pages: Seq<Page>, parent: Option<Seq<char>>, m: int)
    requires
        0 <= m < pages.len(),
        is_child_of(pages[m], parent),
    ensures
        in_level(pages, parent, 0, m),
{
    let chain = seq![m];
    assert(is_descent(pages, parent, chain));
    assert(chain.len() == 0 + 1);
}

pub open spec fn opt_view(o: Option<&String>) -> Option<Seq<char>> {
    match o {
        Some(s) => Some(s@),
        None => None,
    }
}

/// A copy of a string.
pub fn copy_string(s: &String) -> (r: String)
    ensures
        r@ == s@,
{
    s.clone()
}

/// A copy of a page.
pub fn copy_page(p: &Page) -> (r: Page)
    ensures
        r == *p,
{
    let parent_id = match &p.parent_id {
        Some(q) => Some(q.clone()),
        None => None,
    };
    Page {
        id: p.id.clone(),
        workspace_id: p.workspace_id.clone(),
        parent_id,
        title: p.title.clone(),
        slug: p.slug.clone(),
        file_path: p.file_path.clone(),
        sort_order: p.sort_order,
        is_folder: p.is_folder,
        is_pinned: p.is_pinned,
        created_at: p.created_at.clone(),
        updated_at: p.updated_at.clone(),
    }
}

fn hangs_below(p: &Page, parent: Option<&String>) -> (r: bool)
    ensures
        r == is_child_of(*p, opt_view(parent)),
{
    match (parent, &p.parent_id) {
        (None, None) => true,
        (Some(target), Some(page_parent)) => *target == *page_parent,
        _ => false,
    }
}

fn build_level(
    pages: &[Page],
    parent: Option<&String>,
    Ghost(root): Ghost<Option<Seq<char>>>,
    Ghost(k): Ghost<nat>,
) -> (r: Vec<PageTreeNode>)
    requires
        descent_ends(pages@, root),
        forall|i: int|
            0 <= i < pages@.len() && is_child_of(pages@[i], opt_view(parent)) ==> #[trigger] in_level(
                pages@,
                root,
                k,
                i,
            ),
    ensures
        forest_of(pages@, children_of(pages@, opt_view(parent)), r@),
    decreases pages@.len() - k,
{
    let ghost par = opt_view(parent);
    let mut out: Vec<PageTreeNode> = Vec::new();
    let mut i: usize = 0;
    while i < pages.len()
        invariant
            i <= pages@.len(),
            descent_ends(pages@, root),
            forall|m: int|
                0 <= m < pages@.len() && is_child_of(pages@[m], par) ==> #[trigger] in_level(
                    pages@,
                    root,
                    k,
                    m,
                ),
            par == opt_view(parent),
            out@.len() == child_indices(pages@, par, i as int).len(),
            forall|j: int|
                #![trigger out@[j]]
                0 <= j < out@.len() ==> {
                    let c = child_indices(pages@, par, i as int)[j];
                    &&& 0 <= c < i
                    &&& out@[j].page == pages@[c]
                    &&& forest_of(pages@, children_of(pages@, Some(pages@[c].id@)), out@[j].children@)
                },
        decreases pages@.len() - i,
    {
        let ghost prev = child_indices(pages@, par, i as int);
        let p = &pages[i];
        if hangs_below(p, parent) {
            proof {
                assert(pages@[i as int] == *p);
                assert(in_level(pages@, root, k, i as int));
                if k >= pages@.len() {
                    let j = lemma_level_earlier(pages@, root, k, pages@.len() as nat, i as int);
                    assert(!in_level(pages@, root, pages@.len() as nat, j));
                }
                assert forall|m: int|
                    0 <= m < pages@.len() && is_child_of(pages@[m], Some(p.id@)) implies #[trigger] in_level(
                    pages@,
                    root,
                    k + 1,
                    m,
                ) by {
                    lemma_level_step(pages@, root, k, i as int, m);
                }
            }
            let children = build_level(pages, Some(&p.id), Ghost(root), Ghost(k + 1));
            let node = PageTreeNode { page: copy_page(p), children };
            out.push(node);
            proof {
                let now = child_indices(pages@, par, i + 1);
                assert(now == prev.push(i as int));
                assert forall|j: int| #![trigger out@[j]] 0 <= j < out@.len() implies {
                    let c = now[j];
                    &&& 0 <= c < i + 1
                    &&& out@[j].page == pages@[c]
                    &&& forest_of(pages@, children_of(pages@, Some(pages@[c].id@)), out@[j].children@)
                } by {
                    if j < prev.len() {
                        assert(now[j] == prev[j]);
                    }
                }
            }
        } else {
            proof {
                let now = child_indices(pages@, par, i + 1);
                assert(now == prev);
            }
        }
        i = i + 1;
    }
    proof {
        let kids = children_of(pages@, par);
        assert forall|j: int| #![trigger out@[j]] 0 <= j < out@.len() implies {
            &&& 0 <= kids[j] < pages@.len()
            &&& out@[j].page == pages@[kids[j]]
            &&& forest_of(pages@, children_of(pages@, Some(pages@[kids[j]].id@)), out@[j].children@)
        } by {}
    }
    out
}

fn any_true(v: &Vec<bool>) -> (r: bool)
    ensures
        r == exists|i: int| 0 <= i < v@.len() && #[trigger] v@[i],
{
    let mut i: usize = 0;
    while i < v.len()
        invariant
            i <= v@.len(),
            forall|j: int| 0 <= j < i ==> !#[trigger] v@[j],
        decreases v@.len() - i,
    {
        if v[i] {
            return true;
        }
        i = i + 1;
    }
    false
}

/// The pages reached one step after the pages marked in `cur`.
fn next_level(pages: &[Page], cur: &Vec<bool>, Ghost(root): Ghost<Option<Seq<char>>>, Ghost(k): Ghost<nat>) -> (r:
    Vec<bool>)
    requires
        cur@.len() == pages@.len(),
        forall|i: int| 0 <= i < pages@.len() ==> #[trigger] cur@[i] == in_level(pages@, root, k, i),
    ensures
        r@.len() == pages@.len(),
        forall|m: int| 0 <= m < pages@.len() ==> #[trigger] r@[m] == in_level(pages@, root, k + 1, m),
{
    let n = pages.len();
    let mut next: Vec<bool> = Vec::new();
    let mut m: usize = 0;
    while m < n
        invariant
            m <= n == pages@.len() == cur@.len(),
            next@.len() == m,
            forall|i: int| 0 <= i < pages@.len() ==> #[trigger] cur@[i] == in_level(pages@, root, k, i),
            forall|x: int| 0 <= x < m ==> #[trigger] next@[x] == in_level(pages@, root, k + 1, x),
        decreases n - m,
    {
        let mut found = false;
        let mut i: usize = 0;
        while i < n && !found
            invariant
                i <= n == pages@.len() == cur@.len(),
                m < n,
                forall|j: int| 0 <= j < pages@.len() ==> #[trigger] cur@[j] == in_level(pages@, root, k, j),
                found ==> in_level(pages@, root, k + 1, m as int),
                !found ==> forall|j: int|
                    0 <= j < i ==> !(#[trigger] cur@[j] && is_child_of(pages@[m as int], Some(pages@[j].id@))),
            decreases n - i,
        {
            if cur[i] && hangs_below(&pages[m], Some(&pages[i].id)) {
                proof {
                    lemma_level_step(pages@, root, k, i as int, m as int);
                }
                found = true;
            }
            i = i + 1;
        }
        proof {
            if !found && in_level(pages@, root, k + 1, m as int) {
                let j = lemma_level_back(pages@, root, k, m as int);
                assert(cur@[j]);
            }
        }
        next.push(found);
        m = m + 1;
    }
    next
}

/// Whether the descent below `parent_id` ends, so that `build_tree` may be
/// called with it.
pub fn check_descent(pages: &[Page], parent_id: Option<&str>) -> (r: bool)
    ensures
        r == descent_ends(
            pages@,
            match parent_id {
                Some(t) => Some(t@),
                None => None,
            },
        ),
{
    let ghost root = match parent_id {
        Some(t) => Some(t@),
        None => None,
    };
    let owned = match parent_id {
        Some(t) => {
            let mut o = String::new();
            push_str(&mut o, t);
            Some(o)
        },
        None => None,
    };
    let n = pages.len();
    let mut cur: Vec<bool> = Vec::new();
    let mut m: usize = 0;
    while m < n
        invariant
            m <= n == pages@.len(),
            match owned {
                Some(o) => root == Some(o@),
                None => root is None,
            },
            cur@.len() == m,
            forall|x: int| 0 <= x < m ==> #[trigger] cur@[x] == in_level(pages@, root, 0, x),
        decreases n - m,
    {
        let hit = match &owned {
            Some(o) => hangs_below(&pages[m], Some(o)),
            None => hangs_below(&pages[m], None),
        };
        proof {
            if hit {
                lemma_level_zero(pages@, root, m as int);
            }
            if in_level(pages@, root, 0, m as int) {
                let c = choose|c: Seq<int>| is_descent(pages@, root, c) && c.len() == 0 + 1 && c.last() == m as int;
                assert(c[0] == c.last());
            }
        }
        cur.push(hit);
        m = m + 1;
    }
    let mut k: usize = 0;
    while k < n
        invariant
            k <= n == pages@.len(),
            cur@.len() == n,
            root == match parent_id {
                Some(t) => Some(t@),
                None => None,
            },
            forall|x: int| 0 <= x < n ==> #[trigger] cur@[x] == in_level(pages@, root, k as nat, x),
        decreases n - k,
    {
        if !any_true(&cur) {
            proof {
                assert forall|i: int| !#[trigger] in_level(pages@, root, pages@.len() as nat, i) by {
                    if in_level(pages@, root, pages@.len() as nat, i) {
                        let j = lemma_level_earlier(pages@, root, pages@.len() as nat, k as nat, i);
                        let c = choose|c: Seq<int>|
                            is_descent(pages@, root, c) && c.len() == k + 1 && c.last() == j;
                        assert(0 <= c[c.len() - 1] < pages@.len());
                        assert(cur@[j]);
                    }
                }
                assert(descent_ends(pages@, root));
            }
            return true;
        }
        cur = next_level(pages, &cur, Ghost(root), Ghost(k as nat));
        k = k + 1;
    }
    let any = any_true(&cur);
    proof {
        assert forall|i: int| !any implies !#[trigger] in_level(pages@, root, pages@.len() as nat, i) by {
            if in_level(pages@, root, pages@.len() as nat, i) {
                let c = choose|c: Seq<int>| is_descent(pages@, root, c) && c.len() == n + 1 && c.last() == i;
                assert(0 <= c[c.len() - 1] < pages@.len());
                assert(cur@[i]);
            }
        }
        if any {
            let i = choose|i: int| 0 <= i < cur@.len() && #[trigger] cur@[i];
            assert(in_level(pages@, root, pages@.len() as nat, i));
        }
    }
    !any
}

/// Builds the tree of the pages below `parent_id` (`None`: the top level).
/// Each node's children are the pages whose parent is that node's page, in
/// the order of `pages`.
pub fn build_tree(pages: &[Page], parent_id: Option<&str>) -> (r: Vec<PageTreeNode>)
    requires
        descent_ends(
            pages@,
            match parent_id {
                Some(t) => Some(t@),
                None => None,
            },
        ),
    ensures
        forest_of(
            pages@,
            children_of(
                pages@,
                match parent_id {
                    Some(t) => Some(t@),
                    None => None,
                },
            ),
            r@,
        ),
{
    match parent_id {
        None => {
            proof {
                assert forall|i: int|
                    0 <= i < pages@.len() && is_child_of(pages@[i], None) implies #[trigger] in_level(
                    pages@,
                    None,
                    0,
                    i,
                ) by {
                    lemma_level_zero(pages@, None, i);
                }
            }
            build_level(pages, None, Ghost(None), Ghost(0))
        },
        Some(t) => {
            let mut owned = String::new();
            push_str(&mut owned, t);
            proof {
                assert forall|i: int|
                    0 <= i < pages@.len() && is_child_of(pages@[i], Some(t@)) implies #[trigger] in_level(
                    pages@,
                    Some(t@),
                    0,
                    i,
                ) by {
                    lemma_level_zero(pages@, Some(t@), i);
                }
            }
            build_level(pages, Some(&owned), Ghost(Some(t@)), Ghost(0))
        },
    }
}

/// `out` is `orig` cut below depth `d`: the top `d` levels are kept, with
/// their pages, and everything deeper is dropped.
pub open spec fn pruned(orig: Seq<PageTreeNode>, d: int, out: Seq<PageTreeNode>) -> bool
    decreases orig,
{
    if d <= 0 {
        out.len() == 0
    } else {
        &&& out.len() == orig.len()
        &&& forall|j: int|
            #![trigger out[j]]
            0 <= j < out.len() ==> {
                &&& out[j].page == orig[j].page
                &&& pruned(orig[j].children@, d - 1, out[j].children@)
            }
    }
}

/// Every node of `nodes` lies within the top `d` levels.
pub open spec fn within_depth(nodes: Seq<PageTreeNode>, d: int) -> bool
    decreases nodes,
{
    if d <= 0 {
        nodes.len() == 0
    } else {
        forall|j: int|
            #![trigger nodes[j]]
            0 <= j < nodes.len() ==> within_depth(nodes[j].children@, d - 1)
    }
}

/// Law: a tree cut at depth `d` is no deeper than `d` levels.
pub proof fn lemma_pruned_within_depth(orig: Seq<PageTreeNode>, d: int, out: Seq<PageTreeNode>)
    requires
        pruned(orig, d, out),
    ensures
        within_depth(out, d),
    decreases orig,
{
    if d > 0 {
        assert forall|j: int| #![trigger out[j]] 0 <= j < out.len() implies within_depth(
            out[j].children@,
            d - 1,
        ) by {
            lemma_pruned_within_depth(orig[j].children@, d - 1, out[j].children@);
        }
    }
}

/// Cuts a tree below depth `max_depth`; at depth 0 or less nothing is left.
pub fn prune_tree(nodes: Vec<PageTreeNode>, max_depth: i32) -> (r: Vec<PageTreeNode>)
    ensures
        pruned(nodes@, max_depth as int, r@),
        within_depth(r@, max_depth as int),
    decreases max_depth,
{
    if max_depth <= 0 {
        return Vec::new();
    }
    let ghost orig = nodes@;
    let mut out: Vec<PageTreeNode> = Vec::new();
    for n in it: nodes.into_iter()
        invariant
            it.seq() == orig,
            max_depth > 0,
            out@.len() == it.index(),
            forall|j: int|
                #![trigger out@[j]]
                0 <= j < out@.len() ==> {
                    &&& out@[j].page == orig[j].page
                    &&& pruned(orig[j].children@, max_depth - 1, out@[j].children@)
                },
    {
        let PageTreeNode { page, children } = n;
        let pruned_children = prune_tree(children, max_depth - 1);
        out.push(PageTreeNode { page, children: pruned_children });
    }
    proof {
        assert(pruned(orig, max_depth as int, out@));
        lemma_pruned_within_depth(orig, max_depth as int, out@);
    }
    out
}

/// Law: cutting at depth `a` and then at depth `b` is cutting at the
/// smaller of the two.
pub proof fn lemma_prune_twice(
    t: Seq<PageTreeNode>,
    a: int,
    b: int,
    x: Seq<PageTreeNode>,
    y: Seq<PageTreeNode>,
)
    requires
        pruned(t, a, x),
        pruned(x, b, y),
    ensures
        pruned(t, if a < b { a } else { b }, y),
    decreases t,
{
    if a > 0 && b > 0 {
        let m = if a < b { a } else { b };
        assert forall|j: int| #![trigger y[j]] 0 <= j < y.len() implies {
            &&& y[j].page == t[j].page
            &&& pruned(t[j].children@, m - 1, y[j].children@)
        } by {
            assert(x[j].page == t[j].page);
            lemma_prune_twice(t[j].children@, a - 1, b - 1, x[j].children@, y[j].children@);
        }
    }
}

/// The tree of all top-level pages, cut at `depth` when one is given.
pub fn assemble_tree(pages: &[Page], depth: Option<i32>) -> (r: Vec<PageTreeNode>)
    requires
        descent_ends(pages@, None),
    ensures
        match depth {
            None => forest_of(pages@, children_of(pages@, None), r@),
            Some(d) => exists|full: Seq<PageTreeNode>|
                forest_of(pages@, children_of(pages@, None), full) && #[trigger] pruned(full, d as int, r@),
        },
{
    let tree = build_tree(pages, None);
    match depth {
        Some(d) => {
            let ghost full = tree@;
            let r = prune_tree(tree, d);
            assert(forest_of(pages@, children_of(pages@, None), full) && pruned(full, d as int, r@));
            r
        },
        None => tree,
    }
}

} // verus!
