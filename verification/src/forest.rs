//! What holds of the result tree of a walk: no `raw` stands in it twice,
//! and no branch is longer than the depth limit allows.
use crate::context::AuditContextView;
use crate::output::{leaf_of, AuditNodeView};
use crate::action_ref::ActionRefView;
use crate::walker::{
    admission, admitted, as_roots, by_depth, children_from, distinct, forest_of, keys_of,
    parent_ok, parents_linked, subtree, walked,
};
use vstd::prelude::*;

verus! {

/// The `raw`s of a forest, each node before the nodes under it.
pub open spec fn forest_keys(f: Seq<AuditNodeView>) -> Seq<Seq<char>>
    decreases f,
{
    if f.len() == 0 {
        Seq::empty()
    } else {
        seq![f[0].entry.action.raw] + forest_keys(f[0].children) + forest_keys(f.drop_first())
    }
}

/// The number of nodes on the longest way down a forest.
pub open spec fn forest_height(f: Seq<AuditNodeView>) -> nat
    decreases f,
{
    if f.len() == 0 {
        0
    } else {
        let under = 1 + forest_height(f[0].children);
        let beside = forest_height(f.drop_first());
        if under >= beside {
            under
        } else {
            beside
        }
    }
}

/// The positions in `done` of the nodes of `children_from`, each node
/// before the nodes under it.
pub open spec fn kids_index(done: Seq<AuditContextView>, parent: Option<Seq<char>>, from: int)
    -> Seq<int>
    decreases done.len() - from, 1int,
{
    if from < 0 || from >= done.len() {
        Seq::empty()
    } else if done[from].parent == parent {
        tree_index(done, from) + kids_index(done, parent, from + 1)
    } else {
        kids_index(done, parent, from + 1)
    }
}

/// The positions in `done` of the nodes of `subtree`.
pub open spec fn tree_index(done: Seq<AuditContextView>, i: int) -> Seq<int>
    decreases done.len() - i, 0int,
{
    if i < 0 || i >= done.len() {
        Seq::empty()
    } else {
        seq![i] + kids_index(done, Some(done[i].action.raw), i + 1)
    }
}

/// The `raw`s at the positions `idx` of `done`.
pub open spec fn keys_at(done: Seq<AuditContextView>, idx: Seq<int>) -> Seq<Seq<char>> {
    Seq::new(idx.len(), |n: int| done[idx[n]].action.raw)
}

/// No number stands twice in `s`.
pub open spec fn no_repeat(s: Seq<int>) -> bool {
    forall|a: int, b: int| 0 <= a < b < s.len() ==> s[a] != s[b]
}

/// The position of the parent of node `m`.
pub open spec fn parent_index(done: Seq<AuditContextView>, m: int) -> int {
    choose|j: int|
        0 <= j < m && j < done.len() && (#[trigger] done[j]).depth + 1 == done[m].depth
            && done[m].parent == Some(done[j].action.raw)
}

/// The node at depth `d` on the way from node `m` up to its root; `m`
/// itself where it lies at depth `d` or above.
pub open spec fn up(done: Seq<AuditContextView>, m: int, d: nat) -> int
    decreases m,
{
    if m < 0 || m >= done.len() || done[m].depth <= d {
        m
    } else {
        let j = parent_index(done, m);
        if 0 <= j < m {
            up(done, j, d)
        } else {
            m
        }
    }
}

/// A node below depth 0 has a parent before it, one level up.
pub proof fn lemma_parent_index(done: Seq<AuditContextView>, m: int)
    requires
        parents_linked(done),
        0 <= m < done.len(),
        done[m].depth > 0,
    ensures
        0 <= parent_index(done, m) < m,
        done[parent_index(done, m)].depth + 1 == done[m].depth,
        done[m].parent == Some(done[parent_index(done, m)].action.raw),
{
    assert(parent_ok(done, done[m].parent, done[m].depth, m));
}

/// A node that names `done[p]` as its parent has `p` as its parent
/// position and lies one level below it.
pub proof fn lemma_child_of(done: Seq<AuditContextView>, p: int, c: int)
    requires
        parents_linked(done),
        distinct(keys_of(done)),
        0 <= p < done.len(),
        0 <= c < done.len(),
        done[c].parent == Some(done[p].action.raw),
    ensures
        done[c].depth == done[p].depth + 1,
        parent_index(done, c) == p,
{
    assert(parent_ok(done, done[c].parent, done[c].depth, c));
    lemma_parent_index(done, c);
    let j = parent_index(done, c);
    assert(keys_of(done)[j] == keys_of(done)[p]);
    if j < p {
        assert(keys_of(done)[j] != keys_of(done)[p]);
    } else if p < j {
        assert(keys_of(done)[p] != keys_of(done)[j]);
    }
}

/// A node without a parent lies at depth 0.
pub proof fn lemma_root_depth(done: Seq<AuditContextView>, c: int)
    requires
        parents_linked(done),
        0 <= c < done.len(),
        done[c].parent is None,
    ensures
        done[c].depth == 0,
{
    assert(parent_ok(done, done[c].parent, done[c].depth, c));
}

/// Going up to depth `d` ends at a node of depth `d`, not behind the start.
pub proof fn lemma_up(done: Seq<AuditContextView>, m: int, d: nat)
    requires
        parents_linked(done),
        0 <= m < done.len(),
        done[m].depth >= d,
    ensures
        0 <= up(done, m, d) <= m,
        done[up(done, m, d)].depth == d,
    decreases m,
{
    if done[m].depth > d {
        lemma_parent_index(done, m);
        lemma_up(done, parent_index(done, m), d);
    }
}

/// Going up to depth `d` passes the node at depth `d + 1`.
pub proof fn lemma_up_step(done: Seq<AuditContextView>, m: int, d: nat)
    requires
        parents_linked(done),
        0 <= m < done.len(),
        done[m].depth >= d + 1,
    ensures
        up(done, m, d) == up(done, up(done, m, d + 1), d),
    decreases m,
{
    if done[m].depth > d + 1 {
        lemma_parent_index(done, m);
        lemma_up_step(done, parent_index(done, m), d);
    }
}

/// What holds of the positions under node `i`: each lies at the depth of
/// `i` or below and has `i` above it; none stands twice.
pub open spec fn under_node(done: Seq<AuditContextView>, idx: Seq<int>, i: int) -> bool {
    &&& no_repeat(idx)
    &&& forall|n: int|
        0 <= n < idx.len() ==> 0 <= (#[trigger] idx[n]) < done.len() && done[idx[n]].depth
            >= done[i].depth && up(done, idx[n], done[i].depth) == i
}

/// What holds of the positions of the children of `parent` from `from`
/// on, and of the nodes under them, where the children lie at depth `d`:
/// each has above it, at depth `d`, a child of `parent` at or behind
/// `from`; none stands twice.
pub open spec fn under_children(
    done: Seq<AuditContextView>,
    idx: Seq<int>,
    parent: Option<Seq<char>>,
    d: nat,
    from: int,
) -> bool {
    &&& no_repeat(idx)
    &&& forall|n: int|
        0 <= n < idx.len() ==> 0 <= (#[trigger] idx[n]) < done.len() && done[idx[n]].depth >= d
            && from <= up(done, idx[n], d) && done[up(done, idx[n], d)].parent == parent
}

/// Two lists without repeats that share no number make one without.
pub proof fn lemma_no_repeat_concat(a: Seq<int>, b: Seq<int>)
    requires
        no_repeat(a),
        no_repeat(b),
        forall|x: int, y: int| 0 <= x < a.len() && 0 <= y < b.len() ==> a[x] != b[y],
    ensures
        no_repeat(a + b),
{
    let c = a + b;
    assert forall|x: int, y: int| 0 <= x < y < c.len() implies c[x] != c[y] by {
        if y < a.len() {
            assert(c[x] == a[x] && c[y] == a[y]);
        } else if x >= a.len() {
            assert(c[x] == b[x - a.len()] && c[y] == b[y - a.len()]);
        } else {
            assert(c[x] == a[x] && c[y] == b[y - a.len()]);
        }
    }
}

/// The positions of the children of `parent`, and of the nodes under
/// them, are as `under_children` says.
pub proof fn lemma_kids_index(
    done: Seq<AuditContextView>,
    parent: Option<Seq<char>>,
    d: nat,
    from: int,
)
    requires
        parents_linked(done),
        distinct(keys_of(done)),
        0 <= from,
        forall|c: int| 0 <= c < done.len() && (#[trigger] done[c]).parent == parent ==> done[c].depth == d,
    ensures
        under_children(done, kids_index(done, parent, from), parent, d, from),
    decreases done.len() - from, 1int,
{
    if from < done.len() {
        lemma_kids_index(done, parent, d, from + 1);
        let rest = kids_index(done, parent, from + 1);
        if done[from].parent == parent {
            lemma_tree_index(done, from);
            let first = tree_index(done, from);
            assert(done[from].depth == d);
            assert forall|x: int, y: int| 0 <= x < first.len() && 0 <= y < rest.len() implies first[x]
                != rest[y] by {
                assert(up(done, first[x], d) == from);
                assert(from + 1 <= up(done, rest[y], d));
            }
            lemma_no_repeat_concat(first, rest);
            let all = first + rest;
            assert forall|n: int| 0 <= n < all.len() implies 0 <= (#[trigger] all[n]) < done.len()
                && done[all[n]].depth >= d && from <= up(done, all[n], d) && done[up(
                done,
                all[n],
                d,
            )].parent == parent by {
                if n < first.len() {
                    assert(all[n] == first[n]);
                } else {
                    assert(all[n] == rest[n - first.len()]);
                }
            }
        }
    }
}

/// The positions under node `i` are as `under_node` says.
pub proof fn lemma_tree_index(done: Seq<AuditContextView>, i: int)
    requires
        parents_linked(done),
        distinct(keys_of(done)),
        0 <= i < done.len(),
    ensures
        under_node(done, tree_index(done, i), i),
    decreases done.len() - i, 0int,
{
    let key = Some(done[i].action.raw);
    let d = done[i].depth;
    assert forall|c: int| 0 <= c < done.len() && (#[trigger] done[c]).parent == key implies done[c].depth
        == d + 1 by {
        lemma_child_of(done, i, c);
    }
    lemma_kids_index(done, key, d + 1, i + 1);
    let kids = kids_index(done, key, i + 1);
    let all = seq![i] + kids;
    assert forall|n: int| 0 <= n < all.len() implies 0 <= (#[trigger] all[n]) < done.len()
        && done[all[n]].depth >= d && up(done, all[n], d) == i by {
        if n > 0 {
            let m = kids[n - 1];
            assert(all[n] == m);
            assert(0 <= m < done.len() && done[m].depth >= d + 1);
            let c = up(done, m, d + 1);
            assert(done[c].parent == key);
            lemma_up(done, m, d + 1);
            lemma_up_step(done, m, d);
            lemma_child_of(done, i, c);
            assert(up(done, i, d) == i);
            assert(up(done, c, d) == up(done, parent_index(done, c), d));
        } else {
            assert(all[0] == i);
            assert(up(done, i, d) == i);
        }
    }
    assert forall|x: int, y: int| 0 <= x < 1 && 0 <= y < kids.len() implies seq![i][x]
        != kids[y] by {
        assert(done[kids[y]].depth >= d + 1);
    }
    lemma_no_repeat_concat(seq![i], kids);
}

/// The `raw`s of the trees built from `done` are the `raw`s at the
/// positions of their nodes.
pub proof fn lemma_keys_of_children(
    done: Seq<AuditContextView>,
    parent: Option<Seq<char>>,
    from: int,
)
    requires
        0 <= from,
    ensures
        forest_keys(children_from(done, parent, from)) == keys_at(
            done,
            kids_index(done, parent, from),
        ),
    decreases done.len() - from,
{
    if from < done.len() {
        lemma_keys_of_children(done, parent, from + 1);
        if done[from].parent == parent {
            let key = Some(done[from].action.raw);
            lemma_keys_of_children(done, key, from + 1);
            let f = children_from(done, parent, from);
            let rest = children_from(done, parent, from + 1);
            assert(f =~= seq![subtree(done, from)] + rest);
            assert(f.len() > 0);
            assert(f[0] == subtree(done, from));
            assert(f.drop_first() =~= rest);
            assert(f[0].children == children_from(done, key, from + 1));
            assert(f[0].entry.action.raw == done[from].action.raw);
            let under = kids_index(done, key, from + 1);
            let beside = kids_index(done, parent, from + 1);
            assert(tree_index(done, from) == seq![from] + under);
            assert(kids_index(done, parent, from) == (seq![from] + under) + beside);
            assert(keys_at(done, (seq![from] + under) + beside) =~= seq![done[from].action.raw]
                + keys_at(done, under) + keys_at(done, beside));
            assert(forest_keys(f) == seq![f[0].entry.action.raw] + forest_keys(f[0].children)
                + forest_keys(f.drop_first()));
        }
    } else {
        assert(keys_at(done, Seq::<int>::empty()) =~= Seq::<Seq<char>>::empty());
    }
}

/// Distinct positions of a list of distinct `raw`s hold distinct `raw`s.
pub proof fn lemma_keys_at_distinct(done: Seq<AuditContextView>, idx: Seq<int>)
    requires
        distinct(keys_of(done)),
        no_repeat(idx),
        forall|n: int| 0 <= n < idx.len() ==> 0 <= #[trigger] idx[n] < done.len(),
    ensures
        distinct(keys_at(done, idx)),
{
    let keys = keys_at(done, idx);
    assert forall|a: int, b: int| 0 <= a < b < keys.len() implies keys[a] != keys[b] by {
        let x = idx[a];
        let y = idx[b];
        assert(x != y);
        assert(keys_of(done)[x] == keys[a] && keys_of(done)[y] == keys[b]);
        if x < y {
            assert(keys_of(done)[x] != keys_of(done)[y]);
        } else {
            assert(keys_of(done)[y] != keys_of(done)[x]);
        }
    }
}

/// Cycle safety: in the tree built from finished nodes with distinct
/// `raw`s, each of which names a node before it as its parent, no `raw`
/// stands twice.
pub proof fn forest_keys_distinct(done: Seq<AuditContextView>)
    requires
        distinct(keys_of(done)),
        parents_linked(done),
    ensures
        distinct(forest_keys(forest_of(done))),
{
    assert forall|c: int| 0 <= c < done.len() && (#[trigger] done[c]).parent
        == None::<Seq<char>> implies done[c].depth == 0 by {
        lemma_root_depth(done, c);
    }
    lemma_kids_index(done, None, 0, 0);
    lemma_keys_of_children(done, None, 0);
    lemma_keys_at_distinct(done, kids_index(done, None, 0));
}

/// The trees of the children of `parent`, where those lie at depth `d`
/// and no node lies deeper than `k`, are at most `k - d + 1` nodes high.
pub proof fn lemma_height(
    done: Seq<AuditContextView>,
    parent: Option<Seq<char>>,
    d: nat,
    from: int,
    k: nat,
)
    requires
        parents_linked(done),
        distinct(keys_of(done)),
        0 <= from,
        forall|c: int| 0 <= c < done.len() && (#[trigger] done[c]).parent == parent ==> done[c].depth == d,
        forall|i: int| 0 <= i < done.len() ==> (#[trigger] done[i]).depth <= k,
    ensures
        forest_height(children_from(done, parent, from)) <= (if d > k {
            0
        } else {
            k - d + 1
        }),
    decreases done.len() - from,
{
    if from < done.len() {
        lemma_height(done, parent, d, from + 1, k);
        if done[from].parent == parent {
            let key = Some(done[from].action.raw);
            assert forall|c: int| 0 <= c < done.len() && (#[trigger] done[c]).parent
                == key implies done[c].depth == d + 1 by {
                lemma_child_of(done, from, c);
            }
            lemma_height(done, key, d + 1, from + 1, k);
            let f = children_from(done, parent, from);
            let rest = children_from(done, parent, from + 1);
            assert(f =~= seq![subtree(done, from)] + rest);
            assert(f[0] == subtree(done, from));
            assert(f.drop_first() =~= rest);
            assert(f[0].children == children_from(done, key, from + 1));
            assert(done[from].depth <= k);
        }
    }
}

/// Depth bound: where no finished node lies deeper than `k`, no way down
/// the result tree holds more than `k + 1` nodes.
pub proof fn forest_height_bounded(done: Seq<AuditContextView>, k: nat)
    requires
        distinct(keys_of(done)),
        parents_linked(done),
        forall|i: int| 0 <= i < done.len() ==> (#[trigger] done[i]).depth <= k,
    ensures
        forest_height(forest_of(done)) <= k + 1,
{
    assert forall|c: int| 0 <= c < done.len() && (#[trigger] done[c]).parent
        == None::<Seq<char>> implies done[c].depth == 0 by {
        lemma_root_depth(done, c);
    }
    lemma_height(done, None, 0, 0, k);
}

/// A node that no later node names as its parent has no tree under it.
pub proof fn lemma_no_children(done: Seq<AuditContextView>, parent: Option<Seq<char>>, from: int)
    requires
        0 <= from,
        forall|c: int| from <= c < done.len() ==> (#[trigger] done[c]).parent != parent,
    ensures
        children_from(done, parent, from) == Seq::<AuditNodeView>::empty(),
    decreases done.len() - from,
{
    if from < done.len() {
        assert(done[from].parent != parent);
        lemma_no_children(done, parent, from + 1);
    }
}

/// The roots of the result tree are the finished nodes at depth 0, in
/// order, where those stand first among the finished nodes.
pub proof fn lemma_roots(done: Seq<AuditContextView>, n: int, from: int)
    requires
        parents_linked(done),
        0 <= from <= n <= done.len(),
        forall|i: int| 0 <= i < n ==> (#[trigger] done[i]).depth == 0,
        forall|i: int| n <= i < done.len() ==> (#[trigger] done[i]).depth >= 1,
    ensures
        children_from(done, None, from).len() == n - from,
        forall|i: int|
            0 <= i < n - from ==> (#[trigger] children_from(done, None, from)[i]) == subtree(
                done,
                from + i,
            ),
    decreases done.len() - from,
{
    assert forall|c: int| n <= c < done.len() implies (#[trigger] done[c]).parent
        != None::<Seq<char>> by {
        if done[c].parent is None {
            lemma_root_depth(done, c);
        }
    }
    if from == n {
        lemma_no_children(done, None, n);
    } else {
        lemma_roots(done, n, from + 1);
        assert(parent_ok(done, done[from].parent, done[from].depth, from));
        let f = children_from(done, None, from);
        let rest = children_from(done, None, from + 1);
        assert(f =~= seq![subtree(done, from)] + rest);
        assert forall|i: int| 0 <= i < n - from implies (#[trigger] f[i]) == subtree(
            done,
            from + i,
        ) by {
            if i > 0 {
                assert(f[i] == rest[i - 1]);
            }
        }
    }
}

/// Where every finished node lies at depth 0, the result tree is the
/// finished nodes in order, each without children.
pub proof fn forest_of_roots_only(done: Seq<AuditContextView>)
    requires
        parents_linked(done),
        forall|i: int| 0 <= i < done.len() ==> (#[trigger] done[i]).depth == 0,
    ensures
        forest_of(done) == Seq::new(done.len(), |i: int| leaf_of(done[i])),
{
    lemma_roots(done, done.len() as int, 0);
    let f = forest_of(done);
    assert forall|i: int| 0 <= i < done.len() implies f[i] == leaf_of(done[i]) by {
        assert(f[i] == subtree(done, i));
        assert forall|c: int| i + 1 <= c < done.len() implies (#[trigger] done[c]).parent
            != Some(done[i].action.raw) by {
            assert(parent_ok(done, done[c].parent, done[c].depth, c));
        }
        lemma_no_children(done, Some(done[i].action.raw), i + 1);
    }
    assert(f =~= Seq::new(done.len(), |i: int| leaf_of(done[i])));
}

/// The result of a walk in which no stage found or changed anything: the
/// admitted roots, in order, each a node without findings and children.
pub open spec fn bare_forest(roots: Seq<ActionRefView>) -> Seq<AuditNodeView> {
    let adm = admitted(as_roots(roots), Seq::empty());
    Seq::new(adm.len(), |i: int| leaf_of(admission(adm[i], 0, i)))
}

/// Cycle safety of a walk: no `raw` stands twice in its result tree.
pub proof fn walk_visits_once(
    limit: Option<usize>,
    roots: Seq<ActionRefView>,
    done: Seq<AuditContextView>,
)
    requires
        walked(limit, roots, done),
    ensures
        distinct(forest_keys(forest_of(done))),
{
    forest_keys_distinct(done);
}

/// Depth bound of a walk: under the limit `max`, no way down the result
/// tree holds more than `max + 1` nodes.
pub proof fn walk_within_limit(max: usize, roots: Seq<ActionRefView>, done: Seq<AuditContextView>)
    requires
        walked(Some(max), roots, done),
    ensures
        forest_height(forest_of(done)) <= max + 1,
{
    forest_height_bounded(done, max as nat);
}

/// The roots of the result tree of a walk are the admitted roots, in
/// input order: a root whose `raw` came before in the input is left out.
pub proof fn walk_keeps_roots(
    limit: Option<usize>,
    roots: Seq<ActionRefView>,
    done: Seq<AuditContextView>,
)
    requires
        walked(limit, roots, done),
    ensures
        forest_of(done).len() == admitted(as_roots(roots), Seq::empty()).len(),
        forall|i: int|
            0 <= i < forest_of(done).len() ==> (#[trigger] forest_of(done)[i]).entry.action
                == admitted(as_roots(roots), Seq::empty())[i].action,
{
    let adm = admitted(as_roots(roots), Seq::empty());
    assert forall|i: int| 0 <= i < adm.len() implies (#[trigger] done[i]).depth == 0 by {
        assert(crate::context::same_inputs(done[i], admission(adm[i], 0, i)));
    }
    lemma_roots(done, adm.len() as int, 0);
    assert forall|i: int| 0 <= i < forest_of(done).len() implies (#[trigger] forest_of(
        done,
    )[i]).entry.action == adm[i].action by {
        assert(forest_of(done)[i] == subtree(done, i));
        assert(crate::context::same_inputs(done[i], admission(adm[i], 0, i)));
    }
}

/// A walk with the limit 0 yields the admitted roots and nothing under them.
pub proof fn walk_of_depth_zero(roots: Seq<ActionRefView>, done: Seq<AuditContextView>)
    requires
        walked(Some(0usize), roots, done),
    ensures
        forest_of(done).len() == admitted(as_roots(roots), Seq::empty()).len(),
        forall|i: int|
            0 <= i < forest_of(done).len() ==> (#[trigger] forest_of(done)[i]).entry.action
                == admitted(as_roots(roots), Seq::empty())[i].action && forest_of(
                done,
            )[i].children.len() == 0,
{
    walk_keeps_roots(Some(0usize), roots, done);
    assert forall|i: int| 0 <= i < done.len() implies (#[trigger] done[i]).depth == 0 by {
        assert(done[i].depth <= 0);
    }
    forest_of_roots_only(done);
}

} // verus!
