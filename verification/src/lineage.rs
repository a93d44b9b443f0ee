//! Under which parent a node of a walk stands: the first finished node
//! that lists it.
use crate::context::{same_inputs, AuditContextView};
use crate::walker::{
    admitted, admitted_is_first, answers, as_roots, children_of, distinct, expandable, keys_of,
    lemma_admitted, lemma_answers_keys, next_queue, occurs_first, offspring, pending_keys,
    walk_from, walked, PendingView,
};
use crate::action_ref::ActionRefView;
use vstd::prelude::*;

verus! {

/// The waiting node that child `c` of a finished node makes.
pub open spec fn kid(ctx: AuditContextView, c: int) -> PendingView {
    PendingView { action: ctx.children[c], parent: Some(ctx.action.raw) }
}

/// Whether child `c2` of node `j2` comes before child `c` of node `j`
/// where the children are gone through node by node, child by child.
pub open spec fn listed_before(j2: int, c2: int, j: int, c: int) -> bool {
    j2 < j || (j2 == j && c2 < c)
}

/// Whether node `i` of `done` stands under node `j` as its child number
/// `c`: `j` was finished before, one level up, and lists the node; and
/// neither a node finished before `j` nor an earlier child of `j` has the
/// node's `raw`.
pub open spec fn first_parent_at(done: Seq<AuditContextView>, i: int, j: int, c: int) -> bool {
    &&& 0 <= j < i < done.len()
    &&& done[i].parent == Some(done[j].action.raw)
    &&& done[j].depth + 1 == done[i].depth
    &&& 0 <= c < done[j].children.len()
    &&& done[j].children[c] == done[i].action
    &&& forall|j2: int, c2: int|
        0 <= j2 <= j && 0 <= c2 < done[j2].children.len() && listed_before(j2, c2, j, c) ==> (
        #[trigger] done[j2].children[c2]).raw != done[i].action.raw
}

/// Whether node `i` of `done` stands where it belongs: a node at depth 0
/// under no parent, any other under the first finished node that lists
/// it.
pub open spec fn has_first_parent(done: Seq<AuditContextView>, i: int) -> bool {
    if done[i].depth == 0 {
        done[i].parent is None
    } else {
        exists|j: int, c: int| #[trigger] first_parent_at(done, i, j, c)
    }
}

/// Whether every node of `done` stands under the first finished node that
/// lists it.
pub open spec fn first_parents(done: Seq<AuditContextView>) -> bool {
    forall|i: int| 0 <= i < done.len() ==> #[trigger] has_first_parent(done, i)
}

/// The children lined up by the first `j` nodes of a level.
pub open spec fn upto(res: Seq<AuditContextView>, j: int) -> Seq<PendingView> {
    offspring(res.subrange(0, j))
}

/// Where child `c` of node `j` of a level stands among the children lined
/// up.
pub open spec fn place(res: Seq<AuditContextView>, j: int, c: int) -> int {
    upto(res, j).len() + c
}

/// One node more lines up its children behind those of the nodes before.
pub proof fn lemma_upto_step(res: Seq<AuditContextView>, j: int)
    requires
        0 <= j < res.len(),
    ensures
        upto(res, j + 1) == upto(res, j) + children_of(res[j]),
        upto(res, 0).len() == 0,
        upto(res, res.len() as int) == offspring(res),
{
    let more = res.subrange(0, j + 1);
    assert(more.drop_last() =~= res.subrange(0, j));
    assert(more.last() == res[j]);
    assert(res.subrange(0, res.len() as int) =~= res);
}

/// What the first nodes of a level line up stands first in what more of
/// them line up.
pub proof fn lemma_upto_prefix(res: Seq<AuditContextView>, j: int, m: int)
    requires
        0 <= j <= m <= res.len(),
    ensures
        upto(res, j).len() <= upto(res, m).len(),
        forall|k: int| 0 <= k < upto(res, j).len() ==> upto(res, m)[k] == upto(res, j)[k],
    decreases m - j,
{
    if j < m {
        lemma_upto_prefix(res, j, m - 1);
        lemma_upto_step(res, m - 1);
    }
}

/// Child `c` of node `j` stands at its place among the children lined up.
pub proof fn lemma_place(res: Seq<AuditContextView>, j: int, c: int)
    requires
        0 <= j < res.len(),
        0 <= c < res[j].children.len(),
    ensures
        0 <= place(res, j, c) < upto(res, j + 1).len(),
        upto(res, j + 1).len() <= offspring(res).len(),
        offspring(res)[place(res, j, c)] == kid(res[j], c),
{
    lemma_upto_step(res, j);
    lemma_upto_prefix(res, j + 1, res.len() as int);
    assert(upto(res, j + 1)[place(res, j, c)] == children_of(res[j])[c]);
}

/// A child that is listed before another stands before it.
pub proof fn lemma_place_order(res: Seq<AuditContextView>, j2: int, c2: int, j: int, c: int)
    requires
        0 <= j2 <= j < res.len(),
        0 <= c2 < res[j2].children.len(),
        0 <= c < res[j].children.len(),
        listed_before(j2, c2, j, c),
    ensures
        place(res, j2, c2) < place(res, j, c),
{
    if j2 < j {
        lemma_place(res, j2, c2);
        lemma_upto_prefix(res, j2 + 1, j);
    }
}

/// Every place among the first `n` nodes' children is that of a child.
pub proof fn lemma_place_found(res: Seq<AuditContextView>, k: int, n: int) -> (at: (int, int))
    requires
        0 <= n <= res.len(),
        0 <= k < upto(res, n).len(),
    ensures
        0 <= at.0 < n,
        0 <= at.1 < res[at.0].children.len(),
        place(res, at.0, at.1) == k,
    decreases n,
{
    if n == 0 {
        assert(res.subrange(0, 0).len() == 0);
        (0, 0)
    } else {
        lemma_upto_step(res, n - 1);
        if k >= upto(res, n - 1).len() {
            (n - 1, k - upto(res, n - 1).len())
        } else {
            lemma_place_found(res, k, n - 1)
        }
    }
}

/// A node that stands under its first parent still does where more nodes
/// are finished behind it.
pub proof fn lemma_parent_stays(pre: Seq<AuditContextView>, more: Seq<AuditContextView>, i: int)
    requires
        0 <= i < pre.len(),
        has_first_parent(pre, i),
    ensures
        has_first_parent(pre + more, i),
{
    let all = pre + more;
    assert(all[i] == pre[i]);
    if pre[i].depth != 0 {
        let (j, c) = choose|j: int, c: int| #[trigger] first_parent_at(pre, i, j, c);
        assert(all[j] == pre[j]);
        assert forall|j2: int, c2: int|
            0 <= j2 <= j && 0 <= c2 < all[j2].children.len() && listed_before(
                j2,
                c2,
                j,
                c,
            ) implies (#[trigger] all[j2].children[c2]).raw != all[i].action.raw by {
            assert(all[j2] == pre[j2]);
        }
        assert(first_parent_at(all, i, j, c));
    }
}

/// What holds before a level of a walk, of the nodes `pre` finished so
/// far, the last level of which starts at `base`: their `raw`s are
/// distinct; the queue is what the last level left (before the first
/// level, nodes without parents); the last level lies one above the
/// current, the rest higher; no child of a node above the last level is
/// unvisited; and every node stands under its first parent.
pub open spec fn before_level(
    limit: Option<usize>,
    level: nat,
    queue: Seq<PendingView>,
    pre: Seq<AuditContextView>,
    base: int,
) -> bool {
    &&& 0 <= base <= pre.len()
    &&& distinct(keys_of(pre))
    &&& if level == 0 {
        pre.len() == 0 && forall|k: int| 0 <= k < queue.len() ==> (#[trigger] queue[k]).parent is None
    } else {
        queue == next_queue(limit, (level - 1) as nat, pre.subrange(base, pre.len() as int))
    }
    &&& forall|j: int| 0 <= j < base ==> (#[trigger] pre[j]).depth + 1 < level
    &&& forall|j: int| base <= j < pre.len() ==> (#[trigger] pre[j]).depth + 1 == level
    &&& forall|j: int, c: int|
        0 <= j < base && 0 <= c < pre[j].children.len() && expandable(limit, pre[j].depth)
            ==> keys_of(pre).contains((#[trigger] pre[j].children[c]).raw)
    &&& first_parents(pre)
}

/// A node that is admitted below the first level as the node at place `k`
/// of the queue stands under the node whose child stands at that place.
proof fn lemma_parent_of_place(
    limit: Option<usize>,
    level: nat,
    queue: Seq<PendingView>,
    pre: Seq<AuditContextView>,
    base: int,
    head: Seq<AuditContextView>,
    t: int,
    k: int,
) -> (at: (int, int))
    requires
        before_level(limit, level, queue, pre, base),
        answers(admitted(queue, keys_of(pre)), level, head),
        0 <= t < head.len(),
        level > 0,
        occurs_first(queue, keys_of(pre), admitted(queue, keys_of(pre))[t], k),
    ensures
        0 <= at.0 < pre.len() - base,
        0 <= at.1 < pre[base + at.0].children.len(),
        place(pre.subrange(base, pre.len() as int), at.0, at.1) == k,
        first_parent_at(pre + head, pre.len() + t, base + at.0, at.1),
{
    let visited = keys_of(pre);
    let adm = admitted(queue, visited);
    let all = pre + head;
    let i = pre.len() + t;
    let raw = adm[t].action.raw;
    assert(all[i] == head[t]);
    assert(same_inputs(head[t], crate::walker::admission(adm[t], level, t)));
    assert(queue[k] == adm[t]);
    let prev = pre.subrange(base, pre.len() as int);
    let up = (level - 1) as nat;
    assert(expandable(limit, up));
    assert(queue == offspring(prev));
    if prev.len() == 0 {
        assert(offspring(prev).len() == 0);
    }
    lemma_upto_step(prev, 0);
    let (j0, c0) = lemma_place_found(prev, k, prev.len() as int);
    lemma_place(prev, j0, c0);
    let j = base + j0;
    assert(all[j] == pre[j]);
    assert(prev[j0] == pre[j]);
    assert(adm[t] == kid(prev[j0], c0));
    assert forall|j2: int, c2: int|
        0 <= j2 <= j && 0 <= c2 < all[j2].children.len() && listed_before(
            j2,
            c2,
            j,
            c0,
        ) implies (#[trigger] all[j2].children[c2]).raw != all[i].action.raw by {
        assert(all[j2] == pre[j2]);
        if j2 < base {
            assert(pre[j2].depth + 1 < level);
            assert(expandable(limit, pre[j2].depth));
            assert(visited.contains(pre[j2].children[c2].raw));
        } else {
            assert(prev[j2 - base] == pre[j2]);
            lemma_place_order(prev, j2 - base, c2, j0, c0);
            lemma_place(prev, j2 - base, c2);
            let k2 = place(prev, j2 - base, c2);
            assert(queue[k2] == kid(prev[j2 - base], c2));
            assert(queue[k2].action.raw != raw);
        }
    }
    assert(first_parent_at(all, i, j, c0));
    (j0, c0)
}

/// A node admitted to a level stands under its first parent.
proof fn lemma_new_node(
    limit: Option<usize>,
    level: nat,
    queue: Seq<PendingView>,
    pre: Seq<AuditContextView>,
    base: int,
    head: Seq<AuditContextView>,
    t: int,
)
    requires
        before_level(limit, level, queue, pre, base),
        answers(admitted(queue, keys_of(pre)), level, head),
        0 <= t < head.len(),
    ensures
        has_first_parent(pre + head, pre.len() + t),
{
    let visited = keys_of(pre);
    let adm = admitted(queue, visited);
    let all = pre + head;
    let i = pre.len() + t;
    admitted_is_first(queue, visited);
    assert(all[i] == head[t]);
    assert(same_inputs(head[t], crate::walker::admission(adm[t], level, t)));
    let k = choose|k: int| occurs_first(queue, visited, adm[t], k);
    if level == 0 {
        assert(queue[k] == adm[t]);
        assert(queue[k].parent is None);
    } else {
        let at = lemma_parent_of_place(limit, level, queue, pre, base, head, t, k);
        assert(first_parent_at(all, i, base + at.0, at.1));
    }
}

/// Once a level is finished, no child of a node above it is unvisited.
proof fn lemma_next_covered(
    limit: Option<usize>,
    level: nat,
    queue: Seq<PendingView>,
    pre: Seq<AuditContextView>,
    base: int,
    head: Seq<AuditContextView>,
    j: int,
    c: int,
)
    requires
        before_level(limit, level, queue, pre, base),
        answers(admitted(queue, keys_of(pre)), level, head),
        0 <= j < pre.len(),
        0 <= c < pre[j].children.len(),
        expandable(limit, pre[j].depth),
    ensures
        keys_of(pre + head).contains(pre[j].children[c].raw),
{
    let visited = keys_of(pre);
    let adm = admitted(queue, visited);
    let all = pre + head;
    lemma_answers_keys(adm, level, head);
    assert(keys_of(all) =~= visited + pending_keys(adm));
    if j < base {
        let w = choose|w: int| 0 <= w < visited.len() && visited[w] == pre[j].children[c].raw;
        assert(keys_of(all)[w] == visited[w]);
    } else {
        let prev = pre.subrange(base, pre.len() as int);
        assert(prev[j - base] == pre[j]);
        assert(level > 0);
        assert(queue == offspring(prev));
        lemma_place(prev, j - base, c);
        let k = place(prev, j - base, c);
        assert(queue[k] == kid(prev[j - base], c));
        lemma_admitted(queue, visited);
        assert((visited + pending_keys(adm)).contains(queue[k].action.raw));
    }
}

/// What holds before a level holds before the next, once the level is
/// finished.
proof fn lemma_level_step(
    limit: Option<usize>,
    level: nat,
    queue: Seq<PendingView>,
    pre: Seq<AuditContextView>,
    base: int,
    head: Seq<AuditContextView>,
)
    requires
        before_level(limit, level, queue, pre, base),
        answers(admitted(queue, keys_of(pre)), level, head),
    ensures
        before_level(limit, level + 1, next_queue(limit, level, head), pre + head, pre.len() as int),
        keys_of(pre + head) == keys_of(pre) + pending_keys(admitted(queue, keys_of(pre))),
{
    let visited = keys_of(pre);
    let adm = admitted(queue, visited);
    let next = pre + head;
    lemma_admitted(queue, visited);
    lemma_answers_keys(adm, level, head);
    assert(keys_of(next) =~= visited + pending_keys(adm));
    assert(next.subrange(pre.len() as int, next.len() as int) =~= head);
    assert forall|j: int| 0 <= j < pre.len() implies (#[trigger] next[j]).depth + 1 < level
        + 1 by {
        assert(next[j] == pre[j]);
    }
    assert forall|j: int| pre.len() <= j < next.len() implies (#[trigger] next[j]).depth + 1
        == level + 1 by {
        assert(next[j] == head[j - pre.len()]);
        assert(same_inputs(
            head[j - pre.len()],
            crate::walker::admission(adm[j - pre.len()], level, j - pre.len()),
        ));
    }
    assert forall|j: int, c: int|
        0 <= j < pre.len() && 0 <= c < next[j].children.len() && expandable(
            limit,
            next[j].depth,
        ) implies keys_of(next).contains((#[trigger] next[j].children[c]).raw) by {
        assert(next[j] == pre[j]);
        lemma_next_covered(limit, level, queue, pre, base, head, j, c);
    }
    assert forall|i: int| 0 <= i < next.len() implies #[trigger] has_first_parent(next, i) by {
        if i < pre.len() {
            lemma_parent_stays(pre, head, i);
        } else {
            lemma_new_node(limit, level, queue, pre, base, head, i - pre.len());
        }
    }
}

/// Every node that a walk finishes stands under its first parent.
pub proof fn lemma_first_parents(
    limit: Option<usize>,
    level: nat,
    queue: Seq<PendingView>,
    pre: Seq<AuditContextView>,
    base: int,
    rest: Seq<AuditContextView>,
)
    requires
        before_level(limit, level, queue, pre, base),
        walk_from(limit, level, queue, keys_of(pre), rest),
    ensures
        first_parents(pre + rest),
    decreases rest.len(),
{
    if rest.len() == 0 {
        assert(pre + rest =~= pre);
    } else {
        let adm = admitted(queue, keys_of(pre));
        let head = rest.subrange(0, adm.len() as int);
        let tail = rest.subrange(adm.len() as int, rest.len() as int);
        lemma_level_step(limit, level, queue, pre, base, head);
        lemma_first_parents(
            limit,
            level + 1,
            next_queue(limit, level, head),
            pre + head,
            pre.len() as int,
            tail,
        );
        assert((pre + head) + tail =~= pre + rest);
    }
}

/// First parent: every node of a walk below the roots stands under the
/// first finished node that lists it, one level up, and a root stands
/// under none. So a `raw` that several nodes list is found under the one
/// of them that was finished first, as the first of its children with
/// that `raw`.
pub proof fn walk_first_parent(
    limit: Option<usize>,
    roots: Seq<ActionRefView>,
    done: Seq<AuditContextView>,
)
    requires
        walked(limit, roots, done),
    ensures
        first_parents(done),
{
    let none = Seq::<AuditContextView>::empty();
    assert(keys_of(none) =~= Seq::<Seq<char>>::empty());
    lemma_first_parents(limit, 0, as_roots(roots), none, 0, done);
    assert(none + done =~= done);
}

/// A node stands under one parent only: the place under which it stands
/// first is its only place.
pub proof fn first_parent_is_one(
    done: Seq<AuditContextView>,
    i: int,
    j: int,
    c: int,
    j2: int,
    c2: int,
)
    requires
        first_parent_at(done, i, j, c),
        first_parent_at(done, i, j2, c2),
    ensures
        j == j2 && c == c2,
{
    if listed_before(j, c, j2, c2) {
        assert(done[j].children[c].raw != done[i].action.raw);
    } else if listed_before(j2, c2, j, c) {
        assert(done[j2].children[c2].raw != done[i].action.raw);
    }
}

/// A node that stands under its first parent lies at most one level
/// below any finished node that lists it, where the finished nodes stand
/// in order of depth.
pub proof fn lemma_least_depth(done: Seq<AuditContextView>, i: int, j2: int, c2: int)
    requires
        crate::walker::by_depth(done),
        0 <= i < done.len(),
        has_first_parent(done, i),
        0 <= j2 < done.len(),
        0 <= c2 < done[j2].children.len(),
        done[j2].children[c2].raw == done[i].action.raw,
    ensures
        done[i].depth <= done[j2].depth + 1,
{
    if done[i].depth != 0 {
        let (j, c) = choose|j: int, c: int| #[trigger] first_parent_at(done, i, j, c);
        if j2 < j {
            assert(listed_before(j2, c2, j, c));
            assert(done[j2].children[c2].raw != done[i].action.raw);
        } else if j2 > j {
            assert(done[j].depth <= done[j2].depth);
        }
    }
}

/// Shortest way: a node of a walk lies at most one level below any
/// finished node that lists it; so it lies one level below the highest
/// of them.
pub proof fn walk_depth_is_least(
    limit: Option<usize>,
    roots: Seq<ActionRefView>,
    done: Seq<AuditContextView>,
    i: int,
    j2: int,
    c2: int,
)
    requires
        walked(limit, roots, done),
        0 <= i < done.len(),
        0 <= j2 < done.len(),
        0 <= c2 < done[j2].children.len(),
        done[j2].children[c2].raw == done[i].action.raw,
    ensures
        done[i].depth <= done[j2].depth + 1,
{
    walk_first_parent(limit, roots, done);
    lemma_least_depth(done, i, j2, c2);
}

/// Closed under children: every child of a finished node that the limit
/// allows to be expanded is a finished node itself.
pub proof fn walk_is_closed(
    limit: Option<usize>,
    roots: Seq<ActionRefView>,
    done: Seq<AuditContextView>,
    j: int,
    c: int,
)
    requires
        walked(limit, roots, done),
        0 <= j < done.len(),
        0 <= c < done[j].children.len(),
        expandable(limit, done[j].depth),
    ensures
        exists|i: int| 0 <= i < done.len() && #[trigger] done[i].action.raw == done[j].children[c].raw,
{
    let none = Seq::<Seq<char>>::empty();
    assert(keys_of(done).contains(done[j].children[c].raw) || none.contains(
        done[j].children[c].raw,
    ));
    let w = choose|w: int| 0 <= w < keys_of(done).len() && keys_of(done)[w] == done[j].children[c].raw;
    assert(done[w].action.raw == done[j].children[c].raw);
}

/// The first node of a queue's rest with some `raw` is the first of the
/// queue with it, one place further on, where the first node of the queue
/// was visited before or counts as visited in the rest.
proof fn lemma_first_shift(
    queue: Seq<PendingView>,
    visited: Seq<Seq<char>>,
    seen: Seq<Seq<char>>,
    p: PendingView,
    k: int,
)
    requires
        queue.len() > 0,
        occurs_first(queue.drop_first(), seen, p, k),
        (seen == visited && visited.contains(queue[0].action.raw)) || seen == visited.push(
            queue[0].action.raw,
        ),
    ensures
        occurs_first(queue, visited, p, k + 1),
{
    let rest = queue.drop_first();
    let raw0 = queue[0].action.raw;
    assert(queue[k + 1] == rest[k]);
    if seen == visited.push(raw0) {
        assert(seen[visited.len() as int] == raw0);
    }
    assert(seen.contains(raw0));
    assert forall|m: int| 0 <= m < k + 1 implies (#[trigger] queue[m]).action.raw
        != p.action.raw by {
        if m > 0 {
            assert(queue[m] == rest[m - 1]);
        }
    }
    if visited.contains(p.action.raw) {
        let w = choose|w: int| 0 <= w < visited.len() && visited[w] == p.action.raw;
        assert(seen[w] == visited[w]);
    }
}

/// Admission keeps the order of the queue: of two admitted nodes, the
/// earlier stands first in the queue.
pub proof fn lemma_admitted_order(
    queue: Seq<PendingView>,
    visited: Seq<Seq<char>>,
    t1: int,
    t2: int,
) -> (ks: (int, int))
    requires
        0 <= t1 < t2 < admitted(queue, visited).len(),
    ensures
        ks.0 < ks.1,
        occurs_first(queue, visited, admitted(queue, visited)[t1], ks.0),
        occurs_first(queue, visited, admitted(queue, visited)[t2], ks.1),
    decreases queue.len(),
{
    let adm = admitted(queue, visited);
    let rest = queue.drop_first();
    let raw0 = queue[0].action.raw;
    if visited.contains(raw0) {
        let (a, b) = lemma_admitted_order(rest, visited, t1, t2);
        lemma_first_shift(queue, visited, visited, adm[t1], a);
        lemma_first_shift(queue, visited, visited, adm[t2], b);
        (a + 1, b + 1)
    } else {
        let seen = visited.push(raw0);
        let inner = admitted(rest, seen);
        assert(adm =~= seq![queue[0]] + inner);
        assert(adm[t2] == inner[t2 - 1]);
        if t1 == 0 {
            assert(adm[0] == queue[0]);
            admitted_is_first(rest, seen);
            let later = inner[t2 - 1];
            assert(crate::walker::first_in(rest, seen, later));
            let k = choose|k: int| occurs_first(rest, seen, later, k);
            lemma_first_shift(queue, visited, seen, adm[t2], k);
            assert(occurs_first(queue, visited, adm[0], 0));
            (0, k + 1)
        } else {
            assert(adm[t1] == inner[t1 - 1]);
            let (a, b) = lemma_admitted_order(rest, seen, t1 - 1, t2 - 1);
            lemma_first_shift(queue, visited, seen, adm[t1], a);
            lemma_first_shift(queue, visited, seen, adm[t2], b);
            (a + 1, b + 1)
        }
    }
}

/// A node that stands under a parent as a child of some number still
/// does where more nodes are finished behind it.
pub proof fn lemma_at_stays(
    pre: Seq<AuditContextView>,
    more: Seq<AuditContextView>,
    i: int,
    j: int,
    c: int,
)
    requires
        first_parent_at(pre, i, j, c),
    ensures
        first_parent_at(pre + more, i, j, c),
{
    let all = pre + more;
    assert(all[i] == pre[i]);
    assert(all[j] == pre[j]);
    assert forall|j2: int, c2: int|
        0 <= j2 <= j && 0 <= c2 < all[j2].children.len() && listed_before(
            j2,
            c2,
            j,
            c,
        ) implies (#[trigger] all[j2].children[c2]).raw != all[i].action.raw by {
        assert(all[j2] == pre[j2]);
    }
}

/// Of two nodes of one level, the one finished first is listed first.
proof fn lemma_order(
    limit: Option<usize>,
    level: nat,
    queue: Seq<PendingView>,
    pre: Seq<AuditContextView>,
    base: int,
    rest: Seq<AuditContextView>,
    i1: int,
    i2: int,
    j1: int,
    c1: int,
    j2: int,
    c2: int,
)
    requires
        before_level(limit, level, queue, pre, base),
        walk_from(limit, level, queue, keys_of(pre), rest),
        0 <= i1 < i2 < pre.len() + rest.len(),
        pre.len() <= i2,
        (pre + rest)[i1].depth == (pre + rest)[i2].depth,
        first_parent_at(pre + rest, i1, j1, c1),
        first_parent_at(pre + rest, i2, j2, c2),
    ensures
        listed_before(j1, c1, j2, c2),
    decreases rest.len(),
{
    let all = pre + rest;
    let visited = keys_of(pre);
    let adm = admitted(queue, visited);
    let head = rest.subrange(0, adm.len() as int);
    let tail = rest.subrange(adm.len() as int, rest.len() as int);
    let next = pre + head;
    lemma_level_step(limit, level, queue, pre, base, head);
    assert(next + tail =~= all);
    if i2 < next.len() {
        let t2 = i2 - pre.len();
        assert(all[i2] == head[t2]);
        assert(same_inputs(head[t2], crate::walker::admission(adm[t2], level, t2)));
        assert(all[j2].depth + 1 == all[i2].depth);
        assert(level > 0);
        if i1 < pre.len() {
            assert(all[i1] == pre[i1]);
            assert(pre[i1].depth + 1 <= level);
        }
        let t1 = i1 - pre.len();
        let (k1, k2) = lemma_admitted_order(queue, visited, t1, t2);
        let at1 = lemma_parent_of_place(limit, level, queue, pre, base, head, t1, k1);
        let at2 = lemma_parent_of_place(limit, level, queue, pre, base, head, t2, k2);
        lemma_at_stays(next, tail, i1, base + at1.0, at1.1);
        lemma_at_stays(next, tail, i2, base + at2.0, at2.1);
        first_parent_is_one(all, i1, j1, c1, base + at1.0, at1.1);
        first_parent_is_one(all, i2, j2, c2, base + at2.0, at2.1);
        let prev = pre.subrange(base, pre.len() as int);
        assert(prev[at1.0] == pre[base + at1.0]);
        assert(prev[at2.0] == pre[base + at2.0]);
        if !listed_before(at1.0, at1.1, at2.0, at2.1) {
            if at1.0 == at2.0 && at1.1 == at2.1 {
                assert(k1 == k2);
            } else {
                lemma_place_order(prev, at2.0, at2.1, at1.0, at1.1);
            }
        }
    } else {
        lemma_order(
            limit,
            level + 1,
            next_queue(limit, level, head),
            next,
            pre.len() as int,
            tail,
            i1,
            i2,
            j1,
            c1,
            j2,
            c2,
        );
    }
}

/// Discovery order: of two nodes of one level of a walk, the one that
/// was finished first is the one that was listed first, parent by parent
/// and child by child. So the children of a node stand in the order in
/// which the node lists them.
pub proof fn walk_keeps_order(
    limit: Option<usize>,
    roots: Seq<ActionRefView>,
    done: Seq<AuditContextView>,
    i1: int,
    i2: int,
    j1: int,
    c1: int,
    j2: int,
    c2: int,
)
    requires
        walked(limit, roots, done),
        0 <= i1 < i2 < done.len(),
        done[i1].depth == done[i2].depth,
        first_parent_at(done, i1, j1, c1),
        first_parent_at(done, i2, j2, c2),
    ensures
        listed_before(j1, c1, j2, c2),
{
    let none = Seq::<AuditContextView>::empty();
    assert(keys_of(none) =~= Seq::<Seq<char>>::empty());
    assert(none + done =~= done);
    lemma_order(limit, 0, as_roots(roots), none, 0, done, i1, i2, j1, c1, j2, c2);
}

} // verus!
