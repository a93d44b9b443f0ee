//! Breadth-first traversal of the action graph.
//!
//! The walk is kept as a state between levels: [`WalkState::next_level`]
//! hands out the nodes of the next level, the caller runs the pipeline over
//! them in any order or at once, and [`WalkState::complete_level`] takes
//! them back and lines up their children. [`Walker::walk`] does the same,
//! one node after the other.
use crate::action_ref::{ActionRef, ActionRefView};
use crate::context::{fresh_context, ref_views, same_inputs, AuditContext, AuditContextView};
use crate::forest::{bare_forest, forest_height, forest_keys};
use crate::output::{entry_of, node_views, ActionEntry, AuditNode, AuditNodeView};
use crate::pipeline::{ran, Pipeline};
use crate::stage::Stage;
use crate::text::{copy_opt, holds_text, opt_text, same_opt, same_text, texts};
use std::collections::VecDeque;
use vstd::prelude::*;

verus! {

/// A node that waits for its turn: the reference, and the `raw` of the node
/// that listed it.
pub struct Pending {
    pub action: ActionRef,
    pub parent: Option<String>,
}

/// Mathematical value of a [`Pending`].
pub struct PendingView {
    pub action: ActionRefView,
    pub parent: Option<Seq<char>>,
}

impl View for Pending {
    type V = PendingView;

    open spec fn view(&self) -> PendingView {
        PendingView { action: self.action@, parent: opt_text(self.parent) }
    }
}

/// The views of a list of waiting nodes.
pub open spec fn pending_views(v: Seq<Pending>) -> Seq<PendingView> {
    Seq::new(v.len(), |i: int| v[i]@)
}

/// The views of a list of contexts.
pub open spec fn context_views(v: Seq<AuditContext>) -> Seq<AuditContextView> {
    Seq::new(v.len(), |i: int| v[i]@)
}

/// The `raw` of each context, in order.
pub open spec fn keys_of(done: Seq<AuditContextView>) -> Seq<Seq<char>> {
    Seq::new(done.len(), |i: int| done[i].action.raw)
}

/// The `raw` of each waiting node, in order.
pub open spec fn pending_keys(p: Seq<PendingView>) -> Seq<Seq<char>> {
    Seq::new(p.len(), |i: int| p[i].action.raw)
}

/// No text stands twice in `s`.
pub open spec fn distinct(s: Seq<Seq<char>>) -> bool {
    forall|i: int, j: int| 0 <= i < j < s.len() ==> s[i] != s[j]
}

/// The nodes of `queue` that are admitted, given the `raw`s in `visited`:
/// in order, a node whose `raw` was visited is dropped, any other is
/// admitted and its `raw` counts as visited from then on.
pub open spec fn admitted(queue: Seq<PendingView>, visited: Seq<Seq<char>>) -> Seq<PendingView>
    decreases queue.len(),
{
    if queue.len() == 0 {
        Seq::empty()
    } else if visited.contains(queue[0].action.raw) {
        admitted(queue.drop_first(), visited)
    } else {
        seq![queue[0]] + admitted(queue.drop_first(), visited.push(queue[0].action.raw))
    }
}

/// Whether `p` stands at position `k` of the queue, no node before it has
/// its `raw`, and its `raw` is not among `visited`.
pub open spec fn occurs_first(
    queue: Seq<PendingView>,
    visited: Seq<Seq<char>>,
    p: PendingView,
    k: int,
) -> bool {
    &&& 0 <= k < queue.len()
    &&& queue[k] == p
    &&& forall|m: int| 0 <= m < k ==> (#[trigger] queue[m]).action.raw != p.action.raw
    &&& !visited.contains(p.action.raw)
}

/// Whether `p` is the first node of the queue with its `raw`, not visited
/// before.
pub open spec fn first_in(queue: Seq<PendingView>, visited: Seq<Seq<char>>, p: PendingView)
    -> bool {
    exists|k: int| occurs_first(queue, visited, p, k)
}

/// The roots of a walk as waiting nodes: each without a parent.
pub open spec fn as_roots(roots: Seq<ActionRefView>) -> Seq<PendingView> {
    Seq::new(roots.len(), |i: int| PendingView { action: roots[i], parent: None })
}

/// The children of one finished node as waiting nodes, in listed order.
pub open spec fn children_of(ctx: AuditContextView) -> Seq<PendingView> {
    Seq::new(
        ctx.children.len(),
        |i: int| PendingView { action: ctx.children[i], parent: Some(ctx.action.raw) },
    )
}

/// The children of a level of finished nodes: parent by parent, then child
/// by child.
pub open spec fn offspring(level: Seq<AuditContextView>) -> Seq<PendingView>
    decreases level.len(),
{
    if level.len() == 0 {
        Seq::empty()
    } else {
        offspring(level.drop_last()) + children_of(level.last())
    }
}

/// Whether nodes at `depth` may still be expanded under `limit`.
pub open spec fn expandable(limit: Option<usize>, depth: nat) -> bool {
    match limit {
        Some(max) => depth < max,
        None => true,
    }
}

/// The context that a waiting node gets when it is admitted at `depth` as
/// number `index` of its level.
pub open spec fn admission(p: PendingView, depth: nat, index: int) -> AuditContextView {
    fresh_context(p.action, depth, p.parent, Some(index as usize))
}

/// `parent` names a node of `done` one level above `depth`, or nothing
/// where `depth` is 0.
pub open spec fn parent_ok(done: Seq<AuditContextView>, parent: Option<Seq<char>>, depth: nat, upto: int)
    -> bool {
    if depth == 0 {
        parent is None
    } else {
        exists|j: int|
            0 <= j < upto && j < done.len() && (#[trigger] done[j]).depth + 1 == depth && parent
                == Some(done[j].action.raw)
    }
}

/// The nodes of `done` from position `from` on that name `parent` as their
/// parent, each as the tree under it, in order.
pub open spec fn children_from(done: Seq<AuditContextView>, parent: Option<Seq<char>>, from: int)
    -> Seq<AuditNodeView>
    decreases done.len() - from, 1int,
{
    if from < 0 || from >= done.len() {
        Seq::empty()
    } else if done[from].parent == parent {
        seq![subtree(done, from)] + children_from(done, parent, from + 1)
    } else {
        children_from(done, parent, from + 1)
    }
}

/// The tree under node `i` of `done`: its entry, and below it the trees of
/// the later nodes that name it as their parent.
pub open spec fn subtree(done: Seq<AuditContextView>, i: int) -> AuditNodeView
    decreases done.len() - i, 0int,
{
    if i < 0 || i >= done.len() {
        arbitrary()
    } else {
        AuditNodeView {
            entry: entry_of(done[i]),
            children: children_from(done, Some(done[i].action.raw), i + 1),
        }
    }
}

/// The result of a walk: the trees of the nodes without a parent, in the
/// order in which they were processed.
pub open spec fn forest_of(done: Seq<AuditContextView>) -> Seq<AuditNodeView> {
    children_from(done, None, 0)
}

/// The trees of the nodes of `done`, from `from` on, whose parent is `parent`.
fn build_children(done: &Vec<AuditContext>, parent: &Option<String>, from: usize) -> (out: Vec<
    AuditNode,
>)
    ensures
        node_views(out@) == children_from(context_views(done@), opt_text(*parent), from as int),
    decreases done@.len() - from, 1int,
{
    let ghost dv = context_views(done@);
    let ghost pk = opt_text(*parent);
    let mut out: Vec<AuditNode> = Vec::new();
    let mut j: usize = from;
    proof {
        assert(node_views(out@) + children_from(dv, pk, from as int) =~= children_from(
            dv,
            pk,
            from as int,
        ));
    }
    while j < done.len()
        invariant
            from <= j,
            dv == context_views(done@),
            pk == opt_text(*parent),
            children_from(dv, pk, from as int) == node_views(out@) + children_from(
                dv,
                pk,
                j as int,
            ),
        decreases done@.len() - j,
    {
        let ghost before = node_views(out@);
        proof {
            assert(dv[j as int] == done@[j as int]@);
        }
        if same_opt(&done[j].parent, parent) {
            let node = build_subtree(done, j);
            out.push(node);
            proof {
                assert(node_views(out@) =~= before.push(subtree(dv, j as int)));
                assert(before.push(subtree(dv, j as int)) + children_from(dv, pk, j + 1)
                    =~= before + (seq![subtree(dv, j as int)] + children_from(dv, pk, j + 1)));
            }
        }
        j = j + 1;
    }
    proof {
        assert(node_views(out@) + Seq::<AuditNodeView>::empty() =~= node_views(out@));
    }
    out
}

/// The tree under node `i` of `done`.
fn build_subtree(done: &Vec<AuditContext>, i: usize) -> (node: AuditNode)
    requires
        i < done@.len(),
    ensures
        node@ == subtree(context_views(done@), i as int),
    decreases done@.len() - i, 0int,
{
    let total: usize = done.len();
    let key = Some(done[i].action.raw.clone());
    let children = build_children(done, &key, i + 1);
    let entry = ActionEntry::of_context(&done[i]);
    let node = AuditNode { entry, children };
    proof {
        assert(context_views(done@)[i as int] == done@[i as int]@);
        crate::output::lemma_node_view(node);
    }
    node
}

/// The result tree of a list of finished nodes: the nodes without a parent
/// are the roots, in the order of the list, and under each node stand the
/// later nodes that name it as their parent, in that order too.
pub fn build_tree(done: &Vec<AuditContext>) -> (forest: Vec<AuditNode>)
    ensures
        node_views(forest@) == forest_of(context_views(done@)),
{
    build_children(done, &None, 0)
}

/// Whether every finished node at a depth that may be expanded has each
/// of its children among the visited or the waiting `raw`s.
pub open spec fn children_covered(
    limit: Option<usize>,
    waiting: Seq<Seq<char>>,
    visited: Seq<Seq<char>>,
    done: Seq<AuditContextView>,
) -> bool {
    forall|i: int, c: int|
        0 <= i < done.len() && 0 <= c < done[i].children.len() && expandable(
            limit,
            done[i].depth,
        ) ==> visited.contains((#[trigger] done[i].children[c]).raw) || waiting.contains(
            done[i].children[c].raw,
        )
}

/// Whether the first finished nodes are the admitted roots, in order, at
/// depth 0, and every other finished node lies deeper.
pub open spec fn roots_first(start: Seq<PendingView>, done: Seq<AuditContextView>) -> bool {
    let adm = admitted(start, Seq::empty());
    &&& adm.len() <= done.len()
    &&& forall|i: int|
        0 <= i < adm.len() ==> same_inputs(#[trigger] done[i], admission(adm[i], 0, i))
    &&& forall|i: int| adm.len() <= i < done.len() ==> (#[trigger] done[i]).depth >= 1
}

/// Whether the finished nodes stand in order of depth.
pub open spec fn by_depth(done: Seq<AuditContextView>) -> bool {
    forall|i: int, j: int| 0 <= i < j < done.len() ==> done[i].depth <= done[j].depth
}

/// Whether every finished node names as its parent a node finished before
/// it, one level up, and a node at depth 0 names none.
pub open spec fn parents_linked(done: Seq<AuditContextView>) -> bool {
    forall|i: int|
        0 <= i < done.len() ==> parent_ok(done, (#[trigger] done[i]).parent, done[i].depth, i)
}

/// What holds of every state of a walk that started with the queue
/// `start`: the visited `raw`s are those of the finished and the awaited
/// nodes, each once; the finished nodes stand in order of depth, above the
/// current level and within the limit, the admitted roots first; every
/// finished node names as its parent a node finished before it, one level
/// up; every waiting node names a finished node of the last level; nodes
/// wait only where the limit allowed their parents to be expanded; and no
/// child of an expanded node is forgotten.
pub open spec fn inv(
    limit: Option<usize>,
    start: Seq<PendingView>,
    level: nat,
    queue: Seq<PendingView>,
    awaited: Seq<PendingView>,
    visited: Seq<Seq<char>>,
    done: Seq<AuditContextView>,
) -> bool {
    &&& visited == keys_of(done) + pending_keys(awaited)
    &&& distinct(visited)
    &&& level <= done.len()
    &&& forall|i: int| 0 <= i < done.len() ==> (#[trigger] done[i]).depth < level
    &&& parents_linked(done)
    &&& forall|i: int|
        0 <= i < queue.len() ==> parent_ok(
            done,
            (#[trigger] queue[i]).parent,
            level,
            done.len() as int,
        )
    &&& forall|i: int|
        0 <= i < awaited.len() ==> parent_ok(
            done,
            (#[trigger] awaited[i]).parent,
            level,
            done.len() as int,
        )
    &&& (queue.len() > 0 || awaited.len() > 0) ==> (level == 0 || expandable(
        limit,
        (level - 1) as nat,
    ))
    &&& awaited.len() > 0 ==> queue.len() == 0
    &&& (limit matches Some(max) ==> level <= max + 1)
    &&& by_depth(done)
    &&& if level == 0 {
        if awaited.len() == 0 {
            queue == start
        } else {
            awaited == admitted(start, Seq::empty())
        }
    } else {
        roots_first(start, done)
    }
    &&& children_covered(limit, pending_keys(queue), visited, done)
}

/// What holds of the finished nodes once a walk from `roots` under
/// `limit` is over: every `raw` stands once; the nodes stand in order of
/// depth, none deeper than the limit, the roots that were admitted first;
/// every node names as its parent a node finished before it, one level
/// up; every child of a node above the limit was visited; and the nodes
/// are, level by level, the admitted nodes of the queue that the level
/// before left, each under the parent that listed it first.
pub open spec fn walked(
    limit: Option<usize>,
    roots: Seq<ActionRefView>,
    done: Seq<AuditContextView>,
) -> bool {
    &&& distinct(keys_of(done))
    &&& by_depth(done)
    &&& parents_linked(done)
    &&& roots_first(as_roots(roots), done)
    &&& forall|i: int|
        0 <= i < done.len() ==> (limit matches Some(max) ==> (#[trigger] done[i]).depth <= max)
    &&& children_covered(limit, Seq::empty(), keys_of(done), done)
    &&& walk_from(limit, 0, as_roots(roots), Seq::empty(), done)
}

/// What admission does to a queue: the visited `raw`s stay distinct;
/// every admitted node is a node of the queue; every `raw` of the queue
/// is visited afterwards.
pub proof fn lemma_admitted(queue: Seq<PendingView>, visited: Seq<Seq<char>>)
    requires
        distinct(visited),
    ensures
        distinct(visited + pending_keys(admitted(queue, visited))),
        forall|j: int|
            0 <= j < admitted(queue, visited).len() ==> exists|k: int|
                0 <= k < queue.len() && #[trigger] admitted(queue, visited)[j] == queue[k],
        forall|k: int|
            0 <= k < queue.len() ==> (visited + pending_keys(
                admitted(queue, visited),
            )).contains((#[trigger] queue[k]).action.raw),
        admitted(queue, visited).len() <= queue.len(),
        queue.len() > 0 && visited.len() == 0 ==> admitted(queue, visited).len() > 0,
    decreases queue.len(),
{
    let adm = admitted(queue, visited);
    let after = visited + pending_keys(adm);
    if queue.len() == 0 {
        assert(after =~= visited);
    } else {
        let rest = queue.drop_first();
        let key = queue[0].action.raw;
        if visited.contains(key) {
            lemma_admitted(rest, visited);
            assert forall|j: int| 0 <= j < adm.len() implies exists|k: int|
                0 <= k < queue.len() && #[trigger] adm[j] == queue[k] by {
                let k = choose|k: int| 0 <= k < rest.len() && adm[j] == rest[k];
                assert(queue[k + 1] == rest[k]);
            }
            assert forall|k: int| 0 <= k < queue.len() implies after.contains(
                (#[trigger] queue[k]).action.raw,
            ) by {
                if k == 0 {
                    let w = choose|w: int| 0 <= w < visited.len() && visited[w] == key;
                    assert(after[w] == key);
                } else {
                    assert(queue[k] == rest[k - 1]);
                }
            }
        } else {
            let next = visited.push(key);
            lemma_distinct_push(visited, key);
            lemma_admitted(rest, next);
            let tail = admitted(rest, next);
            assert(adm =~= seq![queue[0]] + tail);
            assert(after =~= next + pending_keys(tail)) by {
                assert(pending_keys(adm) =~= seq![key] + pending_keys(tail));
            }
            assert forall|j: int| 0 <= j < adm.len() implies exists|k: int|
                0 <= k < queue.len() && #[trigger] adm[j] == queue[k] by {
                if j == 0 {
                    assert(adm[0] == queue[0]);
                } else {
                    assert(adm[j] == tail[j - 1]);
                    let k = choose|k: int| 0 <= k < rest.len() && tail[j - 1] == rest[k];
                    assert(queue[k + 1] == rest[k]);
                }
            }
            assert forall|k: int| 0 <= k < queue.len() implies after.contains(
                (#[trigger] queue[k]).action.raw,
            ) by {
                if k == 0 {
                    assert(after[visited.len() as int] == key);
                } else {
                    assert(queue[k] == rest[k - 1]);
                }
            }
        }
    }
}

/// First parent: an admitted node is the first node of the queue with
/// its `raw`, and that `raw` was not visited before.
pub proof fn admitted_is_first(queue: Seq<PendingView>, visited: Seq<Seq<char>>)
    ensures
        forall|j: int|
            0 <= j < admitted(queue, visited).len() ==> first_in(
                queue,
                visited,
                #[trigger] admitted(queue, visited)[j],
            ),
    decreases queue.len(),
{
    let adm = admitted(queue, visited);
    if queue.len() > 0 {
        let rest = queue.drop_first();
        let key = queue[0].action.raw;
        if visited.contains(key) {
            admitted_is_first(rest, visited);
            assert forall|j: int| 0 <= j < adm.len() implies first_in(
                queue,
                visited,
                #[trigger] adm[j],
            ) by {
                let p = admitted(rest, visited)[j];
                assert(adm[j] == p);
                assert(first_in(rest, visited, p));
                let k = choose|k: int| occurs_first(rest, visited, p, k);
                assert(occurs_first(queue, visited, adm[j], k + 1)) by {
                    assert(queue[k + 1] == rest[k]);
                    assert forall|m: int| 0 <= m < k + 1 implies (#[trigger] queue[m]).action.raw
                        != adm[j].action.raw by {
                        if m > 0 {
                            assert(queue[m] == rest[m - 1]);
                        }
                    }
                }
            }
        } else {
            let next = visited.push(key);
            admitted_is_first(rest, next);
            let tail = admitted(rest, next);
            assert(adm =~= seq![queue[0]] + tail);
            assert forall|j: int| 0 <= j < adm.len() implies first_in(
                queue,
                visited,
                #[trigger] adm[j],
            ) by {
                if j == 0 {
                    assert(occurs_first(queue, visited, adm[0], 0));
                } else {
                    let p = tail[j - 1];
                    assert(adm[j] == p);
                    assert(first_in(rest, next, p));
                    let k = choose|k: int| occurs_first(rest, next, p, k);
                    assert(next[visited.len() as int] == key);
                    assert(occurs_first(queue, visited, adm[j], k + 1)) by {
                        assert(queue[k + 1] == rest[k]);
                        assert forall|m: int| 0 <= m < k + 1 implies (
                        #[trigger] queue[m]).action.raw != adm[j].action.raw by {
                            if m > 0 {
                                assert(queue[m] == rest[m - 1]);
                            }
                        }
                        assert forall|w: int| 0 <= w < visited.len() implies visited[w]
                            != adm[j].action.raw by {
                            assert(next[w] == visited[w]);
                        }
                    }
                }
            }
        }
    }
}

/// A text of the first part is a text of the whole.
pub proof fn lemma_contains_left(s: Seq<Seq<char>>, t: Seq<Seq<char>>, k: Seq<char>)
    requires
        s.contains(k),
    ensures
        (s + t).contains(k),
{
    let w = choose|w: int| 0 <= w < s.len() && s[w] == k;
    assert((s + t)[w] == k);
}

/// Handing out a level keeps the invariant.
pub proof fn lemma_admit(
    limit: Option<usize>,
    start: Seq<PendingView>,
    level: nat,
    queue: Seq<PendingView>,
    awaited: Seq<PendingView>,
    visited: Seq<Seq<char>>,
    done: Seq<AuditContextView>,
)
    requires
        inv(limit, start, level, queue, awaited, visited, done),
    ensures
        inv(
            limit,
            start,
            level,
            Seq::empty(),
            awaited + admitted(queue, visited),
            visited + pending_keys(admitted(queue, visited)),
            done,
        ),
{
    let adm = admitted(queue, visited);
    let none = Seq::<PendingView>::empty();
    let a1 = awaited + adm;
    let v1 = visited + pending_keys(adm);
    lemma_admitted(queue, visited);
    assert(pending_keys(a1) =~= pending_keys(awaited) + pending_keys(adm));
    assert(v1 =~= keys_of(done) + pending_keys(a1));
    assert forall|i: int| 0 <= i < a1.len() implies parent_ok(
        done,
        (#[trigger] a1[i]).parent,
        level,
        done.len() as int,
    ) by {
        if i >= awaited.len() {
            let j = i - awaited.len();
            assert(a1[i] == adm[j]);
            let k = choose|k: int| 0 <= k < queue.len() && adm[j] == queue[k];
            assert(parent_ok(done, queue[k].parent, level, done.len() as int));
        } else {
            assert(a1[i] == awaited[i]);
        }
    }
    if level == 0 {
        if done.len() > 0 {
            assert(done[0].depth < level);
        }
        if awaited.len() == 0 {
            assert(pending_keys(awaited) =~= Seq::<Seq<char>>::empty());
            assert(keys_of(done) =~= Seq::<Seq<char>>::empty());
            assert(visited =~= Seq::<Seq<char>>::empty());
            assert(a1 =~= adm);
            if adm.len() == 0 {
                assert(queue.len() == 0);
                assert(queue =~= none);
            }
        } else {
            assert(queue =~= none);
            assert(a1 =~= awaited);
        }
    }
    assert(children_covered(limit, pending_keys(none), v1, done)) by {
        assert forall|i: int, c: int|
            0 <= i < done.len() && 0 <= c < done[i].children.len() && expandable(
                limit,
                done[i].depth,
            ) implies v1.contains((#[trigger] done[i].children[c]).raw) || pending_keys(
            none,
        ).contains(done[i].children[c].raw) by {
            let key = done[i].children[c].raw;
            if visited.contains(key) {
                lemma_contains_left(visited, pending_keys(adm), key);
            } else {
                let k = choose|k: int|
                    0 <= k < pending_keys(queue).len() && pending_keys(queue)[k] == key;
                assert(queue[k].action.raw == key);
            }
        }
    }
}

/// Every child of a level is among the children lined up.
pub proof fn lemma_offspring_holds(res: Seq<AuditContextView>, p: int, c: int)
    requires
        0 <= p < res.len(),
        0 <= c < res[p].children.len(),
    ensures
        pending_keys(offspring(res)).contains(res[p].children[c].raw),
    decreases res.len(),
{
    let head = res.drop_last();
    let all = offspring(res);
    if p == res.len() - 1 {
        let at = offspring(head).len() + c;
        assert(all[at] == children_of(res.last())[c]);
        assert(pending_keys(all)[at] == res[p].children[c].raw);
    } else {
        lemma_offspring_holds(head, p, c);
        let keys = pending_keys(offspring(head));
        let w = choose|w: int| 0 <= w < keys.len() && keys[w] == head[p].children[c].raw;
        assert(all[w] == offspring(head)[w]);
        assert(pending_keys(all)[w] == res[p].children[c].raw);
    }
}

/// `results` answer `awaited` at `level`: as many, in the same order, each
/// with what the walker fixed for it.
pub open spec fn answers(awaited: Seq<PendingView>, level: nat, results: Seq<AuditContextView>)
    -> bool {
    &&& results.len() == awaited.len()
    &&& forall|i: int|
        0 <= i < results.len() ==> same_inputs(
            #[trigger] results[i],
            admission(awaited[i], level, i),
        )
}

/// The queue that a finished level at depth `level` leaves for the next:
/// the children of its nodes, parent by parent and child by child, where
/// the limit allows them to be expanded; else nothing.
pub open spec fn next_queue(limit: Option<usize>, level: nat, results: Seq<AuditContextView>)
    -> Seq<PendingView> {
    if expandable(limit, level) {
        offspring(results)
    } else {
        Seq::empty()
    }
}

/// Whether `done` is what a walk finishes from the state in which `queue`
/// waits at depth `level` and the `raw`s of `visited` were seen. The
/// first nodes of `done` are the admitted nodes of the queue, in order,
/// each with its depth, its parent and its place in the level; what
/// follows them is what the walk finishes from the next state, in which
/// their children wait. The walk is over where nothing is admitted.
pub open spec fn walk_from(
    limit: Option<usize>,
    level: nat,
    queue: Seq<PendingView>,
    visited: Seq<Seq<char>>,
    done: Seq<AuditContextView>,
) -> bool
    decreases done.len(),
{
    let adm = admitted(queue, visited);
    if done.len() == 0 {
        adm.len() == 0
    } else if 0 < adm.len() <= done.len() && answers(
        adm,
        level,
        done.subrange(0, adm.len() as int),
    ) {
        walk_from(
            limit,
            level + 1,
            next_queue(limit, level, done.subrange(0, adm.len() as int)),
            visited + pending_keys(adm),
            done.subrange(adm.len() as int, done.len() as int),
        )
    } else {
        false
    }
}

/// Whether a walk from the state in which `queue` waits at depth `level`
/// has finished `done`, whole levels, and stands before the level
/// `end_level` with `end_queue` waiting.
pub open spec fn reaches(
    limit: Option<usize>,
    level: nat,
    queue: Seq<PendingView>,
    visited: Seq<Seq<char>>,
    done: Seq<AuditContextView>,
    end_level: nat,
    end_queue: Seq<PendingView>,
) -> bool
    decreases done.len(),
{
    let adm = admitted(queue, visited);
    if done.len() == 0 {
        end_level == level && end_queue == queue
    } else if 0 < adm.len() <= done.len() && answers(
        adm,
        level,
        done.subrange(0, adm.len() as int),
    ) {
        reaches(
            limit,
            level + 1,
            next_queue(limit, level, done.subrange(0, adm.len() as int)),
            visited + pending_keys(adm),
            done.subrange(adm.len() as int, done.len() as int),
            end_level,
            end_queue,
        )
    } else {
        false
    }
}

/// The nodes that answer a level have the `raw`s of that level.
pub proof fn lemma_answers_keys(adm: Seq<PendingView>, level: nat, res: Seq<AuditContextView>)
    requires
        answers(adm, level, res),
    ensures
        keys_of(res) == pending_keys(adm),
{
    assert(keys_of(res) =~= pending_keys(adm));
}

/// A walk that has finished whole levels and is handed the next level,
/// processed, has finished one level more.
pub proof fn lemma_reaches_more(
    limit: Option<usize>,
    level: nat,
    queue: Seq<PendingView>,
    visited: Seq<Seq<char>>,
    done: Seq<AuditContextView>,
    end_level: nat,
    end_queue: Seq<PendingView>,
    res: Seq<AuditContextView>,
)
    requires
        reaches(limit, level, queue, visited, done, end_level, end_queue),
        res.len() > 0,
        answers(admitted(end_queue, visited + keys_of(done)), end_level, res),
    ensures
        reaches(
            limit,
            level,
            queue,
            visited,
            done + res,
            end_level + 1,
            next_queue(limit, end_level, res),
        ),
    decreases done.len(),
{
    let all = done + res;
    let adm = admitted(queue, visited);
    if done.len() == 0 {
        assert(visited + keys_of(done) =~= visited);
        assert(all =~= res);
        assert(all.subrange(0, adm.len() as int) =~= res);
        let none = all.subrange(adm.len() as int, all.len() as int);
        assert(none.len() == 0);
        assert(reaches(
            limit,
            level + 1,
            next_queue(limit, level, res),
            visited + pending_keys(adm),
            none,
            end_level + 1,
            next_queue(limit, end_level, res),
        ));
    } else {
        let head = done.subrange(0, adm.len() as int);
        let tail = done.subrange(adm.len() as int, done.len() as int);
        lemma_answers_keys(adm, level, head);
        assert(done =~= head + tail);
        assert(keys_of(done) =~= keys_of(head) + keys_of(tail));
        assert((visited + pending_keys(adm)) + keys_of(tail) =~= visited + keys_of(done));
        lemma_reaches_more(
            limit,
            level + 1,
            next_queue(limit, level, head),
            visited + pending_keys(adm),
            tail,
            end_level,
            end_queue,
            res,
        );
        assert(all.subrange(0, adm.len() as int) =~= head);
        assert(all.subrange(adm.len() as int, all.len() as int) =~= tail + res);
        assert(reaches(
            limit,
            level + 1,
            next_queue(limit, level, head),
            visited + pending_keys(adm),
            tail + res,
            end_level + 1,
            next_queue(limit, end_level, res),
        ));
    }
}

/// A walk that has finished whole levels and admits nothing more is over.
pub proof fn lemma_reaches_end(
    limit: Option<usize>,
    level: nat,
    queue: Seq<PendingView>,
    visited: Seq<Seq<char>>,
    done: Seq<AuditContextView>,
    end_level: nat,
    end_queue: Seq<PendingView>,
)
    requires
        reaches(limit, level, queue, visited, done, end_level, end_queue),
        admitted(end_queue, visited + keys_of(done)).len() == 0,
    ensures
        walk_from(limit, level, queue, visited, done),
    decreases done.len(),
{
    let adm = admitted(queue, visited);
    if done.len() == 0 {
        assert(visited + keys_of(done) =~= visited);
    } else {
        let head = done.subrange(0, adm.len() as int);
        let tail = done.subrange(adm.len() as int, done.len() as int);
        lemma_answers_keys(adm, level, head);
        assert(done =~= head + tail);
        assert(keys_of(done) =~= keys_of(head) + keys_of(tail));
        assert((visited + pending_keys(adm)) + keys_of(tail) =~= visited + keys_of(done));
        lemma_reaches_end(
            limit,
            level + 1,
            next_queue(limit, level, head),
            visited + pending_keys(adm),
            tail,
            end_level,
            end_queue,
        );
    }
}

/// Every waiting child names its parent among the level it comes from.
pub proof fn lemma_offspring_parents(res: Seq<AuditContextView>)
    ensures
        forall|k: int|
            0 <= k < offspring(res).len() ==> exists|p: int|
                0 <= p < res.len() && (#[trigger] offspring(res)[k]).parent == Some(
                    res[p].action.raw,
                ),
    decreases res.len(),
{
    if res.len() > 0 {
        let head = res.drop_last();
        lemma_offspring_parents(head);
        assert forall|k: int| 0 <= k < offspring(res).len() implies exists|p: int|
            0 <= p < res.len() && (#[trigger] offspring(res)[k]).parent == Some(
                res[p].action.raw,
            ) by {
            if k < offspring(head).len() {
                assert(offspring(res)[k] == offspring(head)[k]);
                let p = choose|p: int|
                    0 <= p < head.len() && offspring(head)[k].parent == Some(
                        head[p].action.raw,
                    );
                assert(res[p] == head[p]);
            } else {
                let p = res.len() - 1;
                assert(offspring(res)[k] == children_of(res.last())[k - offspring(head).len()]);
                assert(0 <= p < res.len() && offspring(res)[k].parent == Some(
                    res[p].action.raw,
                ));
            }
        }
    }
}

/// Taking back a processed level keeps the invariant.
pub proof fn lemma_complete(
    limit: Option<usize>,
    start: Seq<PendingView>,
    level: nat,
    awaited: Seq<PendingView>,
    visited: Seq<Seq<char>>,
    d0: Seq<AuditContextView>,
    res: Seq<AuditContextView>,
)
    requires
        inv(limit, start, level, Seq::empty(), awaited, visited, d0),
        answers(awaited, level, res),
        res.len() > 0,
    ensures
        inv(
            limit,
            start,
            level + 1,
            if expandable(limit, level) {
                offspring(res)
            } else {
                Seq::empty()
            },
            Seq::empty(),
            visited,
            d0 + res,
        ),
{
    let d1 = d0 + res;
    let none = Seq::<PendingView>::empty();
    let q1 = if expandable(limit, level) {
        offspring(res)
    } else {
        none
    };
    assert(pending_keys(none) =~= Seq::<Seq<char>>::empty());
    assert(keys_of(res) =~= pending_keys(awaited)) by {
        assert forall|i: int| 0 <= i < res.len() implies keys_of(res)[i] == pending_keys(
            awaited,
        )[i] by {
            assert(same_inputs(res[i], admission(awaited[i], level, i)));
        }
    }
    assert(keys_of(d1) =~= keys_of(d0) + keys_of(res));
    assert(visited =~= keys_of(d1) + pending_keys(none));
    assert forall|i: int| 0 <= i < d1.len() implies (if i < d0.len() {
        (#[trigger] d1[i]) == d0[i]
    } else {
        d1[i] == res[i - d0.len()] && d1[i].depth == level
    }) by {
        if i >= d0.len() {
            assert(same_inputs(
                res[i - d0.len()],
                admission(awaited[i - d0.len()], level, i - d0.len()),
            ));
        }
    }
    assert forall|i: int| 0 <= i < d1.len() implies parent_ok(
        d1,
        (#[trigger] d1[i]).parent,
        d1[i].depth,
        i,
    ) by {
        if i < d0.len() {
            assert(d1[i] == d0[i]);
            assert(parent_ok(d0, d0[i].parent, d0[i].depth, i));
            if d0[i].depth != 0 {
                let j = choose|j: int|
                    0 <= j < i && j < d0.len() && (#[trigger] d0[j]).depth + 1 == d0[i].depth
                        && d0[i].parent == Some(d0[j].action.raw);
                assert(d1[j] == d0[j]);
            }
        } else {
            let k = i - d0.len();
            assert(d1[i] == res[k]);
            assert(same_inputs(res[k], admission(awaited[k], level, k)));
            assert(parent_ok(d0, awaited[k].parent, level, d0.len() as int));
            if level != 0 {
                let j = choose|j: int|
                    0 <= j < d0.len() && j < d0.len() && (#[trigger] d0[j]).depth + 1 == level
                        && awaited[k].parent == Some(d0[j].action.raw);
                assert(d1[j] == d0[j]);
            }
        }
    }
    lemma_offspring_parents(res);
    assert forall|i: int| 0 <= i < q1.len() implies parent_ok(
        d1,
        (#[trigger] q1[i]).parent,
        level + 1,
        d1.len() as int,
    ) by {
        let p = choose|p: int| 0 <= p < res.len() && q1[i].parent == Some(res[p].action.raw);
        let j = d0.len() + p;
        assert(d1[j] == res[p]);
        assert(d1[j].depth + 1 == level + 1);
    }
    assert(by_depth(d1)) by {
        assert forall|i: int, j: int| 0 <= i < j < d1.len() implies d1[i].depth
            <= d1[j].depth by {
            if j < d0.len() {
                assert(d1[i] == d0[i] && d1[j] == d0[j]);
            } else if i < d0.len() {
                assert(d1[i] == d0[i]);
                assert(d0[i].depth < level);
            }
        }
    }
    assert(roots_first(start, d1)) by {
        let adm = admitted(start, Seq::empty());
        if level == 0 {
            if d0.len() > 0 {
                assert(d0[0].depth < level);
            }
            assert(d0.len() == 0);
            assert(awaited == adm);
            assert forall|i: int| 0 <= i < adm.len() implies same_inputs(
                #[trigger] d1[i],
                admission(adm[i], 0, i),
            ) by {
                assert(d1[i] == res[i]);
            }
        } else {
            assert forall|i: int| 0 <= i < adm.len() implies same_inputs(
                #[trigger] d1[i],
                admission(adm[i], 0, i),
            ) by {
                assert(d1[i] == d0[i]);
            }
            assert forall|i: int| adm.len() <= i < d1.len() implies (#[trigger] d1[i]).depth
                >= 1 by {
                if i < d0.len() {
                    assert(d1[i] == d0[i]);
                }
            }
        }
    }
    assert(children_covered(limit, pending_keys(q1), visited, d1)) by {
        assert forall|i: int, c: int|
            0 <= i < d1.len() && 0 <= c < d1[i].children.len() && expandable(
                limit,
                d1[i].depth,
            ) implies visited.contains((#[trigger] d1[i].children[c]).raw) || pending_keys(
            q1,
        ).contains(d1[i].children[c].raw) by {
            if i < d0.len() {
                assert(d1[i] == d0[i]);
                let key = d0[i].children[c].raw;
                assert(visited.contains(key) || pending_keys(none).contains(key));
            } else {
                lemma_offspring_holds(res, i - d0.len(), c);
            }
        }
    }
}

/// The children of a level, lined up for the next: parent by parent, then
/// child by child, each with its parent's `raw`.
pub fn line_up(results: &Vec<AuditContext>) -> (queue: VecDeque<Pending>)
    ensures
        pending_views(queue@) == offspring(context_views(results@)),
{
    let ghost res = context_views(results@);
    let mut queue: VecDeque<Pending> = VecDeque::new();
    let mut r: usize = 0;
    proof {
        assert(res.subrange(0, 0) =~= Seq::<AuditContextView>::empty());
        assert(pending_views(queue@) =~= Seq::<PendingView>::empty());
    }
    while r < results.len()
        invariant
            r <= results@.len(),
            res == context_views(results@),
            pending_views(queue@) == offspring(res.subrange(0, r as int)),
        decreases results@.len() - r,
    {
        let ghost base = pending_views(queue@);
        let ghost kids = children_of(res[r as int]);
        let mut c: usize = 0;
        proof {
            assert(res[r as int] == results@[r as int]@);
            assert(base + kids.subrange(0, 0) =~= base);
        }
        while c < results[r].children.len()
            invariant
                r < results@.len(),
                c <= results@[r as int].children@.len(),
                res == context_views(results@),
                kids == children_of(res[r as int]),
                kids.len() == results@[r as int].children@.len(),
                pending_views(queue@) == base + kids.subrange(0, c as int),
            decreases results@[r as int].children@.len() - c,
        {
            let ghost before = pending_views(queue@);
            let waiting = Pending {
                action: results[r].children[c].duplicate(),
                parent: Some(results[r].action.raw.clone()),
            };
            proof {
                assert(res[r as int] == results@[r as int]@);
                assert(waiting@ == kids[c as int]);
            }
            queue.push_back(waiting);
            proof {
                assert(pending_views(queue@) =~= before.push(kids[c as int]));
                assert(kids.subrange(0, c + 1) =~= kids.subrange(0, c as int).push(
                    kids[c as int],
                ));
                assert(pending_views(queue@) =~= base + kids.subrange(0, c + 1));
            }
            c = c + 1;
        }
        proof {
            assert(kids.subrange(0, kids.len() as int) =~= kids);
            let upto = res.subrange(0, r + 1);
            assert(upto.drop_last() =~= res.subrange(0, r as int));
            assert(upto.last() == res[r as int]);
        }
        r = r + 1;
    }
    proof {
        assert(res.subrange(0, res.len() as int) =~= res);
    }
    queue
}

/// The state of a walk between two levels.
pub struct WalkState {
    max_depth: Option<usize>,
    start: Ghost<Seq<PendingView>>,
    asked: Ghost<Seq<PendingView>>,
    level: usize,
    queue: VecDeque<Pending>,
    awaited: Vec<Pending>,
    visited: Vec<String>,
    done: Vec<AuditContext>,
}

impl WalkState {
    /// The depth limit.
    pub closed spec fn limit(&self) -> Option<usize> {
        self.max_depth
    }

    /// Depth of the nodes that wait or are being processed.
    pub closed spec fn level(&self) -> nat {
        self.level as nat
    }

    /// The nodes that wait for the next level, in order.
    pub closed spec fn queue(&self) -> Seq<PendingView> {
        pending_views(self.queue@)
    }

    /// The nodes handed out and not yet taken back, in order.
    pub closed spec fn awaited(&self) -> Seq<PendingView> {
        pending_views(self.awaited@)
    }

    /// The finished nodes, in the order in which they were processed.
    pub closed spec fn done(&self) -> Seq<AuditContextView> {
        context_views(self.done@)
    }

    /// The `raw` of every node admitted so far.
    pub closed spec fn visited(&self) -> Seq<Seq<char>> {
        texts(self.visited@)
    }

    /// The queue that the walk started with: the roots, without parents.
    pub closed spec fn start(&self) -> Seq<PendingView> {
        self.start@
    }

    /// Whether the finished nodes are whole levels of the walk from the
    /// start, and the current level is the queue that they left: it waits
    /// still, or its admitted nodes are handed out.
    pub closed spec fn traced(&self) -> bool {
        &&& reaches(
            self.limit(),
            0,
            self.start(),
            Seq::empty(),
            self.done(),
            self.level(),
            self.asked@,
        )
        &&& (self.awaited().len() == 0 && self.queue() == self.asked@) || (self.queue().len() == 0
            && self.awaited() == admitted(self.asked@, keys_of(self.done())))
    }

    /// What holds of every state of a walk.
    pub closed spec fn wf(&self) -> bool {
        &&& inv(
            self.limit(),
            self.start(),
            self.level(),
            self.queue(),
            self.awaited(),
            self.visited(),
            self.done(),
        )
        &&& self.traced()
    }

    /// `results` are the nodes last handed out, processed: as many, in the
    /// same order, each with what the walker fixed for it.
    pub open spec fn expects(&self, results: Seq<AuditContextView>) -> bool {
        answers(self.awaited(), self.level(), results)
    }

    /// The state before the first level: the roots wait, in input order.
    pub fn new(roots: Vec<ActionRef>, max_depth: Option<usize>) -> (s: WalkState)
        ensures
            s.wf(),
            s.limit() == max_depth,
            s.level() == 0,
            s.start() == as_roots(ref_views(roots@)),
            s.queue() == as_roots(ref_views(roots@)),
            s.awaited().len() == 0,
            s.done().len() == 0,
            s.visited().len() == 0,
    {
        let mut queue: VecDeque<Pending> = VecDeque::new();
        let mut i: usize = 0;
        while i < roots.len()
            invariant
                i <= roots@.len(),
                queue@.len() == i,
                forall|j: int|
                    0 <= j < i ==> (#[trigger] queue@[j])@ == (PendingView {
                        action: roots@[j]@,
                        parent: None,
                    }),
            decreases roots@.len() - i,
        {
            queue.push_back(Pending { action: roots[i].duplicate(), parent: None });
            i = i + 1;
        }
        let s = WalkState {
            max_depth,
            start: Ghost(as_roots(ref_views(roots@))),
            asked: Ghost(as_roots(ref_views(roots@))),
            level: 0,
            queue,
            awaited: Vec::new(),
            visited: Vec::new(),
            done: Vec::new(),
        };
        proof {
            assert(s.queue() =~= as_roots(ref_views(roots@)));
            assert(s.visited() =~= keys_of(s.done()) + pending_keys(s.awaited()));
            assert(s.done() =~= Seq::<AuditContextView>::empty());
        }
        s
    }

    /// Whether nothing waits and nothing is being processed: the walk is over.
    pub fn is_finished(&self) -> (r: bool)
        ensures
            r == (self.queue().len() == 0 && self.awaited().len() == 0),
    {
        self.queue.len() == 0 && self.awaited.len() == 0
    }

    /// Hands out the next level. In queue order, a waiting node whose
    /// `raw` was visited before is dropped; any other is admitted: it gets a
    /// fresh context at the current depth, with its parent and its position
    /// in the level, and its `raw` counts as visited.
    pub fn next_level(&mut self) -> (batch: Vec<AuditContext>)
        requires
            old(self).wf(),
        ensures
            final(self).wf(),
            final(self).limit() == old(self).limit(),
            final(self).start() == old(self).start(),
            final(self).level() == old(self).level(),
            final(self).done() == old(self).done(),
            final(self).queue().len() == 0,
            final(self).awaited() == old(self).awaited() + admitted(
                old(self).queue(),
                old(self).visited(),
            ),
            final(self).visited() == old(self).visited() + pending_keys(
                admitted(old(self).queue(), old(self).visited()),
            ),
            batch@.len() == admitted(old(self).queue(), old(self).visited()).len(),
            forall|i: int|
                0 <= i < batch@.len() ==> (#[trigger] batch@[i])@ == admission(
                    admitted(old(self).queue(), old(self).visited())[i],
                    old(self).level(),
                    old(self).awaited().len() + i,
                ),
    {
        let mut queue: VecDeque<Pending> = VecDeque::new();
        std::mem::swap(&mut self.queue, &mut queue);
        let ghost q = pending_views(queue@);
        let ghost v0 = texts(self.visited@);
        let ghost a0 = pending_views(self.awaited@);
        let ghost lvl = self.level as nat;
        let mut batch: Vec<AuditContext> = Vec::new();
        let mut i: usize = 0;
        proof {
            lemma_admit(
                old(self).limit(),
                old(self).start(),
                old(self).level(),
                old(self).queue(),
                old(self).awaited(),
                old(self).visited(),
                old(self).done(),
            );
            assert(q.subrange(0, q.len() as int) =~= q);
            assert(a0 + Seq::<PendingView>::empty() =~= a0);
            assert(pending_keys(Seq::<PendingView>::empty()) =~= Seq::<Seq<char>>::empty());
            assert(v0 + Seq::<Seq<char>>::empty() =~= v0);
            assert(Seq::<PendingView>::empty() + admitted(q, v0) =~= admitted(q, v0));
        }
        let ghost mut fresh: Seq<PendingView> = Seq::empty();
        while i < queue.len()
            invariant
                i <= queue@.len(),
                q == pending_views(queue@),
                self.done == old(self).done,
                self.start == old(self).start,
                self.asked == old(self).asked,
                lvl == self.level as nat,
                self.level == old(self).level,
                self.max_depth == old(self).max_depth,
                self.queue@.len() == 0,
                pending_views(self.awaited@) == a0 + fresh,
                texts(self.visited@) == v0 + pending_keys(fresh),
                admitted(q, v0) == fresh + admitted(
                    q.subrange(i as int, q.len() as int),
                    texts(self.visited@),
                ),
                batch@.len() == fresh.len(),
                forall|j: int|
                    0 <= j < batch@.len() ==> (#[trigger] batch@[j])@ == admission(
                        fresh[j],
                        lvl,
                        a0.len() + j,
                    ),
            decreases queue@.len() - i,
        {
            let ghost rest = q.subrange(i as int, q.len() as int);
            let ghost seen = texts(self.visited@);
            proof {
                assert(rest[0] == queue@[i as int]@);
                assert(rest.drop_first() =~= q.subrange(i + 1, q.len() as int));
            }
            if !holds_text(&self.visited, queue[i].action.raw.as_str()) {
                let index: usize = self.awaited.len();
                let ctx = AuditContext::new(
                    queue[i].action.duplicate(),
                    self.level,
                    copy_opt(&queue[i].parent),
                    Some(index),
                );
                let waiting = Pending {
                    action: queue[i].action.duplicate(),
                    parent: copy_opt(&queue[i].parent),
                };
                let ghost prev = pending_views(self.awaited@);
                let ghost prev_batch = batch@;
                assert(waiting@ == rest[0]);
                assert(prev.len() == self.awaited@.len());
                assert((a0 + fresh).len() == a0.len() + fresh.len());
                assert(index == a0.len() + fresh.len());
                assert(ctx@ == admission(rest[0], lvl, (a0.len() + fresh.len()) as int));
                batch.push(ctx);
                self.visited.push(queue[i].action.raw.clone());
                self.awaited.push(waiting);
                proof {
                    let ghost grown = fresh.push(rest[0]);
                    assert(pending_views(self.awaited@) =~= prev.push(rest[0]));
                    assert(pending_views(self.awaited@) =~= a0 + grown);
                    assert forall|j: int| 0 <= j < batch@.len() implies (#[trigger] batch@[j])@
                        == admission(grown[j], lvl, a0.len() + j) by {
                        if j < prev_batch.len() {
                            assert(batch@[j] == prev_batch[j]);
                        }
                    }
                    assert(texts(self.visited@) =~= seen.push(rest[0].action.raw));
                    assert(texts(self.visited@) =~= v0 + pending_keys(grown));
                    assert(grown + admitted(rest.drop_first(), texts(self.visited@)) =~= fresh + (
                    seq![rest[0]] + admitted(rest.drop_first(), texts(self.visited@))));
                    fresh = grown;
                }
            }
            i = i + 1;
        }
        proof {
            assert(q.subrange(q.len() as int, q.len() as int) =~= Seq::<PendingView>::empty());
            assert(fresh + Seq::<PendingView>::empty() =~= fresh);
            assert(self.queue() =~= Seq::<PendingView>::empty());
            if a0.len() == 0 && q == old(self).asked@ {
                assert(pending_keys(a0) =~= Seq::<Seq<char>>::empty());
                assert(v0 =~= keys_of(self.done()));
                assert(self.awaited() =~= admitted(q, v0));
            } else {
                assert(q =~= Seq::<PendingView>::empty());
                assert(self.awaited() =~= a0);
            }
        }
        batch
    }

    /// Whether `results` can be taken back: they are the nodes last handed
    /// out, with what the walker fixed for each.
    pub fn fits(&self, results: &Vec<AuditContext>) -> (r: bool)
        ensures
            r == self.expects(context_views(results@)),
    {
        if results.len() != self.awaited.len() {
            return false;
        }
        let mut i: usize = 0;
        while i < results.len()
            invariant
                i <= results@.len(),
                results@.len() == self.awaited@.len(),
                forall|j: int|
                    0 <= j < i ==> same_inputs(
                        #[trigger] context_views(results@)[j],
                        admission(self.awaited()[j], self.level(), j),
                    ),
            decreases results@.len() - i,
        {
            let c = &results[i];
            let w = &self.awaited[i];
            let ok = c.action.same_as(&w.action) && c.depth == self.level && same_opt(
                &c.parent,
                &w.parent,
            ) && match c.index {
                Some(k) => k == i,
                None => false,
            };
            proof {
                assert(context_views(results@)[i as int] == c@);
                assert(self.awaited()[i as int] == w@);
            }
            if !ok {
                return false;
            }
            i = i + 1;
        }
        true
    }

    /// Takes back a processed level. The nodes join the finished ones in
    /// their order. Where the depth limit allows, their children line up
    /// for the next level: parent by parent, then child by child, each
    /// with its parent's `raw`. Under the limit the children are dropped.
    pub fn complete_level(&mut self, results: Vec<AuditContext>)
        requires
            old(self).wf(),
            old(self).expects(context_views(results@)),
        ensures
            final(self).wf(),
            final(self).limit() == old(self).limit(),
            final(self).start() == old(self).start(),
            final(self).visited() == old(self).visited(),
            final(self).done() == old(self).done() + context_views(results@),
            final(self).awaited().len() == 0,
            results@.len() == 0 ==> final(self).level() == old(self).level() && final(self).queue() == old(self).queue(),
            results@.len() > 0 ==> final(self).level() == old(self).level() + 1 && final(self).queue() == (if expandable(old(self).limit(), old(self).level()) {
                offspring(context_views(results@))
            } else {
                Seq::empty()
            }),
    {
        let ghost res = context_views(results@);
        let ghost d0 = self.done();
        if results.len() == 0 {
            proof {
                assert(self.done() + res =~= self.done());
            }
            return ;
        }
        proof {
            assert(self.queue() =~= Seq::<PendingView>::empty());
            assert(keys_of(d0) =~= Seq::<Seq<char>>::empty() + keys_of(d0));
            lemma_reaches_more(
                self.limit(),
                0,
                self.start(),
                Seq::empty(),
                d0,
                self.level(),
                self.asked@,
                res,
            );
            lemma_complete(
                self.limit(),
                self.start(),
                self.level(),
                self.awaited(),
                self.visited(),
                self.done(),
                res,
            );
        }
        let expand = match self.max_depth {
            Some(max) => self.level < max,
            None => true,
        };
        if expand {
            self.queue = line_up(&results);
        }
        self.asked = Ghost(pending_views(self.queue@));
        let mut moved = results;
        self.done.append(&mut moved);
        self.awaited.clear();
        let total: usize = self.done.len();
        proof {
            assert(context_views(self.done@) =~= d0 + res);
            assert(self.level + 1 <= total);
            assert(self.awaited() =~= Seq::<PendingView>::empty());
        }
        self.level = self.level + 1;
    }

    /// The result tree of the nodes finished so far: the nodes without a
    /// parent are the roots, in the order in which they were processed, and
    /// under each node stand the nodes that name it as their parent.
    pub fn into_tree(self) -> (forest: Vec<AuditNode>)
        ensures
            node_views(forest@) == forest_of(self.done()),
    {
        build_tree(&self.done)
    }
}

/// The context that a finished node started from: what the walker fixed
/// for it, and nothing found yet.
pub open spec fn fresh_of(c: AuditContextView) -> AuditContextView {
    fresh_context(c.action, c.depth, c.parent, c.index)
}

/// Whether every finished node is what a run of `stages`, each once and
/// in order, made of its fresh context.
pub open spec fn all_ran(stages: Seq<Box<dyn Stage>>, done: Seq<AuditContextView>) -> bool {
    forall|i: int| 0 <= i < done.len() ==> ran(stages, fresh_of(#[trigger] done[i]), done[i])
}

/// Drives the pipeline over the action graph, level by level.
pub struct Walker {
    pipeline: Pipeline,
    max_depth: Option<usize>,
    max_concurrency: usize,
}

impl Walker {
    /// The depth limit: `None` for no limit, `Some(0)` for the roots alone.
    pub closed spec fn limit(&self) -> Option<usize> {
        self.max_depth
    }

    /// The stages of the walker's pipeline, in their order.
    pub closed spec fn stages(&self) -> Seq<Box<dyn Stage>> {
        self.pipeline.stages()
    }

    /// A walker over `pipeline`.
    pub fn new(pipeline: Pipeline, max_depth: Option<usize>, max_concurrency: usize) -> (w: Walker)
        ensures
            w.limit() == max_depth,
            w.stages() == pipeline.stages(),
            w.budget() == max_concurrency,
    {
        Walker { pipeline, max_depth, max_concurrency }
    }

    /// The depth limit.
    pub fn max_depth(&self) -> (d: Option<usize>)
        ensures
            d == self.limit(),
    {
        self.max_depth
    }

    /// The concurrency budget as a mathematical value.
    pub closed spec fn budget(&self) -> usize {
        self.max_concurrency
    }

    /// How many nodes of a level may be processed at once.
    pub fn max_concurrency(&self) -> (n: usize)
        ensures
            n == self.budget(),
    {
        self.max_concurrency
    }

    /// The pipeline that runs over each node.
    pub fn pipeline(&self) -> (p: &Pipeline)
        ensures
            p.stages() == self.stages(),
    {
        &self.pipeline
    }

    /// Runs the pipeline over the nodes of one level, in their order.
    pub fn process_level(&self, batch: Vec<AuditContext>) -> (out: Vec<AuditContext>)
        ensures
            out@.len() == batch@.len(),
            forall|j: int| 0 <= j < out@.len() ==> same_inputs((#[trigger] out@[j])@, batch@[j]@),
            forall|j: int|
                0 <= j < out@.len() ==> ran(self.stages(), batch@[j]@, (#[trigger] out@[j])@),
            self.stages().len() == 0 ==> context_views(out@) == context_views(batch@),
    {
        let mut turned: Vec<AuditContext> = Vec::new();
        let mut left = batch;
        while left.len() > 0
            invariant
                left@.len() + turned@.len() == batch@.len(),
                left@ == batch@.subrange(0, left@.len() as int),
                forall|j: int|
                    0 <= j < turned@.len() ==> (#[trigger] turned@[j]) == batch@[batch@.len() - 1
                        - j],
            decreases left@.len(),
        {
            let ghost before = left@;
            match left.pop() {
                Some(ctx) => {
                    turned.push(ctx);
                    assert(left@ =~= batch@.subrange(0, left@.len() as int));
                },
                None => {},
            }
        }
        let mut out: Vec<AuditContext> = Vec::new();
        while turned.len() > 0
            invariant
                out@.len() + turned@.len() == batch@.len(),
                forall|j: int|
                    0 <= j < turned@.len() ==> (#[trigger] turned@[j]) == batch@[batch@.len() - 1
                        - j],
                forall|j: int|
                    0 <= j < out@.len() ==> same_inputs((#[trigger] out@[j])@, batch@[j]@),
                forall|j: int|
                    0 <= j < out@.len() ==> ran(
                        self.pipeline.stages(),
                        batch@[j]@,
                        (#[trigger] out@[j])@,
                    ),
                self.pipeline.len() == 0 ==> forall|j: int|
                    0 <= j < out@.len() ==> (#[trigger] out@[j])@ == batch@[j]@,
            decreases turned@.len(),
        {
            let ghost at = out@.len() as int;
            let ghost prev = out@;
            match turned.pop() {
                Some(ctx) => {
                    let mut ctx = ctx;
                    assert(ctx == batch@[at]);
                    self.pipeline.run_one(&mut ctx);
                    out.push(ctx);
                    assert forall|j: int| 0 <= j < out@.len() implies same_inputs(
                        (#[trigger] out@[j])@,
                        batch@[j]@,
                    ) && ran(self.pipeline.stages(), batch@[j]@, out@[j]@) by {
                        if j < at {
                            assert(out@[j] == prev[j]);
                        }
                    }
                    assert(self.pipeline.len() == 0 ==> forall|j: int|
                        0 <= j < out@.len() ==> (#[trigger] out@[j])@ == batch@[j]@) by {
                        if self.pipeline.len() == 0 {
                            assert forall|j: int| 0 <= j < out@.len() implies (
                            #[trigger] out@[j])@ == batch@[j]@ by {
                                if j < at {
                                    assert(out@[j] == prev[j]);
                                }
                            }
                        }
                    }
                },
                None => {},
            }
        }
        proof {
            if self.pipeline.len() == 0 {
                assert(context_views(out@) =~= context_views(batch@));
            }
        }
        out
    }

    /// Walks the graph from `roots`, breadth first, one node after the
    /// other, and returns the result tree: the forest of the finished
    /// nodes. The finished nodes are, level by level, the admitted nodes
    /// of the queue that the level before left, each the outcome of one
    /// run of every stage on its fresh context. Whatever the stages find,
    /// every node stands under the first finished node that lists it, no
    /// `raw` stands twice in the tree and no branch is longer than the
    /// limit allows; with no stage at all the tree is the admitted roots,
    /// bare.
    pub fn walk(&self, roots: Vec<ActionRef>) -> (forest: Vec<AuditNode>)
        ensures
            exists|done: Seq<AuditContextView>|
                walked(self.limit(), ref_views(roots@), done) && crate::lineage::first_parents(
                    done,
                ) && all_ran(self.stages(), done) && node_views(forest@) == #[trigger] forest_of(
                    done,
                ),
            distinct(forest_keys(node_views(forest@))),
            self.limit() matches Some(max) ==> forest_height(node_views(forest@)) <= max + 1,
            node_views(forest@).len() == admitted(as_roots(ref_views(roots@)), Seq::empty()).len(),
            forall|i: int|
                0 <= i < forest@.len() ==> (#[trigger] node_views(forest@)[i]).entry.action
                    == admitted(as_roots(ref_views(roots@)), Seq::empty())[i].action,
            self.limit() == Some(0usize) ==> forall|i: int|
                0 <= i < forest@.len() ==> (#[trigger] node_views(forest@)[i]).children.len() == 0,
            self.stages().len() == 0 ==> node_views(forest@) == bare_forest(ref_views(roots@)),
    {
        let mut state = WalkState::new(roots, self.max_depth);
        let ghost start = as_roots(ref_views(roots@));
        let ghost adm = admitted(start, Seq::empty());
        loop
            invariant
                state.wf(),
                state.limit() == self.limit(),
                state.start() == start,
                start == as_roots(ref_views(roots@)),
                adm == admitted(start, Seq::empty()),
                state.awaited().len() == 0,
                all_ran(self.stages(), state.done()),
                self.stages().len() == 0 ==> (if state.level() == 0 {
                    state.queue() == start
                } else {
                    state.queue().len() == 0 && state.done() == Seq::new(
                        adm.len(),
                        |i: int| admission(adm[i], 0, i),
                    )
                }),
            ensures
                state.wf(),
                walked(self.limit(), ref_views(roots@), state.done()),
                all_ran(self.stages(), state.done()),
                self.stages().len() == 0 ==> state.done() == Seq::new(
                    adm.len(),
                    |i: int| admission(adm[i], 0, i),
                ),
            decreases usize::MAX - state.done@.len(),
        {
            let ghost before = state;
            proof {
                if state.level() == 0 {
                    if state.done().len() > 0 {
                        assert(state.done()[0].depth < state.level());
                    }
                    assert(state.awaited() =~= Seq::<PendingView>::empty());
                    assert(pending_keys(state.awaited()) =~= Seq::<Seq<char>>::empty());
                    assert(keys_of(state.done()) =~= Seq::<Seq<char>>::empty());
                    assert(state.visited() =~= Seq::<Seq<char>>::empty());
                }
            }
            let batch = state.next_level();
            if batch.len() == 0 {
                proof {
                    lemma_walked(state);
                    if self.stages().len() == 0 && state.level() == 0 {
                        assert(before.awaited() + adm =~= adm);
                        assert(adm.len() == 0);
                        assert(state.done() =~= Seq::new(
                            adm.len(),
                            |i: int| admission(adm[i], 0, i),
                        ));
                    }
                }
                break ;
            }
            let processed = self.process_level(batch);
            proof {
                assert(before.awaited() + admitted(before.queue(), before.visited())
                    =~= admitted(before.queue(), before.visited()));
                assert(state.expects(context_views(processed@)));
                assert forall|i: int| 0 <= i < processed@.len() implies ran(
                    self.stages(),
                    fresh_of(#[trigger] context_views(processed@)[i]),
                    context_views(processed@)[i],
                ) by {
                    assert(ran(self.stages(), batch@[i]@, processed@[i]@));
                    assert(same_inputs(processed@[i]@, batch@[i]@));
                    assert(fresh_of(processed@[i]@) == batch@[i]@);
                }
                if self.stages().len() == 0 {
                    assert(state.level() == 0);
                    let res = context_views(processed@);
                    assert(res =~= Seq::new(adm.len(), |i: int| admission(adm[i], 0, i))) by {
                        assert forall|i: int| 0 <= i < res.len() implies res[i] == admission(
                            adm[i],
                            0,
                            i,
                        ) by {
                            assert(context_views(batch@)[i] == batch@[i]@);
                        }
                    }
                    lemma_offspring_none(res);
                }
            }
            state.complete_level(processed);
            let total: usize = state.done.len();
            proof {
                assert(state.done() == before.done() + context_views(processed@));
                assert(state.done@.len() == state.done().len());
                assert(before.done@.len() == before.done().len());
                assert forall|i: int| 0 <= i < state.done().len() implies ran(
                    self.stages(),
                    fresh_of(#[trigger] state.done()[i]),
                    state.done()[i],
                ) by {
                    if i < before.done().len() {
                        assert(state.done()[i] == before.done()[i]);
                    } else {
                        assert(state.done()[i] == context_views(processed@)[i
                            - before.done().len()]);
                    }
                }
                if self.stages().len() == 0 {
                    assert(before.done() + context_views(processed@) =~= context_views(
                        processed@,
                    ));
                }
            }
        }
        proof {
            let done = state.done();
            let rv = ref_views(roots@);
            crate::lineage::walk_first_parent(self.limit(), rv, done);
            crate::forest::walk_visits_once(self.limit(), rv, done);
            crate::forest::walk_keeps_roots(self.limit(), rv, done);
            if self.limit() == Some(0usize) {
                crate::forest::walk_of_depth_zero(rv, done);
            }
            match self.limit() {
                Some(max) => {
                    crate::forest::walk_within_limit(max, rv, done);
                },
                None => {},
            }
            if self.stages().len() == 0 {
                assert forall|i: int| 0 <= i < done.len() implies (#[trigger] done[i]).depth
                    == 0 by {}
                crate::forest::forest_of_roots_only(done);
                assert(forest_of(done) =~= bare_forest(rv));
            }
        }
        state.into_tree()
    }
}

/// Nodes without children leave nothing for the next level.
pub proof fn lemma_offspring_none(res: Seq<AuditContextView>)
    requires
        forall|i: int| 0 <= i < res.len() ==> (#[trigger] res[i]).children.len() == 0,
    ensures
        offspring(res) == Seq::<PendingView>::empty(),
    decreases res.len(),
{
    if res.len() > 0 {
        lemma_offspring_none(res.drop_last());
        assert(children_of(res.last()) =~= Seq::<PendingView>::empty());
        assert(offspring(res) =~= Seq::<PendingView>::empty());
    }
}

/// A state in which nothing waits and nothing is awaited is the end of a
/// walk.
pub proof fn lemma_walked(state: WalkState)
    requires
        state.wf(),
        state.queue().len() == 0,
        state.awaited().len() == 0,
    ensures
        forall|roots: Seq<ActionRefView>|
            state.start() == as_roots(roots) ==> walked(state.limit(), roots, state.done()),
{
    let done = state.done();
    let none = Seq::<PendingView>::empty();
    assert(state.awaited() =~= none);
    assert(state.queue() =~= none);
    assert(pending_keys(none) =~= Seq::<Seq<char>>::empty());
    assert(state.visited() =~= keys_of(done));
    if state.level() == 0 {
        if done.len() > 0 {
            assert(done[0].depth < state.level());
        }
        assert(done.len() == 0);
        assert(state.start() =~= none);
        assert(admitted(none, Seq::empty()) =~= none);
    }
    assert(admitted(none, keys_of(done)) =~= none);
    assert(Seq::<Seq<char>>::empty() + keys_of(done) =~= keys_of(done));
    lemma_reaches_end(
        state.limit(),
        0,
        state.start(),
        Seq::empty(),
        done,
        state.level(),
        state.asked@,
    );
}

/// A text that is not in a list of distinct texts can be added to it.
pub proof fn lemma_distinct_push(s: Seq<Seq<char>>, k: Seq<char>)
    requires
        distinct(s),
        !s.contains(k),
    ensures
        distinct(s.push(k)),
{
    let t = s.push(k);
    assert forall|i: int, j: int| 0 <= i < j < t.len() implies t[i] != t[j] by {
        if j == s.len() {
            assert(s[i] == t[i]);
        }
    }
}

/// Breadth-first order: in every state of a walk the finished nodes lie
/// above the level that waits, in order of depth; so a node of one level
/// is handed out only when every node of the levels above is finished.
pub proof fn finished_above_level(state: WalkState)
    requires
        state.wf(),
    ensures
        by_depth(state.done()),
        forall|i: int|
            0 <= i < state.done().len() ==> (#[trigger] state.done()[i]).depth < state.level(),
        distinct(state.visited()),
        parents_linked(state.done()),
{
}

} // verus!
