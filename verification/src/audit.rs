//! From a workflow text to the roots of a walk, and from the options to
//! the stages that run.
use crate::action_ref::{key_less, same_key, ActionRef, ActionRefView};
use crate::context::ref_views;
use crate::depth::DepthLimit;
use crate::workflow::{
    parse_workflow_refs, third_party_of, workflow_refs_of, WorkflowError,
};
use crate::yaml::yaml_document;
use vstd::prelude::*;

verus! {

/// The first position at or behind `from` whose reference does not come
/// before `x`; the length where every reference does.
pub open spec fn place_of(list: Seq<ActionRefView>, x: ActionRefView, from: int) -> int
    decreases list.len() - from,
{
    if from < 0 || from >= list.len() {
        list.len() as int
    } else if key_less(list[from], x) {
        place_of(list, x, from + 1)
    } else {
        from
    }
}

/// `list` with `x` at its place, unless a reference with the same owner,
/// repository, path and ref stands there already.
pub open spec fn inserted(list: Seq<ActionRefView>, x: ActionRefView) -> Seq<ActionRefView> {
    let at = place_of(list, x, 0);
    if at < list.len() && same_key(list[at], x) {
        list
    } else {
        list.insert(at, x)
    }
}

/// The first `n` references, each put at its place in turn.
pub open spec fn ordered_upto(refs: Seq<ActionRefView>, n: nat) -> Seq<ActionRefView>
    decreases n,
{
    if n == 0 || n > refs.len() {
        Seq::empty()
    } else {
        inserted(ordered_upto(refs, (n - 1) as nat), refs[n - 1])
    }
}

/// The references in order of owner, repository, path and ref, each once:
/// of several that agree in all four, the first.
pub open spec fn ordered(refs: Seq<ActionRefView>) -> Seq<ActionRefView> {
    ordered_upto(refs, refs.len())
}

/// Whether the references stand in ascending order, no key twice.
pub open spec fn ascending_refs(list: Seq<ActionRefView>) -> bool {
    forall|i: int, j: int| 0 <= i < j < list.len() ==> key_less(list[i], list[j])
}

/// Whether `list` holds a reference with the key of `x`.
pub open spec fn holds_key(list: Seq<ActionRefView>, x: ActionRefView) -> bool {
    exists|i: int| 0 <= i < list.len() && same_key(#[trigger] list[i], x)
}

/// The place of `x` lies in the list, behind the references that come
/// before `x` and at the first one that does not.
pub proof fn lemma_place_of(list: Seq<ActionRefView>, x: ActionRefView, from: int)
    requires
        0 <= from <= list.len(),
    ensures
        from <= place_of(list, x, from) <= list.len(),
        forall|k: int| from <= k < place_of(list, x, from) ==> key_less(#[trigger] list[k], x),
        place_of(list, x, from) < list.len() ==> !key_less(list[place_of(list, x, from)], x),
    decreases list.len() - from,
{
    if from < list.len() && key_less(list[from], x) {
        lemma_place_of(list, x, from + 1);
    }
}

/// Putting a reference at its place keeps an ascending list ascending;
/// the list then holds the keys it held, and the key of the reference.
pub proof fn lemma_inserted(list: Seq<ActionRefView>, x: ActionRefView)
    requires
        ascending_refs(list),
    ensures
        ascending_refs(inserted(list, x)),
        forall|y: ActionRefView|
            #[trigger] holds_key(inserted(list, x), y) <==> (holds_key(list, y) || same_key(x, y)),
        forall|i: int|
            0 <= i < inserted(list, x).len() ==> (#[trigger] inserted(list, x)[i]) == x
                || list.contains(inserted(list, x)[i]),
{
    lemma_place_of(list, x, 0);
    let at = place_of(list, x, 0);
    let out = inserted(list, x);
    if at < list.len() && same_key(list[at], x) {
        assert forall|y: ActionRefView| #[trigger]
            holds_key(out, y) <==> (holds_key(list, y) || same_key(x, y)) by {
            if same_key(x, y) {
                assert(same_key(list[at], y));
            }
        }
        assert forall|i: int| 0 <= i < out.len() implies (#[trigger] out[i]) == x || list.contains(
            out[i],
        ) by {
            assert(list[i] == out[i]);
        }
    } else {
        assert forall|i: int, j: int| 0 <= i < j < out.len() implies key_less(out[i], out[j]) by {
            if j < at {
                assert(out[i] == list[i] && out[j] == list[j]);
            } else if j == at {
                assert(out[i] == list[i] && out[j] == x);
            } else if i < at {
                assert(out[i] == list[i] && out[j] == list[j - 1]);
            } else if i == at {
                // `x` comes before the reference that stood at its place, and so before all behind
                assert(out[i] == x && out[j] == list[j - 1]);
                crate::order::lemma_key_total(list[at], x);
                if j - 1 > at {
                    crate::order::lemma_key_transitive(x, list[at], list[j - 1]);
                }
            } else {
                assert(out[i] == list[i - 1] && out[j] == list[j - 1]);
            }
        }
        assert forall|y: ActionRefView| #[trigger]
            holds_key(out, y) <==> (holds_key(list, y) || same_key(x, y)) by {
            if holds_key(list, y) {
                let i = choose|i: int| 0 <= i < list.len() && same_key(#[trigger] list[i], y);
                if i < at {
                    assert(same_key(out[i], y));
                } else {
                    assert(same_key(out[i + 1], y));
                }
            }
            if same_key(x, y) {
                assert(same_key(out[at], y));
            }
            if holds_key(out, y) {
                let i = choose|i: int| 0 <= i < out.len() && same_key(#[trigger] out[i], y);
                if i < at {
                    assert(same_key(list[i], y));
                } else if i > at {
                    assert(same_key(list[i - 1], y));
                }
            }
        }
        assert forall|i: int| 0 <= i < out.len() implies (#[trigger] out[i]) == x || list.contains(
            out[i],
        ) by {
            if i < at {
                assert(list[i] == out[i]);
            } else if i > at {
                assert(list[i - 1] == out[i]);
            }
        }
    }
}

/// The first `n` references, ordered, stand in ascending order, no key
/// twice; they hold the keys of those `n` references, and each of them is
/// one of those.
pub proof fn ordered_refs_ascend(refs: Seq<ActionRefView>, n: nat)
    requires
        n <= refs.len(),
    ensures
        ascending_refs(ordered_upto(refs, n)),
        forall|y: ActionRefView|
            #[trigger] holds_key(ordered_upto(refs, n), y) <==> holds_key(refs.subrange(0, n as int), y),
        forall|i: int|
            0 <= i < ordered_upto(refs, n).len() ==> refs.subrange(0, n as int).contains(
                #[trigger] ordered_upto(refs, n)[i],
            ),
    decreases n,
{
    let out = ordered_upto(refs, n);
    let given = refs.subrange(0, n as int);
    if n == 0 {
        assert forall|y: ActionRefView| #[trigger] holds_key(out, y) <==> holds_key(given, y) by {}
    } else {
        let before = ordered_upto(refs, (n - 1) as nat);
        let earlier = refs.subrange(0, n - 1);
        let x = refs[n - 1];
        ordered_refs_ascend(refs, (n - 1) as nat);
        lemma_inserted(before, x);
        assert forall|y: ActionRefView| #[trigger] holds_key(out, y) <==> holds_key(given, y) by {
            if holds_key(earlier, y) {
                let i = choose|i: int| 0 <= i < earlier.len() && same_key(#[trigger] earlier[i], y);
                assert(same_key(given[i], y));
            }
            if same_key(x, y) {
                assert(same_key(given[n - 1], y));
            }
            if holds_key(given, y) {
                let i = choose|i: int| 0 <= i < given.len() && same_key(#[trigger] given[i], y);
                if i < n - 1 {
                    assert(same_key(earlier[i], y));
                }
            }
        }
        assert forall|i: int| 0 <= i < out.len() implies given.contains(#[trigger] out[i]) by {
            if out[i] == x {
                assert(given[n - 1] == x);
            } else {
                let k = choose|k: int| 0 <= k < before.len() && before[k] == out[i];
                assert(earlier.contains(before[k]));
                let m = choose|m: int| 0 <= m < earlier.len() && earlier[m] == out[i];
                assert(given[m] == out[i]);
            }
        }
    }
}

/// The roots of an audit stand in ascending order of owner, repository,
/// path and ref, no key twice; every reference given has its key among
/// them, and each of them is one of the references given.
pub proof fn ordered_is_ascending(refs: Seq<ActionRefView>)
    ensures
        ascending_refs(ordered(refs)),
        forall|y: ActionRefView| #[trigger] holds_key(ordered(refs), y) <==> holds_key(refs, y),
        forall|i: int| 0 <= i < ordered(refs).len() ==> refs.contains(#[trigger] ordered(refs)[i]),
{
    ordered_refs_ascend(refs, refs.len());
    assert(refs.subrange(0, refs.len() as int) =~= refs);
}

fn insert_ref(list: &mut Vec<ActionRef>, x: ActionRef)
    ensures
        ref_views(final(list)@) == inserted(ref_views(old(list)@), x@),
{
    let ghost lv = ref_views(list@);
    let mut i: usize = 0;
    while i < list.len() && list[i].order(&x) == -1
        invariant
            i <= list@.len(),
            list@ == old(list)@,
            lv == ref_views(list@),
            place_of(lv, x@, 0) == place_of(lv, x@, i as int),
        decreases list@.len() - i,
    {
        assert(lv[i as int] == list@[i as int]@);
        i = i + 1;
    }
    proof {
        if i < list@.len() {
            assert(lv[i as int] == list@[i as int]@);
        }
    }
    if i < list.len() && list[i].order(&x) == 0 {
        return ;
    }
    list.insert(i, x);
    assert(ref_views(list@) =~= lv.insert(i as int, x@));
}

/// Puts references in order of owner, repository, path and ref, and
/// leaves out a reference that agrees in all four with one before it.
pub fn order_refs(refs: Vec<ActionRef>) -> (out: Vec<ActionRef>)
    ensures
        ref_views(out@) == ordered(ref_views(refs@)),
{
    let ghost rv = ref_views(refs@);
    let mut out: Vec<ActionRef> = Vec::new();
    let mut i: usize = 0;
    assert(ref_views(out@) =~= ordered_upto(rv, 0));
    while i < refs.len()
        invariant
            i <= refs@.len(),
            rv == ref_views(refs@),
            ref_views(out@) == ordered_upto(rv, i as nat),
        decreases refs@.len() - i,
    {
        assert(rv[i as int] == refs@[i as int]@);
        insert_ref(&mut out, refs[i].duplicate());
        i = i + 1;
    }
    out
}

/// The roots of an audit: the third-party references of a workflow text,
/// in order of owner, repository, path and ref, each once. Local actions
/// and container images are left out, as is a `uses:` string that is no
/// reference. Fails where the text is no YAML or no workflow.
pub fn parse_actions(yaml: &str) -> (r: Result<Vec<ActionRef>, WorkflowError>)
    ensures
        match yaml_document(yaml@) {
            None => r matches Err(e) && e is Syntax,
            Some(t) => match workflow_refs_of(t) {
                None => r matches Err(e) && e is Shape,
                Some(refs) => r matches Ok(v) && ref_views(v@) == ordered(third_party_of(refs)),
            },
        },
{
    match parse_workflow_refs(yaml) {
        Ok(refs) => Ok(order_refs(refs)),
        Err(e) => Err(e),
    }
}

/// The stages that the library knows.
#[derive(Debug, Clone, Copy, PartialEq, Eq, Structural)]
pub enum StageKind {
    CompositeExpand,
    WorkflowExpand,
    RefResolve,
    Advisory,
    Scan,
    Dependency,
}

/// The stages of an audit, in the order in which they run: expansion
/// first, where the walk goes below the roots, so that children are
/// known by their `raw`; then resolution, where it is asked for; then
/// advisories; then scan and dependencies, where they are asked for and a
/// token is there, the scan first, because the dependency stage reads
/// what it found.
pub open spec fn stage_plan(expand: bool, resolve: bool, deps: bool, has_token: bool) -> Seq<
    StageKind,
> {
    (if expand {
        seq![StageKind::CompositeExpand, StageKind::WorkflowExpand]
    } else {
        Seq::empty()
    }) + (if resolve {
        seq![StageKind::RefResolve]
    } else {
        Seq::empty()
    }) + seq![StageKind::Advisory] + (if deps && has_token {
        seq![StageKind::Scan, StageKind::Dependency]
    } else {
        Seq::empty()
    })
}

/// Whether a walk under `depth` goes below its roots.
pub open spec fn expands(depth: DepthLimit) -> bool {
    depth != DepthLimit::Bounded(0)
}

/// Plans the stages of an audit.
pub fn plan_stages(depth: DepthLimit, resolve: bool, deps: bool, has_token: bool) -> (plan: Vec<
    StageKind,
>)
    ensures
        plan@ == stage_plan(expands(depth), resolve, deps, has_token),
{
    let mut plan: Vec<StageKind> = Vec::new();
    let expand = match depth {
        DepthLimit::Bounded(n) => n != 0,
        DepthLimit::Unlimited => true,
    };
    if expand {
        plan.push(StageKind::CompositeExpand);
        plan.push(StageKind::WorkflowExpand);
    }
    if resolve {
        plan.push(StageKind::RefResolve);
    }
    plan.push(StageKind::Advisory);
    if deps && has_token {
        plan.push(StageKind::Scan);
        plan.push(StageKind::Dependency);
    }
    assert(plan@ =~= stage_plan(expands(depth), resolve, deps, has_token));
    plan
}

} // verus!
