//! The order of texts and of references is a strict total order.
use crate::action_ref::{key_less, opt_less, same_key, ActionRefView};
use crate::text::{differ_at, lemma_order_at, text_less};
use vstd::prelude::*;

verus! {

/// Number of characters at the start in which `a` and `b` agree.
pub open spec fn common_prefix(a: Seq<char>, b: Seq<char>) -> int
    decreases a.len(),
{
    if a.len() == 0 || b.len() == 0 || a[0] != b[0] {
        0
    } else {
        1 + common_prefix(a.drop_first(), b.drop_first())
    }
}

/// The common prefix is a prefix of both, and behind it the two differ
/// or one of them ends.
pub proof fn lemma_common_prefix(a: Seq<char>, b: Seq<char>)
    ensures
        0 <= common_prefix(a, b) <= a.len(),
        common_prefix(a, b) <= b.len(),
        a.subrange(0, common_prefix(a, b)) == b.subrange(0, common_prefix(a, b)),
        common_prefix(a, b) < a.len() && common_prefix(a, b) < b.len() ==> a[common_prefix(a, b)]
            != b[common_prefix(a, b)],
    decreases a.len(),
{
    if a.len() == 0 || b.len() == 0 || a[0] != b[0] {
        assert(a.subrange(0, 0) =~= b.subrange(0, 0));
    } else {
        let x = a.drop_first();
        let y = b.drop_first();
        lemma_common_prefix(x, y);
        let k = common_prefix(x, y);
        assert(a.subrange(0, k + 1) =~= seq![a[0]] + x.subrange(0, k));
        assert(b.subrange(0, k + 1) =~= seq![b[0]] + y.subrange(0, k));
        if k < x.len() && k < y.len() {
            assert(a[k + 1] == x[k] && b[k + 1] == y[k]);
        }
    }
}

/// Of two texts exactly one holds: the first comes before the second,
/// they are equal, or the second comes before the first.
pub proof fn lemma_text_total(a: Seq<char>, b: Seq<char>)
    ensures
        text_less(a, b) || a == b || text_less(b, a),
        !(text_less(a, b) && a == b),
        !(text_less(a, b) && text_less(b, a)),
{
    lemma_common_prefix(a, b);
    let k = common_prefix(a, b);
    lemma_order_at(a, b, k);
    lemma_order_at(b, a, k);
}

/// The order of texts is transitive.
pub proof fn lemma_text_transitive(a: Seq<char>, b: Seq<char>, c: Seq<char>)
    requires
        text_less(a, b),
        text_less(b, c),
    ensures
        text_less(a, c),
{
    let i = choose|i: int| differ_at(a, b, i);
    let j = choose|j: int| differ_at(b, c, j);
    let k = if i <= j {
        i
    } else {
        j
    };
    assert(a.subrange(0, k) =~= c.subrange(0, k)) by {
        assert forall|n: int| 0 <= n < k implies a[n] == c[n] by {
            assert(a.subrange(0, i)[n] == b.subrange(0, i)[n]);
            assert(b.subrange(0, j)[n] == c.subrange(0, j)[n]);
        }
    }
    if i < j {
        assert(b.subrange(0, j)[i] == c.subrange(0, j)[i]);
    } else if j < i {
        assert(a.subrange(0, i)[j] == b.subrange(0, i)[j]);
    }
    assert(differ_at(a, c, k));
}

/// Of two optional texts exactly one holds: the first comes before the
/// second, they are equal, or the second comes before the first.
pub proof fn lemma_opt_total(a: Option<Seq<char>>, b: Option<Seq<char>>)
    ensures
        opt_less(a, b) || a == b || opt_less(b, a),
        !(opt_less(a, b) && a == b),
        !(opt_less(a, b) && opt_less(b, a)),
{
    match (a, b) {
        (Some(x), Some(y)) => {
            lemma_text_total(x, y);
        },
        _ => {},
    }
}

/// The order of optional texts is transitive.
pub proof fn lemma_opt_transitive(a: Option<Seq<char>>, b: Option<Seq<char>>, c: Option<Seq<char>>)
    requires
        opt_less(a, b),
        opt_less(b, c),
    ensures
        opt_less(a, c),
{
    match (a, b, c) {
        (Some(x), Some(y), Some(z)) => {
            lemma_text_transitive(x, y, z);
        },
        _ => {},
    }
}

/// Of two references exactly one holds: the first comes before the
/// second, they have the same key, or the second comes before the first.
pub proof fn lemma_key_total(a: ActionRefView, b: ActionRefView)
    ensures
        key_less(a, b) || same_key(a, b) || key_less(b, a),
        !(key_less(a, b) && same_key(a, b)),
        !(key_less(a, b) && key_less(b, a)),
{
    lemma_text_total(a.owner, b.owner);
    lemma_text_total(a.repo, b.repo);
    lemma_opt_total(a.path, b.path);
    lemma_text_total(a.git_ref, b.git_ref);
}

/// The order of references is transitive.
pub proof fn lemma_key_transitive(a: ActionRefView, b: ActionRefView, c: ActionRefView)
    requires
        key_less(a, b),
        key_less(b, c),
    ensures
        key_less(a, c),
{
    lemma_text_total(a.owner, b.owner);
    lemma_text_total(b.owner, c.owner);
    lemma_text_total(a.owner, c.owner);
    lemma_text_total(a.repo, b.repo);
    lemma_text_total(b.repo, c.repo);
    lemma_text_total(a.repo, c.repo);
    lemma_opt_total(a.path, b.path);
    lemma_opt_total(b.path, c.path);
    lemma_opt_total(a.path, c.path);
    if a.owner != b.owner && b.owner != c.owner {
        lemma_text_transitive(a.owner, b.owner, c.owner);
    } else if a.owner == b.owner && b.owner == c.owner {
        if a.repo != b.repo && b.repo != c.repo {
            lemma_text_transitive(a.repo, b.repo, c.repo);
        } else if a.repo == b.repo && b.repo == c.repo {
            if a.path != b.path && b.path != c.path {
                lemma_opt_transitive(a.path, b.path, c.path);
            } else if a.path == b.path && b.path == c.path {
                lemma_text_transitive(a.git_ref, b.git_ref, c.git_ref);
            }
        }
    }
}

} // verus!
