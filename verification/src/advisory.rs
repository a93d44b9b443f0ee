//! Vulnerability records, and the merge that collapses records which name
//! one another.
use crate::text::{copy_opt, copy_texts, holds_text, opt_text, same_opt, texts};
use vstd::prelude::*;

verus! {

/// A normalised vulnerability record.
#[derive(Debug)]
pub struct Advisory {
    /// Primary identifier.
    pub id: String,
    /// Other identifiers of the same vulnerability.
    pub aliases: Vec<String>,
    pub summary: String,
    /// Lower case; `unknown` where the source gives none.
    pub severity: String,
    pub url: String,
    /// Human-readable version constraint.
    pub affected_range: Option<String>,
    /// Name of the provider that reported it.
    pub source: String,
}

/// Mathematical value of an [`Advisory`].
pub struct AdvisoryView {
    pub id: Seq<char>,
    pub aliases: Seq<Seq<char>>,
    pub summary: Seq<char>,
    pub severity: Seq<char>,
    pub url: Seq<char>,
    pub affected_range: Option<Seq<char>>,
    pub source: Seq<char>,
}

impl View for Advisory {
    type V = AdvisoryView;

    open spec fn view(&self) -> AdvisoryView {
        AdvisoryView {
            id: self.id@,
            aliases: texts(self.aliases@),
            summary: self.summary@,
            severity: self.severity@,
            url: self.url@,
            affected_range: opt_text(self.affected_range),
            source: self.source@,
        }
    }
}

impl DeepView for Advisory {
    type V = AdvisoryView;

    open spec fn deep_view(&self) -> AdvisoryView {
        self@
    }
}

/// The views of a list of advisories.
pub open spec fn advisory_views(v: Seq<Advisory>) -> Seq<AdvisoryView> {
    Seq::new(v.len(), |i: int| v[i]@)
}

/// The text form of one advisory: `id (severity): summary`, the URL on a
/// line of its own behind four spaces, and the affected range, where there
/// is one, on a third line.
pub open spec fn advisory_text(a: AdvisoryView) -> Seq<char> {
    let head = a.id + " ("@ + a.severity + "): "@ + a.summary + "\n    "@ + a.url;
    match a.affected_range {
        Some(r) => head + "\n    affected: "@ + r,
        None => head,
    }
}

impl Advisory {
    /// The identifier is not empty.
    pub open spec fn wf(&self) -> bool {
        self.id@.len() > 0
    }

    /// A copy, field by field.
    pub fn duplicate(&self) -> (c: Advisory)
        ensures
            c@ == self@,
    {
        Advisory {
            id: self.id.clone(),
            aliases: copy_texts(&self.aliases),
            summary: self.summary.clone(),
            severity: self.severity.clone(),
            url: self.url.clone(),
            affected_range: copy_opt(&self.affected_range),
            source: self.source.clone(),
        }
    }

    /// The advisory as the text report shows it.
    pub fn to_string(&self) -> (s: String)
        ensures
            s@ == advisory_text(self@),
    {
        let mut s = self.id.clone();
        s.append(" (");
        s.append(self.severity.as_str());
        s.append("): ");
        s.append(self.summary.as_str());
        s.append("\n    ");
        s.append(self.url.as_str());
        match &self.affected_range {
            Some(r) => {
                s.append("\n    affected: ");
                s.append(r.as_str());
            },
            None => {},
        }
        s
    }
}

impl Clone for Advisory {
    fn clone(&self) -> (c: Advisory)
        ensures
            c@ == self@,
    {
        self.duplicate()
    }
}

impl PartialEq for Advisory {
    fn eq(&self, other: &Advisory) -> (r: bool) {
        self.id == other.id && same_texts(&self.aliases, &other.aliases) && self.summary
            == other.summary && self.severity == other.severity && self.url == other.url
            && same_opt(&self.affected_range, &other.affected_range) && self.source
            == other.source
    }
}

impl vstd::std_specs::cmp::PartialEqSpecImpl for Advisory {
    open spec fn obeys_eq_spec() -> bool {
        true
    }

    open spec fn eq_spec(&self, other: &Advisory) -> bool {
        self@ == other@
    }
}

/// Whether two lists of strings read the same.
pub fn same_texts(a: &Vec<String>, b: &Vec<String>) -> (r: bool)
    ensures
        r == (texts(a@) == texts(b@)),
{
    if a.len() != b.len() {
        assert(texts(a@).len() != texts(b@).len());
        return false;
    }
    let mut i: usize = 0;
    while i < a.len()
        invariant
            i <= a@.len(),
            a@.len() == b@.len(),
            forall|j: int| 0 <= j < i ==> a@[j]@ == b@[j]@,
        decreases a@.len() - i,
    {
        if a[i] != b[i] {
            assert(texts(a@)[i as int] != texts(b@)[i as int]);
            return false;
        }
        i = i + 1;
    }
    assert(texts(a@) =~= texts(b@));
    true
}

/// The identifiers under which `a` is known: its id, then its aliases.
pub open spec fn names_of(a: AdvisoryView) -> Seq<Seq<char>> {
    seq![a.id] + a.aliases
}

/// Whether the id of `a`, or one of its aliases, is among `seen`.
pub open spec fn is_seen(a: AdvisoryView, seen: Seq<Seq<char>>) -> bool {
    seen.contains(a.id) || exists|j: int|
        0 <= j < a.aliases.len() && seen.contains(#[trigger] a.aliases[j])
}

/// The merge, started with the names in `seen` already taken: in order,
/// an advisory known under a taken name is dropped; any other is kept and
/// its names are taken.
pub open spec fn dedup_from(xs: Seq<AdvisoryView>, seen: Seq<Seq<char>>) -> Seq<AdvisoryView>
    decreases xs.len(),
{
    if xs.len() == 0 {
        Seq::empty()
    } else if is_seen(xs[0], seen) {
        dedup_from(xs.drop_first(), seen)
    } else {
        seq![xs[0]] + dedup_from(xs.drop_first(), seen + names_of(xs[0]))
    }
}

/// The names taken once the merge has gone through `xs`.
pub open spec fn seen_after(xs: Seq<AdvisoryView>, seen: Seq<Seq<char>>) -> Seq<Seq<char>>
    decreases xs.len(),
{
    if xs.len() == 0 {
        seen
    } else if is_seen(xs[0], seen) {
        seen_after(xs.drop_first(), seen)
    } else {
        seen_after(xs.drop_first(), seen + names_of(xs[0]))
    }
}

/// The merge of a list of advisories: the first of any group that share a
/// name wins.
pub open spec fn dedup_spec(xs: Seq<AdvisoryView>) -> Seq<AdvisoryView> {
    dedup_from(xs, Seq::empty())
}

fn known(a: &Advisory, seen: &Vec<String>) -> (r: bool)
    ensures
        r == is_seen(a@, texts(seen@)),
{
    if holds_text(seen, a.id.as_str()) {
        return true;
    }
    let mut i: usize = 0;
    while i < a.aliases.len()
        invariant
            i <= a.aliases@.len(),
            !texts(seen@).contains(a.id@),
            forall|j: int| 0 <= j < i ==> !texts(seen@).contains(#[trigger] a@.aliases[j]),
        decreases a.aliases@.len() - i,
    {
        if holds_text(seen, a.aliases[i].as_str()) {
            assert(texts(seen@).contains(a@.aliases[i as int]));
            return true;
        }
        i = i + 1;
    }
    false
}

fn take_names(a: &Advisory, seen: &mut Vec<String>)
    ensures
        texts(final(seen)@) == texts(old(seen)@) + names_of(a@),
{
    seen.push(a.id.clone());
    assert(texts(seen@) =~= texts(old(seen)@) + seq![a.id@]);
    let mut i: usize = 0;
    while i < a.aliases.len()
        invariant
            i <= a.aliases@.len(),
            texts(seen@) == texts(old(seen)@) + seq![a.id@] + a@.aliases.subrange(0, i as int),
        decreases a.aliases@.len() - i,
    {
        let ghost prev = texts(seen@);
        seen.push(a.aliases[i].clone());
        proof {
            let al = a@.aliases;
            assert(al[i as int] == a.aliases@[i as int]@);
            assert(texts(seen@) =~= prev.push(al[i as int]));
            assert(al.subrange(0, i + 1) =~= al.subrange(0, i as int).push(al[i as int]));
            assert(texts(seen@) =~= texts(old(seen)@) + seq![a.id@] + al.subrange(0, i + 1));
        }
        i = i + 1;
    }
    assert(texts(seen@) =~= texts(old(seen)@) + names_of(a@));
}

/// Merges advisories from several sources: in order, an advisory whose id
/// or one of whose aliases was already taken by an earlier kept advisory
/// is dropped; the others are kept, in order.
pub fn deduplicate_advisories(advisories: Vec<Advisory>) -> (out: Vec<Advisory>)
    ensures
        advisory_views(out@) == dedup_spec(advisory_views(advisories@)),
{
    let ghost xs = advisory_views(advisories@);
    let mut seen: Vec<String> = Vec::new();
    let mut out: Vec<Advisory> = Vec::new();
    let mut i: usize = 0;
    assert(texts(seen@) =~= Seq::<Seq<char>>::empty());
    assert(xs.subrange(0, xs.len() as int) =~= xs);
    assert(advisory_views(out@) + dedup_spec(xs) =~= dedup_spec(xs));
    while i < advisories.len()
        invariant
            i <= advisories@.len(),
            xs == advisory_views(advisories@),
            dedup_spec(xs) == advisory_views(out@) + dedup_from(
                xs.subrange(i as int, xs.len() as int),
                texts(seen@),
            ),
        decreases advisories@.len() - i,
    {
        let ghost rest = xs.subrange(i as int, xs.len() as int);
        let ghost before = advisory_views(out@);
        assert(rest[0] == advisories@[i as int]@);
        assert(rest.drop_first() =~= xs.subrange(i + 1, xs.len() as int));
        if !known(&advisories[i], &seen) {
            take_names(&advisories[i], &mut seen);
            out.push(advisories[i].duplicate());
            assert(advisory_views(out@) =~= before + seq![rest[0]]);
            assert((before + seq![rest[0]]) + dedup_from(rest.drop_first(), texts(seen@))
                =~= before + (seq![rest[0]] + dedup_from(rest.drop_first(), texts(seen@))));
        }
        i = i + 1;
    }
    assert(advisory_views(out@) + Seq::<AdvisoryView>::empty() =~= advisory_views(out@));
    out
}


/// A name is in a concatenation when it is in one of the two parts.
pub proof fn lemma_contains_concat(s: Seq<Seq<char>>, t: Seq<Seq<char>>, n: Seq<char>)
    ensures
        (s + t).contains(n) <==> s.contains(n) || t.contains(n),
{
    let u = s + t;
    if s.contains(n) {
        let j = choose|j: int| 0 <= j < s.len() && s[j] == n;
        assert(u[j] == n);
    }
    if t.contains(n) {
        let j = choose|j: int| 0 <= j < t.len() && t[j] == n;
        assert(u[s.len() + j] == n);
    }
    if u.contains(n) {
        let j = choose|j: int| 0 <= j < u.len() && u[j] == n;
        if j < s.len() {
            assert(s[j] == n);
        } else {
            assert(t[j - s.len()] == n);
        }
    }
}

/// What is seen stays seen when more names are taken.
pub proof fn lemma_seen_grows(a: AdvisoryView, s: Seq<Seq<char>>, t: Seq<Seq<char>>)
    requires
        is_seen(a, s),
    ensures
        is_seen(a, s + t),
{
    if s.contains(a.id) {
        lemma_contains_concat(s, t, a.id);
    } else {
        let j = choose|j: int| 0 <= j < a.aliases.len() && s.contains(#[trigger] a.aliases[j]);
        lemma_contains_concat(s, t, a.aliases[j]);
    }
}

/// A kept advisory is seen under the names it has just taken.
pub proof fn lemma_seen_own(a: AdvisoryView, s: Seq<Seq<char>>)
    ensures
        is_seen(a, s + names_of(a)),
{
    assert(names_of(a)[0] == a.id);
    lemma_contains_concat(s, names_of(a), a.id);
}

/// Merging what a merge gave, with the same names taken, changes nothing.
pub proof fn lemma_dedup_from_idempotent(xs: Seq<AdvisoryView>, seen: Seq<Seq<char>>)
    ensures
        dedup_from(dedup_from(xs, seen), seen) == dedup_from(xs, seen),
    decreases xs.len(),
{
    if xs.len() == 0 {
    } else if is_seen(xs[0], seen) {
        lemma_dedup_from_idempotent(xs.drop_first(), seen);
    } else {
        let next = seen + names_of(xs[0]);
        let y = dedup_from(xs.drop_first(), next);
        lemma_dedup_from_idempotent(xs.drop_first(), next);
        let z = seq![xs[0]] + y;
        assert(z[0] == xs[0]);
        assert(z.drop_first() =~= y);
    }
}

/// The merge of a concatenation: the merge of the first part, then the
/// merge of the second with the names that the first part left taken.
pub proof fn lemma_dedup_concat(
    xs: Seq<AdvisoryView>,
    ys: Seq<AdvisoryView>,
    seen: Seq<Seq<char>>,
)
    ensures
        dedup_from(xs + ys, seen) == dedup_from(xs, seen) + dedup_from(ys, seen_after(xs, seen)),
    decreases xs.len(),
{
    if xs.len() == 0 {
        assert(xs + ys =~= ys);
        assert(dedup_from(xs, seen) + dedup_from(ys, seen) =~= dedup_from(ys, seen));
    } else {
        let all = xs + ys;
        assert(all[0] == xs[0]);
        assert(all.drop_first() =~= xs.drop_first() + ys);
        if is_seen(xs[0], seen) {
            lemma_dedup_concat(xs.drop_first(), ys, seen);
        } else {
            let next = seen + names_of(xs[0]);
            lemma_dedup_concat(xs.drop_first(), ys, next);
            assert(seq![xs[0]] + (dedup_from(xs.drop_first(), next) + dedup_from(
                ys,
                seen_after(xs.drop_first(), next),
            )) =~= (seq![xs[0]] + dedup_from(xs.drop_first(), next)) + dedup_from(
                ys,
                seen_after(xs.drop_first(), next),
            ));
        }
    }
}

/// Once the merge has gone through `xs`, every name taken before is still
/// taken, and every advisory of `xs` is seen.
pub proof fn lemma_seen_after(xs: Seq<AdvisoryView>, seen: Seq<Seq<char>>)
    ensures
        forall|a: AdvisoryView| is_seen(a, seen) ==> is_seen(a, seen_after(xs, seen)),
        forall|i: int| 0 <= i < xs.len() ==> is_seen(#[trigger] xs[i], seen_after(xs, seen)),
    decreases xs.len(),
{
    if xs.len() != 0 {
        let rest = xs.drop_first();
        let next = if is_seen(xs[0], seen) {
            seen
        } else {
            seen + names_of(xs[0])
        };
        lemma_seen_after(rest, next);
        assert forall|a: AdvisoryView| is_seen(a, seen) implies is_seen(
            a,
            seen_after(xs, seen),
        ) by {
            if !is_seen(xs[0], seen) {
                lemma_seen_grows(a, seen, names_of(xs[0]));
            }
        }
        assert forall|i: int| 0 <= i < xs.len() implies is_seen(
            #[trigger] xs[i],
            seen_after(xs, seen),
        ) by {
            if i == 0 {
                if !is_seen(xs[0], seen) {
                    lemma_seen_own(xs[0], seen);
                }
                assert(is_seen(xs[0], next));
            } else {
                assert(xs[i] == rest[i - 1]);
            }
        }
    }
}

/// A list whose every advisory is seen merges to nothing.
pub proof fn lemma_dedup_all_seen(ys: Seq<AdvisoryView>, seen: Seq<Seq<char>>)
    requires
        forall|i: int| 0 <= i < ys.len() ==> is_seen(#[trigger] ys[i], seen),
    ensures
        dedup_from(ys, seen) == Seq::<AdvisoryView>::empty(),
    decreases ys.len(),
{
    if ys.len() != 0 {
        let rest = ys.drop_first();
        assert(is_seen(ys[0], seen));
        assert forall|i: int| 0 <= i < rest.len() implies is_seen(#[trigger] rest[i], seen) by {
            assert(rest[i] == ys[i + 1]);
        }
        lemma_dedup_all_seen(rest, seen);
    }
}

/// Merging is idempotent: a merged list merges to itself.
pub proof fn dedup_idempotent(xs: Seq<AdvisoryView>)
    ensures
        dedup_spec(dedup_spec(xs)) == dedup_spec(xs),
{
    lemma_dedup_from_idempotent(xs, Seq::empty());
}

/// A list followed by itself merges to what the list alone merges to.
pub proof fn dedup_of_doubled(xs: Seq<AdvisoryView>)
    ensures
        dedup_spec(xs + xs) == dedup_spec(xs),
{
    let none = Seq::<Seq<char>>::empty();
    lemma_dedup_concat(xs, xs, none);
    lemma_seen_after(xs, none);
    lemma_dedup_all_seen(xs, seen_after(xs, none));
    assert(dedup_from(xs, none) + Seq::<AdvisoryView>::empty() =~= dedup_from(xs, none));
}

/// Of two advisories of which one names the other as an alias, the merge
/// keeps the first alone.
pub proof fn dedup_of_aliased_pair(a: AdvisoryView, b: AdvisoryView)
    requires
        b.aliases.contains(a.id) || a.aliases.contains(b.id),
    ensures
        dedup_spec(seq![a, b]) == seq![a],
        dedup_spec(seq![a, b]).len() == 1,
{
    let none = Seq::<Seq<char>>::empty();
    let xs = seq![a, b];
    let taken = none + names_of(a);
    assert(!is_seen(a, none));
    assert(xs[0] == a);
    assert(xs.drop_first() =~= seq![b]);
    assert(seq![b][0] == b);
    assert(seq![b].drop_first() =~= Seq::<AdvisoryView>::empty());
    assert(taken =~= names_of(a));
    if b.aliases.contains(a.id) {
        let j = choose|j: int| 0 <= j < b.aliases.len() && b.aliases[j] == a.id;
        assert(names_of(a)[0] == a.id);
        assert(taken.contains(b.aliases[j]));
    } else {
        let j = choose|j: int| 0 <= j < a.aliases.len() && a.aliases[j] == b.id;
        assert(names_of(a)[j + 1] == b.id);
        assert(taken.contains(b.id));
    }
    assert(is_seen(b, taken));
    assert(dedup_from(seq![b].drop_first(), taken) == Seq::<AdvisoryView>::empty());
    assert(dedup_from(seq![b], taken) == Seq::<AdvisoryView>::empty());
    assert(seq![a] + Seq::<AdvisoryView>::empty() =~= seq![a]);
}

} // verus!
