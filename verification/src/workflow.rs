//! Extraction of `uses:` references from workflow files and from the
//! metadata files of composite actions.
use crate::action_ref::{parse_spec, ActionRef, ActionRefView, RefParseError};
use crate::context::ref_views;
use crate::text::{is_prefix, opt_text, same_text, starts_with, texts};
use crate::yaml::{
    entries_of, entry, find_entry, keys_are_texts, parse_yaml, record_of, scalar_text, untag,
    yaml_document, yaml_views, all_keys_texts, Yaml, YamlEntry, YamlTree,
};
use std::str::FromStr;
use vstd::prelude::*;
use vstd::std_specs::cmp::PartialEqSpecImpl;

verus! {

/// A classified `uses:` reference.
#[derive(Debug)]
pub enum UsesRef {
    /// An action of the same repository: `./path`.
    Local(String),
    /// A container image: `docker://image`.
    Docker(String),
    /// An action or workflow of another repository.
    ThirdParty(ActionRef),
}

/// Mathematical value of a [`UsesRef`].
pub enum UsesRefView {
    Local(Seq<char>),
    Docker(Seq<char>),
    ThirdParty(ActionRefView),
}

impl View for UsesRef {
    type V = UsesRefView;

    open spec fn view(&self) -> UsesRefView {
        match *self {
            UsesRef::Local(s) => UsesRefView::Local(s@),
            UsesRef::Docker(s) => UsesRefView::Docker(s@),
            UsesRef::ThirdParty(a) => UsesRefView::ThirdParty(a@),
        }
    }
}

/// The views of a list of classified references.
pub open spec fn uses_views(v: Seq<UsesRef>) -> Seq<UsesRefView> {
    Seq::new(v.len(), |i: int| v[i]@)
}

/// Whether a `uses:` string names something outside the repository and
/// outside the container registry: it starts neither with `./` nor with
/// `docker://`.
pub open spec fn third_party_spec(s: Seq<char>) -> bool {
    !(is_prefix("./"@, s) || is_prefix("docker://"@, s))
}

/// The class of a `uses:` string, by its prefix: `./` for a local action,
/// `docker://` for an image; anything else must parse as a reference.
pub open spec fn classify_spec(s: Seq<char>) -> Result<UsesRefView, RefParseError> {
    if is_prefix("./"@, s) {
        Ok(UsesRefView::Local(s))
    } else if is_prefix("docker://"@, s) {
        Ok(UsesRefView::Docker(s))
    } else {
        match parse_spec(s) {
            Ok(a) => Ok(UsesRefView::ThirdParty(a)),
            Err(e) => Err(e),
        }
    }
}

/// The classes of the first `n` strings, in order, without the strings
/// that have none.
pub open spec fn classified_upto(raws: Seq<Seq<char>>, n: nat) -> Seq<UsesRefView>
    decreases n,
{
    if n == 0 || n > raws.len() {
        Seq::empty()
    } else {
        match classify_spec(raws[n - 1]) {
            Ok(u) => classified_upto(raws, (n - 1) as nat).push(u),
            Err(_) => classified_upto(raws, (n - 1) as nat),
        }
    }
}

/// The classes of a list of `uses:` strings.
pub open spec fn classified(raws: Seq<Seq<char>>) -> Seq<UsesRefView> {
    classified_upto(raws, raws.len())
}

/// The third-party references among the first `n` classified references.
pub open spec fn third_party_upto(refs: Seq<UsesRefView>, n: nat) -> Seq<ActionRefView>
    decreases n,
{
    if n == 0 || n > refs.len() {
        Seq::empty()
    } else {
        match refs[n - 1] {
            UsesRefView::ThirdParty(a) => third_party_upto(refs, (n - 1) as nat).push(a),
            _ => third_party_upto(refs, (n - 1) as nat),
        }
    }
}

/// The third-party references of a list, in order.
pub open spec fn third_party_of(refs: Seq<UsesRefView>) -> Seq<ActionRefView> {
    third_party_upto(refs, refs.len())
}

/// Whether a `uses:` string is a third-party reference.
pub fn is_third_party(uses: &str) -> (r: bool)
    ensures
        r == third_party_spec(uses@),
{
    !starts_with(uses, "./") && !starts_with(uses, "docker://")
}

impl UsesRef {
    /// Classifies a `uses:` string.
    pub fn parse(s: &str) -> (r: Result<UsesRef, RefParseError>)
        ensures
            match r {
                Ok(u) => classify_spec(s@) == Ok::<UsesRefView, RefParseError>(u@),
                Err(e) => classify_spec(s@) == Err::<UsesRefView, RefParseError>(e),
            },
    {
        if starts_with(s, "./") {
            Ok(UsesRef::Local(s.to_owned()))
        } else if starts_with(s, "docker://") {
            Ok(UsesRef::Docker(s.to_owned()))
        } else {
            match ActionRef::parse(s) {
                Ok(a) => Ok(UsesRef::ThirdParty(a)),
                Err(e) => Err(e),
            }
        }
    }

    /// The reference, where it is a third-party one.
    pub fn into_third_party(self) -> (r: Option<ActionRef>)
        ensures
            match r {
                Some(a) => self@ == UsesRefView::ThirdParty(a@),
                None => !(self@ is ThirdParty),
            },
    {
        match self {
            UsesRef::ThirdParty(a) => Some(a),
            _ => None,
        }
    }

    /// The string that was classified.
    pub fn to_string(&self) -> (s: String)
        ensures
            s@ == (match self@ {
                UsesRefView::Local(t) => t,
                UsesRefView::Docker(t) => t,
                UsesRefView::ThirdParty(a) => a.raw,
            }),
    {
        match self {
            UsesRef::Local(t) => t.clone(),
            UsesRef::Docker(t) => t.clone(),
            UsesRef::ThirdParty(a) => a.raw.clone(),
        }
    }
}

impl FromStr for UsesRef {
    type Err = RefParseError;

    fn from_str(s: &str) -> (r: Result<UsesRef, RefParseError>)
        ensures
            match r {
                Ok(u) => classify_spec(s@) == Ok::<UsesRefView, RefParseError>(u@),
                Err(e) => classify_spec(s@) == Err::<UsesRefView, RefParseError>(e),
            },
    {
        UsesRef::parse(s)
    }
}

impl PartialEq for UsesRef {
    fn eq(&self, other: &UsesRef) -> (r: bool) {
        match (self, other) {
            (UsesRef::Local(a), UsesRef::Local(b)) => same_text(a.as_str(), b.as_str()),
            (UsesRef::Docker(a), UsesRef::Docker(b)) => same_text(a.as_str(), b.as_str()),
            (UsesRef::ThirdParty(a), UsesRef::ThirdParty(b)) => a.order(b) == 0,
            _ => false,
        }
    }
}

impl PartialEqSpecImpl for UsesRef {
    open spec fn obeys_eq_spec() -> bool {
        true
    }

    open spec fn eq_spec(&self, other: &UsesRef) -> bool {
        match (self@, other@) {
            (UsesRefView::Local(a), UsesRefView::Local(b)) => a == b,
            (UsesRefView::Docker(a), UsesRefView::Docker(b)) => a == b,
            (UsesRefView::ThirdParty(a), UsesRefView::ThirdParty(b)) => crate::action_ref::same_key(
                a,
                b,
            ),
            _ => false,
        }
    }
}

/// Classifies `uses:` strings, in order. A string that is neither local
/// nor an image nor a reference is left out.
pub fn classify_uses(raws: &Vec<String>) -> (out: Vec<UsesRef>)
    ensures
        uses_views(out@) == classified(texts(raws@)),
{
    let ghost rv = texts(raws@);
    let mut out: Vec<UsesRef> = Vec::new();
    let mut i: usize = 0;
    assert(uses_views(out@) =~= classified_upto(rv, 0));
    while i < raws.len()
        invariant
            i <= raws@.len(),
            rv == texts(raws@),
            uses_views(out@) == classified_upto(rv, i as nat),
        decreases raws@.len() - i,
    {
        let ghost before = uses_views(out@);
        assert(rv[i as int] == raws@[i as int]@);
        match UsesRef::parse(raws[i].as_str()) {
            Ok(u) => {
                out.push(u);
                assert(uses_views(out@) =~= before.push(out@[before.len() as int]@));
            },
            Err(_) => {},
        }
        i = i + 1;
    }
    out
}

/// The strings among the first `n` that have no class, each with the
/// reason, in order.
pub open spec fn unclassified_upto(raws: Seq<Seq<char>>, n: nat) -> Seq<(Seq<char>, RefParseError)>
    decreases n,
{
    if n == 0 || n > raws.len() {
        Seq::empty()
    } else {
        match classify_spec(raws[n - 1]) {
            Ok(_) => unclassified_upto(raws, (n - 1) as nat),
            Err(e) => unclassified_upto(raws, (n - 1) as nat).push((raws[n - 1], e)),
        }
    }
}

/// The views of a list of strings with their faults.
pub open spec fn fault_views(v: Seq<(String, RefParseError)>) -> Seq<(Seq<char>, RefParseError)> {
    Seq::new(v.len(), |i: int| (v[i].0@, v[i].1))
}

/// The strings among `raws` that are neither local nor an image nor a
/// reference, in order, each with the reason.
pub fn unparseable_uses(raws: &Vec<String>) -> (out: Vec<(String, RefParseError)>)
    ensures
        fault_views(out@) == unclassified_upto(texts(raws@), raws@.len() as nat),
{
    let ghost rv = texts(raws@);
    let mut out: Vec<(String, RefParseError)> = Vec::new();
    let mut i: usize = 0;
    assert(fault_views(out@) =~= unclassified_upto(rv, 0));
    while i < raws.len()
        invariant
            i <= raws@.len(),
            rv == texts(raws@),
            fault_views(out@) == unclassified_upto(rv, i as nat),
        decreases raws@.len() - i,
    {
        let ghost before = fault_views(out@);
        assert(rv[i as int] == raws@[i as int]@);
        match UsesRef::parse(raws[i].as_str()) {
            Ok(_) => {},
            Err(e) => {
                out.push((raws[i].clone(), e));
                assert(fault_views(out@) =~= before.push((rv[i as int], e)));
            },
        }
        i = i + 1;
    }
    out
}

/// The third-party references of a classified list, in order.
pub fn third_party_refs(refs: Vec<UsesRef>) -> (out: Vec<ActionRef>)
    ensures
        ref_views(out@) == third_party_of(uses_views(refs@)),
{
    let ghost uv = uses_views(refs@);
    let mut out: Vec<ActionRef> = Vec::new();
    let mut i: usize = 0;
    assert(ref_views(out@) =~= third_party_upto(uv, 0));
    while i < refs.len()
        invariant
            i <= refs@.len(),
            uv == uses_views(refs@),
            ref_views(out@) == third_party_upto(uv, i as nat),
        decreases refs@.len() - i,
    {
        let ghost before = ref_views(out@);
        assert(uv[i as int] == refs@[i as int]@);
        match &refs[i] {
            UsesRef::ThirdParty(a) => {
                out.push(a.duplicate());
                assert(ref_views(out@) =~= before.push(a@));
            },
            _ => {},
        }
        i = i + 1;
    }
    out
}

/// Why a workflow or an action file could not be read.
#[derive(Debug)]
pub enum WorkflowError {
    /// The text is no YAML; with the reader's message.
    Syntax(String),
    /// The document is YAML, but no workflow or action file.
    Shape,
}

impl WorkflowError {
    /// A one-line description: the reader's message for a text that is no
    /// YAML.
    pub fn to_string(&self) -> (s: String)
        ensures
            s@ == (match *self {
                WorkflowError::Syntax(m) => m@,
                WorkflowError::Shape => "document has not the expected shape"@,
            }),
    {
        match self {
            WorkflowError::Syntax(m) => m.clone(),
            WorkflowError::Shape => "document has not the expected shape".to_owned(),
        }
    }
}

/// What stands under `uses`. `null` stands for nothing. Read strictly,
/// the value must be a text; else any scalar counts, by its text.
/// `None` for a value that cannot be read.
pub open spec fn uses_value(t: YamlTree, strict: bool) -> Option<Option<Seq<char>>> {
    if t is Null {
        Some(None)
    } else if strict {
        match untag(t) {
            YamlTree::Text(s) => Some(Some(s)),
            _ => None,
        }
    } else {
        match scalar_text(t) {
            Some(s) => Some(Some(s)),
            None => None,
        }
    }
}

/// The `uses` of a record: nothing where there is no such entry.
pub open spec fn uses_of_record(entries: Seq<(YamlTree, YamlTree)>, strict: bool) -> Option<
    Option<Seq<char>>,
> {
    match entry(entries, "uses"@) {
        None => Some(None),
        Some(v) => uses_value(v, strict),
    }
}

/// The `uses` of a step. A step is a record; read strictly, its keys must
/// be texts.
pub open spec fn step_uses(t: YamlTree, strict: bool) -> Option<Option<Seq<char>>> {
    match record_of(t) {
        Some(entries) => if strict && !keys_are_texts(entries) {
            None
        } else {
            uses_of_record(entries, strict)
        },
        None => None,
    }
}

/// The steps under `steps`: none where the entry is missing or `null`;
/// else the items of a list. `None` for anything else.
pub open spec fn steps_of_record(entries: Seq<(YamlTree, YamlTree)>) -> Option<Seq<YamlTree>> {
    match entry(entries, "steps"@) {
        None => Some(Seq::empty()),
        Some(v) => if v is Null {
            Some(Seq::empty())
        } else {
            match untag(v) {
                YamlTree::List(items) => Some(items),
                YamlTree::Null => Some(Seq::empty()),
                _ => None,
            }
        },
    }
}

/// The `uses` of the first `n` steps, in order.
pub open spec fn steps_uses_upto(steps: Seq<YamlTree>, strict: bool, n: nat) -> Seq<Seq<char>>
    decreases n,
{
    if n == 0 || n > steps.len() {
        Seq::empty()
    } else {
        let before = steps_uses_upto(steps, strict, (n - 1) as nat);
        match step_uses(steps[n - 1], strict) {
            Some(Some(u)) => before.push(u),
            _ => before,
        }
    }
}

/// The `uses` of a list of steps; `None` where one of them is no step.
pub open spec fn steps_uses(steps: Seq<YamlTree>, strict: bool) -> Option<Seq<Seq<char>>> {
    if forall|i: int| 0 <= i < steps.len() ==> step_uses(#[trigger] steps[i], strict) is Some {
        Some(steps_uses_upto(steps, strict, steps.len()))
    } else {
        None
    }
}

/// The `uses` of a job: its own, where it calls a reusable workflow, then
/// those of its steps. `None` where the job is no record with text keys,
/// its `uses` no text, its `steps` no list of steps.
pub open spec fn job_uses(t: YamlTree) -> Option<Seq<Seq<char>>> {
    match record_of(t) {
        Some(entries) => if keys_are_texts(entries) && uses_of_record(entries, true) is Some
            && steps_of_record(entries) is Some && steps_uses(
            steps_of_record(entries)->0,
            true,
        ) is Some {
            let own: Seq<Seq<char>> = match uses_of_record(entries, true)->0 {
                Some(u) => seq![u],
                None => Seq::empty(),
            };
            Some(own + steps_uses(steps_of_record(entries)->0, true)->0)
        } else {
            None
        },
        None => None,
    }
}

/// The jobs of a workflow: the entries under `jobs`, none where `jobs` is
/// missing. `None` where the document is no record, `jobs` no record, or
/// the name of a job no scalar.
pub open spec fn jobs_of(root: YamlTree) -> Option<Seq<(YamlTree, YamlTree)>> {
    match record_of(root) {
        Some(entries) => match entry(entries, "jobs"@) {
            None => Some(Seq::empty()),
            Some(v) => match record_of(v) {
                Some(jobs) => if forall|i: int|
                    0 <= i < jobs.len() ==> scalar_text((#[trigger] jobs[i]).0) is Some {
                    Some(jobs)
                } else {
                    None
                },
                None => None,
            },
        },
        None => None,
    }
}

/// The `uses` of the first `n` jobs, job by job; a job that cannot be
/// read gives none.
pub open spec fn jobs_uses_upto(jobs: Seq<(YamlTree, YamlTree)>, n: nat) -> Seq<Seq<char>>
    decreases n,
{
    if n == 0 || n > jobs.len() {
        Seq::empty()
    } else {
        let before = jobs_uses_upto(jobs, (n - 1) as nat);
        match job_uses(jobs[n - 1].1) {
            Some(uses) => before + uses,
            None => before,
        }
    }
}

/// The names of the jobs among the first `n` that cannot be read.
pub open spec fn jobs_skipped_upto(jobs: Seq<(YamlTree, YamlTree)>, n: nat) -> Seq<Seq<char>>
    decreases n,
{
    if n == 0 || n > jobs.len() {
        Seq::empty()
    } else {
        let before = jobs_skipped_upto(jobs, (n - 1) as nat);
        match job_uses(jobs[n - 1].1) {
            Some(_) => before,
            None => before.push(scalar_text(jobs[n - 1].0)->0),
        }
    }
}

/// The raw `uses:` strings of a workflow, in document order, duplicates
/// kept, and the names of the jobs that were skipped.
pub struct WorkflowUses {
    /// Job-level and step-level `uses:` strings.
    pub uses: Vec<String>,
    /// Names of the jobs that could not be read.
    pub skipped_jobs: Vec<String>,
}

fn read_uses(entries: Option<&Vec<YamlEntry>>, strict: bool) -> (r: Result<Option<String>, ()>)
    ensures
        match r {
            Ok(v) => uses_of_record(entries_of(entries), strict) == Some(opt_text(v)),
            Err(_) => uses_of_record(entries_of(entries), strict) is None,
        },
{
    match find_entry(entries, "uses") {
        None => Ok(None),
        Some(v) => {
            if v.is_null() {
                return Ok(None);
            }
            if strict {
                match v.as_str() {
                    Some(s) => Ok(Some(s.to_owned())),
                    None => Err(()),
                }
            } else {
                match v.to_scalar_text() {
                    Some(s) => Ok(Some(s)),
                    None => Err(()),
                }
            }
        },
    }
}

fn read_step(step: &Yaml, strict: bool) -> (r: Result<Option<String>, ()>)
    ensures
        match r {
            Ok(v) => step_uses(step@, strict) == Some(opt_text(v)),
            Err(_) => step_uses(step@, strict) is None,
        },
{
    match step.as_record() {
        Some(entries) => {
            if strict && !all_keys_texts(entries) {
                return Err(());
            }
            read_uses(entries, strict)
        },
        None => Err(()),
    }
}

fn read_steps(entries: Option<&Vec<YamlEntry>>, strict: bool, out: &mut Vec<String>) -> (r: Result<
    (),
    (),
>)
    ensures
        match r {
            Ok(_) => steps_of_record(entries_of(entries)) is Some && steps_uses(
                steps_of_record(entries_of(entries))->0,
                strict,
            ) is Some && texts(final(out)@) == texts(old(out)@) + steps_uses(
                steps_of_record(entries_of(entries))->0,
                strict,
            )->0,
            Err(_) => steps_of_record(entries_of(entries)) is None || steps_uses(
                steps_of_record(entries_of(entries))->0,
                strict,
            ) is None,
        },
{
    let ghost start = texts(out@);
    let steps = match find_entry(entries, "steps") {
        None => {
            assert(texts(out@) =~= start + Seq::<Seq<char>>::empty());
            return Ok(());
        },
        Some(v) => {
            if v.is_null() {
                assert(texts(out@) =~= start + Seq::<Seq<char>>::empty());
                return Ok(());
            }
            match v.as_list() {
                Some(items) => items,
                None => {
                    if v.untagged().is_null() {
                        assert(texts(out@) =~= start + Seq::<Seq<char>>::empty());
                        return Ok(());
                    }
                    return Err(());
                },
            }
        },
    };
    let ghost sv = yaml_views(steps@);
    let mut i: usize = 0;
    assert(texts(out@) =~= start + steps_uses_upto(sv, strict, 0));
    while i < steps.len()
        invariant
            i <= steps@.len(),
            sv == yaml_views(steps@),
            steps_of_record(entries_of(entries)) == Some(sv),
            forall|k: int| 0 <= k < i ==> step_uses(#[trigger] sv[k], strict) is Some,
            texts(out@) == start + steps_uses_upto(sv, strict, i as nat),
        decreases steps@.len() - i,
    {
        let ghost before = texts(out@);
        assert(sv[i as int] == steps@[i as int]@);
        match read_step(&steps[i], strict) {
            Ok(Some(u)) => {
                out.push(u);
                assert(texts(out@) =~= before.push(step_uses(sv[i as int], strict)->0->0));
                assert(texts(out@) =~= start + steps_uses_upto(sv, strict, (i + 1) as nat));
            },
            Ok(None) => {},
            Err(_) => {
                assert(step_uses(sv[i as int], strict) is None);
                return Err(());
            },
        }
        i = i + 1;
    }
    Ok(())
}

fn read_job(job: &Yaml) -> (r: Option<Vec<String>>)
    ensures
        match r {
            Some(v) => job_uses(job@) == Some(texts(v@)),
            None => job_uses(job@) is None,
        },
{
    let entries = match job.as_record() {
        Some(e) => e,
        None => {
            return None;
        },
    };
    if !all_keys_texts(entries) {
        return None;
    }
    let mut out: Vec<String> = Vec::new();
    match read_uses(entries, true) {
        Ok(Some(u)) => {
            out.push(u);
        },
        Ok(None) => {},
        Err(_) => {
            return None;
        },
    }
    let ghost own = texts(out@);
    match read_steps(entries, true, &mut out) {
        Ok(_) => {
            proof {
                let o: Seq<Seq<char>> = match uses_of_record(entries_of(entries), true)->0 {
                    Some(u) => seq![u],
                    None => Seq::empty(),
                };
                assert(own =~= o);
            }
            Some(out)
        },
        Err(_) => None,
    }
}

/// The raw `uses:` strings of a workflow document: job by job, a job's
/// own `uses` before those of its steps, duplicates kept. A job that
/// cannot be read is skipped and named. Fails where the document is no
/// workflow at all.
pub fn workflow_uses(doc: &Yaml) -> (r: Result<WorkflowUses, WorkflowError>)
    ensures
        match r {
            Ok(w) => jobs_of(doc@) is Some && texts(w.uses@) == jobs_uses_upto(
                jobs_of(doc@)->0,
                jobs_of(doc@)->0.len(),
            ) && texts(w.skipped_jobs@) == jobs_skipped_upto(
                jobs_of(doc@)->0,
                jobs_of(doc@)->0.len(),
            ),
            Err(e) => jobs_of(doc@) is None && e is Shape,
        },
{
    let entries = match doc.as_record() {
        Some(e) => e,
        None => {
            return Err(WorkflowError::Shape);
        },
    };
    let mut uses: Vec<String> = Vec::new();
    let mut skipped: Vec<String> = Vec::new();
    let jobs = match find_entry(entries, "jobs") {
        None => None,
        Some(v) => match v.as_record() {
            Some(j) => j,
            None => {
                return Err(WorkflowError::Shape);
            },
        },
    };
    let ghost jv = entries_of(jobs);
    match jobs {
        None => {
            assert(texts(uses@) =~= jobs_uses_upto(jv, 0));
            assert(texts(skipped@) =~= jobs_skipped_upto(jv, 0));
        },
        Some(list) => {
            let mut i: usize = 0;
            assert(texts(uses@) =~= jobs_uses_upto(jv, 0));
            assert(texts(skipped@) =~= jobs_skipped_upto(jv, 0));
            while i < list.len()
                invariant
                    i <= list@.len(),
                    jv == crate::yaml::entry_views(list@),
                    record_of(doc@) == Some(entries_of(entries)),
                    entry(entries_of(entries), "jobs"@) is Some,
                    record_of(entry(entries_of(entries), "jobs"@)->0) == Some(jv),
                    forall|k: int| 0 <= k < i ==> scalar_text((#[trigger] jv[k]).0) is Some,
                    texts(uses@) == jobs_uses_upto(jv, i as nat),
                    texts(skipped@) == jobs_skipped_upto(jv, i as nat),
                decreases list@.len() - i,
            {
                let ghost before = texts(uses@);
                let ghost before_skipped = texts(skipped@);
                assert(jv[i as int] == (list@[i as int].key@, list@[i as int].value@));
                let name = match list[i].key.to_scalar_text() {
                    Some(n) => n,
                    None => {
                        assert(scalar_text(jv[i as int].0) is None);
                        return Err(WorkflowError::Shape);
                    },
                };
                match read_job(&list[i].value) {
                    Some(found) => {
                        let mut k: usize = 0;
                        while k < found.len()
                            invariant
                                k <= found@.len(),
                                texts(uses@) == before + texts(found@).subrange(0, k as int),
                            decreases found@.len() - k,
                        {
                            let ghost prev = texts(uses@);
                            uses.push(found[k].clone());
                            assert(texts(uses@) =~= prev.push(texts(found@)[k as int]));
                            assert(texts(uses@) =~= before + texts(found@).subrange(0, k + 1));
                            k = k + 1;
                        }
                        assert(texts(found@).subrange(0, found@.len() as int) =~= texts(found@));
                    },
                    None => {
                        skipped.push(name);
                        assert(texts(skipped@) =~= before_skipped.push(
                            scalar_text(jv[i as int].0)->0,
                        ));
                    },
                }
                i = i + 1;
            }
        },
    }
    Ok(WorkflowUses { uses, skipped_jobs: skipped })
}

/// What reading a workflow text gives: the classes of its `uses:` strings;
/// `None` where the document is no workflow.
pub open spec fn workflow_refs_of(root: YamlTree) -> Option<Seq<UsesRefView>> {
    match jobs_of(root) {
        Some(jobs) => Some(classified(jobs_uses_upto(jobs, jobs.len()))),
        None => None,
    }
}

/// The classified `uses:` references of a workflow document.
pub fn workflow_refs(doc: &Yaml) -> (r: Result<Vec<UsesRef>, WorkflowError>)
    ensures
        match r {
            Ok(v) => workflow_refs_of(doc@) == Some(uses_views(v@)),
            Err(e) => workflow_refs_of(doc@) is None && e is Shape,
        },
{
    match workflow_uses(doc) {
        Ok(w) => Ok(classify_uses(&w.uses)),
        Err(e) => Err(e),
    }
}

/// Reads a workflow text and returns every `uses:` reference, classified:
/// the job-level `uses:` of each job and the `uses:` of each of its steps.
/// Duplicates are kept. A job that cannot be read is skipped; a string
/// that is no reference is left out. Fails where the text is no YAML, or
/// the document no workflow.
pub fn parse_workflow(yaml: &str) -> (r: Result<Vec<UsesRef>, WorkflowError>)
    ensures
        match yaml_document(yaml@) {
            None => r matches Err(e) && e is Syntax,
            Some(t) => match workflow_refs_of(t) {
                None => r matches Err(e) && e is Shape,
                Some(refs) => r matches Ok(v) && uses_views(v@) == refs,
            },
        },
{
    match parse_yaml(yaml) {
        Ok(doc) => workflow_refs(&doc),
        Err(m) => Err(WorkflowError::Syntax(m)),
    }
}

/// Reads a workflow text and returns its third-party references, in order.
pub fn parse_workflow_refs(yaml: &str) -> (r: Result<Vec<ActionRef>, WorkflowError>)
    ensures
        match yaml_document(yaml@) {
            None => r matches Err(e) && e is Syntax,
            Some(t) => match workflow_refs_of(t) {
                None => r matches Err(e) && e is Shape,
                Some(refs) => r matches Ok(v) && ref_views(v@) == third_party_of(refs),
            },
        },
{
    match parse_workflow(yaml) {
        Ok(refs) => Ok(third_party_refs(refs)),
        Err(e) => Err(e),
    }
}

/// What the `runs` part of an action file says: `None` where it cannot be
/// read; else whether the action is composite and, if so, the `uses` of
/// its steps.
pub open spec fn runs_uses(runs: YamlTree) -> Option<Option<Seq<Seq<char>>>> {
    match record_of(runs) {
        Some(entries) => match entry(entries, "using"@) {
            Some(u) => if u is Null || scalar_text(u) is None || steps_of_record(entries) is None
                || steps_uses(steps_of_record(entries)->0, false) is None {
                None
            } else if scalar_text(u)->0 == "composite"@ {
                Some(Some(steps_uses(steps_of_record(entries)->0, false)->0))
            } else {
                Some(None)
            },
            None => None,
        },
        None => None,
    }
}

/// What an action file says: `None` where it cannot be read; nothing
/// where it has no `runs` or is not composite; else the `uses` of its steps.
pub open spec fn action_uses(root: YamlTree) -> Option<Option<Seq<Seq<char>>>> {
    match record_of(root) {
        Some(entries) => match entry(entries, "runs"@) {
            None => Some(None),
            Some(runs) => if runs is Null {
                Some(None)
            } else {
                runs_uses(runs)
            },
        },
        None => None,
    }
}

/// The children of a composite action: the third-party references among
/// the `uses` of its steps.
pub open spec fn composite_children(root: YamlTree) -> Option<Option<Seq<ActionRefView>>> {
    match action_uses(root) {
        Some(Some(uses)) => Some(Some(third_party_of(classified(uses)))),
        Some(None) => Some(None),
        None => None,
    }
}

/// The `uses:` strings of the steps of a composite action; `None` in
/// `Ok` for an action that is not composite.
pub fn composite_uses(doc: &Yaml) -> (r: Result<Option<Vec<String>>, WorkflowError>)
    ensures
        match r {
            Ok(Some(v)) => action_uses(doc@) == Some(Some(texts(v@))),
            Ok(None) => action_uses(doc@) == Some(None::<Seq<Seq<char>>>),
            Err(e) => action_uses(doc@) is None && e is Shape,
        },
{
    let entries = match doc.as_record() {
        Some(e) => e,
        None => {
            return Err(WorkflowError::Shape);
        },
    };
    let runs = match find_entry(entries, "runs") {
        None => {
            return Ok(None);
        },
        Some(r) => r,
    };
    if runs.is_null() {
        return Ok(None);
    }
    let fields = match runs.as_record() {
        Some(f) => f,
        None => {
            return Err(WorkflowError::Shape);
        },
    };
    let using = match find_entry(fields, "using") {
        Some(u) => {
            if u.is_null() {
                return Err(WorkflowError::Shape);
            }
            match u.to_scalar_text() {
                Some(s) => s,
                None => {
                    return Err(WorkflowError::Shape);
                },
            }
        },
        None => {
            return Err(WorkflowError::Shape);
        },
    };
    let mut out: Vec<String> = Vec::new();
    assert(texts(out@) =~= Seq::<Seq<char>>::empty());
    match read_steps(fields, false, &mut out) {
        Ok(_) => {
            assert(Seq::<Seq<char>>::empty() + steps_uses(
                steps_of_record(entries_of(fields))->0,
                false,
            )->0 =~= steps_uses(steps_of_record(entries_of(fields))->0, false)->0);
        },
        Err(_) => {
            return Err(WorkflowError::Shape);
        },
    }
    if same_text(using.as_str(), "composite") {
        Ok(Some(out))
    } else {
        Ok(None)
    }
}

/// The third-party references of a composite action document.
pub fn composite_refs(doc: &Yaml) -> (r: Result<Option<Vec<ActionRef>>, WorkflowError>)
    ensures
        match r {
            Ok(Some(v)) => composite_children(doc@) == Some(Some(ref_views(v@))),
            Ok(None) => composite_children(doc@) == Some(None::<Seq<ActionRefView>>),
            Err(e) => composite_children(doc@) is None && e is Shape,
        },
{
    match composite_uses(doc) {
        Ok(Some(uses)) => Ok(Some(third_party_refs(classify_uses(&uses)))),
        Ok(None) => Ok(None),
        Err(e) => Err(e),
    }
}

/// Reads the metadata file of an action. Returns `None` for an action
/// without `runs` or whose `runs.using` is not `composite`; for a
/// composite action the third-party references of its steps, in order,
/// none where it has no steps. Local and image references are left out,
/// as is a string that is no reference. Fails where the text is no YAML
/// or the document no action file.
pub fn parse_composite_action(yaml: &str) -> (r: Result<Option<Vec<ActionRef>>, WorkflowError>)
    ensures
        match yaml_document(yaml@) {
            None => r matches Err(e) && e is Syntax,
            Some(t) => match composite_children(t) {
                None => r matches Err(e) && e is Shape,
                Some(None) => r matches Ok(None),
                Some(Some(children)) => r matches Ok(Some(v)) && ref_views(v@) == children,
            },
        },
{
    match parse_yaml(yaml) {
        Ok(doc) => composite_refs(&doc),
        Err(m) => Err(WorkflowError::Syntax(m)),
    }
}

} // verus!
