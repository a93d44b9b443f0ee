//! What a user is told about a document that could be read only in part:
//! the jobs that were skipped and the `uses:` strings that are no
//! reference. A warning is a result of the reading, not a side effect.
use crate::action_ref::{ActionRef, ActionRefView, RefParseError};
use crate::audit::{order_refs, ordered};
use crate::context::ref_views;
use crate::text::texts;
use crate::workflow::{
    action_uses, classified, classify_uses, composite_uses, fault_views, job_uses, jobs_of,
    jobs_skipped_upto, jobs_uses_upto, third_party_of, third_party_refs, unclassified_upto,
    unparseable_uses, workflow_refs_of, workflow_uses, WorkflowError,
};
use crate::yaml::{parse_yaml, scalar_text, yaml_document, Yaml, YamlTree};
use vstd::prelude::*;

verus! {

/// Something that a user is told and that does not stop the reading.
#[derive(Debug)]
pub enum Warning {
    /// A job could not be read and was skipped; with its name.
    SkippedJob(String),
    /// A `uses:` string is no reference and was left out; with the reason.
    BadReference(String, RefParseError),
}

/// Mathematical value of a [`Warning`].
pub enum WarningView {
    SkippedJob(Seq<char>),
    BadReference(Seq<char>, RefParseError),
}

impl View for Warning {
    type V = WarningView;

    open spec fn view(&self) -> WarningView {
        match *self {
            Warning::SkippedJob(name) => WarningView::SkippedJob(name@),
            Warning::BadReference(uses, e) => WarningView::BadReference(uses@, e),
        }
    }
}

/// The views of a list of warnings.
pub open spec fn warning_views(v: Seq<Warning>) -> Seq<WarningView> {
    Seq::new(v.len(), |i: int| v[i]@)
}

/// The line that a warning is shown as.
pub open spec fn warning_text(w: WarningView) -> Seq<char> {
    match w {
        WarningView::SkippedJob(name) => "failed to parse job: "@ + name,
        WarningView::BadReference(uses, e) => "failed to parse action reference "@ + uses + ": "@
            + (match e {
            RefParseError::MissingAt => "missing '@' in action reference"@,
            RefParseError::MissingRepo => "expected owner/repo in action reference"@,
            RefParseError::EmptyOwner => "empty owner in action reference"@,
            RefParseError::EmptyRepo => "empty repo in action reference"@,
        }),
    }
}

impl Warning {
    /// The warning as one line.
    pub fn to_string(&self) -> (s: String)
        ensures
            s@ == warning_text(self@),
    {
        match self {
            Warning::SkippedJob(name) => {
                let mut s = "failed to parse job: ".to_owned();
                s.append(name.as_str());
                s
            },
            Warning::BadReference(uses, e) => {
                let mut s = "failed to parse action reference ".to_owned();
                s.append(uses.as_str());
                s.append(": ");
                let reason = e.to_string();
                s.append(reason.as_str());
                s
            },
        }
    }
}

/// One warning for each skipped job, in order.
pub open spec fn job_warnings(names: Seq<Seq<char>>) -> Seq<WarningView> {
    Seq::new(names.len(), |i: int| WarningView::SkippedJob(names[i]))
}

/// One warning for each string that is no reference, in order.
pub open spec fn reference_warnings(faults: Seq<(Seq<char>, RefParseError)>) -> Seq<WarningView> {
    Seq::new(faults.len(), |i: int| WarningView::BadReference(faults[i].0, faults[i].1))
}

/// The warnings about a workflow document: first one for each job that
/// cannot be read, in document order; then one for each `uses:` string of
/// the other jobs that is no reference, in document order. None for a
/// document that is no workflow.
pub open spec fn workflow_warnings_of(root: YamlTree) -> Seq<WarningView> {
    match jobs_of(root) {
        Some(jobs) => {
            let uses = jobs_uses_upto(jobs, jobs.len());
            job_warnings(jobs_skipped_upto(jobs, jobs.len())) + reference_warnings(
                unclassified_upto(uses, uses.len()),
            )
        },
        None => Seq::empty(),
    }
}

/// The warnings about an action file: one for each `uses:` string of the
/// steps of a composite action that is no reference, in order. None for
/// any other document.
pub open spec fn composite_warnings_of(root: YamlTree) -> Seq<WarningView> {
    match action_uses(root) {
        Some(Some(uses)) => reference_warnings(unclassified_upto(uses, uses.len())),
        _ => Seq::empty(),
    }
}

fn warn_jobs(names: &Vec<String>, out: &mut Vec<Warning>)
    ensures
        warning_views(final(out)@) == warning_views(old(out)@) + job_warnings(texts(names@)),
{
    let ghost base = warning_views(out@);
    let ghost nv = texts(names@);
    let mut i: usize = 0;
    proof {
        assert(warning_views(out@) =~= base + job_warnings(nv).subrange(0, 0));
    }
    while i < names.len()
        invariant
            i <= names@.len(),
            nv == texts(names@),
            warning_views(out@) == base + job_warnings(nv).subrange(0, i as int),
        decreases names@.len() - i,
    {
        let ghost before = warning_views(out@);
        let w = Warning::SkippedJob(names[i].clone());
        assert(w@ == job_warnings(nv)[i as int]);
        out.push(w);
        proof {
            assert(warning_views(out@) =~= before.push(job_warnings(nv)[i as int]));
            assert(warning_views(out@) =~= base + job_warnings(nv).subrange(0, i + 1));
        }
        i = i + 1;
    }
    proof {
        assert(job_warnings(nv).subrange(0, nv.len() as int) =~= job_warnings(nv));
    }
}

fn warn_references(faults: &Vec<(String, RefParseError)>, out: &mut Vec<Warning>)
    ensures
        warning_views(final(out)@) == warning_views(old(out)@) + reference_warnings(
            fault_views(faults@),
        ),
{
    let ghost base = warning_views(out@);
    let ghost fv = fault_views(faults@);
    let mut i: usize = 0;
    proof {
        assert(warning_views(out@) =~= base + reference_warnings(fv).subrange(0, 0));
    }
    while i < faults.len()
        invariant
            i <= faults@.len(),
            fv == fault_views(faults@),
            warning_views(out@) == base + reference_warnings(fv).subrange(0, i as int),
        decreases faults@.len() - i,
    {
        let ghost before = warning_views(out@);
        let w = Warning::BadReference(faults[i].0.clone(), faults[i].1);
        assert(w@ == reference_warnings(fv)[i as int]);
        out.push(w);
        proof {
            assert(warning_views(out@) =~= before.push(reference_warnings(fv)[i as int]));
            assert(warning_views(out@) =~= base + reference_warnings(fv).subrange(0, i + 1));
        }
        i = i + 1;
    }
    proof {
        assert(reference_warnings(fv).subrange(0, fv.len() as int) =~= reference_warnings(fv));
    }
}

/// The warnings about a workflow document.
pub fn workflow_warnings(doc: &Yaml) -> (w: Vec<Warning>)
    ensures
        warning_views(w@) == workflow_warnings_of(doc@),
{
    let mut out: Vec<Warning> = Vec::new();
    match workflow_uses(doc) {
        Ok(found) => {
            warn_jobs(&found.skipped_jobs, &mut out);
            let faults = unparseable_uses(&found.uses);
            warn_references(&faults, &mut out);
            proof {
                assert(Seq::<WarningView>::empty() + job_warnings(texts(found.skipped_jobs@))
                    =~= job_warnings(texts(found.skipped_jobs@)));
            }
        },
        Err(_) => {},
    }
    out
}

/// The warnings about an action file.
pub fn composite_warnings(doc: &Yaml) -> (w: Vec<Warning>)
    ensures
        warning_views(w@) == composite_warnings_of(doc@),
{
    let mut out: Vec<Warning> = Vec::new();
    match composite_uses(doc) {
        Ok(Some(uses)) => {
            let faults = unparseable_uses(&uses);
            warn_references(&faults, &mut out);
            proof {
                assert(Seq::<WarningView>::empty() + reference_warnings(fault_views(faults@))
                    =~= reference_warnings(fault_views(faults@)));
            }
        },
        _ => {},
    }
    out
}

/// The roots of an audit, and what the user is told about the workflow
/// they were read from.
#[derive(Debug)]
pub struct Roots {
    /// The third-party references, in order, each once.
    pub roots: Vec<ActionRef>,
    /// The warnings about the workflow.
    pub warnings: Vec<Warning>,
}

/// Reads the roots of an audit from a workflow text, with the warnings:
/// the roots are the third-party references of the jobs that can be read,
/// in order of owner, repository, path and ref, each once; every job that
/// cannot be read and every `uses:` string that is no reference gives a
/// warning and nothing else. Fails where the text is no YAML or no
/// workflow.
pub fn read_roots(yaml: &str) -> (r: Result<Roots, WorkflowError>)
    ensures
        match yaml_document(yaml@) {
            None => r matches Err(e) && e is Syntax,
            Some(t) => match workflow_refs_of(t) {
                None => r matches Err(e) && e is Shape,
                Some(refs) => r matches Ok(found) && ref_views(found.roots@) == ordered(
                    third_party_of(refs),
                ) && warning_views(found.warnings@) == workflow_warnings_of(t),
            },
        },
{
    let doc = match parse_yaml(yaml) {
        Ok(doc) => doc,
        Err(m) => {
            return Err(WorkflowError::Syntax(m));
        },
    };
    let found = match workflow_uses(&doc) {
        Ok(found) => found,
        Err(e) => {
            return Err(e);
        },
    };
    let roots = order_refs(third_party_refs(classify_uses(&found.uses)));
    let warnings = workflow_warnings(&doc);
    Ok(Roots { roots, warnings })
}

/// The names of the skipped jobs are those of the jobs that cannot be
/// read, and no others.
pub proof fn skipped_jobs_are_the_unreadable(
    jobs: Seq<(YamlTree, YamlTree)>,
    n: nat,
    name: Seq<char>,
)
    requires
        n <= jobs.len(),
    ensures
        jobs_skipped_upto(jobs, n).contains(name) <==> exists|k: int|
            0 <= k < n && job_uses((#[trigger] jobs[k]).1) is None && scalar_text(jobs[k].0)->0
                == name,
    decreases n,
{
    if n > 0 {
        let before = jobs_skipped_upto(jobs, (n - 1) as nat);
        let all = jobs_skipped_upto(jobs, n);
        skipped_jobs_are_the_unreadable(jobs, (n - 1) as nat, name);
        let last = jobs[n - 1];
        if all.contains(name) {
            let w = choose|w: int| 0 <= w < all.len() && all[w] == name;
            if job_uses(last.1) is None && w == before.len() {
                assert(scalar_text(last.0)->0 == name);
            } else {
                assert(before[w] == name);
                assert(before.contains(name));
            }
        }
        if exists|k: int|
            0 <= k < n && job_uses((#[trigger] jobs[k]).1) is None && scalar_text(jobs[k].0)->0
                == name {
            let k = choose|k: int|
                0 <= k < n && job_uses((#[trigger] jobs[k]).1) is None && scalar_text(
                    jobs[k].0,
                )->0 == name;
            if k == n - 1 {
                assert(all[before.len() as int] == name);
            } else {
                let w = choose|w: int| 0 <= w < before.len() && before[w] == name;
                assert(all[w] == name);
            }
        }
    }
}

/// Partial reading: a workflow with a job that cannot be read is read all
/// the same. A warning names a job exactly if the job cannot be read; so
/// every such job is named, and no job that was read is named unless
/// another of its name was skipped.
pub proof fn warned_jobs_are_the_unreadable(root: YamlTree, name: Seq<char>)
    requires
        jobs_of(root) is Some,
    ensures
        workflow_warnings_of(root).contains(WarningView::SkippedJob(name)) <==> exists|k: int|
            0 <= k < jobs_of(root)->0.len() && job_uses((#[trigger] jobs_of(root)->0[k]).1) is None
                && scalar_text(jobs_of(root)->0[k].0)->0 == name,
{
    let jobs = jobs_of(root)->0;
    let skipped = jobs_skipped_upto(jobs, jobs.len());
    let uses = jobs_uses_upto(jobs, jobs.len());
    let first = job_warnings(skipped);
    let second = reference_warnings(unclassified_upto(uses, uses.len()));
    let all = workflow_warnings_of(root);
    let wanted = WarningView::SkippedJob(name);
    skipped_jobs_are_the_unreadable(jobs, jobs.len(), name);
    if all.contains(wanted) {
        let w = choose|w: int| 0 <= w < all.len() && all[w] == wanted;
        if w < first.len() {
            assert(first[w] == wanted);
            assert(skipped[w] == name);
        } else {
            assert(second[w - first.len()] == wanted);
        }
    }
    if skipped.contains(name) {
        let w = choose|w: int| 0 <= w < skipped.len() && skipped[w] == name;
        assert(all[w] == first[w]);
        assert(first[w] == wanted);
    }
}

} // verus!
