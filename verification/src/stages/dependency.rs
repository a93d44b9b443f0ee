//! The dependency stage: advisories for the packages that a node's
//! repository depends on.
use crate::advisory::{
    advisory_views, dedup_spec, deduplicate_advisories, Advisory, AdvisoryView,
};
use crate::context::{
    error_views, same_inputs, with_error, AuditContext, AuditContextView, StageError,
    StageErrorView,
};
use crate::deps::{
    copy_advisories, npm_packages, pair_views, parse_npm_dependencies, report_views,
    DependencyReport, DependencyReportView,
};
use crate::github::{raw_request, Reply, ReplyView, Request, RequestView};
use crate::json::json_document;
use crate::providers::PackageAdvisoryProvider;
use crate::scan::{has_ecosystem, opt_scan, Ecosystem, ScanResultView};
use crate::stages::advisory::{
    answer_views, failures_upto, reported_upto, SourceAnswer, SourceAnswerView,
};
use crate::stages::Step;
use std::sync::Arc;
use vstd::prelude::*;

verus! {

/// The stage waits for the package manifest.
#[derive(Debug, Clone, Copy, PartialEq, Eq, Structural)]
pub struct Manifest;

/// What the sources answered about one package.
#[derive(Debug)]
pub struct PackageAnswers {
    pub package: String,
    pub version: String,
    /// The answers of the sources, in their order.
    pub answers: Vec<SourceAnswer>,
}

/// Mathematical value of a [`PackageAnswers`].
pub struct PackageAnswersView {
    pub package: Seq<char>,
    pub version: Seq<char>,
    pub answers: Seq<SourceAnswerView>,
}

impl View for PackageAnswers {
    type V = PackageAnswersView;

    open spec fn view(&self) -> PackageAnswersView {
        PackageAnswersView {
            package: self.package@,
            version: self.version@,
            answers: answer_views(self.answers@),
        }
    }
}

/// The views of a list of answers about packages.
pub open spec fn package_views(v: Seq<PackageAnswers>) -> Seq<PackageAnswersView> {
    Seq::new(v.len(), |i: int| v[i]@)
}

/// The advisories of one package: what its sources reported, merged.
pub open spec fn package_advisories(p: PackageAnswersView) -> Seq<AdvisoryView> {
    dedup_spec(reported_upto(p.answers, p.answers.len()))
}

/// The failures among the first `n` answers about one package, each as an
/// error that names source and package: `source: package: message`.
pub open spec fn package_failures_upto(p: PackageAnswersView, n: nat) -> Seq<StageErrorView>
    decreases n,
{
    if n == 0 || n > p.answers.len() {
        Seq::empty()
    } else {
        let before = package_failures_upto(p, (n - 1) as nat);
        match p.answers[n - 1].result {
            Ok(_) => before,
            Err(e) => before.push(
                StageErrorView {
                    stage: "Dependency"@,
                    message: p.answers[n - 1].source + ": "@ + p.package + ": "@ + e,
                },
            ),
        }
    }
}

/// The reports of the first `n` packages: one for each package with an
/// advisory, in order.
pub open spec fn reports_upto(packages: Seq<PackageAnswersView>, n: nat) -> Seq<
    DependencyReportView,
>
    decreases n,
{
    if n == 0 || n > packages.len() {
        Seq::empty()
    } else {
        let before = reports_upto(packages, (n - 1) as nat);
        let p = packages[n - 1];
        if package_advisories(p).len() > 0 {
            before.push(
                DependencyReportView {
                    package: p.package,
                    version: p.version,
                    ecosystem: Ecosystem::Npm,
                    advisories: package_advisories(p),
                },
            )
        } else {
            before
        }
    }
}

/// The failures of the first `n` packages, package by package.
pub open spec fn all_failures_upto(packages: Seq<PackageAnswersView>, n: nat) -> Seq<
    StageErrorView,
>
    decreases n,
{
    if n == 0 || n > packages.len() {
        Seq::empty()
    } else {
        all_failures_upto(packages, (n - 1) as nat) + package_failures_upto(
            packages[n - 1],
            packages[n - 1].answers.len(),
        )
    }
}

/// The context once the answers about its packages are taken in: the
/// dependency reports are those of the packages with an advisory; every
/// failure of a source stands behind the errors already there.
pub open spec fn reported(ctx: AuditContextView, packages: Seq<PackageAnswersView>)
    -> AuditContextView {
    AuditContextView {
        dependencies: reports_upto(packages, packages.len()),
        errors: ctx.errors + all_failures_upto(packages, packages.len()),
        ..ctx
    }
}

fn gather(answers: &Vec<SourceAnswer>) -> (all: Vec<Advisory>)
    ensures
        advisory_views(all@) == reported_upto(answer_views(answers@), answers@.len() as nat),
{
    let ghost av = answer_views(answers@);
    let mut all: Vec<Advisory> = Vec::new();
    let mut i: usize = 0;
    assert(advisory_views(all@) =~= reported_upto(av, 0));
    while i < answers.len()
        invariant
            i <= answers@.len(),
            av == answer_views(answers@),
            advisory_views(all@) == reported_upto(av, i as nat),
        decreases answers@.len() - i,
    {
        let ghost before = advisory_views(all@);
        assert(av[i as int] == answers@[i as int]@);
        match &answers[i].result {
            Ok(advs) => {
                let mut copy = copy_advisories(advs);
                let ghost cv = advisory_views(copy@);
                all.append(&mut copy);
                assert(advisory_views(all@) =~= before + cv);
            },
            Err(_) => {},
        }
        i = i + 1;
    }
    all
}

fn record_failures(ctx: &mut AuditContext, p: &PackageAnswers)
    ensures
        final(ctx)@ == (AuditContextView {
            errors: old(ctx)@.errors + package_failures_upto(p@, p@.answers.len()),
            ..old(ctx)@
        }),
{
    let ghost errors0 = ctx@.errors;
    let mut i: usize = 0;
    assert(ctx@.errors =~= errors0 + package_failures_upto(p@, 0));
    while i < p.answers.len()
        invariant
            i <= p.answers@.len(),
            ctx@ == (AuditContextView {
                errors: errors0 + package_failures_upto(p@, i as nat),
                ..old(ctx)@
            }),
        decreases p.answers@.len() - i,
    {
        assert(p@.answers[i as int] == p.answers@[i as int]@);
        match &p.answers[i].result {
            Ok(_) => {},
            Err(e) => {
                let mut message = p.answers[i].source.clone();
                message.append(": ");
                message.append(p.package.as_str());
                message.append(": ");
                message.append(e.as_str());
                ctx.record_error("Dependency", message.as_str());
                assert(ctx@.errors =~= errors0 + package_failures_upto(p@, (i + 1) as nat));
            },
        }
        i = i + 1;
    }
}

/// Takes the answers about the packages of a node into its context.
pub fn report_packages(ctx: &mut AuditContext, packages: Vec<PackageAnswers>)
    ensures
        final(ctx)@ == reported(old(ctx)@, package_views(packages@)),
{
    let ghost pv = package_views(packages@);
    let ghost errors0 = ctx@.errors;
    let mut reports: Vec<DependencyReport> = Vec::new();
    let mut i: usize = 0;
    proof {
        assert(report_views(reports@) =~= reports_upto(pv, 0));
        assert(ctx@.errors =~= errors0 + all_failures_upto(pv, 0));
    }
    while i < packages.len()
        invariant
            i <= packages@.len(),
            pv == package_views(packages@),
            report_views(reports@) == reports_upto(pv, i as nat),
            ctx@ == (AuditContextView {
                errors: errors0 + all_failures_upto(pv, i as nat),
                ..old(ctx)@
            }),
        decreases packages@.len() - i,
    {
        let ghost before = report_views(reports@);
        let p = &packages[i];
        assert(pv[i as int] == p@);
        record_failures(ctx, p);
        assert(ctx@.errors =~= errors0 + all_failures_upto(pv, (i + 1) as nat));
        let advisories = deduplicate_advisories(gather(&p.answers));
        if advisories.len() > 0 {
            let report = DependencyReport {
                package: p.package.clone(),
                version: p.version.clone(),
                ecosystem: Ecosystem::Npm,
                advisories,
            };
            reports.push(report);
            assert(report_views(reports@) =~= before.push(reports@[before.len() as int]@));
        }
        i = i + 1;
    }
    ctx.dependencies = reports;
}

/// Whether `answer` is what source `i` of `sources` may answer about the
/// npm package `package`, under that source's name.
pub open spec fn package_answer_of(
    sources: Seq<Arc<dyn PackageAdvisoryProvider>>,
    i: int,
    package: Seq<char>,
    answer: SourceAnswerView,
) -> bool {
    sources[i].answers(package, "npm"@, answer.result) && sources[i].named(answer.source)
}

/// Whether `answers` are one answer of each of `sources` about the npm
/// package `package`, in the order of the sources.
pub open spec fn package_answered(
    sources: Seq<Arc<dyn PackageAdvisoryProvider>>,
    package: Seq<char>,
    answers: Seq<SourceAnswerView>,
) -> bool {
    answers.len() == sources.len() && forall|k: int|
        0 <= k < answers.len() ==> package_answer_of(sources, k, package, #[trigger] answers[k])
}

/// Whether `packages` are the answers about the packages `wanted`, in
/// order, each with one answer of each of `sources`.
pub open spec fn asked_about(
    packages: Seq<PackageAnswersView>,
    wanted: Seq<(Seq<char>, Seq<char>)>,
    sources: Seq<Arc<dyn PackageAdvisoryProvider>>,
) -> bool {
    &&& packages.len() == wanted.len()
    &&& forall|i: int|
        0 <= i < packages.len() ==> (#[trigger] packages[i]).package == wanted[i].0
            && packages[i].version == wanted[i].1 && package_answered(
            sources,
            wanted[i].0,
            packages[i].answers,
        )
}

/// Whether a scan found the manifest of npm.
pub open spec fn has_npm(scan: Option<ScanResultView>) -> bool {
    match scan {
        Some(s) => s.ecosystems.contains(Ecosystem::Npm),
        None => false,
    }
}

/// Looks for advisories about the dependencies of a node.
pub struct DependencyStage {
    providers: Vec<Arc<dyn PackageAdvisoryProvider>>,
}

impl DependencyStage {
    /// The sources, in the order in which they are asked.
    pub closed spec fn sources(&self) -> Seq<Arc<dyn PackageAdvisoryProvider>> {
        self.providers@
    }

    /// Number of sources.
    pub open spec fn len(&self) -> nat {
        self.sources().len()
    }

    /// A stage over `providers`, asked in this order.
    pub fn new(providers: Vec<Arc<dyn PackageAdvisoryProvider>>) -> (s: DependencyStage)
        ensures
            s.sources() == providers@,
    {
        DependencyStage { providers }
    }

    /// The name under which failures are recorded.
    pub fn name(&self) -> (n: &'static str)
        ensures
            n@ == "Dependency"@,
    {
        "Dependency"
    }

    /// Asks for `package.json` where a scan before found the manifest of
    /// npm; else the stage has nothing to do.
    pub fn start(&self, ctx: &AuditContext) -> (step: Step<Manifest>)
        ensures
            match step {
                Step::Ask(req, _) => has_npm(ctx@.scan) && req@ == (RequestView::Raw {
                    owner: ctx@.action.owner,
                    repo: ctx@.action.repo,
                    git_ref: ctx@.action.git_ref,
                    path: "package.json"@,
                }),
                Step::Done(r) => !has_npm(ctx@.scan) && r is Ok,
            },
    {
        let found = match &ctx.scan {
            Some(s) => has_ecosystem(&s.ecosystems, Ecosystem::Npm),
            None => false,
        };
        if found {
            Step::Ask(raw_request(&ctx.action, "package.json"), Manifest)
        } else {
            Step::Done(Ok(()))
        }
    }

    /// Asks every source about one npm package, in order, and returns
    /// what each answered, under the name of the source.
    pub fn ask_sources(&self, package: &str) -> (answers: Vec<SourceAnswer>)
        ensures
            package_answered(self.sources(), package@, answer_views(answers@)),
    {
        let mut answers: Vec<SourceAnswer> = Vec::new();
        let mut k: usize = 0;
        while k < self.providers.len()
            invariant
                k <= self.providers@.len(),
                answers@.len() == k,
                forall|j: int|
                    0 <= j < k ==> package_answer_of(
                        self.providers@,
                        j,
                        package@,
                        (#[trigger] answers@[j])@,
                    ),
            decreases self.providers@.len() - k,
        {
            let result = self.providers[k].query(package, "npm");
            let source = self.providers[k].name().to_owned();
            let ghost earlier = answers@;
            let answer = SourceAnswer { source, result };
            assert(package_answer_of(self.providers@, k as int, package@, answer@));
            answers.push(answer);
            assert forall|j: int| 0 <= j < k + 1 implies package_answer_of(
                self.providers@,
                j,
                package@,
                (#[trigger] answers@[j])@,
            ) by {
                if j < k {
                    assert(answers@[j] == earlier[j]);
                }
            }
            k = k + 1;
        }
        answers
    }

    /// Asks every source about every package, in order.
    pub fn ask_all(&self, packages: Vec<(String, String)>) -> (out: Vec<PackageAnswers>)
        ensures
            asked_about(package_views(out@), pair_views(packages@), self.sources()),
    {
        let mut out: Vec<PackageAnswers> = Vec::new();
        let mut i: usize = 0;
        while i < packages.len()
            invariant
                i <= packages@.len(),
                out@.len() == i,
                forall|k: int|
                    0 <= k < i ==> (#[trigger] out@[k])@.package == packages@[k].0@
                        && out@[k]@.version == packages@[k].1@ && package_answered(
                        self.sources(),
                        packages@[k].0@,
                        out@[k]@.answers,
                    ),
            decreases packages@.len() - i,
        {
            let answers = self.ask_sources(packages[i].0.as_str());
            let ghost earlier = out@;
            let entry = PackageAnswers {
                package: packages[i].0.clone(),
                version: packages[i].1.clone(),
                answers,
            };
            assert(entry@.answers == answer_views(entry.answers@));
            out.push(entry);
            assert forall|k: int| 0 <= k < i + 1 implies (#[trigger] out@[k])@.package
                == packages@[k].0@ && out@[k]@.version == packages@[k].1@ && package_answered(
                self.sources(),
                packages@[k].0@,
                out@[k]@.answers,
            ) by {
                if k < i {
                    assert(out@[k] == earlier[k]);
                }
            }
            i = i + 1;
        }
        proof {
            let pv = package_views(out@);
            let wanted = pair_views(packages@);
            assert forall|k: int| 0 <= k < pv.len() implies (#[trigger] pv[k]).package
                == wanted[k].0 && pv[k].version == wanted[k].1 && package_answered(
                self.sources(),
                wanted[k].0,
                pv[k].answers,
            ) by {
                assert(pv[k] == out@[k]@);
            }
        }
        out
    }

    /// Takes the answer for `package.json`. A manifest that cannot be had
    /// or read leaves an error on the node. For a manifest without
    /// dependencies nothing changes. Else every source is asked about
    /// every dependency, and the node gets a report for each package with
    /// an advisory. The stage itself never fails.
    pub fn resume(&self, waiting: Manifest, reply: Reply, ctx: &mut AuditContext) -> (step: Step<
        Manifest,
    >)
        ensures
            step matches Step::Done(Ok(_)),
            same_inputs(final(ctx)@, old(ctx)@),
            match reply@ {
                ReplyView::Failed(m) => final(ctx)@ == with_error(old(ctx)@, "Dependency"@, m),
                ReplyView::Missing => final(ctx)@ == with_error(
                    old(ctx)@,
                    "Dependency"@,
                    "package.json not found"@,
                ),
                ReplyView::Body(text) => match json_document(text) {
                    None => final(ctx)@ == with_error(
                        old(ctx)@,
                        "Dependency"@,
                        "failed to parse package.json"@,
                    ),
                    Some(t) => if npm_packages(t).len() == 0 {
                        final(ctx)@ == old(ctx)@
                    } else {
                        exists|packages: Seq<PackageAnswersView>|
                            asked_about(packages, npm_packages(t), self.sources()) && final(ctx)@
                                == #[trigger] reported(old(ctx)@, packages)
                    },
                },
            },
    {
        match reply {
            Reply::Failed(m) => {
                ctx.record_error("Dependency", m.as_str());
            },
            Reply::Missing => {
                ctx.record_error("Dependency", "package.json not found");
            },
            Reply::Body(text) => match parse_npm_dependencies(text.as_str()) {
                Err(_) => {
                    ctx.record_error("Dependency", "failed to parse package.json");
                },
                Ok(packages) => {
                    if packages.len() > 0 {
                        let ghost wanted = pair_views(packages@);
                        let answers = self.ask_all(packages);
                        let ghost pv = package_views(answers@);
                        report_packages(ctx, answers);
                        assert(asked_about(pv, wanted, self.sources()) && ctx@ == reported(
                            old(ctx)@,
                            pv,
                        ));
                    }
                },
            },
        }
        Step::Done(Ok(()))
    }
}

} // verus!
