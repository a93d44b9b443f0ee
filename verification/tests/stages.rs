use ghss::action_ref::ActionRef;
use ghss::audit::{order_refs, parse_actions, plan_stages, StageKind};
use ghss::context::AuditContext;
use ghss::depth::DepthLimit;
use ghss::github::{Reply, Request};
use ghss::scan::Ecosystem;
use ghss::selection::ScanSelection;
use ghss::stages::composite::{ActionFile, CompositeExpandStage};
use ghss::stages::resolve::{decide, Decision, RefLookup, RefResolveStage};
use ghss::stages::scan_stage::{ScanAnswer, ScanStage};
use ghss::stages::workflow_expand::{WorkflowExpandStage, WorkflowFile};
use ghss::stages::Step;

fn ctx_for(raw: &str) -> AuditContext {
    AuditContext::new(raw.parse().unwrap(), 0, None, Some(0))
}

fn raw_path(step: &Step<impl std::fmt::Debug>) -> String {
    match step {
        Step::Ask(Request::Raw { owner, repo, git_ref, path }, _) => format!("{owner}/{repo}@{git_ref}:{path}"),
        other => panic!("unexpected step {other:?}"),
    }
}

fn api_path<W: std::fmt::Debug>(step: Step<W>) -> (String, W) {
    match step {
        Step::Ask(Request::Api { path }, w) => (path, w),
        other => panic!("unexpected step {other:?}"),
    }
}

fn errors(ctx: &AuditContext) -> Vec<String> {
    ctx.errors.iter().map(|e| format!("{}: {}", e.stage, e.message)).collect()
}

fn children(ctx: &AuditContext) -> Vec<String> {
    ctx.children.iter().map(|c| c.raw.clone()).collect()
}

#[test]
fn sha_ref_resolved_immediately() {
    let sha = "b4ffde65f46336ab88eb53be808477a3936bae11";
    let action: ActionRef = format!("actions/checkout@{sha}").parse().unwrap();
    let stage = RefResolveStage::new();

    let mut ctx = AuditContext::new(action, 0, None, Some(0));
    // the stage ends at once: no request is asked for
    assert!(matches!(stage.start(&mut ctx), Step::Done(Ok(()))));

    assert_eq!(ctx.resolved_ref, Some(sha.to_string()));
    assert!(ctx.errors.is_empty());
}

#[test]
fn sha_ref_returns_immediately() {
    let mut ctx = ctx_for("actions/checkout@b4ffde65f46336ab88eb53be808477a3936bae11");
    let step = RefResolveStage::new().start(&mut ctx);
    assert!(matches!(step, Step::Done(Ok(()))));
    assert_eq!(ctx.resolved_ref.as_deref(), Some("b4ffde65f46336ab88eb53be808477a3936bae11"));
}

#[test]
fn records_error_on_failure() {
    let action: ActionRef = "actions/checkout@v4".parse().unwrap();
    let stage = RefResolveStage::new();

    let mut ctx = AuditContext::new(action, 0, None, Some(0));
    let (_, waiting) = api_path(stage.start(&mut ctx));
    let step = stage.resume(waiting, Reply::Failed("request to http://127.0.0.1:1 failed".to_string()), &mut ctx);
    assert!(matches!(step, Step::Done(Ok(()))));

    assert!(ctx.resolved_ref.is_none());
    assert_eq!(ctx.errors.len(), 1);
    assert_eq!(ctx.errors[0].stage, "RefResolve");
}

#[test]
fn resolve_follows_tag_then_branch_then_tag_object() {
    let stage = RefResolveStage::new();
    let mut ctx = ctx_for("actions/checkout@v4");
    let (path, waiting) = api_path(stage.start(&mut ctx));
    assert_eq!(path, "/repos/actions/checkout/git/ref/tags/v4");
    assert_eq!(waiting, RefLookup::TagRef);

    let (path, waiting) = api_path(stage.resume(waiting, Reply::Missing, &mut ctx));
    assert_eq!(path, "/repos/actions/checkout/git/ref/heads/v4");
    assert_eq!(waiting, RefLookup::BranchRef);

    let annotated = r#"{"object": {"type": "tag", "sha": "7a6"}}"#;
    let (path, waiting) = api_path(stage.resume(waiting, Reply::Body(annotated.to_string()), &mut ctx));
    assert_eq!(path, "/repos/actions/checkout/git/tags/7a6");
    assert_eq!(waiting, RefLookup::TagObject);
    assert!(ctx.resolved_ref.is_none());

    let object = r#"{"object": {"type": "commit", "sha": "c0ffee"}}"#;
    let step = stage.resume(waiting, Reply::Body(object.to_string()), &mut ctx);
    assert!(matches!(step, Step::Done(Ok(()))));
    assert_eq!(ctx.resolved_ref.as_deref(), Some("c0ffee"));
    assert!(ctx.errors.is_empty());
    assert_eq!(stage.name(), "RefResolve");
}

#[test]
fn resolve_records_each_fault() {
    let stage = RefResolveStage::new();
    let outcome = |waiting: RefLookup, reply: Reply| {
        let mut ctx = ctx_for("actions/checkout@main");
        let step = stage.resume(waiting, reply, &mut ctx);
        assert!(matches!(step, Step::Done(Ok(()))));
        assert!(ctx.resolved_ref.is_none());
        errors(&ctx)
    };
    assert_eq!(outcome(RefLookup::BranchRef, Reply::Missing), vec!["RefResolve: ref not found as tag or branch"]);
    assert_eq!(outcome(RefLookup::TagObject, Reply::Missing), vec!["RefResolve: tag object returned HTTP 404"]);
    assert_eq!(
        outcome(RefLookup::TagRef, Reply::Body("oops".to_string())),
        vec!["RefResolve: failed to parse JSON in ref response"]
    );
    assert_eq!(
        outcome(RefLookup::TagRef, Reply::Body(r#"{"object": {"type": "tree", "sha": "1"}}"#.to_string())),
        vec!["RefResolve: unexpected ref object type: tree"]
    );
    assert_eq!(
        outcome(RefLookup::TagObject, Reply::Body(r#"{"object": {"type": "commit"}}"#.to_string())),
        vec!["RefResolve: missing commit sha in annotated tag"]
    );
    assert_eq!(
        outcome(RefLookup::BranchRef, Reply::Body("{}".to_string())),
        vec!["RefResolve: missing 'object' in ref response"]
    );
    let action: ActionRef = "a/b@main".parse().unwrap();
    let commit = Reply::Body(r#"{"object": {"type": "commit", "sha": "abc"}}"#.to_string());
    assert!(matches!(decide(RefLookup::BranchRef, &commit, &action), Decision::Resolved(s) if s == "abc"));
}

#[test]
fn composite_stage_tries_both_file_names() {
    let stage = CompositeExpandStage::new();
    let mut ctx = ctx_for("some/composite@v1");
    let first = stage.start(&ctx);
    assert_eq!(raw_path(&first), "some/composite@v1:action.yml");
    let second = stage.resume(ActionFile::Yml, Reply::Missing, &mut ctx);
    assert_eq!(raw_path(&second), "some/composite@v1:action.yaml");
    assert!(matches!(second, Step::Ask(_, ActionFile::Yaml)));
    let done = stage.resume(ActionFile::Yaml, Reply::Missing, &mut ctx);
    assert!(matches!(done, Step::Done(Ok(()))));
    assert!(ctx.children.is_empty() && ctx.errors.is_empty());
    assert_eq!(stage.name(), "CompositeExpand");
}

#[test]
fn composite_stage_appends_the_children_of_a_composite_action() {
    let stage = CompositeExpandStage::new();
    let mut ctx = ctx_for("some/composite@v1");
    ctx.children.push("already/there@v1".parse().unwrap());
    let yaml = "runs:\n  using: \"composite\"\n  steps:\n    - uses: actions/checkout@v4\n    - uses: ./local\n    - uses: docker://alpine\n    - uses: some/real@v2\n";
    let step = stage.resume(ActionFile::Yml, Reply::Body(yaml.to_string()), &mut ctx);
    assert!(matches!(step, Step::Done(Ok(()))));
    assert_eq!(children(&ctx), vec!["already/there@v1", "actions/checkout@v4", "some/real@v2"]);

    let mut other = ctx_for("some/node@v1");
    let node = "runs:\n  using: node20\n  main: index.js\n";
    assert!(matches!(stage.resume(ActionFile::Yaml, Reply::Body(node.to_string()), &mut other), Step::Done(Ok(()))));
    assert!(other.children.is_empty());
}

#[test]
fn composite_stage_records_what_it_cannot_read_and_succeeds() {
    let stage = CompositeExpandStage::new();
    let mut ctx = ctx_for("some/composite@v1");
    ctx.children.push("already/there@v1".parse().unwrap());
    let failed = stage.resume(ActionFile::Yml, Reply::Failed("HTTP 500".to_string()), &mut ctx);
    assert!(matches!(failed, Step::Done(Ok(()))));
    assert_eq!(ctx.errors.len(), 1);
    assert_eq!(ctx.errors[0].stage, "CompositeExpand");
    assert_eq!(ctx.errors[0].message, "HTTP 500");
    let broken = stage.resume(ActionFile::Yml, Reply::Body("a: [".to_string()), &mut ctx);
    assert!(matches!(broken, Step::Done(Ok(()))));
    assert_eq!(ctx.errors.len(), 2);
    assert_eq!(ctx.errors[1].stage, "CompositeExpand");
    assert!(!ctx.errors[1].message.is_empty());
    let shapeless = stage.resume(ActionFile::Yaml, Reply::Body("- list".to_string()), &mut ctx);
    assert!(matches!(shapeless, Step::Done(Ok(()))));
    assert_eq!(ctx.errors.len(), 3);
    assert_eq!(ctx.errors[2].stage, "CompositeExpand");
    assert_eq!(ctx.errors[2].message, "document has not the expected shape");
    assert_eq!(children(&ctx), vec!["already/there@v1"]);
}

#[test]
fn workflow_stage_applies_to_workflow_paths_only() {
    let stage = WorkflowExpandStage::new();
    assert!(matches!(stage.start(&ctx_for("actions/checkout@v4")), Step::Done(Ok(()))));
    assert!(matches!(stage.start(&ctx_for("org/repo/some/dir@v4")), Step::Done(Ok(()))));
    assert!(matches!(stage.start(&ctx_for("org/repo/.github/workflows@v4")), Step::Done(Ok(()))));
    let step = stage.start(&ctx_for("org/repo/.github/workflows/ci.yml@main"));
    assert_eq!(raw_path(&step), "org/repo@main:.github/workflows/ci.yml");
    let nested = stage.start(&ctx_for("org/repo/sub/.github/workflows/x.yml@main"));
    assert_eq!(raw_path(&nested), "org/repo@main:sub/.github/workflows/x.yml");
    assert_eq!(stage.name(), "WorkflowExpand");
}

#[test]
fn workflow_stage_appends_third_party_references() {
    let stage = WorkflowExpandStage::new();
    let mut ctx = ctx_for("org/repo/.github/workflows/ci.yml@main");
    let yaml = "jobs:\n  a:\n    uses: org/wf/.github/workflows/x.yml@v1\n  b:\n    steps:\n      - uses: actions/checkout@v4\n      - uses: ./local\n      - uses: docker://x\n";
    let step = stage.resume(WorkflowFile, Reply::Body(yaml.to_string()), &mut ctx);
    assert!(matches!(step, Step::Done(Ok(()))));
    assert_eq!(children(&ctx), vec!["org/wf/.github/workflows/x.yml@v1", "actions/checkout@v4"]);
    assert!(ctx.errors.is_empty());
}

#[test]
fn workflow_stage_records_and_goes_on() {
    let stage = WorkflowExpandStage::new();
    let outcome = |reply: Reply| {
        let mut ctx = ctx_for("org/repo/.github/workflows/ci.yml@main");
        assert!(matches!(stage.resume(WorkflowFile, reply, &mut ctx), Step::Done(Ok(()))));
        assert!(ctx.children.is_empty());
        errors(&ctx)
    };
    assert!(outcome(Reply::Missing).is_empty());
    assert_eq!(outcome(Reply::Failed("HTTP 502".to_string())), vec!["WorkflowExpand: HTTP 502"]);
    assert_eq!(outcome(Reply::Body("a: [".to_string())).len(), 1);
    assert_eq!(
        outcome(Reply::Body("jobs: 1".to_string())),
        vec!["WorkflowExpand: document has not the expected shape"]
    );
}

#[test]
fn scan_stage_goes_by_the_selection() {
    let at = |index: Option<usize>| {
        let mut ctx = ctx_for("actions/checkout@v4");
        ctx.index = index;
        ctx
    };
    let asks = |sel: ScanSelection, index: Option<usize>| matches!(ScanStage::new(sel).start(&at(index)), Step::Ask(..));
    assert!(asks(ScanSelection::All, Some(7)));
    assert!(asks(ScanSelection::All, None));
    assert!(!asks(ScanSelection::Nothing, Some(0)));
    assert!(!asks(ScanSelection::Nothing, None));
    assert!(asks(ScanSelection::Indices(vec![1, 3]), Some(2)));
    assert!(!asks(ScanSelection::Indices(vec![1, 3]), Some(1)));
    assert!(!asks(ScanSelection::Indices(vec![1, 3]), None));
    match ScanStage::new(ScanSelection::All).start(&at(Some(0))) {
        Step::Ask(Request::Graphql { query }, _) => {
            assert!(query.contains("repository(owner: \"actions\", name: \"checkout\")"))
        }
        other => panic!("unexpected step {other:?}"),
    }
}

#[test]
fn scan_stage_stores_the_scan_or_the_fault() {
    let stage = ScanStage::new(ScanSelection::All);
    let mut ctx = ctx_for("actions/checkout@v4");
    let body = r#"{"data": {"repository": {"languages": {"edges": [{"size": 3, "node": {"name": "Rust"}}]},
                  "cargoToml": {"__typename": "Blob"}, "packageJson": null}}}"#;
    assert!(matches!(stage.resume(ScanAnswer, Reply::Body(body.to_string()), &mut ctx), Step::Done(Ok(()))));
    let scan = ctx.scan.as_ref().unwrap();
    assert_eq!(scan.primary_language.as_deref(), Some("Rust"));
    assert_eq!(scan.ecosystems, vec![Ecosystem::Cargo]);
    assert!(ctx.errors.is_empty());

    let fault = |reply: Reply| {
        let mut ctx = ctx_for("actions/checkout@v4");
        assert!(matches!(stage.resume(ScanAnswer, reply, &mut ctx), Step::Done(Ok(()))));
        assert!(ctx.scan.is_none());
        errors(&ctx)
    };
    assert_eq!(fault(Reply::Missing), vec!["Scan: GraphQL API returned HTTP 404"]);
    assert_eq!(fault(Reply::Failed("no token".to_string())), vec!["Scan: no token"]);
    assert_eq!(fault(Reply::Body("<".to_string())), vec!["Scan: failed to parse GraphQL response"]);
    assert_eq!(fault(Reply::Body(r#"{"errors": []}"#.to_string())), vec!["Scan: GraphQL errors in response"]);
    assert_eq!(fault(Reply::Body("{}".to_string())), vec!["Scan: missing 'data' field in GraphQL response"]);
    assert_eq!(
        fault(Reply::Body(r#"{"data": {}}"#.to_string())),
        vec!["Scan: repository not found: actions/checkout"]
    );
    assert_eq!(stage.name(), "Scan");
}

#[test]
fn stages_are_planned_in_the_fixed_order() {
    assert_eq!(plan_stages(DepthLimit::Bounded(0), true, false, false), vec![StageKind::RefResolve, StageKind::Advisory]);
    assert_eq!(plan_stages(DepthLimit::Bounded(0), false, false, true), vec![StageKind::Advisory]);
    assert_eq!(
        plan_stages(DepthLimit::Unlimited, true, true, true),
        vec![StageKind::CompositeExpand, StageKind::WorkflowExpand, StageKind::RefResolve, StageKind::Advisory, StageKind::Scan, StageKind::Dependency]
    );
    // without a token, scan and dependencies are left out
    assert_eq!(
        plan_stages(DepthLimit::Bounded(2), true, true, false),
        vec![StageKind::CompositeExpand, StageKind::WorkflowExpand, StageKind::RefResolve, StageKind::Advisory]
    );
    assert_eq!(plan_stages(DepthLimit::Bounded(0), false, true, true), vec![StageKind::Advisory, StageKind::Scan, StageKind::Dependency]);
}

#[test]
fn roots_are_ordered_and_unique() {
    let refs: Vec<ActionRef> = ["b/b@v2", "a/z@v1", "b/b@v1", "a/a/p@v1", "b/b@v2", "a/a@v1", "a/a@v1"]
        .iter()
        .map(|r| r.parse().unwrap())
        .collect();
    let ordered: Vec<String> = order_refs(refs).into_iter().map(|r| r.raw).collect();
    assert_eq!(ordered, vec!["a/a@v1", "a/a/p@v1", "a/z@v1", "b/b@v1", "b/b@v2"]);
    assert!(order_refs(vec![]).is_empty());
    assert!(parse_actions("jobs: 3").is_err());
    assert!(parse_actions("[").is_err());
}
