use ghss::action_ref::{ActionRef, RefParseError};
use ghss::workflow::{
    classify_uses, composite_refs, parse_composite_action, parse_workflow, parse_workflow_refs,
    unparseable_uses, workflow_uses, UsesRef, WorkflowError,
};
use ghss::yaml::{parse_yaml, Yaml, YamlEntry};

const SAMPLE_WORKFLOW: &str = r#"
name: CI
on: [push, pull_request]
jobs:
  ci:
    runs-on: ubuntu-latest
    steps:
      - uses: actions/checkout@v4
      - uses: actions/setup-node@v4
        with:
          node-version: 18
      - uses: docker://node:18
      - uses: ./local-action
      - run: npm test
      - uses: actions/checkout@v4
      - uses: codecov/codecov-action@v3
      - uses: actions/checkout@v4
"#;

const MALFORMED_WORKFLOW: &str = r#"
name: Malformed
on: push
jobs:
  broken-steps: "this job is a string"
  build:
    runs-on: ubuntu-latest
    steps:
      - uses: actions/checkout@v4
      - uses: actions/setup-node@v4
      - uses: docker://alpine:3.18
"#;

const REUSABLE_WORKFLOW: &str = r#"
name: Reusable
on: push
jobs:
  build:
    runs-on: ubuntu-latest
    steps:
      - uses: actions/checkout@v4
      - uses: actions/setup-node@v4
  call-ci:
    uses: org/shared-workflows/.github/workflows/ci.yml@main
  call-deploy:
    uses: org/shared-workflows/.github/workflows/deploy.yml@v1
"#;

#[test]
fn uses_ref_parses_local() {
    let r: UsesRef = "./local-action".parse().unwrap();
    assert_eq!(r, UsesRef::Local("./local-action".to_string()));
}

#[test]
fn uses_ref_parses_docker() {
    let r: UsesRef = "docker://node:18".parse().unwrap();
    assert_eq!(r, UsesRef::Docker("docker://node:18".to_string()));
}

#[test]
fn uses_ref_parses_third_party() {
    let r: UsesRef = "actions/checkout@v4".parse().unwrap();
    assert_eq!(r, UsesRef::ThirdParty("actions/checkout@v4".parse().unwrap()));
}

#[test]
fn uses_ref_invalid_third_party_is_error() {
    let result = "not-a-valid-ref".parse::<UsesRef>();
    assert!(result.is_err());
}

#[test]
fn parse_sample_workflow_extracts_all_uses() {
    let refs = parse_workflow(SAMPLE_WORKFLOW).unwrap();
    let raw: Vec<String> = refs.iter().map(|r| r.to_string()).collect();
    assert!(raw.contains(&"actions/checkout@v4".to_string()));
    assert!(raw.contains(&"actions/setup-node@v4".to_string()));
    assert!(raw.contains(&"docker://node:18".to_string()));
    assert!(raw.contains(&"codecov/codecov-action@v3".to_string()));
    assert!(raw.contains(&"./local-action".to_string()));
}

#[test]
fn parse_sample_workflow_includes_duplicates() {
    let refs = parse_workflow(SAMPLE_WORKFLOW).unwrap();
    let expected = UsesRef::ThirdParty("actions/checkout@v4".parse().unwrap());
    let checkout_count = refs.iter().filter(|r| **r == expected).count();
    assert_eq!(checkout_count, 3);
}

#[test]
fn parse_malformed_workflow_extracts_valid_jobs() {
    let refs = parse_workflow(MALFORMED_WORKFLOW).unwrap();
    let raw: Vec<String> = refs.iter().map(|r| r.to_string()).collect();
    assert!(raw.contains(&"actions/checkout@v4".to_string()));
    assert!(raw.contains(&"actions/setup-node@v4".to_string()));
    assert!(raw.contains(&"docker://alpine:3.18".to_string()));
}

#[test]
fn parse_malformed_workflow_does_not_fail() {
    let result = parse_workflow(MALFORMED_WORKFLOW);
    assert!(result.is_ok());
}

#[test]
fn workflow_parse_invalid_yaml_returns_error() {
    let result = parse_workflow("not: [valid: yaml: {{{");
    assert!(result.is_err());
}

#[test]
fn parse_invalid_yaml_returns_error() {
    let result = parse_workflow("not: [valid: yaml: {{{");
    assert!(matches!(result, Err(WorkflowError::Syntax(_))));
}

#[test]
fn parse_reusable_workflow_extracts_step_and_job_level_uses() {
    let refs = parse_workflow(REUSABLE_WORKFLOW).unwrap();
    let raw: Vec<String> = refs.iter().map(|r| r.to_string()).collect();
    assert!(raw.contains(&"actions/checkout@v4".to_string()));
    assert!(raw.contains(&"actions/setup-node@v4".to_string()));
    assert!(raw.contains(&"org/shared-workflows/.github/workflows/ci.yml@main".to_string()));
    assert!(raw.contains(&"org/shared-workflows/.github/workflows/deploy.yml@v1".to_string()));
    assert_eq!(refs.len(), 4);
}

#[test]
fn parse_workflow_refs_step_level_actions() {
    let yaml = r#"
name: CI
on: push
jobs:
  build:
    runs-on: ubuntu-latest
    steps:
      - uses: actions/checkout@v4
      - uses: actions/setup-node@v4
      - run: npm test
      - uses: codecov/codecov-action@v3
"#;
    let children = parse_workflow_refs(yaml).unwrap();
    assert_eq!(children.len(), 3);

    let names: Vec<String> = children.iter().map(|c| c.to_string()).collect();
    assert!(names.contains(&"actions/checkout@v4".to_string()));
    assert!(names.contains(&"actions/setup-node@v4".to_string()));
    assert!(names.contains(&"codecov/codecov-action@v3".to_string()));
}

#[test]
fn parse_workflow_refs_job_level_reusable_calls() {
    let yaml = r#"
name: Orchestrator
on: push
jobs:
  call-ci:
    uses: org/workflows/.github/workflows/ci.yml@main
  call-deploy:
    uses: org/workflows/.github/workflows/deploy.yml@v1
"#;
    let children = parse_workflow_refs(yaml).unwrap();
    assert_eq!(children.len(), 2);

    let names: Vec<String> = children.iter().map(|c| c.to_string()).collect();
    assert!(names.contains(&"org/workflows/.github/workflows/ci.yml@main".to_string()));
    assert!(names.contains(&"org/workflows/.github/workflows/deploy.yml@v1".to_string()));
}

#[test]
fn parse_workflow_refs_filters_local_and_docker() {
    let yaml = r#"
name: Mixed
on: push
jobs:
  build:
    runs-on: ubuntu-latest
    steps:
      - uses: actions/checkout@v4
      - uses: ./local-action
      - uses: docker://node:18
      - uses: some-org/action@v2
"#;
    let children = parse_workflow_refs(yaml).unwrap();
    assert_eq!(children.len(), 2);

    let names: Vec<String> = children.iter().map(|c| c.to_string()).collect();
    assert!(names.contains(&"actions/checkout@v4".to_string()));
    assert!(names.contains(&"some-org/action@v2".to_string()));
}

#[test]
fn parse_workflow_refs_mixed_step_and_job_level() {
    let yaml = r#"
name: Full Example
on: push
jobs:
  build:
    runs-on: ubuntu-latest
    steps:
      - uses: actions/checkout@v4
      - run: make build
  call-lint:
    uses: org/shared/.github/workflows/lint.yml@v2
"#;
    let children = parse_workflow_refs(yaml).unwrap();
    assert_eq!(children.len(), 2);

    let names: Vec<String> = children.iter().map(|c| c.to_string()).collect();
    assert!(names.contains(&"actions/checkout@v4".to_string()));
    assert!(names.contains(&"org/shared/.github/workflows/lint.yml@v2".to_string()));
}

#[test]
fn parse_workflow_refs_invalid_yaml_returns_error() {
    let yaml = "not: valid: yaml: [[[";
    let result = parse_workflow_refs(yaml);
    assert!(result.is_err());
}

#[test]
fn parse_workflow_refs_empty_workflow_returns_empty() {
    let yaml = r#"
name: Empty
on: push
jobs: {}
"#;
    let children = parse_workflow_refs(yaml).unwrap();
    assert!(children.is_empty());
}

const COMPOSITE: &str = r#"
name: My Composite Action
description: A composite action
runs:
  using: composite
  steps:
    - uses: actions/checkout@v4
    - uses: actions/setup-node@v4
    - run: echo "hello"
    - uses: some-org/some-action@v1
"#;

const NODE_ACTION: &str = r#"
name: Node Action
description: A node action
runs:
  using: node20
  main: index.js
"#;

const MIXED_ACTION: &str = r#"
name: Mixed Action
runs:
  using: composite
  steps:
    - uses: actions/checkout@v4
    - uses: ./local-action
    - uses: docker://alpine:3.18
    - uses: some-org/real-action@v2
"#;

const EMPTY_COMPOSITE: &str = r#"
name: Empty Composite
runs:
  using: composite
"#;

const METADATA_ONLY: &str = r#"
name: Metadata Only
description: No runs key
"#;

#[test]
fn workflow_parse_composite_action_discovers_children() {
    let result = parse_composite_action(COMPOSITE).unwrap();
    let children = result.expect("should be Some for composite action");
    assert_eq!(children.len(), 3);
    assert_eq!(children[0].to_string(), "actions/checkout@v4");
    assert_eq!(children[1].to_string(), "actions/setup-node@v4");
    assert_eq!(children[2].to_string(), "some-org/some-action@v1");
}

#[test]
fn workflow_parse_non_composite_action_returns_none() {
    let result = parse_composite_action(NODE_ACTION).unwrap();
    assert!(result.is_none());
}

#[test]
fn workflow_parse_composite_action_filters_local_and_docker() {
    let result = parse_composite_action(MIXED_ACTION).unwrap();
    let children = result.expect("should be Some for composite action");
    assert_eq!(children.len(), 2);
    assert_eq!(children[0].to_string(), "actions/checkout@v4");
    assert_eq!(children[1].to_string(), "some-org/real-action@v2");
}

#[test]
fn parse_composite_invalid_yaml_returns_error() {
    let yaml = "this is not valid yaml: [[[";
    let result = parse_composite_action(yaml);
    assert!(result.is_err());
}

#[test]
fn workflow_parse_composite_action_no_steps() {
    let result = parse_composite_action(EMPTY_COMPOSITE).unwrap();
    let children = result.expect("should be Some for composite action");
    assert!(children.is_empty());
}

#[test]
fn workflow_parse_action_without_runs_returns_none() {
    let result = parse_composite_action(METADATA_ONLY).unwrap();
    assert!(result.is_none());
}

#[test]
fn composite_parse_composite_action_discovers_children() {
    let doc = parse_yaml(COMPOSITE).unwrap();
    let children = composite_refs(&doc).unwrap().expect("should be Some for composite action");
    assert_eq!(children.len(), 3);
    assert_eq!(children[0].to_string(), "actions/checkout@v4");
    assert_eq!(children[1].to_string(), "actions/setup-node@v4");
    assert_eq!(children[2].to_string(), "some-org/some-action@v1");
}

#[test]
fn composite_parse_non_composite_action_returns_none() {
    let doc = parse_yaml(NODE_ACTION).unwrap();
    assert!(composite_refs(&doc).unwrap().is_none());
}

#[test]
fn composite_parse_composite_action_filters_local_and_docker() {
    let doc = parse_yaml(MIXED_ACTION).unwrap();
    let children = composite_refs(&doc).unwrap().expect("should be Some for composite action");
    assert_eq!(children.len(), 2);
    assert_eq!(children[0].to_string(), "actions/checkout@v4");
    assert_eq!(children[1].to_string(), "some-org/real-action@v2");
}

#[test]
fn composite_parse_invalid_yaml_returns_error() {
    let yaml = "this is not valid yaml: [[[";
    assert!(parse_yaml(yaml).is_err());
    assert!(matches!(parse_composite_action(yaml), Err(WorkflowError::Syntax(_))));
}

#[test]
fn composite_parse_composite_action_no_steps() {
    let doc = parse_yaml(EMPTY_COMPOSITE).unwrap();
    let children = composite_refs(&doc).unwrap().expect("should be Some for composite action");
    assert!(children.is_empty());
}

#[test]
fn composite_parse_action_without_runs_returns_none() {
    let doc = parse_yaml(METADATA_ONLY).unwrap();
    assert!(composite_refs(&doc).unwrap().is_none());
}

#[test]
fn parse_workflow_with_step_level_actions() {
    let yaml = r#"
name: CI
on: push
jobs:
  build:
    runs-on: ubuntu-latest
    steps:
      - uses: actions/checkout@v4
      - uses: actions/setup-node@v4
      - run: npm test
      - uses: codecov/codecov-action@v3
"#;
    let children = parse_workflow_refs(yaml).unwrap();
    let names: Vec<String> = children.iter().map(|c| c.to_string()).collect();
    assert_eq!(names, vec!["actions/checkout@v4", "actions/setup-node@v4", "codecov/codecov-action@v3"]);
}

#[test]
fn workflow_uses_come_in_document_order_with_job_level_first() {
    let yaml = r#"
jobs:
  zeta:
    uses: org/wf/.github/workflows/z.yml@v1
    steps:
      - uses: a/one@v1
      - name: no uses here
      - uses: ./local
  alpha:
    steps:
      - uses: a/one@v1
      - uses: docker://busybox
"#;
    let doc = parse_yaml(yaml).unwrap();
    let found = workflow_uses(&doc).unwrap();
    assert_eq!(
        found.uses,
        vec!["org/wf/.github/workflows/z.yml@v1", "a/one@v1", "./local", "a/one@v1", "docker://busybox"]
    );
    assert!(found.skipped_jobs.is_empty());
}

#[test]
fn malformed_jobs_are_skipped_and_named() {
    let yaml = r#"
jobs:
  scalar-job: "text"
  list-job: [1, 2]
  bad-steps:
    steps: "not a list"
  bad-step:
    steps:
      - uses: a/ok@v1
      - "a step that is a string"
  numeric-uses:
    uses: 42
  numeric-step-uses:
    steps:
      - uses: 42
  bad-key:
    1: x
  empty-job:
  null-fields:
    uses: ~
    steps: ~
  good:
    steps:
      - uses: a/good@v1
"#;
    let doc = parse_yaml(yaml).unwrap();
    let found = workflow_uses(&doc).unwrap();
    assert_eq!(found.uses, vec!["a/good@v1"]);
    assert_eq!(
        found.skipped_jobs,
        vec![
            "scalar-job", "list-job", "bad-steps", "bad-step", "numeric-uses",
            "numeric-step-uses", "bad-key"
        ]
    );
}

#[test]
fn workflow_shape_faults_fail_the_whole_parse() {
    assert!(matches!(parse_workflow("- a\n- b\n"), Err(WorkflowError::Shape)));
    assert!(matches!(parse_workflow("just text"), Err(WorkflowError::Shape)));
    assert!(matches!(parse_workflow("jobs: 3"), Err(WorkflowError::Shape)));
    assert!(matches!(parse_workflow("jobs:\n  [a, b]: {}\n"), Err(WorkflowError::Shape)));
    assert!(parse_workflow("").unwrap().is_empty());
    assert!(parse_workflow("name: no jobs").unwrap().is_empty());
    assert!(parse_workflow("jobs:").unwrap().is_empty());
    assert!(WorkflowError::Shape.to_string().contains("shape"));
}

#[test]
fn unparseable_refs_are_left_out_and_reported() {
    let raws: Vec<String> =
        ["a/b@v1", "no-at-sign", "./x", "only@ref", "docker://y", "/r@v1"].iter().map(|s| s.to_string()).collect();
    let kept: Vec<String> = classify_uses(&raws).iter().map(|u| u.to_string()).collect();
    assert_eq!(kept, vec!["a/b@v1", "./x", "docker://y"]);
    let dropped = unparseable_uses(&raws);
    assert_eq!(
        dropped,
        vec![
            ("no-at-sign".to_string(), RefParseError::MissingAt),
            ("only@ref".to_string(), RefParseError::MissingRepo),
            ("/r@v1".to_string(), RefParseError::EmptyOwner),
        ]
    );
}

#[test]
fn into_third_party_keeps_references_only() {
    let third = UsesRef::parse("a/b@v1").unwrap();
    assert_eq!(third.into_third_party(), Some(ActionRef::parse("a/b@v1").unwrap()));
    assert_eq!(UsesRef::parse("./x").unwrap().into_third_party(), None);
    assert_eq!(UsesRef::parse("docker://x").unwrap().into_third_party(), None);
}

#[test]
fn composite_action_reads_scalars_leniently() {
    // a step whose uses is a number is no reference and is left out
    let yaml = "runs:\n  using: composite\n  steps:\n    - uses: 42\n    - uses: a/b@v1\n";
    let children = parse_composite_action(yaml).unwrap().unwrap();
    assert_eq!(children.len(), 1);
    assert_eq!(children[0].raw, "a/b@v1");
    assert!(matches!(parse_composite_action("runs: {}"), Err(WorkflowError::Shape)));
    assert!(matches!(parse_composite_action("runs: text"), Err(WorkflowError::Shape)));
    assert!(matches!(
        parse_composite_action("runs:\n  using: composite\n  steps: 3\n"),
        Err(WorkflowError::Shape)
    ));
    assert!(parse_composite_action("runs: ~").unwrap().is_none());
    assert!(parse_composite_action("runs:\n  using: docker\n  steps: []\n").unwrap().is_none());
}

#[test]
fn workflow_reads_a_document_written_by_hand() {
    let step = |uses: &str| {
        Yaml::Table(vec![YamlEntry {
            key: Yaml::Text("uses".to_string()),
            value: Yaml::Text(uses.to_string()),
        }])
    };
    let job = Yaml::Table(vec![YamlEntry {
        key: Yaml::Text("steps".to_string()),
        value: Yaml::List(vec![step("a/b@v1"), step("./here")]),
    }]);
    let tagged = Yaml::Tagged("!x".to_string(), Box::new(job));
    let doc = Yaml::Table(vec![YamlEntry {
        key: Yaml::Text("jobs".to_string()),
        value: Yaml::Table(vec![
            YamlEntry { key: Yaml::Text("one".to_string()), value: tagged },
            YamlEntry { key: Yaml::Bool(true), value: Yaml::Number("3".to_string()) },
        ]),
    }]);
    let found = workflow_uses(&doc).unwrap();
    assert_eq!(found.uses, vec!["a/b@v1", "./here"]);
    assert_eq!(found.skipped_jobs, vec!["true"]);
}

#[test]
fn readers_pass_on_the_message_of_the_parser() {
    let yaml_fault = parse_yaml("a: [").unwrap_err();
    assert!(!yaml_fault.is_empty());
    assert_ne!(yaml_fault, "a: [");
    match parse_workflow("a: [") {
        Err(e @ WorkflowError::Syntax(_)) => assert_eq!(e.to_string(), yaml_fault),
        other => panic!("unexpected outcome {other:?}"),
    }
    let json_fault = ghss::json::parse_json("{\"a\": ").unwrap_err();
    assert!(json_fault.contains("EOF"));
}

#[test]
fn yaml_documents_are_copied_node_for_node() {
    let doc = parse_yaml("a: [1, true, ~, x]\n2: !tag {b: 1.5}\n").unwrap();
    let entries = match &doc {
        Yaml::Table(entries) => entries,
        other => panic!("unexpected document {other:?}"),
    };
    assert_eq!(entries.len(), 2);
    assert!(matches!(&entries[0].key, Yaml::Text(k) if k == "a"));
    match &entries[0].value {
        Yaml::List(items) => {
            assert!(matches!(&items[0], Yaml::Number(n) if n == "1"));
            assert!(matches!(&items[1], Yaml::Bool(true)));
            assert!(matches!(&items[2], Yaml::Null));
            assert!(matches!(&items[3], Yaml::Text(t) if t == "x"));
        }
        other => panic!("unexpected value {other:?}"),
    }
    assert!(matches!(&entries[1].key, Yaml::Number(n) if n == "2"));
    match &entries[1].value {
        Yaml::Tagged(tag, inner) => {
            assert_eq!(tag, "!tag");
            assert!(matches!(inner.untagged(), Yaml::Table(t) if t.len() == 1));
            assert!(inner.as_record().is_some());
        }
        other => panic!("unexpected value {other:?}"),
    }
    assert_eq!(entries[1].key.to_scalar_text(), Some("2".to_string()));
    assert_eq!(doc.to_scalar_text(), None);
}

#[test]
fn parse_workflow_with_job_level_reusable_calls() {
    let yaml = r#"
name: Orchestrator
on: push
jobs:
  call-ci:
    uses: org/workflows/.github/workflows/ci.yml@main
  call-deploy:
    uses: org/workflows/.github/workflows/deploy.yml@v1
"#;
    let children = parse_workflow_refs(yaml).unwrap();
    assert_eq!(children.len(), 2);

    let raws: Vec<&str> = children.iter().map(|c| c.raw.as_str()).collect();
    assert!(raws.contains(&"org/workflows/.github/workflows/ci.yml@main"));
    assert!(raws.contains(&"org/workflows/.github/workflows/deploy.yml@v1"));
}

#[test]
fn parse_workflow_filters_local_and_docker() {
    let yaml = r#"
name: Mixed
on: push
jobs:
  build:
    runs-on: ubuntu-latest
    steps:
      - uses: actions/checkout@v4
      - uses: ./local-action
      - uses: docker://node:18
      - uses: some-org/action@v2
"#;
    let children = parse_workflow_refs(yaml).unwrap();
    assert_eq!(children.len(), 2);

    let raws: Vec<&str> = children.iter().map(|c| c.raw.as_str()).collect();
    assert!(raws.contains(&"actions/checkout@v4"));
    assert!(raws.contains(&"some-org/action@v2"));
}

#[test]
fn parse_workflow_mixed_step_and_job_level() {
    let yaml = r#"
name: Full Example
on: push
jobs:
  build:
    runs-on: ubuntu-latest
    steps:
      - uses: actions/checkout@v4
      - run: make build
  call-lint:
    uses: org/shared/.github/workflows/lint.yml@v2
"#;
    let children = parse_workflow_refs(yaml).unwrap();
    assert_eq!(children.len(), 2);

    let raws: Vec<&str> = children.iter().map(|c| c.raw.as_str()).collect();
    assert!(raws.contains(&"actions/checkout@v4"));
    assert!(raws.contains(&"org/shared/.github/workflows/lint.yml@v2"));
}

#[test]
fn parse_invalid_workflow_yaml_returns_error() {
    let yaml = "not: valid: yaml: [[[";
    let result = parse_workflow_refs(yaml);
    assert!(result.is_err());
}

#[test]
fn parse_empty_workflow_returns_empty() {
    let yaml = r#"
name: Empty
on: push
jobs: {}
"#;
    let children = parse_workflow_refs(yaml).unwrap();
    assert!(children.is_empty());
}

#[test]
fn read_roots_warns_about_the_job_that_cannot_be_read() {
    let yaml = "jobs:\n  broken-steps: oops\n  build:\n    steps:\n      - uses: actions/setup-node@v4\n      - uses: actions/checkout@v4\n";
    let found = ghss::warnings::read_roots(yaml).unwrap();
    let raws: Vec<&str> = found.roots.iter().map(|r| r.raw.as_str()).collect();
    assert_eq!(raws, vec!["actions/checkout@v4", "actions/setup-node@v4"]);
    let lines: Vec<String> = found.warnings.iter().map(|w| w.to_string()).collect();
    assert_eq!(lines, vec!["failed to parse job: broken-steps"]);
    assert!(!lines.iter().any(|l| l.contains("build")));
}

#[test]
fn read_roots_warns_about_each_string_that_is_no_reference() {
    let yaml = "jobs:\n  a: 3\n  b:\n    uses: no-at-sign\n    steps:\n      - uses: ./local\n      - uses: owner@v1\n      - uses: o/r@v1\n  c: []\n";
    let found = ghss::warnings::read_roots(yaml).unwrap();
    let raws: Vec<&str> = found.roots.iter().map(|r| r.raw.as_str()).collect();
    assert_eq!(raws, vec!["o/r@v1"]);
    let lines: Vec<String> = found.warnings.iter().map(|w| w.to_string()).collect();
    assert_eq!(
        lines,
        vec![
            "failed to parse job: a",
            "failed to parse job: c",
            "failed to parse action reference no-at-sign: missing '@' in action reference",
            "failed to parse action reference owner@v1: expected owner/repo in action reference",
        ]
    );
}

#[test]
fn read_roots_fails_as_parse_actions_does() {
    assert!(matches!(ghss::warnings::read_roots("a: ["), Err(WorkflowError::Syntax(_))));
    assert!(matches!(ghss::warnings::read_roots("- list"), Err(WorkflowError::Shape)));
    let clean = ghss::warnings::read_roots("jobs:\n  b:\n    uses: o/r/.github/workflows/x.yml@v1\n").unwrap();
    assert_eq!(clean.roots.len(), 1);
    assert!(clean.warnings.is_empty());
}

#[test]
fn warnings_about_fetched_documents() {
    let workflow = parse_yaml("jobs:\n  bad: text\n  ok:\n    steps:\n      - uses: nothing\n").unwrap();
    let lines: Vec<String> = ghss::warnings::workflow_warnings(&workflow).iter().map(|w| w.to_string()).collect();
    assert_eq!(
        lines,
        vec![
            "failed to parse job: bad",
            "failed to parse action reference nothing: missing '@' in action reference",
        ]
    );
    let action = parse_yaml("runs:\n  using: composite\n  steps:\n    - uses: a/b@v1\n    - uses: /x@v1\n").unwrap();
    let lines: Vec<String> = ghss::warnings::composite_warnings(&action).iter().map(|w| w.to_string()).collect();
    assert_eq!(lines, vec!["failed to parse action reference /x@v1: empty owner in action reference"]);
    let node = parse_yaml("runs:\n  using: node20\n  steps:\n    - uses: nothing\n").unwrap();
    assert!(ghss::warnings::composite_warnings(&node).is_empty());
    assert!(ghss::warnings::workflow_warnings(&parse_yaml("- list").unwrap()).is_empty());
}
