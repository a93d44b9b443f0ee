use ghss::audit::parse_actions;
use ghss::depth::DepthLimit;
use ghss::output::TextOutput;
use ghss::pipeline::PipelineBuilder;
use ghss::walker::Walker;
use ghss::workflow::workflow_uses;
use ghss::yaml::parse_yaml;

const SAMPLE_WORKFLOW: &str = r#"
name: CI
on: [push, pull_request]
jobs:
  ci:
    runs-on: ubuntu-latest
    steps:
      - uses: actions/checkout@v4
      - uses: actions/setup-node@v4
        with:
          node-version: 18
      - uses: docker://node:18
      - uses: ./local-action
      - run: npm test
      - uses: actions/checkout@v4
      - uses: codecov/codecov-action@v3
      - uses: actions/checkout@v4
"#;

const MALFORMED_WORKFLOW: &str = r#"
name: Malformed
on: push
jobs:
  broken-steps: "this job is a string"
  build:
    runs-on: ubuntu-latest
    steps:
      - uses: actions/setup-node@v4
      - uses: actions/checkout@v4
      - uses: docker://alpine:3.18
"#;

const SHA_PINNED_WORKFLOW: &str = r#"
name: Pinned
on: push
jobs:
  build:
    runs-on: ubuntu-latest
    steps:
      - uses: actions/checkout@b4ffde65f46336ab88eb53be808477a3936bae11
      - uses: actions/setup-node@60edb5dd545a775178f52524783378180af0d1f8
      - uses: codecov/codecov-action@v3
"#;

/// What the program prints for a workflow where no source is asked.
fn stdout_of(workflow: &str, depth: &str) -> String {
    let roots = parse_actions(workflow).unwrap();
    let limit = DepthLimit::parse(depth).unwrap();
    let walker = Walker::new(PipelineBuilder::new().build(), limit.to_max_depth(), 10);
    TextOutput.write_results(&walker.walk(roots))
}

fn action_lines(stdout: &str) -> Vec<&str> {
    stdout.lines().filter(|l| !l.starts_with("  ")).collect()
}

#[test]
fn integration_sample_workflow_lists_sorted_third_party_actions() {
    let stdout = stdout_of(SAMPLE_WORKFLOW, "0");
    assert_eq!(
        action_lines(&stdout),
        vec!["actions/checkout@v4", "actions/setup-node@v4", "codecov/codecov-action@v3"]
    );
}

#[test]
fn sample_workflow_lists_sorted_third_party_actions() {
    let stdout = stdout_of(SAMPLE_WORKFLOW, "0");
    assert_eq!(
        stdout,
        "actions/checkout@v4\n  advisories: none\nactions/setup-node@v4\n  advisories: none\ncodecov/codecov-action@v3\n  advisories: none\n"
    );
}

#[test]
fn integration_sample_workflow_excludes_docker_actions() {
    let stdout = stdout_of(SAMPLE_WORKFLOW, "0");
    assert!(!stdout.contains("docker://"), "docker actions should be filtered out");
}

#[test]
fn sample_workflow_excludes_docker_actions() {
    let roots = parse_actions(SAMPLE_WORKFLOW).unwrap();
    assert!(roots.iter().all(|r| !r.raw.contains("docker://")), "docker actions should be filtered out");
}

#[test]
fn integration_sample_workflow_excludes_local_actions() {
    let stdout = stdout_of(SAMPLE_WORKFLOW, "0");
    assert!(!stdout.contains("./"), "local actions should be filtered out");
}

#[test]
fn sample_workflow_excludes_local_actions() {
    let roots = parse_actions(SAMPLE_WORKFLOW).unwrap();
    assert!(roots.iter().all(|r| !r.raw.contains("./")), "local actions should be filtered out");
}

#[test]
fn integration_sample_workflow_deduplicates_actions() {
    let stdout = stdout_of(SAMPLE_WORKFLOW, "0");
    let checkout_count = stdout.lines().filter(|l| *l == "actions/checkout@v4").count();
    assert_eq!(
        checkout_count, 1,
        "actions/checkout@v4 appears 3 times in the fixture but should be deduplicated to 1"
    );
}

#[test]
fn sample_workflow_deduplicates_actions() {
    let roots = parse_actions(SAMPLE_WORKFLOW).unwrap();
    let checkout_count = roots.iter().filter(|r| r.raw == "actions/checkout@v4").count();
    assert_eq!(checkout_count, 1);
    assert_eq!(roots.len(), 3);
}

#[test]
fn integration_malformed_workflow_still_extracts_valid_actions() {
    let stdout = stdout_of(MALFORMED_WORKFLOW, "0");
    assert_eq!(action_lines(&stdout), vec!["actions/checkout@v4", "actions/setup-node@v4",]);
}

#[test]
fn malformed_workflow_still_extracts_valid_actions() {
    let roots: Vec<String> = parse_actions(MALFORMED_WORKFLOW).unwrap().into_iter().map(|r| r.raw).collect();
    assert_eq!(roots, vec!["actions/checkout@v4", "actions/setup-node@v4",]);
}

#[test]
fn malformed_workflow_warns_on_stderr() {
    // the job that cannot be read is named, so that the caller can warn about it
    let doc = parse_yaml(MALFORMED_WORKFLOW).unwrap();
    let found = workflow_uses(&doc).unwrap();
    assert_eq!(found.skipped_jobs, vec!["broken-steps"]);

    // the warnings are a result of the reading: one line that names the job
    let read = ghss::warnings::read_roots(MALFORMED_WORKFLOW).unwrap();
    let lines: Vec<String> = read.warnings.iter().map(|w| w.to_string()).collect();
    assert_eq!(lines.len(), 1);
    assert!(lines[0].contains("broken-steps"));
    assert!(!lines[0].contains("build"));
    let raws: Vec<&str> = read.roots.iter().map(|r| r.raw.as_str()).collect();
    assert_eq!(raws, vec!["actions/checkout@v4", "actions/setup-node@v4"]);
}

#[test]
fn integration_sha_pinned_workflow_lists_actions() {
    let stdout = stdout_of(SHA_PINNED_WORKFLOW, "0");
    assert!(stdout.contains("actions/checkout@b4ffde65f46336ab88eb53be808477a3936bae11"));
    assert!(stdout.contains("actions/setup-node@60edb5dd545a775178f52524783378180af0d1f8"));
    assert!(stdout.contains("codecov/codecov-action@v3"));
}

#[test]
fn sha_pinned_workflow_lists_actions() {
    let roots: Vec<String> = parse_actions(SHA_PINNED_WORKFLOW).unwrap().into_iter().map(|r| r.raw).collect();
    assert_eq!(
        roots,
        vec![
            "actions/checkout@b4ffde65f46336ab88eb53be808477a3936bae11",
            "actions/setup-node@60edb5dd545a775178f52524783378180af0d1f8",
            "codecov/codecov-action@v3",
        ]
    );
}

#[test]
fn depth_default_matches_current_behavior() {
    // the default depth is 0
    let stdout = stdout_of(SAMPLE_WORKFLOW, "0");
    assert_eq!(
        action_lines(&stdout),
        vec!["actions/checkout@v4", "actions/setup-node@v4", "codecov/codecov-action@v3",]
    );
}

#[test]
fn depth_unlimited_is_accepted() {
    let stdout = stdout_of(SAMPLE_WORKFLOW, "unlimited");
    assert_eq!(action_lines(&stdout).len(), 3);
}

#[test]
fn depth_invalid_exits_with_error() {
    let err = DepthLimit::parse("invalid").unwrap_err();
    assert!(err.to_string().contains("invalid"));
}

/// What the program prints as JSON for a workflow where no source is asked.
fn json_of(workflow: &str) -> serde_json::Value {
    let roots = parse_actions(workflow).unwrap();
    let walker = Walker::new(PipelineBuilder::new().build(), Some(0), 10);
    let stdout = ghss::output::JsonOutput.write_results(&walker.walk(roots)).unwrap();
    serde_json::from_str(&stdout).expect("stdout should be valid JSON")
}

fn json_array_has_the_sample_actions() {
    let parsed = json_of(SAMPLE_WORKFLOW);
    let arr = parsed.as_array().expect("should be a JSON array");
    assert_eq!(arr.len(), 3);

    for entry in arr {
        assert!(entry.get("raw").is_some(), "each entry should have 'raw'");
        assert!(entry.get("owner").is_some(), "each entry should have 'owner'");
        assert!(entry.get("repo").is_some(), "each entry should have 'repo'");
        assert!(entry.get("git_ref").is_some(), "each entry should have 'git_ref'");
        assert!(entry.get("ref_type").is_some(), "each entry should have 'ref_type'");
    }

    let raws: Vec<&str> = arr.iter().map(|e| e["raw"].as_str().unwrap()).collect();
    assert!(raws.contains(&"actions/checkout@v4"));
    assert!(raws.contains(&"actions/setup-node@v4"));
    assert!(raws.contains(&"codecov/codecov-action@v3"));
}

#[test]
fn integration_json_flag_outputs_valid_json_array() {
    json_array_has_the_sample_actions();
}

#[test]
fn json_flag_outputs_valid_json_array() {
    json_array_has_the_sample_actions();
}

#[test]
fn json_output_always_includes_advisories_key() {
    let parsed = json_of(SAMPLE_WORKFLOW);
    let arr = parsed.as_array().unwrap();
    assert_eq!(arr.len(), 3);

    for entry in arr {
        assert!(
            entry.get("advisories").is_some(),
            "advisories should always be present in JSON output"
        );
    }
}
