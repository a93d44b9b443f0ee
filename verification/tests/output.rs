use ghss::action_ref::ActionRef;
use ghss::advisory::Advisory;
use ghss::context::{AuditContext, StageError};
use ghss::deps::DependencyReport;
use ghss::output::{formatter, write_node, ActionEntry, AuditNode, OutputFormatter, TextOutput};
use ghss::output_json::JsonOutput;
use ghss::scan::{Ecosystem, ScanResult};

fn sample_action() -> ActionRef {
    "actions/checkout@v4".parse::<ActionRef>().unwrap()
}

fn leaf_node(entry: ActionEntry) -> AuditNode {
    AuditNode { entry, children: vec![] }
}

fn entry_of(raw: &str) -> ActionEntry {
    ActionEntry {
        action: raw.parse::<ActionRef>().unwrap(),
        resolved_sha: None,
        advisories: vec![],
        scan: None,
        dep_vulnerabilities: vec![],
        errors: vec![],
    }
}

fn sample_entry() -> ActionEntry {
    entry_of("actions/checkout@v4")
}

fn advisory(id: &str, summary: &str, severity: &str, url: &str, range: Option<&str>) -> Advisory {
    Advisory {
        id: id.to_string(),
        aliases: vec![],
        summary: summary.to_string(),
        severity: severity.to_string(),
        url: url.to_string(),
        affected_range: range.map(String::from),
        source: "ghsa".to_string(),
    }
}

#[test]
fn output_text_output_basic() {
    let nodes = vec![leaf_node(sample_entry())];
    let fmt = TextOutput;
    let output = fmt.write_results(&nodes);
    assert!(output.contains("actions/checkout@v4"));
    assert!(output.contains("advisories: none"));
}

#[test]
fn output_text_output_with_sha() {
    let nodes = vec![leaf_node(ActionEntry {
        resolved_sha: Some("abc123".to_string()),
        ..sample_entry()
    })];
    let fmt = TextOutput;
    let output = fmt.write_results(&nodes);
    assert!(output.contains("actions/checkout@v4"));
    assert!(output.contains("  sha: abc123"));
}

#[test]
fn output_text_output_with_no_advisories() {
    let nodes = vec![leaf_node(sample_entry())];
    let fmt = TextOutput;
    let output = fmt.write_results(&nodes);
    assert!(output.contains("advisories: none"));
}

#[test]
fn output_text_output_with_advisories() {
    let nodes = vec![leaf_node(ActionEntry {
        advisories: vec![advisory(
            "GHSA-1234",
            "Bad thing",
            "high",
            "https://ghsa.example.com/1234",
            Some(">= 1.0, < 2.0"),
        )],
        ..sample_entry()
    })];
    let fmt = TextOutput;
    let output = fmt.write_results(&nodes);
    assert!(output.contains("GHSA-1234 (high): Bad thing"));
    assert!(output.contains("https://ghsa.example.com/1234"));
    assert!(output.contains("affected: >= 1.0, < 2.0"));
}

#[test]
fn output_factory_returns_text() {
    let f = formatter(false);
    let nodes = vec![leaf_node(sample_entry())];
    let output = f.render(&nodes).unwrap();
    assert!(output.contains("actions/checkout@v4"));
    assert!(output.contains("advisories: none"));
}

#[test]
fn text_output_with_sha() {
    let nodes = vec![leaf_node(ActionEntry {
        resolved_sha: Some("abc123".to_string()),
        ..sample_entry()
    })];
    let output = TextOutput.render(&nodes).unwrap();
    assert!(output.contains("actions/checkout@v4"));
    assert!(output.contains("  sha: abc123"));
}

#[test]
fn text_output_with_no_advisories() {
    let nodes = vec![leaf_node(sample_entry())];
    let output = TextOutput.render(&nodes).unwrap();
    assert!(output.contains("advisories: none"));
}

#[test]
fn text_output_with_advisories() {
    let advs = vec![advisory(
        "GHSA-1234",
        "Bad thing",
        "high",
        "https://ghsa.example.com/1234",
        Some(">= 1.0, < 2.0"),
    )];
    let nodes = vec![leaf_node(ActionEntry { advisories: advs, ..sample_entry() })];
    let output = TextOutput.render(&nodes).unwrap();
    assert!(output.contains("GHSA-1234 (high): Bad thing"));
    assert!(output.contains("https://ghsa.example.com/1234"));
    assert!(output.contains("affected: >= 1.0, < 2.0"));
}

#[test]
fn audit_context_converts_to_action_entry() {
    let ctx = AuditContext {
        action: sample_action(),
        depth: 0,
        parent: None,
        index: None,
        children: vec![],
        resolved_ref: Some("abc123".to_string()),
        advisories: vec![advisory("GHSA-1234", "Bad thing", "high", "https://example.com", None)],
        scan: Some(ScanResult {
            primary_language: Some("TypeScript".to_string()),
            ecosystems: vec![Ecosystem::Npm],
        }),
        dependencies: vec![],
        errors: vec![],
    };

    let entry: ActionEntry = ctx.into();
    assert_eq!(entry.action, sample_action());
    assert_eq!(entry.resolved_sha, Some("abc123".to_string()));
    assert_eq!(entry.advisories.len(), 1);
    assert_eq!(entry.advisories[0].id, "GHSA-1234");
    assert!(entry.scan.is_some());
    assert!(entry.dep_vulnerabilities.is_empty());
}

#[test]
fn text_output_with_scan_data() {
    let nodes = vec![leaf_node(ActionEntry {
        resolved_sha: Some("abc123".to_string()),
        scan: Some(ScanResult {
            primary_language: Some("TypeScript".to_string()),
            ecosystems: vec![Ecosystem::Npm, Ecosystem::Docker],
        }),
        ..sample_entry()
    })];
    let output = TextOutput.write_results(&nodes);
    assert!(output.contains("language: TypeScript"));
    assert!(output.contains("ecosystems: npm, docker"));
    assert!(output.contains("sha: abc123"));
    assert!(output.contains("advisories: none"));
}

#[test]
fn audit_node_from_context() {
    let ctx = AuditContext {
        action: sample_action(),
        depth: 0,
        parent: None,
        index: None,
        children: vec![],
        resolved_ref: Some("abc123".to_string()),
        advisories: vec![advisory("GHSA-5678", "Test advisory", "medium", "https://example.com/5678", None)],
        scan: None,
        dependencies: vec![],
        errors: vec![],
    };

    let node: AuditNode = ctx.into();
    assert_eq!(node.entry.action, sample_action());
    assert_eq!(node.entry.resolved_sha, Some("abc123".to_string()));
    assert_eq!(node.entry.advisories.len(), 1);
    assert_eq!(node.entry.advisories[0].id, "GHSA-5678");
    assert!(node.entry.scan.is_none());
    assert!(node.entry.dep_vulnerabilities.is_empty());
    assert!(node.children.is_empty());
}

#[test]
fn text_regression_flat_nodes_match_legacy_format() {
    let nodes = vec![
        leaf_node(ActionEntry { resolved_sha: Some("abc123".to_string()), ..sample_entry() }),
        leaf_node(ActionEntry {
            advisories: vec![advisory("GHSA-9999", "Something bad", "critical", "https://example.com/9999", None)],
            ..entry_of("actions/setup-node@v4")
        }),
    ];
    let output = TextOutput.write_results(&nodes);

    assert!(output.starts_with("actions/checkout@v4\n"));
    assert!(output.contains("  sha: abc123\n"));
    assert!(output.contains("  advisories: none\n"));
    assert!(output.contains("actions/setup-node@v4\n"));
    for line in output.lines() {
        if !line.starts_with(' ') {
            assert!(
                line == "actions/checkout@v4" || line == "actions/setup-node@v4",
                "unexpected non-indented line: {line}"
            );
        }
    }
}

#[test]
fn text_output_two_level_tree_indentation() {
    let child = leaf_node(ActionEntry {
        resolved_sha: Some("child-sha".to_string()),
        ..entry_of("actions/setup-node@v4")
    });
    let parent = AuditNode {
        entry: ActionEntry { resolved_sha: Some("parent-sha".to_string()), ..sample_entry() },
        children: vec![child],
    };

    let output = TextOutput.write_results(&vec![parent]);
    let lines: Vec<&str> = output.lines().collect();

    assert_eq!(lines[0], "actions/checkout@v4");
    assert_eq!(lines[1], "  sha: parent-sha");
    assert_eq!(lines[2], "  advisories: none");
    assert_eq!(lines[3], "  actions/setup-node@v4");
    assert_eq!(lines[4], "    sha: child-sha");
    assert_eq!(lines[5], "    advisories: none");
}

#[test]
fn text_output_three_level_tree_indentation() {
    let grandchild = leaf_node(entry_of("codecov/codecov-action@v3"));
    let child = AuditNode { entry: entry_of("actions/setup-node@v4"), children: vec![grandchild] };
    let root = AuditNode { entry: sample_entry(), children: vec![child] };

    let output = TextOutput.write_results(&vec![root]);
    let lines: Vec<&str> = output.lines().collect();

    assert_eq!(lines[0], "actions/checkout@v4");
    assert_eq!(lines[1], "  advisories: none");
    assert_eq!(lines[2], "  actions/setup-node@v4");
    assert_eq!(lines[3], "    advisories: none");
    assert_eq!(lines[4], "    codecov/codecov-action@v3");
    assert_eq!(lines[5], "      advisories: none");
}

#[test]
fn text_output_dep_vulnerabilities_with_depth() {
    let child = leaf_node(ActionEntry {
        dep_vulnerabilities: vec![DependencyReport {
            package: "lodash".to_string(),
            version: "4.17.20".to_string(),
            ecosystem: Ecosystem::Npm,
            advisories: vec![advisory("GHSA-dep1", "Prototype pollution", "high", "https://example.com/dep1", None)],
        }],
        ..entry_of("actions/setup-node@v4")
    });
    let root = AuditNode { entry: sample_entry(), children: vec![child] };

    let output = TextOutput.write_results(&vec![root]);

    assert!(output.contains("    dependency vulnerabilities:"));
    assert!(output.contains("      lodash@4.17.20 (npm):"));
    assert!(output.contains("        GHSA-dep1"));
}

#[test]
fn text_output_of_a_full_entry_is_exact() {
    let node = leaf_node(ActionEntry {
        action: sample_action(),
        resolved_sha: Some("abc123".to_string()),
        advisories: vec![
            advisory("GHSA-1", "One", "high", "https://x/1", Some("< 2")),
            advisory("GHSA-2", "Two", "low", "https://x/2", None),
        ],
        scan: Some(ScanResult { primary_language: None, ecosystems: vec![Ecosystem::RubyGems] }),
        dep_vulnerabilities: vec![DependencyReport {
            package: "lodash".to_string(),
            version: "^4".to_string(),
            ecosystem: Ecosystem::Npm,
            advisories: vec![advisory("GHSA-3", "Three", "medium", "https://x/3", None)],
        }],
        errors: vec![StageError { stage: "Scan".to_string(), message: "HTTP 502".to_string() }],
    });
    let expected = "\
actions/checkout@v4
  sha: abc123
  ecosystems: rubygems
  GHSA-1 (high): One
    https://x/1
    affected: < 2
  GHSA-2 (low): Two
    https://x/2
  dependency vulnerabilities:
    lodash@^4 (npm):
      GHSA-3 (medium): Three
    https://x/3
";
    assert_eq!(TextOutput.write_results(&vec![node]), expected);
}

#[test]
fn write_node_appends_at_the_given_indentation() {
    let node = AuditNode { entry: sample_entry(), children: vec![leaf_node(entry_of("a/b@v1"))] };
    let mut out = String::from(">>");
    write_node(&node, "....", &mut out);
    assert_eq!(
        out,
        ">>....actions/checkout@v4\n....  advisories: none\n....  a/b@v1\n....    advisories: none\n"
    );
    assert_eq!(TextOutput.write_results(&vec![]), "");
}

#[test]
fn scan_lines_show_only_what_was_found() {
    let with = |scan: ScanResult| {
        TextOutput.write_results(&vec![leaf_node(ActionEntry { scan: Some(scan), ..sample_entry() })])
    };
    assert_eq!(
        with(ScanResult { primary_language: None, ecosystems: vec![] }),
        "actions/checkout@v4\n  advisories: none\n"
    );
    assert_eq!(
        with(ScanResult { primary_language: Some("Go".to_string()), ecosystems: vec![] }),
        "actions/checkout@v4\n  language: Go\n  advisories: none\n"
    );
    assert_eq!(
        with(ScanResult {
            primary_language: Some("Go".to_string()),
            ecosystems: vec![Ecosystem::Go, Ecosystem::Docker, Ecosystem::Cargo],
        }),
        "actions/checkout@v4\n  language: Go\n  ecosystems: go, docker, cargo\n  advisories: none\n"
    );
}

fn json_of(nodes: &Vec<AuditNode>) -> serde_json::Value {
    let output = JsonOutput.write_results(nodes).unwrap();
    assert!(output.ends_with("}\n]\n") || output == "[]\n");
    serde_json::from_str(&output).unwrap()
}

#[test]
fn json_output_basic() {
    let nodes = vec![leaf_node(sample_entry())];
    let parsed = json_of(&nodes);
    let arr = parsed.as_array().unwrap();
    assert_eq!(arr.len(), 1);
    assert_eq!(arr[0]["raw"], "actions/checkout@v4");
    assert_eq!(arr[0]["owner"], "actions");
    assert_eq!(arr[0]["repo"], "checkout");
    assert_eq!(arr[0]["ref_type"], "tag");
    // resolved_sha should be absent when None
    assert!(arr[0].get("resolved_sha").is_none());
    // advisories is always present
    assert!(arr[0].get("advisories").is_some());
    // children should be absent when empty
    assert!(arr[0].get("children").is_none(), "children key should be omitted when empty");
}

#[test]
fn json_output_with_all_fields() {
    let nodes = vec![leaf_node(ActionEntry {
        resolved_sha: Some("deadbeef".to_string()),
        advisories: vec![advisory("GHSA-1234", "Bad thing", "high", "https://ghsa.example.com/1234", Some(">= 1.0"))],
        ..sample_entry()
    })];
    let parsed = json_of(&nodes);
    let arr = parsed.as_array().unwrap();
    assert_eq!(arr[0]["resolved_sha"], "deadbeef");
    assert_eq!(arr[0]["advisories"][0]["id"], "GHSA-1234");
}

#[test]
fn factory_returns_json() {
    let f = formatter(true);
    let nodes = vec![leaf_node(sample_entry())];
    let output = f.render(&nodes).unwrap();
    // Should be valid JSON
    serde_json::from_str::<serde_json::Value>(&output).unwrap();
}

#[test]
fn json_output_omits_scan_when_none() {
    let nodes = vec![leaf_node(sample_entry())];
    let parsed = json_of(&nodes);
    let arr = parsed.as_array().unwrap();
    assert!(arr[0].get("scan").is_none());
}

#[test]
fn json_output_includes_scan_when_present() {
    let nodes = vec![leaf_node(ActionEntry {
        scan: Some(ScanResult {
            primary_language: Some("TypeScript".to_string()),
            ecosystems: vec![Ecosystem::Npm, Ecosystem::Docker],
        }),
        ..sample_entry()
    })];
    let parsed = json_of(&nodes);
    let arr = parsed.as_array().unwrap();
    let scan = &arr[0]["scan"];
    assert_eq!(scan["primary_language"], "TypeScript");
    let ecos = scan["ecosystems"].as_array().unwrap();
    assert_eq!(ecos.len(), 2);
    assert_eq!(ecos[0], "npm");
    assert_eq!(ecos[1], "docker");
}

#[test]
fn audit_node_serialization_omits_empty_children() {
    let node = leaf_node(sample_entry());
    let json = JsonOutput.write_results(&vec![node]).unwrap();
    assert!(!json.contains("\"children\""), "expected 'children' key to be absent in JSON, got: {json}");
}

#[test]
fn audit_node_serialization_includes_children() {
    let child = leaf_node(entry_of("actions/setup-node@v4"));
    let parent = AuditNode { entry: sample_entry(), children: vec![child] };

    let json = JsonOutput.write_results(&vec![parent]).unwrap();
    assert!(json.contains("\"children\""), "expected 'children' key in JSON, got: {json}");
    let parsed: serde_json::Value = serde_json::from_str(&json).unwrap();
    let children = parsed[0]["children"].as_array().unwrap();
    assert_eq!(children.len(), 1);
    assert_eq!(children[0]["raw"], "actions/setup-node@v4");
}

#[test]
fn json_regression_flat_nodes_omit_children_key() {
    let nodes = vec![leaf_node(sample_entry()), leaf_node(entry_of("actions/setup-node@v4"))];
    let parsed = json_of(&nodes);
    let arr = parsed.as_array().unwrap();
    assert_eq!(arr.len(), 2);
    for entry in arr {
        assert!(entry.get("children").is_none(), "children key should be absent for flat nodes, got: {entry}");
    }
}

#[test]
fn json_output_nested_children() {
    let child = leaf_node(entry_of("actions/setup-node@v4"));
    let parent = AuditNode { entry: sample_entry(), children: vec![child] };

    let parsed = json_of(&vec![parent]);
    let arr = parsed.as_array().unwrap();
    assert_eq!(arr.len(), 1);
    assert_eq!(arr[0]["raw"], "actions/checkout@v4");

    let children = arr[0]["children"].as_array().unwrap();
    assert_eq!(children.len(), 1);
    assert_eq!(children[0]["raw"], "actions/setup-node@v4");
    // Grandchildren should be absent (empty)
    assert!(children[0].get("children").is_none());
}

#[test]
fn json_output_of_a_full_node_is_exact() {
    let mut with_alias = advisory("GHSA-1", "One", "high", "https://x/1", Some("< 2"));
    with_alias.aliases = vec!["CVE-1".to_string()];
    let node = leaf_node(ActionEntry {
        action: "org/repo/sub/dir@main".parse().unwrap(),
        resolved_sha: Some("abc".to_string()),
        advisories: vec![with_alias, advisory("GHSA-2", "Two \"quoted\"", "low", "", None)],
        scan: Some(ScanResult { primary_language: None, ecosystems: vec![] }),
        dep_vulnerabilities: vec![DependencyReport {
            package: "lodash".to_string(),
            version: "^4".to_string(),
            ecosystem: Ecosystem::Npm,
            advisories: vec![],
        }],
        errors: vec![StageError { stage: "Scan".to_string(), message: "HTTP 502".to_string() }],
    });
    let expected: serde_json::Value = serde_json::from_str(
        r#"[{
            "raw": "org/repo/sub/dir@main", "owner": "org", "repo": "repo", "path": "sub/dir",
            "git_ref": "main", "ref_type": "unknown", "resolved_sha": "abc",
            "advisories": [
                {"id": "GHSA-1", "aliases": ["CVE-1"], "summary": "One", "severity": "high",
                 "url": "https://x/1", "affected_range": "< 2", "source": "ghsa"},
                {"id": "GHSA-2", "summary": "Two \"quoted\"", "severity": "low", "url": "",
                 "affected_range": null, "source": "ghsa"}
            ],
            "scan": {"primary_language": null, "ecosystems": []},
            "dep_vulnerabilities": [
                {"package": "lodash", "version": "^4", "ecosystem": "npm", "advisories": []}
            ]
        }]"#,
    )
    .unwrap();
    assert_eq!(json_of(&vec![node]), expected);
    let bare: serde_json::Value = serde_json::from_str(
        r#"[{"raw": "a/b@v1", "owner": "a", "repo": "b", "path": null, "git_ref": "v1",
             "ref_type": "tag", "advisories": []}]"#,
    )
    .unwrap();
    assert_eq!(json_of(&vec![leaf_node(entry_of("a/b@v1"))]), bare);
    assert_eq!(JsonOutput.write_results(&vec![]).unwrap(), "[]\n");
}

#[test]
fn text_output_basic() {
    let nodes = vec![leaf_node(ActionEntry {
        resolved_sha: None,
        advisories: Vec::new(),
        ..sample_entry()
    })];
    let fmt = TextOutput;
    assert_eq!(fmt.write_results(&nodes), "actions/checkout@v4\n  advisories: none\n");
}

#[test]
fn factory_returns_text() {
    let f = formatter(false);
    let nodes = vec![leaf_node(ActionEntry {
        resolved_sha: None,
        advisories: Vec::new(),
        ..sample_entry()
    })];
    let output = f.render(&nodes).unwrap();
    assert_eq!(output, "actions/checkout@v4\n  advisories: none\n");
}

#[test]
fn line_ended_adds_a_line_break_to_a_text_and_keeps_a_message() {
    assert_eq!(ghss::output_json::line_ended(Ok("[]".to_string())), Ok("[]\n".to_string()));
    assert_eq!(ghss::output_json::line_ended(Ok(String::new())), Ok("\n".to_string()));
    assert_eq!(
        ghss::output_json::line_ended(Err("key must be a string".to_string())),
        Err("key must be a string".to_string())
    );
}

#[test]
fn json_output_of_no_node_is_an_empty_array_and_a_line_break() {
    assert_eq!(JsonOutput.write_results(&Vec::new()), Ok("[]\n".to_string()));
    assert_eq!(formatter(true).render(&Vec::new()), Ok("[]\n".to_string()));
}
