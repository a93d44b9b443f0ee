use ghss::deps::{npm_dependencies, parse_npm_dependencies};
use ghss::github::{
    advisories_request, branch_ref, extract_commit_sha, graphql_data, raw_file_path, raw_request,
    tag_commit, tag_object, tag_ref, GraphqlError, RefTarget, Request, ResolveError,
};
use ghss::json::{parse_json, Json};
use ghss::scan::{
    build_query, extract_ecosystems, extract_primary_language, manifest_alias, scan_from_data,
    Ecosystem, MANIFEST_COUNT,
};

fn mock_graphql_response(languages: Vec<(&str, u64)>, manifests: Vec<&str>) -> Json {
    let edges: Vec<String> = languages
        .into_iter()
        .map(|(name, size)| format!(r#"{{"size": {size}, "node": {{"name": "{name}"}}}}"#))
        .collect();
    let mut fields = vec![format!(r#""languages": {{"edges": [{}]}}"#, edges.join(","))];
    for i in 0..MANIFEST_COUNT {
        let alias = manifest_alias(i).unwrap().0;
        if manifests.contains(&alias) {
            fields.push(format!(r#""{alias}": {{"__typename": "Blob"}}"#));
        } else {
            fields.push(format!(r#""{alias}": null"#));
        }
    }
    parse_json(&format!("{{{}}}", fields.join(","))).unwrap()
}

#[test]
fn parses_languages_and_ecosystems() {
    let repo = mock_graphql_response(
        vec![("TypeScript", 50000), ("JavaScript", 30000), ("Shell", 1000)],
        vec!["packageJson", "dockerfile"],
    );

    let primary = extract_primary_language(&repo);
    assert_eq!(primary, Some("TypeScript".to_string()));

    let ecosystems = extract_ecosystems(&repo);
    assert_eq!(ecosystems, vec![Ecosystem::Npm, Ecosystem::Docker]);
}

#[test]
fn no_languages_returns_none() {
    let repo = mock_graphql_response(vec![], vec!["cargoToml"]);
    let primary = extract_primary_language(&repo);
    assert_eq!(primary, None);
}

#[test]
fn no_manifests_returns_empty_ecosystems() {
    let repo = mock_graphql_response(vec![("Rust", 10000)], vec![]);
    let ecosystems = extract_ecosystems(&repo);
    assert!(ecosystems.is_empty());
}

#[test]
fn pip_deduplicates_requirements_and_pyproject() {
    let repo = mock_graphql_response(vec![("Python", 20000)], vec!["requirementsTxt", "pyprojectToml"]);
    let ecosystems = extract_ecosystems(&repo);
    assert_eq!(ecosystems, vec![Ecosystem::Pip]);
}

#[test]
fn ecosystem_display() {
    assert_eq!(Ecosystem::Npm.to_string(), "npm");
    assert_eq!(Ecosystem::Cargo.to_string(), "cargo");
    assert_eq!(Ecosystem::Go.to_string(), "go");
    assert_eq!(Ecosystem::Pip.to_string(), "pip");
    assert_eq!(Ecosystem::Maven.to_string(), "maven");
    assert_eq!(Ecosystem::Gradle.to_string(), "gradle");
    assert_eq!(Ecosystem::RubyGems.to_string(), "rubygems");
    assert_eq!(Ecosystem::Composer.to_string(), "composer");
    assert_eq!(Ecosystem::Docker.to_string(), "docker");
}

#[test]
fn all_ecosystems_detected() {
    let repo = mock_graphql_response(
        vec![("Java", 40000)],
        vec![
            "packageJson", "cargoToml", "goMod", "requirementsTxt", "pomXml", "buildGradle",
            "gemfile", "composerJson", "dockerfile",
        ],
    );

    let ecosystems = extract_ecosystems(&repo);
    assert_eq!(
        ecosystems,
        vec![
            Ecosystem::Npm,
            Ecosystem::Cargo,
            Ecosystem::Go,
            Ecosystem::Pip,
            Ecosystem::Maven,
            Ecosystem::Gradle,
            Ecosystem::RubyGems,
            Ecosystem::Composer,
            Ecosystem::Docker,
        ]
    );
}

#[test]
fn primary_language_takes_the_last_of_equal_sizes() {
    let repo = parse_json(
        r#"{"languages": {"edges": [
            {"size": 5, "node": {"name": "A"}},
            {"size": 9, "node": {"name": "B"}},
            {"size": "big", "node": {"name": "C"}},
            {"size": 9, "node": {"name": "D"}},
            {"size": 9, "node": {}},
            {"size": -1, "node": {"name": "E"}},
            {"size": 2.5, "node": {"name": "F"}}
        ]}}"#,
    )
    .unwrap();
    assert_eq!(extract_primary_language(&repo), Some("D".to_string()));
    assert_eq!(extract_primary_language(&parse_json(r#"{"languages": {"edges": {}}}"#).unwrap()), None);
    assert_eq!(extract_primary_language(&parse_json("[]").unwrap()), None);
    assert!(extract_ecosystems(&parse_json("[]").unwrap()).is_empty());
}

#[test]
fn query_names_the_repository_and_every_probe() {
    let q = build_query("actions", "checkout");
    assert!(q.starts_with("query {\n  repository(owner: \"actions\", name: \"checkout\") {\n"));
    assert!(q.contains("    languages(first: 10) {\n      edges { size node { name } }\n    }\n"));
    assert!(q.contains("    pyprojectToml: object(expression: \"HEAD:pyproject.toml\") { __typename }\n"));
    assert!(q.ends_with("    dockerfile: object(expression: \"HEAD:Dockerfile\") { __typename }\n  }\n}"));
    for i in 0..MANIFEST_COUNT {
        assert!(q.contains(&format!("    {}: object(expression: \"HEAD:", manifest_alias(i).unwrap().0)));
    }
    assert_eq!(manifest_alias(4), Some(("pyprojectToml", Ecosystem::Pip)));
    assert_eq!(manifest_alias(MANIFEST_COUNT), None);
    assert_eq!(q.lines().count(), 17);
}

#[test]
fn scan_from_data_needs_a_repository() {
    let data = parse_json(r#"{"repository": {"packageJson": {"x": 1}, "languages": {"edges": []}}}"#).unwrap();
    let scan = scan_from_data(&data).unwrap();
    assert_eq!(scan.primary_language, None);
    assert_eq!(scan.ecosystems, vec![Ecosystem::Npm]);
    assert!(scan_from_data(&parse_json("{}").unwrap()).is_none());
    let of_null = scan_from_data(&parse_json(r#"{"repository": null}"#).unwrap()).unwrap();
    assert!(of_null.ecosystems.is_empty() && of_null.primary_language.is_none());
    let copy = scan.duplicate();
    assert_eq!(copy.ecosystems, scan.ecosystems);
}

#[test]
fn graphql_answer_with_errors_is_a_failure() {
    let with_errors = parse_json(r#"{"errors": [{"message": "x"}], "data": {"a": 1}}"#).unwrap();
    assert_eq!(graphql_data(&with_errors).unwrap_err(), GraphqlError::Errors);
    assert_eq!(graphql_data(&parse_json(r#"{"errors": null}"#).unwrap()).unwrap_err(), GraphqlError::Errors);
    assert_eq!(graphql_data(&parse_json(r#"{"other": 1}"#).unwrap()).unwrap_err(), GraphqlError::MissingData);
    let ok = parse_json(r#"{"data": {"repository": null}}"#).unwrap();
    assert!(graphql_data(&ok).unwrap().get("repository").unwrap().is_null());
    assert!(GraphqlError::MissingData.to_string().contains("missing 'data'"));
    assert!(GraphqlError::Errors.to_string().contains("GraphQL errors"));
}

#[test]
fn parse_dependencies_basic() {
    let content = r#"{
        "name": "my-action",
        "dependencies": {
            "lodash": "^4.17.20",
            "express": "~4.18.0"
        }
    }"#;
    let deps = parse_npm_dependencies(content).unwrap();
    assert_eq!(deps.len(), 2);
    assert!(deps.contains(&("lodash".to_string(), "^4.17.20".to_string())));
    assert!(deps.contains(&("express".to_string(), "~4.18.0".to_string())));
}

#[test]
fn parse_dependencies_empty_deps() {
    let content = r#"{"name": "my-action", "dependencies": {}}"#;
    let deps = parse_npm_dependencies(content).unwrap();
    assert!(deps.is_empty());
}

#[test]
fn parse_dependencies_no_deps_field() {
    let content = r#"{"name": "my-action", "devDependencies": {"jest": "^29.0.0"}}"#;
    let deps = parse_npm_dependencies(content).unwrap();
    assert!(deps.is_empty());
}

#[test]
fn parse_dependencies_ignores_dev_dependencies() {
    let content = r#"{
        "name": "my-action",
        "dependencies": {"lodash": "^4.17.20"},
        "devDependencies": {"jest": "^29.0.0"}
    }"#;
    let deps = parse_npm_dependencies(content).unwrap();
    assert_eq!(deps.len(), 1);
    assert_eq!(deps[0].0, "lodash");
}

#[test]
fn parse_dependencies_invalid_json() {
    let result = parse_npm_dependencies("not json");
    assert!(result.is_err());
}

#[test]
fn parse_dependencies_skips_non_string_versions() {
    let content = r#"{
        "dependencies": {
            "lodash": "^4.17.20",
            "broken": 123
        }
    }"#;
    let deps = parse_npm_dependencies(content).unwrap();
    assert_eq!(deps.len(), 1);
    assert_eq!(deps[0].0, "lodash");
}

#[test]
fn dependencies_of_another_shape_are_none() {
    assert!(parse_npm_dependencies(r#"{"dependencies": ["a"]}"#).unwrap().is_empty());
    assert!(parse_npm_dependencies(r#"{"dependencies": null}"#).unwrap().is_empty());
    assert!(parse_npm_dependencies("[1]").unwrap().is_empty());
    let doc = parse_json(r#"{"dependencies": {"b": "2", "a": "1", "c": null}}"#).unwrap();
    let names: Vec<String> = npm_dependencies(&doc).into_iter().map(|p| p.0).collect();
    assert_eq!(names.len(), 2);
    assert!(names.contains(&"a".to_string()) && names.contains(&"b".to_string()));
}

#[test]
fn extract_commit_sha_lightweight_tag() {
    let ref_json = parse_json(
        r#"{"ref": "refs/tags/v4", "object": {"type": "commit", "sha": "abc123def456abc123def456abc123def456abc1"}}"#,
    )
    .unwrap();
    match extract_commit_sha(&ref_json).unwrap() {
        RefTarget::Commit(sha) => assert_eq!(sha, "abc123def456abc123def456abc123def456abc1"),
        other => panic!("expected a commit, got {other:?}"),
    }
}

#[test]
fn extract_commit_sha_unexpected_type() {
    let ref_json =
        parse_json(r#"{"ref": "refs/tags/v4", "object": {"type": "tree", "sha": "abc123"}}"#).unwrap();
    let result = extract_commit_sha(&ref_json);
    assert!(result.is_err());
    assert!(result.unwrap_err().to_string().contains("unexpected"));
}

#[test]
fn extract_commit_sha_missing_object() {
    let ref_json = parse_json(r#"{"ref": "refs/tags/v4"}"#).unwrap();
    let result = extract_commit_sha(&ref_json);
    assert!(result.is_err());
}

#[test]
fn ref_answers_name_their_fault() {
    let read = |text: &str| extract_commit_sha(&parse_json(text).unwrap());
    assert!(matches!(read(r#"{"object": {"type": "tag", "sha": "t1"}}"#), Ok(RefTarget::Tag(s)) if s == "t1"));
    assert!(matches!(read(r#"{"object": {"sha": "t1"}}"#), Err(ResolveError::MissingType)));
    assert!(matches!(read(r#"{"object": {"type": 3, "sha": "t1"}}"#), Err(ResolveError::MissingType)));
    assert!(matches!(read(r#"{"object": {"type": "commit"}}"#), Err(ResolveError::MissingSha)));
    assert!(matches!(read(r#"{"object": null}"#), Err(ResolveError::MissingType)));
    assert!(matches!(read("[]"), Err(ResolveError::MissingObject)));
    assert_eq!(
        read(r#"{"object": {"type": "blob", "sha": "x"}}"#).unwrap_err().to_string(),
        "unexpected ref object type: blob"
    );
    assert_eq!(tag_commit(&parse_json(r#"{"object": {"sha": "c0ffee"}}"#).unwrap()), Some("c0ffee".to_string()));
    assert_eq!(tag_commit(&parse_json(r#"{"object": {"sha": 1}}"#).unwrap()), None);
    assert_eq!(tag_commit(&parse_json(r#"{}"#).unwrap()), None);
    assert_eq!(ResolveError::Transport("x returned HTTP 500".to_string()).to_string(), "x returned HTTP 500");
    assert_eq!(ResolveError::NotFound.to_string(), "ref not found as tag or branch");
}

#[test]
fn request_paths() {
    let action = "actions/checkout/sub@v4".parse().unwrap();
    assert_eq!(tag_ref(&action), "/repos/actions/checkout/git/ref/tags/v4");
    assert_eq!(branch_ref(&action), "/repos/actions/checkout/git/ref/heads/v4");
    assert_eq!(tag_object(&action, "abc"), "/repos/actions/checkout/git/tags/abc");
    assert_eq!(raw_file_path("o", "r", "main", "action.yml"), "/o/r/main/action.yml");
    match advisories_request("actions/checkout/sub") {
        Request::Api { path } => assert_eq!(path, "/advisories?ecosystem=actions&affects=actions/checkout/sub"),
        other => panic!("unexpected request {other:?}"),
    }
    match raw_request(&action, "package.json") {
        Request::Raw { owner, repo, git_ref, path } => {
            assert_eq!((owner.as_str(), repo.as_str(), git_ref.as_str(), path.as_str()), ("actions", "checkout", "v4", "package.json"))
        }
        other => panic!("unexpected request {other:?}"),
    }
}

#[test]
fn json_documents_are_copied_node_for_node() {
    let doc = parse_json(r#"{"b": [1, -1, 2.5, "x", null, true], "a": {"k": "v"}}"#).unwrap();
    let fields = doc.as_object().unwrap();
    let names: Vec<&str> = fields.iter().map(|f| f.name.as_str()).collect();
    assert_eq!(names, vec!["a", "b"]);
    let items = doc.get("b").unwrap().as_list().unwrap();
    assert_eq!(items[0].as_u64(), Some(1));
    assert_eq!(items[1].as_u64(), None);
    assert_eq!(items[2].as_u64(), None);
    assert!(matches!(items[1], Json::Number(None)));
    assert_eq!(items[3].as_str(), Some("x"));
    assert!(items[4].is_null());
    assert!(matches!(items[5], Json::Bool(true)));
    assert_eq!(doc.get("a").unwrap().text("k"), Ok("v".to_string()));
    assert!(doc.get("a").unwrap().is_object());
    assert!(doc.get("c").is_none());
    assert_eq!(doc.opt_text("c"), Ok(None));
    assert!(doc.opt_text("b").is_err());
    assert_eq!(doc.text_or_empty("zzz"), Ok(String::new()));
    assert!(doc.text("zzz").is_err());
    assert_eq!(doc.list("b").unwrap().unwrap().len(), 6);
    assert!(doc.list("a").is_err());
    assert!(doc.list("zzz").unwrap().is_none());
}

#[test]
fn a_response_is_read_by_its_status() {
    assert!(matches!(ghss::github::read_response("https://h/x", 200, "text".to_string()), ghss::github::Reply::Body(b) if b == "text"));
    assert!(matches!(ghss::github::read_response("https://h/x", 204, String::new()), ghss::github::Reply::Body(b) if b.is_empty()));
    assert!(matches!(ghss::github::read_response("https://h/x", 404, "gone".to_string()), ghss::github::Reply::Missing));
    assert!(matches!(
        ghss::github::read_response("https://h/x", 500, "oops".to_string()),
        ghss::github::Reply::Failed(m) if m == "https://h/x returned HTTP 500"
    ));
    assert!(matches!(
        ghss::github::read_response("https://h/x", 403, String::new()),
        ghss::github::Reply::Failed(m) if m == "https://h/x returned HTTP 403"
    ));
    assert!(matches!(ghss::github::read_response("u", 301, String::new()), ghss::github::Reply::Failed(m) if m == "u returned HTTP 301"));
    assert!(ghss::github::carries_body(200) && ghss::github::carries_body(299));
    assert!(!ghss::github::carries_body(199) && !ghss::github::carries_body(300) && !ghss::github::carries_body(404));
}

#[test]
fn a_scan_query_without_a_token_is_refused_before_it_is_sent() {
    let query = ghss::github::Request::Graphql { query: "{}".to_string() };
    assert!(matches!(
        ghss::github::refused(&query, false),
        Some(ghss::github::Reply::Failed(m)) if m == "GitHub token is required for GraphQL API"
    ));
    assert!(ghss::github::refused(&query, true).is_none());
    let api = ghss::github::Request::Api { path: "/x".to_string() };
    assert!(ghss::github::refused(&api, false).is_none() && ghss::github::refused(&api, true).is_none());
    let osv = ghss::github::Request::Osv { package: "p".to_string(), ecosystem: "npm".to_string() };
    assert!(ghss::github::refused(&osv, false).is_none());
}

#[test]
fn lower_replaces_capital_letters_by_small_ones() {
    assert_eq!(ghss::text::lower("HIGH"), "high");
    assert_eq!(ghss::text::lower("Critical-9 [X]"), "critical-9 [x]");
    assert_eq!(ghss::text::lower("@AZ[`az{"), "@az[`az{");
    assert_eq!(ghss::text::lower(""), "");
    assert_eq!(ghss::text::lower("\u{c0}B"), "\u{e0}b");
}
