use ghss::advisory::Advisory;
use ghss::ghsa::parse_advisories;
use ghss::json::{parse_json, Json, JsonField, Malformed};
use ghss::osv::{format_range_events, parse_osv_response, OsvEvent};

fn osv(text: &str) -> Result<Vec<Advisory>, Malformed> {
    parse_osv_response(&parse_json(text).unwrap())
}

fn ghsa(text: &str) -> Result<Vec<Advisory>, Malformed> {
    parse_advisories(&parse_json(text).unwrap())
}

#[test]
fn parse_empty_response() {
    let advisories = osv("{}").unwrap();
    assert!(advisories.is_empty());
}

#[test]
fn parse_empty_vulns_array() {
    let advisories = osv(r#"{"vulns": []}"#).unwrap();
    assert!(advisories.is_empty());
}

#[test]
fn parse_vuln_with_all_fields() {
    let advisories = osv(
        r#"{
            "vulns": [{
                "id": "GHSA-mcph-m25j-8j63",
                "summary": "tj-actions/changed-files workflow compromise",
                "references": [
                    {"type": "ADVISORY", "url": "https://github.com/advisories/GHSA-mcph-m25j-8j63"},
                    {"type": "WEB", "url": "https://example.com/other"}
                ],
                "affected": [{
                    "ranges": [{
                        "type": "ECOSYSTEM",
                        "events": [
                            {"introduced": "0"},
                            {"fixed": "46.0.1"}
                        ]
                    }]
                }],
                "database_specific": {
                    "severity": "CRITICAL"
                }
            }]
        }"#,
    )
    .unwrap();
    assert_eq!(advisories.len(), 1);

    let a = &advisories[0];
    assert_eq!(a.id, "GHSA-mcph-m25j-8j63");
    assert_eq!(a.summary, "tj-actions/changed-files workflow compromise");
    assert_eq!(a.severity, "critical");
    assert_eq!(a.url, "https://github.com/advisories/GHSA-mcph-m25j-8j63");
    assert_eq!(a.affected_range, Some("< 46.0.1".to_string()));
    assert_eq!(a.source, "OSV");
}

#[test]
fn parse_vuln_falls_back_to_web_url() {
    let advisories = osv(
        r#"{
            "vulns": [{
                "id": "OSV-1234",
                "summary": "Some issue",
                "references": [
                    {"type": "WEB", "url": "https://example.com/web"}
                ],
                "affected": [],
                "database_specific": null
            }]
        }"#,
    )
    .unwrap();
    assert_eq!(advisories[0].url, "https://example.com/web");
    assert_eq!(advisories[0].severity, "unknown");
}

#[test]
fn parse_vuln_with_introduced_and_fixed_range() {
    let advisories = osv(
        r#"{
            "vulns": [{
                "id": "OSV-5678",
                "summary": "Range test",
                "references": [],
                "affected": [{
                    "ranges": [{
                        "type": "ECOSYSTEM",
                        "events": [
                            {"introduced": "6.0.0"},
                            {"fixed": "8.3.1"}
                        ]
                    }]
                }],
                "database_specific": {"severity": "HIGH"}
            }]
        }"#,
    )
    .unwrap();
    assert_eq!(advisories[0].affected_range, Some(">= 6.0.0, < 8.3.1".to_string()));
}

#[test]
fn parse_vuln_with_missing_fields() {
    let advisories = osv(
        r#"{
            "vulns": [{
                "id": "OSV-MINIMAL",
                "summary": "",
                "references": [],
                "affected": []
            }]
        }"#,
    )
    .unwrap();
    assert_eq!(advisories.len(), 1);
    assert_eq!(advisories[0].id, "OSV-MINIMAL");
    assert_eq!(advisories[0].severity, "unknown");
    assert!(advisories[0].url.is_empty());
    assert!(advisories[0].affected_range.is_none());
}

#[test]
fn format_range_introduced_zero_and_fixed() {
    let events = vec![
        OsvEvent { introduced: Some("0".to_string()), fixed: None, last_affected: None },
        OsvEvent { introduced: None, fixed: Some("7.0.7".to_string()), last_affected: None },
    ];
    assert_eq!(format_range_events(&events), "< 7.0.7");
}

#[test]
fn format_range_introduced_and_fixed() {
    let events = vec![
        OsvEvent { introduced: Some("2.0.0".to_string()), fixed: None, last_affected: None },
        OsvEvent { introduced: None, fixed: Some("3.1.0".to_string()), last_affected: None },
    ];
    assert_eq!(format_range_events(&events), ">= 2.0.0, < 3.1.0");
}

#[test]
fn format_range_last_affected() {
    let events = vec![
        OsvEvent { introduced: Some("0".to_string()), fixed: None, last_affected: None },
        OsvEvent { introduced: None, fixed: None, last_affected: Some("5.0.0".to_string()) },
    ];
    assert_eq!(format_range_events(&events), "<= 5.0.0");
}

#[test]
fn parse_multiple_vulns() {
    let advisories = osv(
        r#"{
            "vulns": [
                {"id": "FIRST-001", "summary": "First", "references": [], "affected": []},
                {"id": "SECOND-002", "summary": "Second", "references": [], "affected": []}
            ]
        }"#,
    )
    .unwrap();
    assert_eq!(advisories.len(), 2);
    assert_eq!(advisories[0].id, "FIRST-001");
    assert_eq!(advisories[1].id, "SECOND-002");
}

#[test]
fn parse_vuln_with_aliases() {
    let advisories = osv(
        r#"{
            "vulns": [{
                "id": "GHSA-mcph-m25j-8j63",
                "aliases": ["CVE-2025-30066"],
                "summary": "tj-actions/changed-files workflow compromise",
                "references": [],
                "affected": [],
                "database_specific": {"severity": "CRITICAL"}
            }]
        }"#,
    )
    .unwrap();
    assert_eq!(advisories.len(), 1);
    assert_eq!(advisories[0].aliases, vec!["CVE-2025-30066"]);
}

#[test]
fn parse_vuln_without_aliases_defaults_empty() {
    let advisories = osv(
        r#"{"vulns": [{"id": "OSV-NOALIAS", "summary": "No aliases", "references": [], "affected": []}]}"#,
    )
    .unwrap();
    assert!(advisories[0].aliases.is_empty());
}

#[test]
fn format_range_of_one_event_with_all_three() {
    let events = vec![OsvEvent {
        introduced: Some("1.0".to_string()),
        fixed: Some("2.0".to_string()),
        last_affected: Some("1.9".to_string()),
    }];
    assert_eq!(format_range_events(&events), ">= 1.0, < 2.0, <= 1.9");
    assert_eq!(format_range_events(&vec![]), "");
    let zero_only =
        vec![OsvEvent { introduced: Some("0".to_string()), fixed: None, last_affected: None }];
    assert_eq!(format_range_events(&zero_only), "");
    let zero_like =
        vec![OsvEvent { introduced: Some("0.0".to_string()), fixed: None, last_affected: None }];
    assert_eq!(format_range_events(&zero_like), ">= 0.0");
}

#[test]
fn osv_url_prefers_the_first_advisory_reference() {
    let a = osv(
        r#"{"vulns": [{"id": "X", "references": [
            {"type": "WEB", "url": "w1"},
            {"type": "ADVISORY"},
            {"type": "ADVISORY", "url": "a2"}
        ]}]}"#,
    )
    .unwrap();
    // the first ADVISORY reference counts, also where it has no URL
    assert_eq!(a[0].url, "");
    let b = osv(r#"{"vulns": [{"id": "X", "references": [{"type": "PACKAGE", "url": "p"}]}]}"#)
        .unwrap();
    assert_eq!(b[0].url, "");
    assert_eq!(b[0].summary, "");
}

#[test]
fn osv_range_of_an_empty_first_range_is_empty_text() {
    let a = osv(r#"{"vulns": [{"id": "X", "affected": [{"ranges": [{}]}]}]}"#).unwrap();
    assert_eq!(a[0].affected_range, Some(String::new()));
    let b = osv(r#"{"vulns": [{"id": "X", "affected": [{}, {"ranges": [{"events": [{"fixed": "1"}]}]}]}]}"#)
        .unwrap();
    assert_eq!(b[0].affected_range, None);
}

#[test]
fn osv_rejects_records_of_another_shape() {
    for text in [
        "[]",
        r#"{"vulns": {}}"#,
        r#"{"vulns": null}"#,
        r#"{"vulns": [{}]}"#,
        r#"{"vulns": [{"id": 7}]}"#,
        r#"{"vulns": [{"id": "X", "summary": null}]}"#,
        r#"{"vulns": [{"id": "X", "aliases": ["a", 1]}]}"#,
        r#"{"vulns": [{"id": "X", "references": [{"type": 1}]}]}"#,
        r#"{"vulns": [{"id": "X", "references": ["r"]}]}"#,
        r#"{"vulns": [{"id": "X", "affected": [{"ranges": [{"events": [{"fixed": 1}]}]}]}]}"#,
        r#"{"vulns": [{"id": "X", "affected": [{}, {"ranges": 3}]}]}"#,
        r#"{"vulns": [{"id": "X", "database_specific": "high"}]}"#,
        r#"{"vulns": [{"id": "X", "database_specific": {"severity": 3}}]}"#,
        r#"{"vulns": [{"id": "ok"}, "second"]}"#,
    ] {
        assert_eq!(osv(text), Err(Malformed), "for {text}");
    }
    assert_eq!(Malformed.to_string(), "unexpected shape of document");
}

#[test]
fn osv_reads_a_document_written_by_hand() {
    let doc = Json::Object(vec![JsonField {
        name: "vulns".to_string(),
        value: Json::List(vec![Json::Object(vec![
            JsonField { name: "id".to_string(), value: Json::Text("H-1".to_string()) },
            JsonField {
                name: "database_specific".to_string(),
                value: Json::Object(vec![JsonField {
                    name: "severity".to_string(),
                    value: Json::Text("MoDeRaTe".to_string()),
                }]),
            },
        ])]),
    }]);
    let found = parse_osv_response(&doc).unwrap();
    assert_eq!(found.len(), 1);
    assert_eq!(found[0].severity, "moderate");
    assert_eq!(found[0].id, "H-1");
}

#[test]
fn parse_empty_advisory_response() {
    let advisories = ghsa("[]").unwrap();
    assert!(advisories.is_empty());
}

#[test]
fn parse_advisory_with_all_fields() {
    let advisories = ghsa(
        r#"[{
            "ghsa_id": "GHSA-r79c-pqj3-577x",
            "summary": "Super-linter is vulnerable to command injection via crafted filenames",
            "severity": "high",
            "html_url": "https://github.com/advisories/GHSA-r79c-pqj3-577x",
            "vulnerabilities": [{
                "package": {
                    "ecosystem": "actions",
                    "name": "super-linter/super-linter"
                },
                "vulnerable_version_range": ">= 6.0.0, < 8.3.1"
            }]
        }]"#,
    )
    .unwrap();
    assert_eq!(advisories.len(), 1);

    let a = &advisories[0];
    assert_eq!(a.id, "GHSA-r79c-pqj3-577x");
    assert_eq!(a.summary, "Super-linter is vulnerable to command injection via crafted filenames");
    assert_eq!(a.severity, "high");
    assert_eq!(a.url, "https://github.com/advisories/GHSA-r79c-pqj3-577x");
    assert_eq!(a.affected_range, Some(">= 6.0.0, < 8.3.1".to_string()));
    assert_eq!(a.source, "GHSA");
}

#[test]
fn parse_advisory_with_missing_optional_fields() {
    let advisories = ghsa(
        r#"[{
            "ghsa_id": "GHSA-xxxx-yyyy-zzzz",
            "summary": "Some issue",
            "severity": "high",
            "html_url": "https://example.com"
        }]"#,
    )
    .unwrap();
    assert_eq!(advisories.len(), 1);
    assert!(advisories[0].affected_range.is_none());
}

#[test]
fn parse_multiple_advisories() {
    let advisories = ghsa(
        r#"[
            {"ghsa_id": "GHSA-aaaa-bbbb-cccc", "summary": "First", "severity": "low", "html_url": "https://example.com/1"},
            {"ghsa_id": "GHSA-dddd-eeee-ffff", "summary": "Second", "severity": "medium", "html_url": "https://example.com/2"}
        ]"#,
    )
    .unwrap();
    assert_eq!(advisories.len(), 2);
    assert_eq!(advisories[0].id, "GHSA-aaaa-bbbb-cccc");
    assert_eq!(advisories[1].id, "GHSA-dddd-eeee-ffff");
}

#[test]
fn parse_non_array_returns_error() {
    assert!(ghsa(r#"{"error": "bad request"}"#).is_err());
}

#[test]
fn ghsa_defaults_and_first_vulnerability() {
    let a = ghsa(r#"[{"vulnerabilities": [{}, {"vulnerable_version_range": "< 2"}]}]"#).unwrap();
    assert_eq!(a[0].id, "unknown");
    assert_eq!(a[0].severity, "unknown");
    assert_eq!(a[0].summary, "");
    assert_eq!(a[0].url, "");
    assert!(a[0].aliases.is_empty());
    // the range is that of the first vulnerability, which has none
    assert_eq!(a[0].affected_range, None);
    assert!(ghsa(r#"[{"ghsa_id": 1}]"#).is_err());
    assert!(ghsa(r#"[{"vulnerabilities": [3]}]"#).is_err());
    assert!(ghsa(r#"[{"vulnerabilities": null}]"#).is_err());
    assert!(ghsa(r#"["x"]"#).is_err());
}
