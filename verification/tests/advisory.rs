use ghss::advisory::{deduplicate_advisories, Advisory};

fn make_advisory(id: &str, aliases: Vec<&str>, source: &str) -> Advisory {
    Advisory {
        id: id.to_string(),
        aliases: aliases.into_iter().map(String::from).collect(),
        summary: format!("Advisory {id}"),
        severity: "high".to_string(),
        url: format!("https://example.com/{id}"),
        affected_range: None,
        source: source.to_string(),
    }
}

#[test]
fn dedup_removes_exact_duplicate_ids() {
    let advisories = vec![
        make_advisory("GHSA-1234", vec![], "GHSA"),
        make_advisory("GHSA-1234", vec![], "GHSA"),
    ];
    let result = deduplicate_advisories(advisories);
    assert_eq!(result.len(), 1);
    assert_eq!(result[0].id, "GHSA-1234");
}

#[test]
fn dedup_removes_by_alias() {
    let advisories = vec![
        make_advisory("GHSA-mcph-m25j-8j63", vec!["CVE-2025-30066"], "GHSA"),
        make_advisory("CVE-2025-30066", vec!["GHSA-mcph-m25j-8j63"], "OSV"),
    ];
    let result = deduplicate_advisories(advisories);
    assert_eq!(result.len(), 1);
    assert_eq!(result[0].id, "GHSA-mcph-m25j-8j63");
}

#[test]
fn dedup_keeps_unrelated_advisories() {
    let advisories = vec![
        make_advisory("GHSA-1111", vec![], "GHSA"),
        make_advisory("GHSA-2222", vec![], "GHSA"),
        make_advisory("OSV-3333", vec![], "OSV"),
    ];
    let result = deduplicate_advisories(advisories);
    assert_eq!(result.len(), 3);
}

#[test]
fn dedup_mixed_providers_with_shared_alias() {
    let advisories = vec![
        make_advisory("GHSA-aaaa", vec!["CVE-2025-0001"], "GHSA"),
        make_advisory("OSV-bbbb", vec!["CVE-2025-0001"], "OSV"),
        make_advisory("GHSA-cccc", vec![], "GHSA"),
    ];
    let result = deduplicate_advisories(advisories);
    assert_eq!(result.len(), 2);
    assert_eq!(result[0].id, "GHSA-aaaa");
    assert_eq!(result[1].id, "GHSA-cccc");
}

#[test]
fn dedup_empty_input() {
    let result = deduplicate_advisories(vec![]);
    assert!(result.is_empty());
}

fn sample() -> Vec<Advisory> {
    vec![
        make_advisory("GHSA-aaaa", vec!["CVE-1"], "GHSA"),
        make_advisory("CVE-1", vec![], "OSV"),
        make_advisory("OSV-2", vec!["CVE-2", "GHSA-aaaa"], "OSV"),
        make_advisory("OSV-3", vec!["CVE-3"], "OSV"),
        make_advisory("GHSA-dddd", vec!["CVE-3"], "GHSA"),
        make_advisory("GHSA-eeee", vec![], "GHSA"),
    ]
}

#[test]
fn dedup_is_idempotent() {
    let once = deduplicate_advisories(sample());
    let ids: Vec<String> = once.iter().map(|a| a.id.clone()).collect();
    assert_eq!(ids, vec!["GHSA-aaaa", "OSV-3", "GHSA-eeee"]);
    let twice = deduplicate_advisories(once.clone());
    assert_eq!(twice, once);
}

#[test]
fn dedup_of_a_doubled_list_is_dedup_of_the_list() {
    let mut doubled = sample();
    doubled.extend(sample());
    assert_eq!(deduplicate_advisories(doubled), deduplicate_advisories(sample()));
}

#[test]
fn dedup_first_of_an_aliased_pair_wins() {
    let a = make_advisory("A", vec![], "one");
    let b = make_advisory("B", vec!["A"], "two");
    let kept = deduplicate_advisories(vec![a.clone(), b.clone()]);
    assert_eq!(kept, vec![a.clone()]);
    let kept = deduplicate_advisories(vec![b.clone(), a]);
    assert_eq!(kept, vec![b]);
}

#[test]
fn dedup_does_not_chain_through_dropped_advisories() {
    // the second is dropped, so its alias CVE-9 is not taken and the third stays
    let advisories = vec![
        make_advisory("A", vec![], "one"),
        make_advisory("B", vec!["A", "CVE-9"], "two"),
        make_advisory("CVE-9", vec![], "three"),
    ];
    let ids: Vec<String> = deduplicate_advisories(advisories).into_iter().map(|a| a.id).collect();
    assert_eq!(ids, vec!["A", "CVE-9"]);
}

#[test]
fn advisory_text_form() {
    let mut a = make_advisory("GHSA-1234", vec![], "GHSA");
    a.summary = "Bad thing".to_string();
    a.url = "https://ghsa.example.com/1234".to_string();
    assert_eq!(a.to_string(), "GHSA-1234 (high): Bad thing\n    https://ghsa.example.com/1234");
    a.affected_range = Some(">= 1.0, < 2.0".to_string());
    assert_eq!(
        a.to_string(),
        "GHSA-1234 (high): Bad thing\n    https://ghsa.example.com/1234\n    affected: >= 1.0, < 2.0"
    );
}
