use ghss::selection::{AuditOptions, ScanSelection, SelectionError};
use ghss::workflow::is_third_party;

#[test]
fn third_party_actions_are_detected() {
    assert!(is_third_party("actions/checkout@v4"));
    assert!(is_third_party("codecov/codecov-action@v3"));
}

#[test]
fn local_actions_are_not_third_party() {
    assert!(!is_third_party("./local-action"));
    assert!(!is_third_party("./path/to/action"));
}

#[test]
fn docker_actions_are_not_third_party() {
    assert!(!is_third_party("docker://node:18"));
    assert!(!is_third_party("docker://alpine:3.18"));
}

#[test]
fn third_party_is_decided_by_the_prefix_alone() {
    assert!(is_third_party(""));
    assert!(is_third_party("."));
    assert!(is_third_party("../up"));
    assert!(is_third_party("docker:/x"));
    assert!(is_third_party("Docker://x"));
    assert!(is_third_party(" ./x"));
    assert!(!is_third_party("./"));
    assert!(!is_third_party("docker://"));
}

#[test]
fn audit_options_default_disables_scan() {
    let opts = AuditOptions::default();
    assert_eq!(opts.scan, ScanSelection::Nothing);
}

#[test]
fn audit_options_default_enables_resolve_refs() {
    let opts = AuditOptions::default();
    assert!(opts.resolve_refs);
}

#[test]
fn audit_options_default_concurrency_is_10() {
    let opts = AuditOptions::default();
    assert_eq!(opts.max_concurrency, 10);
}

#[test]
fn scan_selection_parse_all() {
    assert_eq!("all".parse::<ScanSelection>().unwrap(), ScanSelection::All);
    assert_eq!("ALL".parse::<ScanSelection>().unwrap(), ScanSelection::All);
}

#[test]
fn scan_selection_parse_none() {
    assert_eq!("none".parse::<ScanSelection>().unwrap_err(), SelectionError::InvalidIndex);
    assert_eq!(" None ".parse::<ScanSelection>().unwrap_err(), SelectionError::InvalidIndex);
    assert_eq!(ScanSelection::parse("NONE").unwrap_err(), SelectionError::InvalidIndex);
    assert_eq!(ScanSelection::parse("1,none").unwrap_err(), SelectionError::InvalidIndex);
    assert_eq!(ScanSelection::parse("everything").unwrap_err(), SelectionError::InvalidIndex);
}

#[test]
fn scan_selection_parse_single() {
    assert_eq!("3".parse::<ScanSelection>().unwrap(), ScanSelection::Indices(vec![3]));
}

#[test]
fn scan_selection_parse_range() {
    assert_eq!("1-3".parse::<ScanSelection>().unwrap(), ScanSelection::Indices(vec![1, 2, 3]));
}

#[test]
fn scan_selection_parse_mixed() {
    assert_eq!(
        "1-3,5".parse::<ScanSelection>().unwrap(),
        ScanSelection::Indices(vec![1, 2, 3, 5])
    );
}

#[test]
fn scan_selection_parse_deduplicates() {
    assert_eq!(
        "1-3,2-4".parse::<ScanSelection>().unwrap(),
        ScanSelection::Indices(vec![1, 2, 3, 4])
    );
}

#[test]
fn scan_selection_parse_rejects_zero() {
    assert!("0".parse::<ScanSelection>().is_err());
    assert!("0-3".parse::<ScanSelection>().is_err());
}

#[test]
fn scan_selection_parse_rejects_inverted_range() {
    assert!("5-2".parse::<ScanSelection>().is_err());
}

#[test]
fn scan_selection_should_scan() {
    let sel = ScanSelection::Indices(vec![1, 3, 5]);
    assert!(sel.should_scan(0)); // position 1
    assert!(!sel.should_scan(1)); // position 2
    assert!(sel.should_scan(2)); // position 3
    assert!(!sel.should_scan(3)); // position 4
    assert!(sel.should_scan(4)); // position 5

    assert!(ScanSelection::All.should_scan(99));
    assert!(!ScanSelection::Nothing.should_scan(0));
}

#[test]
fn scan_selection_sorts_and_ignores_blanks() {
    assert_eq!(
        ScanSelection::parse(" 7 , 2-3 ,, 1 , 3 - 4 ").unwrap(),
        ScanSelection::Indices(vec![1, 2, 3, 4, 7])
    );
    assert_eq!(ScanSelection::parse("+2").unwrap(), ScanSelection::Indices(vec![2]));
    assert_eq!(ScanSelection::parse("5-5").unwrap(), ScanSelection::Indices(vec![5]));
}

#[test]
fn scan_selection_empty_means_all() {
    assert_eq!(ScanSelection::parse("").unwrap(), ScanSelection::All);
    assert_eq!(ScanSelection::parse("   ").unwrap(), ScanSelection::All);
    assert_eq!(ScanSelection::parse(",").unwrap(), ScanSelection::Nothing);
    assert_eq!(ScanSelection::parse(" , ,").unwrap(), ScanSelection::Nothing);
}

#[test]
fn scan_selection_names_each_fault() {
    assert_eq!(ScanSelection::parse("x").unwrap_err(), SelectionError::InvalidIndex);
    assert_eq!(ScanSelection::parse("1,x").unwrap_err(), SelectionError::InvalidIndex);
    assert_eq!(ScanSelection::parse("a-3").unwrap_err(), SelectionError::InvalidRangeStart);
    assert_eq!(ScanSelection::parse("-3").unwrap_err(), SelectionError::InvalidRangeStart);
    assert_eq!(ScanSelection::parse("3-").unwrap_err(), SelectionError::InvalidRangeEnd);
    assert_eq!(ScanSelection::parse("1-2-3").unwrap_err(), SelectionError::InvalidRangeEnd);
    assert_eq!(ScanSelection::parse("0").unwrap_err(), SelectionError::ZeroIndex);
    assert_eq!(ScanSelection::parse("2-0").unwrap_err(), SelectionError::ZeroIndex);
    assert_eq!(ScanSelection::parse("5-2").unwrap_err(), SelectionError::InvertedRange);
    // the first fault in reading order is the one reported
    assert_eq!(ScanSelection::parse("5-2,x").unwrap_err(), SelectionError::InvertedRange);
    assert_eq!(ScanSelection::parse("x,5-2").unwrap_err(), SelectionError::InvalidIndex);
    assert!(SelectionError::ZeroIndex.to_string().contains("1-based"));
}

#[test]
fn scan_selection_text_form() {
    assert_eq!(ScanSelection::Nothing.to_string(), "none");
    assert_eq!(ScanSelection::All.to_string(), "all");
    assert_eq!(ScanSelection::Indices(vec![1, 2, 3, 5]).to_string(), "1,2,3,5");
    assert_eq!(ScanSelection::Indices(vec![12]).to_string(), "12");
    assert_eq!(ScanSelection::Indices(vec![1, 3]).clone(), ScanSelection::Indices(vec![1, 3]));
}

#[test]
fn should_scan_at_the_last_position() {
    let sel = ScanSelection::Indices(vec![usize::MAX]);
    assert!(sel.should_scan(usize::MAX - 1));
    assert!(!sel.should_scan(usize::MAX));
}
