use ghss::action_ref::{classify_ref, ActionRef, RefParseError, RefType};

#[test]
fn action_ref_parse_simple_action() {
    let ar: ActionRef = "actions/checkout@v4".parse().unwrap();
    assert_eq!(ar.owner, "actions");
    assert_eq!(ar.repo, "checkout");
    assert!(ar.path.is_none());
    assert_eq!(ar.git_ref, "v4");
    assert_eq!(ar.ref_type, RefType::Tag);
}

#[test]
fn action_ref_parse_action_with_subpath() {
    let ar: ActionRef = "google-github-actions/auth/slim@v2".parse().unwrap();
    assert_eq!(ar.owner, "google-github-actions");
    assert_eq!(ar.repo, "auth");
    assert_eq!(ar.path, Some("slim".to_string()));
    assert_eq!(ar.git_ref, "v2");
    assert_eq!(ar.package_name(), "google-github-actions/auth/slim");
}

#[test]
fn action_ref_parse_sha_ref() {
    let sha = "b4ffde65f46336ab88eb53be808477a3936bae11";
    let raw = format!("actions/checkout@{sha}");
    let ar: ActionRef = raw.parse().unwrap();
    assert_eq!(ar.ref_type, RefType::Sha);
    assert_eq!(ar.git_ref, sha);
}

#[test]
fn action_ref_parse_tag_ref() {
    let ar: ActionRef = "codecov/codecov-action@v3.1.0".parse().unwrap();
    assert_eq!(ar.ref_type, RefType::Tag);
    assert_eq!(ar.version(), Some("3.1.0"));
}

#[test]
fn action_ref_parse_tag_without_v_prefix() {
    let ar: ActionRef = "some/action@2.0".parse().unwrap();
    assert_eq!(ar.ref_type, RefType::Tag);
    assert_eq!(ar.version(), Some("2.0"));
}

#[test]
fn action_ref_parse_unknown_ref() {
    let ar: ActionRef = "actions/checkout@main".parse().unwrap();
    assert_eq!(ar.ref_type, RefType::Unknown);
    assert_eq!(ar.version(), None);
}

#[test]
fn action_ref_missing_at_sign_is_error() {
    assert!("actions/checkout".parse::<ActionRef>().is_err());
}

#[test]
fn action_ref_missing_repo_is_error() {
    assert!("actions@v4".parse::<ActionRef>().is_err());
}

#[test]
fn action_ref_package_name_simple() {
    let ar: ActionRef = "actions/checkout@v4".parse().unwrap();
    assert_eq!(ar.package_name(), "actions/checkout");
}

#[test]
fn action_ref_version_returns_none_for_non_tag() {
    let ar: ActionRef = "actions/checkout@main".parse().unwrap();
    assert_eq!(ar.version(), None);
}

#[test]
fn ref_type_display() {
    assert_eq!(RefType::Sha.to_string(), "sha");
    assert_eq!(RefType::Tag.to_string(), "tag");
    assert_eq!(RefType::Unknown.to_string(), "unknown");
}

#[test]
fn display_matches_raw() {
    let ar: ActionRef = "actions/checkout@v4".parse().unwrap();
    assert_eq!(ar.to_string(), "actions/checkout@v4");
    assert_eq!(ar.to_string(), ar.raw);
}

#[test]
fn equal_actions_are_equal() {
    let a: ActionRef = "actions/checkout@v4".parse().unwrap();
    let b: ActionRef = "actions/checkout@v4".parse().unwrap();
    assert_eq!(a, b);
}

#[test]
fn different_actions_are_not_equal() {
    let a: ActionRef = "actions/checkout@v4".parse().unwrap();
    let b: ActionRef = "actions/checkout@v3".parse().unwrap();
    assert_ne!(a, b);
}

#[test]
fn ordering_by_owner_then_repo() {
    let a: ActionRef = "actions/checkout@v4".parse().unwrap();
    let b: ActionRef = "codecov/codecov-action@v3".parse().unwrap();
    assert!(a < b);
}

#[test]
fn ordering_by_ref_within_same_repo() {
    let a: ActionRef = "actions/checkout@v3".parse().unwrap();
    let b: ActionRef = "actions/checkout@v4".parse().unwrap();
    assert!(a < b);
}

#[test]
fn parse_keeps_the_text_it_was_given() {
    for raw in [
        "actions/checkout@v4",
        "org/shared/.github/workflows/ci.yml@main",
        "a/b/c/d@0123",
        "a/b@",
    ] {
        let ar = ActionRef::parse(raw).unwrap();
        assert_eq!(ar.raw, raw);
        assert_eq!(ActionRef::parse(&ar.raw).unwrap().raw, ar.raw);
        assert_eq!(ar.to_string(), raw);
    }
}

#[test]
fn parse_splits_path_behind_the_repository() {
    let ar = ActionRef::parse("org/shared/.github/workflows/ci.yml@main").unwrap();
    assert_eq!(ar.owner, "org");
    assert_eq!(ar.repo, "shared");
    assert_eq!(ar.path, Some(".github/workflows/ci.yml".to_string()));
    assert_eq!(ar.git_ref, "main");
    let trailing = ActionRef::parse("a/b/@v1").unwrap();
    assert_eq!(trailing.path, Some(String::new()));
}

#[test]
fn parse_cuts_at_the_first_at_sign() {
    let ar = ActionRef::parse("a/b@v1@x").unwrap();
    assert_eq!(ar.git_ref, "v1@x");
    assert_eq!(ar.repo, "b");
}

#[test]
fn parse_names_each_fault() {
    assert_eq!(ActionRef::parse("actions/checkout").unwrap_err(), RefParseError::MissingAt);
    assert_eq!(ActionRef::parse("actions@v4").unwrap_err(), RefParseError::MissingRepo);
    assert_eq!(ActionRef::parse("a@b/c").unwrap_err(), RefParseError::MissingRepo);
    assert_eq!(ActionRef::parse("/repo@v4").unwrap_err(), RefParseError::EmptyOwner);
    assert_eq!(ActionRef::parse("owner/@v4").unwrap_err(), RefParseError::EmptyRepo);
    assert_eq!(ActionRef::parse("owner//path@v4").unwrap_err(), RefParseError::EmptyRepo);
    assert_eq!(ActionRef::parse("").unwrap_err(), RefParseError::MissingAt);
    assert!(RefParseError::MissingAt.to_string().contains("missing '@'"));
}

#[test]
fn classify_ref_by_shape() {
    assert_eq!(classify_ref("b4ffde65f46336ab88eb53be808477a3936bae11"), RefType::Sha);
    assert_eq!(classify_ref("B4FFDE65F46336AB88EB53BE808477A3936BAE11"), RefType::Sha);
    // 39 and 41 characters are no SHA; the first starts with a letter, the second with a digit
    assert_eq!(classify_ref("b4ffde65f46336ab88eb53be808477a3936bae1"), RefType::Unknown);
    assert_eq!(classify_ref("04ffde65f46336ab88eb53be808477a3936bae111"), RefType::Tag);
    // forty characters, one of them no hex digit
    assert_eq!(classify_ref("g4ffde65f46336ab88eb53be808477a3936bae11"), RefType::Unknown);
    assert_eq!(classify_ref("v4"), RefType::Tag);
    assert_eq!(classify_ref("4"), RefType::Tag);
    assert_eq!(classify_ref("v"), RefType::Unknown);
    assert_eq!(classify_ref("vv1"), RefType::Unknown);
    assert_eq!(classify_ref("main"), RefType::Unknown);
    assert_eq!(classify_ref(""), RefType::Unknown);
    assert_eq!(classify_ref("v1.2.3-beta"), RefType::Tag);
}

#[test]
fn identity_ignores_raw() {
    let mut a = ActionRef::parse("actions/checkout@v4").unwrap();
    let b = ActionRef::parse("actions/checkout@v4").unwrap();
    a.raw = "shown otherwise".to_string();
    assert_eq!(a, b);
    assert_eq!(a.order(&b), 0);
    assert!(a.same_as(&a.duplicate()));
    assert!(!a.same_as(&b));
}

#[test]
fn ordering_puts_no_path_before_a_path() {
    let bare = ActionRef::parse("o/r@v1").unwrap();
    let sub = ActionRef::parse("o/r/p@v1").unwrap();
    assert!(bare < sub);
    assert_eq!(sub.order(&bare), 1);
    let short = ActionRef::parse("o/r@v").unwrap();
    assert!(short < bare);
}

#[test]
fn parse_simple_action() {
    let ar = ActionRef::parse("actions/checkout@v4").unwrap();
    assert_eq!(ar.owner, "actions");
    assert_eq!(ar.repo, "checkout");
    assert!(ar.path.is_none());
    assert_eq!(ar.git_ref, "v4");
    assert_eq!(ar.ref_type, RefType::Tag);
}

#[test]
fn parse_action_with_subpath() {
    let ar = ActionRef::parse("google-github-actions/auth/slim@v2").unwrap();
    assert_eq!(ar.owner, "google-github-actions");
    assert_eq!(ar.repo, "auth");
    assert_eq!(ar.path, Some("slim".to_string()));
    assert_eq!(ar.git_ref, "v2");
    assert_eq!(ar.package_name(), "google-github-actions/auth/slim");
}

#[test]
fn parse_sha_ref() {
    let sha = "b4ffde65f46336ab88eb53be808477a3936bae11";
    let raw = format!("actions/checkout@{sha}");
    let ar = ActionRef::parse(&raw).unwrap();
    assert_eq!(ar.ref_type, RefType::Sha);
    assert_eq!(ar.git_ref, sha);
}

#[test]
fn parse_tag_ref() {
    let ar = ActionRef::parse("codecov/codecov-action@v3.1.0").unwrap();
    assert_eq!(ar.ref_type, RefType::Tag);
    assert_eq!(ar.version(), Some("3.1.0"));
}

#[test]
fn parse_tag_without_v_prefix() {
    let ar = ActionRef::parse("some/action@2.0").unwrap();
    assert_eq!(ar.ref_type, RefType::Tag);
    assert_eq!(ar.version(), Some("2.0"));
}

#[test]
fn parse_unknown_ref() {
    let ar = ActionRef::parse("actions/checkout@main").unwrap();
    assert_eq!(ar.ref_type, RefType::Unknown);
    assert_eq!(ar.version(), None);
}

#[test]
fn missing_at_sign_is_error() {
    assert!(ActionRef::parse("actions/checkout").is_err());
}

#[test]
fn missing_repo_is_error() {
    assert!(ActionRef::parse("actions@v4").is_err());
}

#[test]
fn package_name_simple() {
    let ar = ActionRef::parse("actions/checkout@v4").unwrap();
    assert_eq!(ar.package_name(), "actions/checkout");
}

#[test]
fn version_returns_none_for_non_tag() {
    let ar = ActionRef::parse("actions/checkout@main").unwrap();
    assert_eq!(ar.version(), None);
}
