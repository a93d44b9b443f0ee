use ghss::depth::DepthLimit;

#[test]
fn parse_zero() {
    assert_eq!("0".parse::<DepthLimit>().unwrap(), DepthLimit::Bounded(0));
}

#[test]
fn parse_positive_integer() {
    assert_eq!("5".parse::<DepthLimit>().unwrap(), DepthLimit::Bounded(5));
}

#[test]
fn parse_large_integer() {
    assert_eq!("100".parse::<DepthLimit>().unwrap(), DepthLimit::Bounded(100));
}

#[test]
fn parse_unlimited_lowercase() {
    assert_eq!("unlimited".parse::<DepthLimit>().unwrap(), DepthLimit::Unlimited);
}

#[test]
fn parse_unlimited_mixed_case() {
    assert_eq!("Unlimited".parse::<DepthLimit>().unwrap(), DepthLimit::Unlimited);
    assert_eq!("UNLIMITED".parse::<DepthLimit>().unwrap(), DepthLimit::Unlimited);
}

#[test]
fn parse_unlimited_with_whitespace() {
    assert_eq!("  unlimited  ".parse::<DepthLimit>().unwrap(), DepthLimit::Unlimited);
}

#[test]
fn parse_rejects_negative() {
    assert!("-1".parse::<DepthLimit>().is_err());
}

#[test]
fn parse_rejects_non_numeric() {
    assert!("abc".parse::<DepthLimit>().is_err());
}

#[test]
fn parse_rejects_empty() {
    assert!("".parse::<DepthLimit>().is_err());
}

#[test]
fn parse_rejects_float() {
    assert!("3.5".parse::<DepthLimit>().is_err());
}

#[test]
fn to_max_depth_bounded() {
    assert_eq!(DepthLimit::Bounded(0).to_max_depth(), Some(0));
    assert_eq!(DepthLimit::Bounded(5).to_max_depth(), Some(5));
}

#[test]
fn to_max_depth_unlimited() {
    assert_eq!(DepthLimit::Unlimited.to_max_depth(), None);
}

#[test]
fn display_bounded() {
    assert_eq!(DepthLimit::Bounded(3).to_string(), "3");
}

#[test]
fn display_unlimited() {
    assert_eq!(DepthLimit::Unlimited.to_string(), "unlimited");
}

#[test]
fn display_roundtrips() {
    let cases = [DepthLimit::Bounded(0), DepthLimit::Bounded(42), DepthLimit::Unlimited];
    for case in &cases {
        let s = case.to_string();
        let parsed: DepthLimit = s.parse().unwrap();
        assert_eq!(&parsed, case);
    }
}

#[test]
fn depth_parses_like_the_standard_integer_parser() {
    for text in [
        "0", "7", "+7", "007", " 12 ", "\t3\n", "18446744073709551615", "18446744073709551616",
        "99999999999999999999999", "-0", "+", "++1", "1 2", "1_000", "0x10", "٣", "",
    ] {
        let ours = DepthLimit::parse(text).ok();
        let std = text.trim().parse::<usize>().ok().map(DepthLimit::Bounded);
        assert_eq!(ours, std, "for {text:?}");
    }
}

#[test]
fn depth_error_names_the_text() {
    let e = DepthLimit::parse("deep").unwrap_err();
    assert_eq!(e.text, "deep");
    assert!(e.to_string().contains("invalid"));
    assert_eq!(
        e.to_string(),
        "invalid depth limit: deep (expected a non-negative integer or \"unlimited\")"
    );
}

#[test]
fn depth_prints_every_digit() {
    assert_eq!(DepthLimit::Bounded(1234567890).to_string(), "1234567890");
    assert_eq!(DepthLimit::Bounded(usize::MAX).to_string(), usize::MAX.to_string());
    assert_eq!(DepthLimit::Bounded(10).to_string(), "10");
}
