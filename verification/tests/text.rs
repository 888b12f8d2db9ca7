use mmq::text::{contains, dashes, decimal, join, pad_right, split};

#[test]
fn contains_finds_substrings() {
    assert!(contains("geoip2-city", "city"));
    assert!(contains("geoip2-city", "geoip2-city"));
    assert!(contains("abc", ""));
    assert!(!contains("geoip2-cit", "city"));
    assert!(!contains("", "a"));
    assert!(contains("aab", "ab"));
}

#[test]
fn split_matches_std() {
    let cases = ["a, b, c", "a", "", "a, ", ", a", "a,, b", "a, , b", "x,  y"];
    for case in cases {
        let ours = split(case, ", ");
        let theirs: Vec<String> = case.split(", ").map(|s| s.to_string()).collect();
        assert_eq!(ours, theirs, "splitting {:?}", case);
    }
}

#[test]
fn join_matches_std() {
    let parts = vec!["Bavaria (BY)".to_string(), "Upper Bavaria".to_string()];
    assert_eq!(join(&parts, ", "), "Bavaria (BY), Upper Bavaria");
    assert_eq!(join(&vec![], ", "), "");
    assert_eq!(join(&vec!["one".to_string()], ", "), "one");
}

#[test]
fn split_undoes_join() {
    let parts = vec!["Île-de-France (IDF)".to_string(), "Paris (75)".to_string(), "x".to_string()];
    assert_eq!(split(&join(&parts, ", "), ", "), parts);
}

#[test]
fn decimal_matches_display() {
    for n in [0u64, 7, 10, 15169, 6252001, 1000, u32::MAX as u64, u64::MAX] {
        assert_eq!(decimal(n), n.to_string());
    }
}

#[test]
fn padding_and_rules() {
    assert_eq!(pad_right("ASN", 6), "ASN   ");
    assert_eq!(pad_right("Country", 3), "Country");
    assert_eq!(pad_right("", 2), "  ");
    assert_eq!(dashes(3), "---");
    assert_eq!(dashes(0), "");
    assert_eq!(dashes(65).len(), 65);
}
