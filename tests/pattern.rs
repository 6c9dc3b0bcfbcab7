use vansol::pattern::{evaluate, MatchOutcome, MatchSpec};

fn spec(prefix: Option<&str>, suffix: Option<&str>, contains: Option<&str>) -> MatchSpec {
    MatchSpec {
        prefix: prefix.map(|s| s.to_string()),
        suffix: suffix.map(|s| s.to_string()),
        contains: contains.map(|s| s.to_string()),
    }
}

#[test]
fn prefix_matches_only_at_start() {
    let s = spec(Some("So1"), None, None);
    assert!(evaluate(&s, "So1abc").matched);
    assert!(!evaluate(&s, "xSo1abc").matched);
    assert!(!evaluate(&s, "So").matched);
}

#[test]
fn suffix_and_contains() {
    let s = spec(None, Some("xyz"), None);
    assert!(evaluate(&s, "abcxyz").matched);
    assert!(!evaluate(&s, "xyzabc").matched);
    let s = spec(None, None, Some("mid"));
    assert!(evaluate(&s, "amidb").matched);
    assert!(evaluate(&s, "mid").matched);
    assert!(!evaluate(&s, "mi d").matched);
}

#[test]
fn conjunction_counts_criteria() {
    let s = spec(Some("ab"), Some("yz"), Some("mm"));
    assert_eq!(
        evaluate(&s, "abmmyz"),
        MatchOutcome { matched: true, expected_criteria: 3, satisfied_criteria: 3 }
    );
    assert_eq!(
        evaluate(&s, "abqqyz"),
        MatchOutcome { matched: false, expected_criteria: 3, satisfied_criteria: 2 }
    );
    assert_eq!(
        evaluate(&s, "zzz"),
        MatchOutcome { matched: false, expected_criteria: 3, satisfied_criteria: 0 }
    );
}

#[test]
fn patternless_never_matches() {
    let s = spec(None, None, None);
    assert_eq!(
        evaluate(&s, "anything"),
        MatchOutcome { matched: false, expected_criteria: 0, satisfied_criteria: 0 }
    );
    assert!(!s.has_pattern());
}

#[test]
fn empty_pattern_text_matches_everything() {
    let s = spec(Some(""), Some(""), Some(""));
    assert!(evaluate(&s, "").matched);
    assert!(evaluate(&s, "abc").matched);
}

#[test]
fn non_ascii_identifiers() {
    let s = spec(Some("é"), None, Some("ü"));
    assert!(evaluate(&s, "éaüb").matched);
    assert!(!evaluate(&s, "eaüb").matched);
}
