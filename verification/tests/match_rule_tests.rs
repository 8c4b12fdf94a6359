use dt_renamer::MatchRule;

#[test]
fn match_rule_test_equals_1() {
    let rule = MatchRule::Equals("test".to_string());
    assert!(rule.resolve(&"test".to_string()));
}

#[test]
fn match_rule_test_equals_2() {
    let rule = MatchRule::Equals("tes".to_string());
    assert!(!rule.resolve(&"test".to_string()));
}

#[test]
fn match_rule_test_equals_3() {
    let rule = MatchRule::Equals("testing".to_string());
    assert!(!rule.resolve(&"test".to_string()));
}

#[test]
fn match_rule_test_contains_1() {
    let rule = MatchRule::Contains("test".to_string());
    assert!(rule.resolve(&"test".to_string()));
}

#[test]
fn match_rule_test_contains_2() {
    let rule = MatchRule::Contains("tes".to_string());
    assert!(rule.resolve(&"test".to_string()));
}

#[test]
fn match_rule_test_contains_3() {
    let rule = MatchRule::Contains("testing".to_string());
    assert!(!rule.resolve(&"test".to_string()));
}

#[test]
fn match_rule_test_contains_4() {
    let rule = MatchRule::Contains("".to_string());
    assert!(rule.resolve(&"test".to_string()));
}

#[test]
fn match_rule_test_begins_with_1() {
    let rule = MatchRule::BeginsWith("test".to_string());
    assert!(rule.resolve(&"test".to_string()));
}

#[test]
fn match_rule_test_begins_with_2() {
    let rule = MatchRule::BeginsWith("te".to_string());
    assert!(rule.resolve(&"test".to_string()));
}

#[test]
fn match_rule_test_begins_with_3() {
    let rule = MatchRule::BeginsWith("testing".to_string());
    assert!(!rule.resolve(&"test".to_string()));
}

#[test]
fn match_rule_test_begins_with_4() {
    let rule = MatchRule::BeginsWith("car".to_string());
    assert!(!rule.resolve(&"test".to_string()));
}

#[test]
fn match_rule_test_begins_with_5() {
    let rule = MatchRule::BeginsWith("st".to_string());
    assert!(!rule.resolve(&"test".to_string()));
}

#[test]
fn match_rule_test_ends_with_1() {
    let rule = MatchRule::EndsWith("test".to_string());
    assert!(rule.resolve(&"test".to_string()));
}

#[test]
fn match_rule_test_ends_with_2() {
    let rule = MatchRule::EndsWith("te".to_string());
    assert!(!rule.resolve(&"test".to_string()));
}

#[test]
fn match_rule_test_ends_with_3() {
    let rule = MatchRule::EndsWith("testing".to_string());
    assert!(!rule.resolve(&"test".to_string()));
}

#[test]
fn match_rule_test_ends_with_4() {
    let rule = MatchRule::EndsWith("car".to_string());
    assert!(!rule.resolve(&"test".to_string()));
}

#[test]
fn match_rule_test_ends_with_5() {
    let rule = MatchRule::EndsWith("st".to_string());
    assert!(rule.resolve(&"test".to_string()));
}

#[test]
fn match_rule_test_and_1() {
    let rule = MatchRule::And(
        Box::new(MatchRule::Equals("test".to_string())),
        Box::new(MatchRule::Not(Box::new(MatchRule::Equals("car".to_string())))),
    );
    assert!(rule.resolve(&"test".to_string()));
}

#[test]
fn match_rule_test_or_1() {
    let rule = MatchRule::Or(
        Box::new(MatchRule::Equals("test".to_string())),
        Box::new(MatchRule::Not(Box::new(MatchRule::Equals("car".to_string())))),
    );
    assert!(rule.resolve(&"test".to_string()));
}

#[test]
fn match_rule_test_or_2() {
    let rule = MatchRule::Or(
        Box::new(MatchRule::Equals("test".to_string())),
        Box::new(MatchRule::Equals("car".to_string())),
    );
    assert!(rule.resolve(&"car".to_string()));
}

#[test]
fn match_rule_test_not_1() {
    let rule = MatchRule::Not(Box::new(MatchRule::Equals("st".to_string())));
    assert!(rule.resolve(&"test".to_string()));
}

#[test]
fn rule_test_equals_1() {
    let rule = MatchRule::Equals("test".to_string());
    assert!(rule.resolve(&"test".to_string()));
}

#[test]
fn rule_test_equals_2() {
    let rule = MatchRule::Equals("tes".to_string());
    assert!(!rule.resolve(&"test".to_string()));
}

#[test]
fn rule_test_equals_3() {
    let rule = MatchRule::Equals("testing".to_string());
    assert!(!rule.resolve(&"test".to_string()));
}

#[test]
fn rule_test_contains_1() {
    let rule = MatchRule::Contains("test".to_string());
    assert!(rule.resolve(&"test".to_string()));
}

#[test]
fn rule_test_contains_2() {
    let rule = MatchRule::Contains("tes".to_string());
    assert!(rule.resolve(&"test".to_string()));
}

#[test]
fn rule_test_contains_3() {
    let rule = MatchRule::Contains("testing".to_string());
    assert!(!rule.resolve(&"test".to_string()));
}

#[test]
fn rule_test_contains_4() {
    let rule = MatchRule::Contains("".to_string());
    assert!(rule.resolve(&"test".to_string()));
}

#[test]
fn rule_test_begins_with_1() {
    let rule = MatchRule::BeginsWith("test".to_string());
    assert!(rule.resolve(&"test".to_string()));
}

#[test]
fn rule_test_begins_with_2() {
    let rule = MatchRule::BeginsWith("te".to_string());
    assert!(rule.resolve(&"test".to_string()));
}

#[test]
fn rule_test_begins_with_3() {
    let rule = MatchRule::BeginsWith("testing".to_string());
    assert!(!rule.resolve(&"test".to_string()));
}

#[test]
fn rule_test_begins_with_4() {
    let rule = MatchRule::BeginsWith("car".to_string());
    assert!(!rule.resolve(&"test".to_string()));
}

#[test]
fn rule_test_begins_with_5() {
    let rule = MatchRule::BeginsWith("st".to_string());
    assert!(!rule.resolve(&"test".to_string()));
}

#[test]
fn rule_test_ends_with_1() {
    let rule = MatchRule::EndsWith("test".to_string());
    assert!(rule.resolve(&"test".to_string()));
}

#[test]
fn rule_test_ends_with_2() {
    let rule = MatchRule::EndsWith("te".to_string());
    assert!(!rule.resolve(&"test".to_string()));
}

#[test]
fn rule_test_ends_with_3() {
    let rule = MatchRule::EndsWith("testing".to_string());
    assert!(!rule.resolve(&"test".to_string()));
}

#[test]
fn rule_test_ends_with_4() {
    let rule = MatchRule::EndsWith("car".to_string());
    assert!(!rule.resolve(&"test".to_string()));
}

#[test]
fn rule_test_ends_with_5() {
    let rule = MatchRule::EndsWith("st".to_string());
    assert!(rule.resolve(&"test".to_string()));
}

#[test]
fn rule_test_and_1() {
    let rule = MatchRule::And(
        Box::new(MatchRule::Equals("test".to_string())),
        Box::new(MatchRule::Not(Box::new(MatchRule::Equals("car".to_string())))),
    );
    assert!(rule.resolve(&"test".to_string()));
}

#[test]
fn rule_test_or_1() {
    let rule = MatchRule::Or(
        Box::new(MatchRule::Equals("test".to_string())),
        Box::new(MatchRule::Not(Box::new(MatchRule::Equals("car".to_string())))),
    );
    assert!(rule.resolve(&"test".to_string()));
}

#[test]
fn rule_test_or_2() {
    let rule = MatchRule::Or(
        Box::new(MatchRule::Equals("test".to_string())),
        Box::new(MatchRule::Equals("car".to_string())),
    );
    assert!(rule.resolve(&"car".to_string()));
}

#[test]
fn rule_test_not_1() {
    let rule = MatchRule::Not(Box::new(MatchRule::Equals("st".to_string())));
    assert!(rule.resolve(&"test".to_string()));
}

