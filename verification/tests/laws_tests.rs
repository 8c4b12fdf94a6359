use dt_renamer::MatchRule;

fn samples() -> Vec<String> {
    ["", "a", "test", "tést", "testing", "car", "a/b.txt", "  ", "日本語"]
        .iter()
        .map(|s| s.to_string())
        .collect()
}

fn rules() -> Vec<MatchRule> {
    vec![
        MatchRule::Equals("test".to_string()),
        MatchRule::Contains("es".to_string()),
        MatchRule::BeginsWith("t".to_string()),
        MatchRule::EndsWith("g".to_string()),
        MatchRule::Not(Box::new(MatchRule::Contains("a".to_string()))),
        MatchRule::Contains("".to_string()),
    ]
}

#[test]
fn empty_text_is_contained_in_every_string() {
    for s in samples() {
        assert!(MatchRule::Contains("".to_string()).resolve(&s));
        assert!(MatchRule::BeginsWith("".to_string()).resolve(&s));
        assert!(MatchRule::EndsWith("".to_string()).resolve(&s));
    }
}

#[test]
fn longer_needle_never_matches() {
    for s in samples() {
        for p in samples() {
            if p.len() > s.len() || p.chars().count() > s.chars().count() {
                assert!(!MatchRule::BeginsWith(p.clone()).resolve(&s));
                assert!(!MatchRule::EndsWith(p.clone()).resolve(&s));
                assert!(!MatchRule::Contains(p.clone()).resolve(&s));
                assert!(!MatchRule::Equals(p.clone()).resolve(&s));
            }
        }
    }
}

#[test]
fn needle_that_would_split_a_character_does_not_match() {
    assert!(!MatchRule::BeginsWith("a".to_string()).resolve(&"é".to_string()));
    assert!(!MatchRule::EndsWith("a".to_string()).resolve(&"é".to_string()));
    assert!(MatchRule::BeginsWith("é".to_string()).resolve(&"éa".to_string()));
    assert!(MatchRule::EndsWith("a".to_string()).resolve(&"éa".to_string()));
}

#[test]
fn rules_agree_with_std() {
    for s in samples() {
        for p in samples() {
            assert_eq!(MatchRule::Contains(p.clone()).resolve(&s), s.contains(p.as_str()));
            assert_eq!(MatchRule::BeginsWith(p.clone()).resolve(&s), s.starts_with(p.as_str()));
            assert_eq!(MatchRule::EndsWith(p.clone()).resolve(&s), s.ends_with(p.as_str()));
            assert_eq!(MatchRule::Equals(p.clone()).resolve(&s), s == p);
        }
    }
}

#[test]
fn boolean_rules_follow_boolean_logic() {
    for s in samples() {
        for r1 in rules() {
            for r2 in rules() {
                let a = r1.resolve(&s);
                let b = r2.resolve(&s);
                let and = MatchRule::And(
                    Box::new(r1.clone()),
                    Box::new(MatchRule::Not(Box::new(r2.clone()))),
                );
                let or = MatchRule::Or(
                    Box::new(r1.clone()),
                    Box::new(MatchRule::Not(Box::new(r2.clone()))),
                );
                assert_eq!(and.resolve(&s), a && !b);
                assert_eq!(or.resolve(&s), a || !b);
            }
        }
    }
}

#[test]
fn copy_of_a_rule_decides_as_the_rule() {
    for rule in rules() {
        let copy = rule.duplicate();
        assert_eq!(copy, rule);
        for s in samples() {
            assert_eq!(copy.resolve(&s), rule.resolve(&s));
            assert_eq!(rule.resolve_chars(&s.chars().collect()), rule.resolve(&s));
        }
    }
}
