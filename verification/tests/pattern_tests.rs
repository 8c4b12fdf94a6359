use dt_renamer::pattern::{slice, splice};
use dt_renamer::{
    Error, Expression, File, FileOperation, FileRule, InsertionType, MatchRule, OperationEngine,
    Pattern, Position, RuleEngine, Selection,
};

fn constant(text: &str) -> Box<Expression> {
    Box::new(Expression::constant(text))
}

fn pattern(source: &str) -> Pattern {
    Pattern::new(source).unwrap()
}

fn eval(expression: Expression) -> Result<Option<String>, Error> {
    expression.execute(&mut OperationEngine::new(Vec::new(), Vec::new()))
}

#[test]
fn test_matches_1() {
    assert!(MatchRule::Matches(pattern(r"^([A-z])* \(\d{4}\)\.[A-z]{3}"))
        .resolve(&"test (1922).mkv".to_string()));
}

#[test]
fn test_matches_2() {
    assert!(
        !MatchRule::Matches(pattern(r"^([A-z])* \(\d{4}\)\.[A-z]{3}")).resolve(&"".to_string())
    );
}

#[test]
fn test_matches_3() {
    assert!(!MatchRule::Matches(pattern(r"^([A-z])* \(\d{4}\)\.[A-z]{3}"))
        .resolve(&"test (1922).mk".to_string()));
}

#[test]
fn test_insert_before_1() {
    let r = pattern("test");

    assert_eq!(
        Expression::Insert(
            Position::BeforeRegex(r),
            constant("test message hello"),
            constant("yo ")
        )
        .execute(&mut OperationEngine::new(Vec::new(), Vec::new()))
            .unwrap()
            .unwrap(),
        "yo test message hello"
    );
}

#[test]
fn test_insert_after_1() {
    let r = pattern("test ");

    assert_eq!(
        Expression::Insert(Position::AfterRegex(r), constant("test message hello"), constant("yo "))
            .execute(&mut OperationEngine::new(Vec::new(), Vec::new()))
            .unwrap()
            .unwrap(),
        "test yo message hello"
    );
}

#[test]
fn test_match_1() {
    let r = pattern(r"\[.*\]");

    assert_eq!(
        Expression::RegexMatch(r, constant("Cow boy [boss] test"))
            .execute(&mut OperationEngine::new(Vec::new(), Vec::new()))
            .unwrap()
            .unwrap(),
        "[boss]"
    );
}

#[test]
fn test_regex_replace_first() {
    let r = pattern("test");
    let input = "test cow test".to_string();

    let output = RuleEngine::regex_replace(input, Selection::First, &r, "cow");

    assert_eq!(output, "cow cow test");
}

#[test]
fn test_regex_replace_last() {
    let r = pattern("test");
    let input = "test cow test".to_string();

    let output = RuleEngine::regex_replace(input, Selection::Last, &r, "cow");

    assert_eq!(output, "test cow cow");
}

#[test]
fn test_regex_replace_all() {
    let r = pattern("test");
    let input = "test cow test".to_string();

    let output = RuleEngine::regex_replace(input, Selection::All, &r, "cow");

    assert_eq!(output, "cow cow cow");
}

#[test]
fn malformed_pattern_is_refused_when_it_is_made() {
    assert_eq!(Pattern::new("foo(bar"), Err(Error::InvalidPattern("foo(bar".to_string())));
    assert_eq!(
        Error::InvalidPattern("(".to_string()).message(),
        "not a regular expression: ("
    );
    let made = pattern(r"\d+");
    assert_eq!(made.as_str(), r"\d+");
    assert_eq!(made.clone(), made);
}

#[test]
fn pattern_decides_and_finds() {
    let digits = pattern(r"\d+");
    assert!(digits.matches("abc 123 def"));
    assert!(!digits.matches("abc def"));
    assert_eq!(digits.matched("abc 123 def 45"), Some("123".to_string()));
    assert_eq!(digits.matched("abc def"), None);
    assert_eq!(digits.matched("ünï 7"), Some("7".to_string()));
}

#[test]
fn regex_match_is_absent_without_match_or_input() {
    assert_eq!(eval(Expression::RegexMatch(pattern("x+"), constant("abc"))).unwrap(), None);
    assert_eq!(
        eval(Expression::RegexMatch(pattern("x+"), Box::new(Expression::FileName))).unwrap(),
        None
    );
}

#[test]
fn insert_at_pattern_is_absent_without_match() {
    let insert = |position: Position| {
        eval(Expression::Insert(position, constant("abc"), constant("-"))).unwrap()
    };
    assert_eq!(insert(Position::BeforeRegex(pattern("x"))), None);
    assert_eq!(insert(Position::AfterRegex(pattern("x"))), None);
    assert_eq!(insert(Position::BeforeRegex(pattern("b"))), Some("a-bc".to_string()));
    assert_eq!(insert(Position::AfterRegex(pattern("b"))), Some("ab-c".to_string()));
    assert_eq!(insert(Position::AfterRegex(pattern("$"))), Some("abc-".to_string()));
    assert_eq!(insert(Position::BeforeRegex(pattern("^"))), Some("-abc".to_string()));
}

#[test]
fn insert_at_pattern_counts_bytes() {
    let insert = |position: Position| {
        eval(Expression::Insert(position, constant("éaé"), constant("-"))).unwrap()
    };
    assert_eq!(insert(Position::BeforeRegex(pattern("a"))), Some("é-aé".to_string()));
    assert_eq!(insert(Position::AfterRegex(pattern("a"))), Some("éa-é".to_string()));
}

#[test]
fn replacement_expands_groups_for_first_and_all() {
    let swap = pattern(r"(\w+)-(\w+)");
    let replace = |selection: Selection| {
        RuleEngine::regex_replace("a-b c-d".to_string(), selection, &swap, "$2-$1")
    };
    assert_eq!(replace(Selection::First), "b-a c-d");
    assert_eq!(replace(Selection::All), "b-a d-c");
    // The last match is replaced by the replacement as it is written.
    assert_eq!(replace(Selection::Last), "a-b $2-$1");
}

#[test]
fn replacement_without_match_returns_the_input() {
    let r = pattern("x");
    for selection in [Selection::First, Selection::Last, Selection::All] {
        assert_eq!(RuleEngine::regex_replace("abc".to_string(), selection, &r, "y"), "abc");
    }
}

#[test]
fn regex_rules_edit_the_file_name() {
    let engine = RuleEngine::new(Vec::new(), Vec::new());
    let mut destination = "/data1/file1.txt".to_string();
    let rule = FileRule::RegexReplace(Selection::All, pattern(r"\d"), "N".to_string());
    assert_eq!(engine.execute_file_rule(&rule, &mut destination), Ok(true));
    assert_eq!(destination, "/data1/fileN.txt");
    let rule = FileRule::Insert(
        Position::BeforeRegex(pattern(r"\.")),
        InsertionType::from_text("-x"),
    );
    assert_eq!(engine.execute_file_rule(&rule, &mut destination), Ok(true));
    assert_eq!(destination, "/data1/fileN-x.txt");
    let rule = FileRule::Insert(
        Position::AfterRegex(pattern("absent")),
        InsertionType::from_text("-x"),
    );
    assert_eq!(engine.execute_file_rule(&rule, &mut destination), Ok(true));
    assert_eq!(destination, "/data1/fileN-x.txt");
    let rule = FileRule::RegexReplace(Selection::All, pattern(r"\d"), "N".to_string());
    let mut root = "/".to_string();
    assert_eq!(engine.execute_file_rule(&rule, &mut root), Err(Error::CannotIdentifyFileName));
}

#[test]
fn pattern_in_operations() {
    let mut engine = OperationEngine::new(Vec::new(), Vec::new());
    engine
        .process_file(File::new("/x/Show (1999).mkv").with_op(FileOperation::If(
            MatchRule::Matches(pattern(r"\(\d{4}\)")),
            Box::new(FileOperation::SetStem(Expression::RegexMatch(
                pattern(r"\d{4}"),
                Box::new(Expression::FileName),
            ))),
            None,
        )))
        .unwrap();
    assert_eq!(engine.into_files()[0].destination_path_string(), "/x/1999.mkv");
}

#[test]
fn slices_and_splices_by_byte_offsets() {
    assert_eq!(slice("héllo", 0, 3), Some("hé".to_string()));
    assert_eq!(slice("héllo", 1, 3), Some("é".to_string()));
    assert_eq!(slice("héllo", 2, 3), None);
    assert_eq!(slice("héllo", 3, 1), None);
    assert_eq!(slice("héllo", 0, 7), None);
    assert_eq!(slice("héllo", 6, 6), Some("".to_string()));
    assert_eq!(splice("héllo", 1, 3, "e"), Some("hello".to_string()));
    assert_eq!(splice("héllo", 3, 3, "-"), Some("hé-llo".to_string()));
    assert_eq!(splice("héllo", 2, 3, "-"), None);
}
