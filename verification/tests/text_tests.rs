use dt_renamer::casing::Case;
use dt_renamer::paths::{extension, has_separator, name_extension};
use dt_renamer::text::{
    chars_of, decimal_string, find_first, find_from, find_last, insert_after_marker, insert_at,
    insert_before_marker, keep_left, keep_right, replace_all_in, replace_first_in,
    replace_last_in, string_of,
};
use dt_renamer::{Error, Expression, OperationEngine, Position, Selection};

fn constant(text: &str) -> Box<Expression> {
    Box::new(Expression::constant(text))
}

fn eval(expression: Expression) -> Result<Option<String>, Error> {
    expression.execute(&mut OperationEngine::new(Vec::new(), Vec::new()))
}

#[test]
fn chars_round_trip() {
    let chars = chars_of("héllo wörld");
    assert_eq!(chars.len(), 11);
    assert_eq!(string_of(&chars), "héllo wörld");
}

#[test]
fn find_first_and_last_occurrence() {
    let hay = chars_of("abcabcabc");
    let needle = chars_of("bc");
    assert_eq!(find_first(&hay, &needle), Some(1));
    assert_eq!(find_last(&hay, &needle), Some(7));
    assert_eq!(find_from(&hay, &needle, 2), Some(4));
    assert_eq!(find_from(&hay, &needle, 8), None);
    assert_eq!(find_first(&hay, &chars_of("x")), None);
    assert_eq!(find_last(&hay, &chars_of("abcabcabcd")), None);
}

#[test]
fn empty_needle_is_found_at_both_ends() {
    let hay = chars_of("abc");
    let empty = chars_of("");
    assert_eq!(find_first(&hay, &empty), Some(0));
    assert_eq!(find_last(&hay, &empty), Some(3));
    assert_eq!(find_first(&empty, &empty), Some(0));
}

#[test]
fn replace_first_last_all() {
    assert_eq!(replace_first_in("a-b-c", "-", "+"), "a+b-c");
    assert_eq!(replace_last_in("a-b-c", "-", "+"), "a-b+c");
    assert_eq!(replace_all_in("a-b-c", "-", "+"), "a+b+c");
    assert_eq!(replace_all_in("a-b-c", "x", "+"), "a-b-c");
    assert_eq!(replace_first_in("a-b-c", "x", "+"), "a-b-c");
    assert_eq!(replace_last_in("a-b-c", "x", "+"), "a-b-c");
}

#[test]
fn replace_all_does_not_overlap() {
    assert_eq!(replace_all_in("aaaa", "aa", "b"), "bb");
    assert_eq!(replace_all_in("aaa", "aa", "b"), "ba");
    assert_eq!(replace_all_in("abab", "ab", "abab"), "abababab");
}

#[test]
fn replace_all_matches_std_on_empty_needle() {
    assert_eq!(replace_all_in("ab", "", "-"), "ab".replace("", "-"));
    assert_eq!(replace_all_in("ab", "", "-"), "-a-b-");
    assert_eq!(replace_all_in("", "", "x"), "x");
}

#[test]
fn replace_all_matches_std_on_samples() {
    let samples = [
        ("test message message hello", "message", "yo"),
        ("ééé", "é", "e"),
        ("a.b.c", ".", ""),
        ("xyz", "xyz", ""),
        ("", "a", "b"),
    ];
    for (hay, needle, with) in samples {
        assert_eq!(replace_all_in(hay, needle, with), hay.replace(needle, with));
    }
}

#[test]
fn keep_left_and_right_without_marker() {
    assert_eq!(keep_left("abc", "x", true), "abc");
    assert_eq!(keep_right("abc", "x", false), "abc");
    assert_eq!(keep_left("abc", "b", false), "a");
    assert_eq!(keep_left("abc", "b", true), "ab");
    assert_eq!(keep_right("abc", "b", false), "c");
    assert_eq!(keep_right("abc", "b", true), "bc");
}

#[test]
fn insert_by_marker() {
    assert_eq!(
        insert_before_marker("test message hello", "message", "yo "),
        Some("test yo message hello".to_string())
    );
    assert_eq!(
        insert_after_marker("test message hello", "test ", "yo "),
        Some("test yo message hello".to_string())
    );
    assert_eq!(insert_before_marker("abc", "x", "yo"), None);
    assert_eq!(insert_after_marker("abc", "x", "yo"), None);
}

#[test]
fn insert_at_offset_is_clamped() {
    assert_eq!(insert_at("abc", 0, "-"), Some("-abc".to_string()));
    assert_eq!(insert_at("abc", 1, "-"), Some("a-bc".to_string()));
    assert_eq!(insert_at("abc", 3, "-"), Some("abc-".to_string()));
    assert_eq!(insert_at("abc", 100, "-"), Some("abc-".to_string()));
    assert_eq!(insert_at("", 5, "x"), Some("x".to_string()));
}

#[test]
fn insert_at_offset_counts_bytes() {
    // 'é' takes two bytes: offset 1 is inside it, offset 2 is behind it.
    assert_eq!(insert_at("éa", 2, "-"), Some("é-a".to_string()));
    assert_eq!(insert_at("éa", 1, "-"), None);
    assert_eq!(insert_at("éa", 3, "-"), Some("éa-".to_string()));
}

#[test]
fn decimal_strings() {
    assert_eq!(decimal_string(0), "0");
    assert_eq!(decimal_string(7), "7");
    assert_eq!(decimal_string(10), "10");
    assert_eq!(decimal_string(1922), "1922");
    assert_eq!(decimal_string(usize::MAX), usize::MAX.to_string());
}

#[test]
fn extensions_of_names() {
    assert_eq!(name_extension("a.txt"), Some("txt".to_string()));
    assert_eq!(name_extension("a.tar.gz"), Some("gz".to_string()));
    assert_eq!(name_extension("a."), Some("".to_string()));
    assert_eq!(name_extension(".bashrc"), None);
    assert_eq!(name_extension("..a"), Some("a".to_string()));
    assert_eq!(name_extension("name"), None);
    assert_eq!(name_extension(""), None);
}

#[test]
fn extensions_of_paths_match_std() {
    let samples = [
        "/a/b.txt", "/a/b", "/a/.hidden", "/a/b.tar.gz", "/a.d/b", "b.", "/", "", "/a/..", "a/b.c/",
        "..", ".", "/a/b..c",
    ];
    for path in samples {
        let expected = std::path::Path::new(path)
            .extension()
            .map(|e| e.to_str().unwrap().to_string());
        assert_eq!(extension(path), expected, "extension of {:?}", path);
    }
}

#[test]
fn separators_are_found() {
    assert!(has_separator("a/b"));
    assert!(has_separator("a\\b"));
    assert!(!has_separator("txt"));
    assert!(!has_separator(""));
}

#[test]
fn replace_selection_all() {
    assert_eq!(
        eval(Expression::Replace(
            constant("test message message hello"),
            Selection::All,
            constant("message"),
            constant("yo")
        ))
        .unwrap()
        .unwrap(),
        "test yo yo hello"
    );
}

#[test]
fn replace_without_occurrence_returns_content() {
    for selection in [Selection::First, Selection::Last, Selection::All] {
        assert_eq!(
            eval(Expression::Replace(
                constant("test hello"),
                selection,
                constant("message"),
                constant("yo")
            ))
            .unwrap()
            .unwrap(),
            "test hello"
        );
    }
}

#[test]
fn replace_is_absent_when_an_operand_is_absent() {
    let absent = || Box::new(Expression::FileName);
    assert_eq!(
        eval(Expression::Replace(absent(), Selection::First, constant("a"), constant("b")))
            .unwrap(),
        None
    );
    assert_eq!(
        eval(Expression::Replace(constant("a"), Selection::First, absent(), constant("b")))
            .unwrap(),
        None
    );
    assert_eq!(
        eval(Expression::Replace(constant("a"), Selection::First, constant("a"), absent()))
            .unwrap(),
        None
    );
}

#[test]
fn replace_evaluates_every_operand() {
    // The content is absent, and the assignment in the third operand still happens.
    let mut engine = OperationEngine::new(Vec::new(), Vec::new());
    let result = Expression::Replace(
        Box::new(Expression::FileName),
        Selection::First,
        constant("a"),
        Box::new(Expression::AssignVariable("seen".to_string(), constant("yes"))),
    )
    .execute(&mut engine)
    .unwrap();
    assert_eq!(result, None);
    assert_eq!(engine.get_variable("seen"), Some("yes".to_string()));
}

#[test]
fn combine_with_absent_operand() {
    let absent = || Box::new(Expression::FileName);
    assert_eq!(
        eval(Expression::Combine(absent(), constant("x"))).unwrap(),
        Some("x".to_string())
    );
    assert_eq!(
        eval(Expression::Combine(constant("x"), absent())).unwrap(),
        Some("x".to_string())
    );
    assert_eq!(eval(Expression::Combine(absent(), absent())).unwrap(), None);
    assert_eq!(
        eval(Expression::Combine(constant("x"), constant("y"))).unwrap(),
        Some("xy".to_string())
    );
}

#[test]
fn left_and_right_are_absent_without_input_or_marker() {
    let absent = || Box::new(Expression::FileName);
    assert_eq!(eval(Expression::Left(absent(), constant("a"), true)).unwrap(), None);
    assert_eq!(eval(Expression::Left(constant("a"), absent(), true)).unwrap(), None);
    assert_eq!(eval(Expression::Right(absent(), constant("a"), true)).unwrap(), None);
    assert_eq!(eval(Expression::Right(constant("a"), absent(), true)).unwrap(), None);
}

#[test]
fn insert_positions() {
    let insert = |position: Position| {
        eval(Expression::Insert(position, constant("test message hello"), constant("yo "))).unwrap()
    };
    assert_eq!(insert(Position::Start), Some("yo test message hello".to_string()));
    assert_eq!(insert(Position::End), Some("test message helloyo ".to_string()));
    assert_eq!(insert(Position::Index(5)), Some("test yo message hello".to_string()));
    assert_eq!(insert(Position::Index(500)), Some("test message helloyo ".to_string()));
    assert_eq!(
        insert(Position::Before("message".to_string())),
        Some("test yo message hello".to_string())
    );
    assert_eq!(
        insert(Position::After("test ".to_string())),
        Some("test yo message hello".to_string())
    );
    assert_eq!(insert(Position::Before("absent".to_string())), None);
    assert_eq!(insert(Position::After("absent".to_string())), None);
}

#[test]
fn upper_and_lower_case() {
    assert_eq!(
        eval(Expression::ToUpperCase(constant("Straße 1"))).unwrap(),
        Some("STRASSE 1".to_string())
    );
    assert_eq!(
        eval(Expression::ToLowerCase(constant("HeLLo ÄÖ"))).unwrap(),
        Some("hello äö".to_string())
    );
    assert_eq!(eval(Expression::ToUpperCase(Box::new(Expression::FileName))).unwrap(), None);
    assert_eq!(eval(Expression::ToLowerCase(Box::new(Expression::FileName))).unwrap(), None);
}

#[test]
fn convert_case_styles() {
    let convert = |case: Case| {
        eval(Expression::ConvertCase(case, constant("My variable NAME"))).unwrap().unwrap()
    };
    assert_eq!(convert(Case::Upper), "MY VARIABLE NAME");
    assert_eq!(convert(Case::Lower), "my variable name");
    assert_eq!(convert(Case::Title), "My Variable Name");
    assert_eq!(convert(Case::Toggle), "mY vARIABLE nAME");
    assert_eq!(convert(Case::Camel), "myVariableName");
    assert_eq!(convert(Case::Pascal), "MyVariableName");
    assert_eq!(convert(Case::Snake), "my_variable_name");
    assert_eq!(convert(Case::UpperSnake), "MY_VARIABLE_NAME");
    assert_eq!(convert(Case::Kebab), "my-variable-name");
    assert_eq!(convert(Case::Cobol), "MY-VARIABLE-NAME");
    assert_eq!(convert(Case::Train), "My-Variable-Name");
    assert_eq!(convert(Case::Flat), "myvariablename");
    assert_eq!(convert(Case::UpperFlat), "MYVARIABLENAME");
    assert_eq!(convert(Case::Alternating), "mY vArIaBlE nAmE");
    assert_eq!(
        eval(Expression::ConvertCase(Case::Snake, Box::new(Expression::FileName))).unwrap(),
        None
    );
}

#[test]
fn variables_are_assigned_and_read() {
    let mut engine = OperationEngine::new(Vec::new(), Vec::new());
    assert_eq!(
        Expression::Variable("who".to_string()).execute(&mut engine),
        Err(Error::VariableNotDefined("who".to_string()))
    );
    assert_eq!(
        Expression::AssignVariable("who".to_string(), constant("me"))
            .execute(&mut engine)
            .unwrap(),
        Some("me".to_string())
    );
    assert_eq!(
        Expression::Variable("who".to_string()).execute(&mut engine).unwrap(),
        Some("me".to_string())
    );
    assert_eq!(
        Expression::AssignVariable("who".to_string(), constant("you"))
            .execute(&mut engine)
            .unwrap(),
        Some("you".to_string())
    );
    assert_eq!(engine.get_variable("who"), Some("you".to_string()));
}

#[test]
fn absent_value_is_not_assigned() {
    let mut engine = OperationEngine::new(Vec::new(), Vec::new());
    engine.set_variable("who".to_string(), "me".to_string());
    assert_eq!(
        Expression::AssignVariable("who".to_string(), Box::new(Expression::FileName))
            .execute(&mut engine)
            .unwrap(),
        None
    );
    assert_eq!(engine.get_variable("who"), Some("me".to_string()));
    assert_eq!(engine.get_variable("other"), None);
}

#[test]
fn counters_are_read_as_variables() {
    let mut engine = OperationEngine::new(Vec::new(), Vec::new());
    engine.set_local_index(41);
    assert_eq!(
        Expression::Variable("local_index".to_string()).execute(&mut engine).unwrap(),
        Some("41".to_string())
    );
    assert_eq!(
        Expression::Variable("global_index".to_string()).execute(&mut engine).unwrap(),
        Some("0".to_string())
    );
    assert_eq!(engine.local_index(), 41);
    assert_eq!(engine.global_index(), 0);
}

#[test]
fn failure_in_an_operand_ends_the_evaluation() {
    let mut engine = OperationEngine::new(Vec::new(), Vec::new());
    let result = Expression::Combine(
        Box::new(Expression::Variable("missing".to_string())),
        Box::new(Expression::AssignVariable("late".to_string(), constant("x"))),
    )
    .execute(&mut engine);
    assert_eq!(result, Err(Error::VariableNotDefined("missing".to_string())));
    assert_eq!(engine.get_variable("late"), None);
}

#[test]
fn file_parts_are_absent_without_a_file() {
    assert_eq!(eval(Expression::FileName).unwrap(), None);
    assert_eq!(eval(Expression::FileExtension).unwrap(), None);
}

#[test]
fn condition_without_a_file_name_fails() {
    let expression = Expression::If(
        dt_renamer::MatchRule::Contains("a".to_string()),
        constant("then"),
        None,
    );
    assert_eq!(eval(expression), Err(Error::CannotIdentifyFileName));
}

#[test]
fn error_messages() {
    assert_eq!(Error::CannotIdentifyFileName.message(), "cannot identify the file name");
    assert_eq!(
        Error::VariableNotDefined("x".to_string()).message(),
        "variable not defined: x"
    );
    assert_eq!(
        Error::DuplicateFileError("/a".to_string()).message(),
        "source claimed by two files: /a"
    );
    assert_eq!(Error::NotFile("/a".to_string()).message(), "not a file: /a");
    assert_eq!(Error::NotDirectory("/a".to_string()).message(), "not a directory: /a");
    assert_eq!(Error::InsertIndexTooLarge.message(), "insertion index too large");
    assert_eq!(Error::MaxDepthReached.message(), "maximum depth reached");
    assert_eq!(
        Error::CannotIdentifyFileExtension.message(),
        "cannot identify the file extension"
    );
}
