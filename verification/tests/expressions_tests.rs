use dt_renamer::{Expression, OperationEngine, Selection};

fn constant(text: &str) -> Box<Expression> {
    Box::new(Expression::constant(text))
}

#[test]
fn expressions_test_replace_first_1() {
    assert_eq!(
        Expression::Replace(
            constant("test message hello"),
            Selection::First,
            constant("message"),
            constant("yo")
        )
        .execute(&mut OperationEngine::new(Vec::new(), Vec::new()))
        .unwrap()
        .unwrap(),
        "test yo hello"
    );
}

#[test]
fn expressions_test_replace_first_2() {
    assert_eq!(
        Expression::Replace(
            constant("test message message hello"),
            Selection::First,
            constant("message"),
            constant("yo")
        )
        .execute(&mut OperationEngine::new(Vec::new(), Vec::new()))
        .unwrap()
        .unwrap(),
        "test yo message hello"
    );
}

#[test]
fn expressions_test_replace_last_1() {
    assert_eq!(
        Expression::Replace(
            constant("test message hello"),
            Selection::Last,
            constant("message"),
            constant("yo")
        )
        .execute(&mut OperationEngine::new(Vec::new(), Vec::new()))
        .unwrap()
        .unwrap(),
        "test yo hello"
    );
}

#[test]
fn expressions_test_replace_last_2() {
    assert_eq!(
        Expression::Replace(
            constant("test message message hello"),
            Selection::Last,
            constant("message"),
            constant("yo")
        )
        .execute(&mut OperationEngine::new(Vec::new(), Vec::new()))
        .unwrap()
        .unwrap(),
        "test message yo hello"
    );
}

#[test]
fn test_left_1() {
    assert_eq!(
        Expression::Left(constant("test message message hello"), constant("message"), true)
            .execute(&mut OperationEngine::new(Vec::new(), Vec::new()))
            .unwrap()
            .unwrap(),
        "test message"
    );
}

#[test]
fn test_left_2() {
    assert_eq!(
        Expression::Left(constant("test message message hello"), constant("message"), false)
            .execute(&mut OperationEngine::new(Vec::new(), Vec::new()))
            .unwrap()
            .unwrap(),
        "test "
    );
}

#[test]
fn test_right_1() {
    assert_eq!(
        Expression::Right(constant("test message message hello"), constant("message"), true)
            .execute(&mut OperationEngine::new(Vec::new(), Vec::new()))
            .unwrap()
            .unwrap(),
        "message message hello"
    );
}

#[test]
fn test_right_2() {
    assert_eq!(
        Expression::Right(constant("test message message hello"), constant("message"), false)
            .execute(&mut OperationEngine::new(Vec::new(), Vec::new()))
            .unwrap()
            .unwrap(),
        " message hello"
    );
}

