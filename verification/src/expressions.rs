//! Expressions: trees that produce an optional string.
//!
//! An expression is evaluated against the state of the engine. It may
//! yield a text, yield nothing ("absent"), or fail. Only an assignment
//! changes the state, and only its variable table.
use crate::casing::{case_converted, lowercase_of, uppercase_of, Case};
use crate::error::{Error, ErrorView};
use crate::match_rule::MatchRule;
use crate::operation_engine::OperationEngine;
use crate::paths::{extension_of, file_name_of, text_of};
use crate::pattern::{inserted_at_match, matched_text, Pattern};
use crate::supporting_objects::{Position, Selection};
use crate::text::{
    decimal, insert_after, insert_at_offset, insert_before, left_of, replace_all, replace_first,
    replace_last, right_of,
};
use vstd::prelude::*;

verus! {

/// A tree that produces an optional string.
#[derive(PartialEq, Eq, Debug, Hash)]
pub enum Expression {
    /// This text.
    Constant(String),
    /// The file name of the current file's destination.
    FileName,
    /// The extension of the current file's destination.
    FileExtension,
    /// The value of a variable.
    Variable(String),
    /// The value of the inner expression, stored under a name.
    AssignVariable(String, Box<Expression>),
    /// The two values one after the other.
    Combine(Box<Expression>, Box<Expression>),
    /// The value in upper case.
    ToUpperCase(Box<Expression>),
    /// The value in lower case.
    ToLowerCase(Box<Expression>),
    /// The value rewritten in a case style.
    ConvertCase(Case, Box<Expression>),
    /// What stands left of a marker in the input: input, marker, and
    /// whether the marker is kept.
    Left(Box<Expression>, Box<Expression>, bool),
    /// What stands right of a marker in the input: input, marker, and
    /// whether the marker is kept.
    Right(Box<Expression>, Box<Expression>, bool),
    /// The content with occurrences of a text replaced: content, which
    /// occurrences, the text to find, its replacement.
    Replace(Box<Expression>, Selection, Box<Expression>, Box<Expression>),
    /// A base text with another inserted: where, base, inserted text.
    /// Nothing is yielded where a marker does not occur in the base, or
    /// where a byte offset falls inside a character of it.
    Insert(Position, Box<Expression>, Box<Expression>),
    /// One of two expressions, chosen by a rule on the current file's
    /// name: condition, the choice where it holds, the choice where it
    /// does not. Where the current file has no name the evaluation fails.
    If(MatchRule, Box<Expression>, Option<Box<Expression>>),
    /// What the first match of a pattern in the value matched.
    RegexMatch(Pattern, Box<Expression>),
}

/// The part of the engine's state that an expression can read.
pub struct Scope {
    /// The number of files completed in this run.
    pub global_index: nat,
    /// The index of the current file within its directory.
    pub local_index: nat,
    /// The variable table.
    pub variables: Map<Seq<char>, Seq<char>>,
    /// The destination of the current file, where there is one.
    pub destination: Option<Seq<char>>,
}

/// What an expression yields: a text, nothing, or a failure.
pub type Value = Result<Option<Seq<char>>, ErrorView>;

/// The outcome of evaluating an expression.
pub struct Evaluated {
    /// The variable table after the evaluation.
    pub variables: Map<Seq<char>, Seq<char>>,
    /// What the expression yielded.
    pub value: Value,
}

/// What an executable result stands for.
pub open spec fn value_of(r: Result<Option<String>, Error>) -> Value {
    match r {
        Ok(v) => Ok(text_of(v)),
        Err(e) => Err(e@),
    }
}

impl Scope {
    /// The same scope with another variable table.
    pub open spec fn with_variables(self, variables: Map<Seq<char>, Seq<char>>) -> Scope {
        Scope { variables, ..self }
    }

    /// The same scope with another destination for the current file.
    pub open spec fn with_destination(self, destination: Seq<char>) -> Scope {
        Scope { destination: Some(destination), ..self }
    }

    /// What a variable name stands for. The two counters can be read under
    /// reserved names; every other name is looked up in the table.
    pub open spec fn lookup(self, name: Seq<char>) -> Option<Seq<char>> {
        if name == "global_index"@ {
            Some(decimal(self.global_index))
        } else if name == "local_index"@ {
            Some(decimal(self.local_index))
        } else if self.variables.contains_key(name) {
            Some(self.variables[name])
        } else {
            None
        }
    }

    /// The file name of the current file's destination.
    pub open spec fn file_name(self) -> Option<Seq<char>> {
        match self.destination {
            Some(d) => file_name_of(d),
            None => None,
        }
    }

    /// The extension of the current file's destination.
    pub open spec fn extension(self) -> Option<Seq<char>> {
        match self.destination {
            Some(d) => extension_of(d),
            None => None,
        }
    }
}

/// `content` with the selected occurrences of `needle` replaced.
pub open spec fn replaced(
    selection: Selection,
    content: Seq<char>,
    needle: Seq<char>,
    with: Seq<char>,
) -> Seq<char> {
    match selection {
        Selection::First => replace_first(content, needle, with),
        Selection::Last => replace_last(content, needle, with),
        Selection::All => replace_all(content, needle, with),
    }
}

/// `text` inserted into `base` at a position; nothing where the position
/// cannot be found in `base`.
pub open spec fn inserted(position: Position, base: Seq<char>, text: Seq<char>) -> Option<
    Seq<char>,
> {
    match position {
        Position::Index(i) => insert_at_offset(base, i as int, text),
        Position::After(marker) => insert_after(base, marker@, text),
        Position::AfterRegex(pattern) => inserted_at_match(pattern@, base, text, true),
        Position::Before(marker) => insert_before(base, marker@, text),
        Position::BeforeRegex(pattern) => inserted_at_match(pattern@, base, text, false),
        Position::Start => Some(text + base),
        Position::End => Some(base + text),
    }
}

impl Evaluated {
    /// An outcome that leaves the variables as they are.
    pub open spec fn pure(scope: Scope, value: Value) -> Evaluated {
        Evaluated { variables: scope.variables, value }
    }

    /// The same outcome with another value.
    pub open spec fn yielding(self, value: Value) -> Evaluated {
        Evaluated { variables: self.variables, value }
    }
}

impl Expression {
    /// What the expression yields in a scope, and the variable table that
    /// its evaluation leaves behind. Operands are evaluated from left to
    /// right, each in the table left by the one before it, and the first
    /// failure ends the evaluation.
    pub open spec fn eval(self, scope: Scope) -> Evaluated
        decreases self,
    {
        match self {
            Expression::Constant(s) => Evaluated::pure(scope, Ok(Some(s@))),
            Expression::FileName => Evaluated::pure(scope, Ok(scope.file_name())),
            Expression::FileExtension => Evaluated::pure(scope, Ok(scope.extension())),
            Expression::Variable(name) => match scope.lookup(name@) {
                Some(v) => Evaluated::pure(scope, Ok(Some(v))),
                None => Evaluated::pure(scope, Err(ErrorView::VariableNotDefined(name@))),
            },
            Expression::AssignVariable(name, value) => {
                let inner = value.eval(scope);
                match inner.value {
                    Ok(Some(v)) => Evaluated {
                        variables: inner.variables.insert(name@, v),
                        value: Ok(Some(v)),
                    },
                    _ => inner,
                }
            },
            Expression::Combine(lhs, rhs) => {
                let left = lhs.eval(scope);
                match left.value {
                    Err(_) => left,
                    Ok(None) => rhs.eval(scope.with_variables(left.variables)),
                    Ok(Some(a)) => {
                        let right = rhs.eval(scope.with_variables(left.variables));
                        match right.value {
                            Err(_) => right,
                            Ok(None) => right.yielding(Ok(Some(a))),
                            Ok(Some(b)) => right.yielding(Ok(Some(a + b))),
                        }
                    },
                }
            },
            Expression::ToUpperCase(input) => {
                let inner = input.eval(scope);
                match inner.value {
                    Ok(Some(v)) => inner.yielding(Ok(Some(uppercase_of(v)))),
                    _ => inner,
                }
            },
            Expression::ToLowerCase(input) => {
                let inner = input.eval(scope);
                match inner.value {
                    Ok(Some(v)) => inner.yielding(Ok(Some(lowercase_of(v)))),
                    _ => inner,
                }
            },
            Expression::ConvertCase(case, input) => {
                let inner = input.eval(scope);
                match inner.value {
                    Ok(Some(v)) => inner.yielding(Ok(Some(case_converted(v, case)))),
                    _ => inner,
                }
            },
            Expression::Left(input, marker, inclusive) => {
                let first = input.eval(scope);
                match first.value {
                    Ok(Some(text)) => {
                        let second = marker.eval(scope.with_variables(first.variables));
                        match second.value {
                            Ok(Some(m)) => second.yielding(Ok(Some(left_of(text, m, inclusive)))),
                            _ => second,
                        }
                    },
                    _ => first,
                }
            },
            Expression::Right(input, marker, inclusive) => {
                let first = input.eval(scope);
                match first.value {
                    Ok(Some(text)) => {
                        let second = marker.eval(scope.with_variables(first.variables));
                        match second.value {
                            Ok(Some(m)) => second.yielding(Ok(Some(right_of(text, m, inclusive)))),
                            _ => second,
                        }
                    },
                    _ => first,
                }
            },
            Expression::Replace(content, selection, needle, replacement) => {
                let first = content.eval(scope);
                match first.value {
                    Err(_) => first,
                    Ok(c) => {
                        let second = needle.eval(scope.with_variables(first.variables));
                        match second.value {
                            Err(_) => second,
                            Ok(n) => {
                                let third = replacement.eval(
                                    scope.with_variables(second.variables),
                                );
                                match third.value {
                                    Err(_) => third,
                                    Ok(w) => third.yielding(
                                        Ok(
                                            if c is Some && n is Some && w is Some {
                                                Some(replaced(selection, c->0, n->0, w->0))
                                            } else {
                                                None
                                            },
                                        ),
                                    ),
                                }
                            },
                        }
                    },
                }
            },
            Expression::Insert(position, base, text) => {
                let first = base.eval(scope);
                match first.value {
                    Ok(Some(b)) => {
                        let second = text.eval(scope.with_variables(first.variables));
                        match second.value {
                            Ok(Some(t)) => second.yielding(Ok(inserted(position, b, t))),
                            _ => second,
                        }
                    },
                    _ => first,
                }
            },
            Expression::If(condition, then_expr, else_expr) => match scope.file_name() {
                None => Evaluated::pure(scope, Err(ErrorView::CannotIdentifyFileName)),
                Some(name) => if condition.holds(name) {
                    then_expr.eval(scope)
                } else {
                    match else_expr {
                        Some(e) => e.eval(scope),
                        None => Evaluated::pure(scope, Ok(None)),
                    }
                },
            },
            Expression::RegexMatch(pattern, input) => {
                let inner = input.eval(scope);
                match inner.value {
                    Ok(Some(v)) => inner.yielding(Ok(matched_text(pattern@, v))),
                    _ => inner,
                }
            },
        }
    }
}

impl Clone for Expression {
    fn clone(&self) -> (r: Self)
        ensures
            r == *self,
    {
        self.duplicate()
    }
}

impl Expression {
    /// A copy of the expression.
    pub fn duplicate(&self) -> (r: Self)
        ensures
            r == *self,
        decreases self,
    {
        match self {
            Expression::Constant(s) => Expression::Constant(s.clone()),
            Expression::FileName => Expression::FileName,
            Expression::FileExtension => Expression::FileExtension,
            Expression::Variable(name) => Expression::Variable(name.clone()),
            Expression::AssignVariable(name, value) => Expression::AssignVariable(
                name.clone(),
                Box::new(value.duplicate()),
            ),
            Expression::Combine(lhs, rhs) => Expression::Combine(
                Box::new(lhs.duplicate()),
                Box::new(rhs.duplicate()),
            ),
            Expression::ToUpperCase(input) => Expression::ToUpperCase(Box::new(input.duplicate())),
            Expression::ToLowerCase(input) => Expression::ToLowerCase(Box::new(input.duplicate())),
            Expression::ConvertCase(case, input) => Expression::ConvertCase(
                *case,
                Box::new(input.duplicate()),
            ),
            Expression::Left(input, marker, inclusive) => Expression::Left(
                Box::new(input.duplicate()),
                Box::new(marker.duplicate()),
                *inclusive,
            ),
            Expression::Right(input, marker, inclusive) => Expression::Right(
                Box::new(input.duplicate()),
                Box::new(marker.duplicate()),
                *inclusive,
            ),
            Expression::Replace(content, selection, needle, replacement) => Expression::Replace(
                Box::new(content.duplicate()),
                *selection,
                Box::new(needle.duplicate()),
                Box::new(replacement.duplicate()),
            ),
            Expression::Insert(position, base, text) => Expression::Insert(
                position.clone(),
                Box::new(base.duplicate()),
                Box::new(text.duplicate()),
            ),
            Expression::If(condition, then_expr, else_expr) => Expression::If(
                condition.duplicate(),
                Box::new(then_expr.duplicate()),
                match else_expr {
                    Some(e) => Some(Box::new(e.duplicate())),
                    None => None,
                },
            ),
            Expression::RegexMatch(pattern, input) => Expression::RegexMatch(
                pattern.clone(),
                Box::new(input.duplicate()),
            ),
        }
    }

    /// The expression that yields a fixed text.
    pub fn constant(value: &str) -> (r: Self)
        ensures
            r matches Expression::Constant(s) && s@ == value@,
    {
        Expression::Constant(value.to_owned())
    }

    /// Evaluates the expression against the engine.
    pub fn execute(&self, engine: &mut OperationEngine) -> (r: Result<Option<String>, Error>)
        ensures
            value_of(r) == self.eval(old(engine)@.scope()).value,
            final(engine)@ == old(engine)@.with_variables(
                self.eval(old(engine)@.scope()).variables,
            ),
        decreases self,
    {
        assert(engine@ == engine@.with_variables(engine@.variables));
        match self {
            Expression::Constant(s) => Ok(Some(s.clone())),
            Expression::FileName => Ok(current_name(engine)),
            Expression::FileExtension => match engine.current_file() {
                Some(f) => Ok(crate::paths::extension(f.destination.as_str())),
                None => Ok(None),
            },
            Expression::Variable(name) => match engine.get_variable(name.as_str()) {
                Some(v) => Ok(Some(v)),
                None => Err(Error::VariableNotDefined(name.clone())),
            },
            Expression::AssignVariable(name, value) => match value.execute(engine)? {
                Some(v) => {
                    engine.set_variable(name.clone(), v.clone());
                    Ok(Some(v))
                },
                None => Ok(None),
            },
            Expression::Combine(lhs, rhs) => match lhs.execute(engine)? {
                None => rhs.execute(engine),
                Some(a) => match rhs.execute(engine)? {
                    None => Ok(Some(a)),
                    Some(b) => Ok(Some(crate::text::concat(a.as_str(), b.as_str()))),
                },
            },
            Expression::ToUpperCase(input) => match input.execute(engine)? {
                Some(v) => Ok(Some(crate::casing::to_uppercase(v.as_str()))),
                None => Ok(None),
            },
            Expression::ToLowerCase(input) => match input.execute(engine)? {
                Some(v) => Ok(Some(crate::casing::to_lowercase(v.as_str()))),
                None => Ok(None),
            },
            Expression::ConvertCase(case, input) => match input.execute(engine)? {
                Some(v) => Ok(Some(crate::casing::to_case(v.as_str(), *case))),
                None => Ok(None),
            },
            Expression::Left(input, marker, inclusive) => match input.execute(engine)? {
                Some(text) => match marker.execute(engine)? {
                    Some(m) => Ok(
                        Some(crate::text::keep_left(text.as_str(), m.as_str(), *inclusive)),
                    ),
                    None => Ok(None),
                },
                None => Ok(None),
            },
            Expression::Right(input, marker, inclusive) => match input.execute(engine)? {
                Some(text) => match marker.execute(engine)? {
                    Some(m) => Ok(
                        Some(crate::text::keep_right(text.as_str(), m.as_str(), *inclusive)),
                    ),
                    None => Ok(None),
                },
                None => Ok(None),
            },
            Expression::Replace(content, selection, needle, replacement) => {
                let c = content.execute(engine)?;
                let n = needle.execute(engine)?;
                let w = replacement.execute(engine)?;
                match (c, n, w) {
                    (Some(c), Some(n), Some(w)) => Ok(
                        Some(replace_selected(*selection, c.as_str(), n.as_str(), w.as_str())),
                    ),
                    _ => Ok(None),
                }
            },
            Expression::Insert(position, base, text) => match base.execute(engine)? {
                Some(b) => match text.execute(engine)? {
                    Some(t) => Ok(insert_text(position, b.as_str(), t.as_str())),
                    None => Ok(None),
                },
                None => Ok(None),
            },
            Expression::If(condition, then_expr, else_expr) => match current_name(engine) {
                None => Err(Error::CannotIdentifyFileName),
                Some(name) => if condition.resolve(&name) {
                    then_expr.execute(engine)
                } else {
                    match else_expr {
                        Some(e) => e.execute(engine),
                        None => Ok(None),
                    }
                },
            },
            Expression::RegexMatch(pattern, input) => match input.execute(engine)? {
                Some(v) => Ok(pattern.matched(v.as_str())),
                None => Ok(None),
            },
        }
    }
}

/// The file name of the file that the engine is processing.
pub fn current_name(engine: &OperationEngine) -> (r: Option<String>)
    ensures
        text_of(r) == engine@.scope().file_name(),
{
    match engine.current_file() {
        Some(f) => crate::paths::file_name(f.destination.as_str()),
        None => None,
    }
}

/// Replaces the selected occurrences of `needle` in `content`.
pub fn replace_selected(selection: Selection, content: &str, needle: &str, with: &str) -> (r:
    String)
    ensures
        r@ == replaced(selection, content@, needle@, with@),
{
    match selection {
        Selection::First => crate::text::replace_first_in(content, needle, with),
        Selection::Last => crate::text::replace_last_in(content, needle, with),
        Selection::All => crate::text::replace_all_in(content, needle, with),
    }
}

/// Inserts `text` into `base` at a position, where the position can be
/// found in `base`.
pub fn insert_text(position: &Position, base: &str, text: &str) -> (r: Option<String>)
    ensures
        text_of(r) == inserted(*position, base@, text@),
{
    match position {
        Position::Index(i) => crate::text::insert_at(base, *i, text),
        Position::After(marker) => crate::text::insert_after_marker(base, marker.as_str(), text),
        Position::AfterRegex(pattern) => pattern.insert(base, text, true),
        Position::Before(marker) => crate::text::insert_before_marker(
            base,
            marker.as_str(),
            text,
        ),
        Position::BeforeRegex(pattern) => pattern.insert(base, text, false),
        Position::Start => Some(crate::text::concat(text, base)),
        Position::End => Some(crate::text::concat(base, text)),
    }
}

} // verus!
