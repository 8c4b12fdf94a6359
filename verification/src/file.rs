//! File operations: changes to the destination of one file.
use crate::error::{Error, ErrorView};
use crate::expressions::{Expression, Scope};
use crate::match_rule::MatchRule;
use crate::operation_engine::OperationEngine;
use crate::paths::{extension_of, separator_free, with_extension, with_file_name};
use vstd::prelude::*;

verus! {

/// A change to the destination of the current file.
#[derive(PartialEq, Eq, Debug, Hash)]
pub enum FileOperation {
    /// Sets the file name to the value of the expression.
    SetName(Expression),
    /// Sets the file name to the value of the expression, keeping the
    /// extension that the destination has.
    SetStem(Expression),
    /// Sets the extension to the value of the expression. A value that
    /// holds a path separator (`/` or `\`) is no extension: the operation
    /// fails on it.
    SetExtension(Expression),
    /// One of two operations, chosen by a rule on the whole destination:
    /// condition, the choice where it holds, the choice where it does not.
    If(MatchRule, Box<FileOperation>, Option<Box<FileOperation>>),
    /// Evaluates the expression for what it assigns and changes no path.
    NoOp(Expression),
}

/// The outcome of applying file operations.
pub struct Applied {
    /// The scope after the operations: its variable table and the
    /// destination of the current file may have changed.
    pub scope: Scope,
    /// Whether any operation changed the destination, or the failure that
    /// ended the evaluation.
    pub changed: Result<bool, ErrorView>,
}

/// What an executable result stands for.
pub open spec fn change_of(r: Result<bool, Error>) -> Result<bool, ErrorView> {
    match r {
        Ok(b) => Ok(b),
        Err(e) => Err(e@),
    }
}

/// The file name made of a stem and the extension that a path has.
pub open spec fn name_with_stem(path: Seq<char>, stem: Seq<char>) -> Seq<char> {
    match extension_of(path) {
        Some(extension) => stem + seq!['.'] + extension,
        None => stem,
    }
}

impl FileOperation {
    /// What the operation does in a scope that has a current file. The
    /// expression is evaluated first; where it yields nothing the
    /// destination stays as it is and nothing is reported as changed.
    pub open spec fn apply(self, scope: Scope) -> Applied
        recommends
            scope.destination is Some,
        decreases self,
    {
        let path = scope.destination->0;
        match self {
            FileOperation::SetName(name) => {
                let e = name.eval(scope);
                let after = scope.with_variables(e.variables);
                match e.value {
                    Err(failure) => Applied { scope: after, changed: Err(failure) },
                    Ok(None) => Applied { scope: after, changed: Ok(false) },
                    Ok(Some(n)) => Applied {
                        scope: after.with_destination(with_file_name(path, n)),
                        changed: Ok(true),
                    },
                }
            },
            FileOperation::SetStem(stem) => {
                let e = stem.eval(scope);
                let after = scope.with_variables(e.variables);
                match e.value {
                    Err(failure) => Applied { scope: after, changed: Err(failure) },
                    Ok(None) => Applied { scope: after, changed: Ok(false) },
                    Ok(Some(s)) => Applied {
                        scope: after.with_destination(
                            with_file_name(path, name_with_stem(path, s)),
                        ),
                        changed: Ok(true),
                    },
                }
            },
            FileOperation::SetExtension(extension) => {
                let e = extension.eval(scope);
                let after = scope.with_variables(e.variables);
                match e.value {
                    Err(failure) => Applied { scope: after, changed: Err(failure) },
                    Ok(None) => Applied { scope: after, changed: Ok(false) },
                    Ok(Some(x)) => if separator_free(x) {
                        Applied {
                            scope: after.with_destination(with_extension(path, x)),
                            changed: Ok(true),
                        }
                    } else {
                        Applied {
                            scope: after,
                            changed: Err(ErrorView::CannotIdentifyFileExtension),
                        }
                    },
                }
            },
            FileOperation::If(condition, then_op, else_op) => if condition.holds(path) {
                then_op.apply(scope)
            } else {
                match else_op {
                    Some(op) => op.apply(scope),
                    None => Applied { scope, changed: Ok(false) },
                }
            },
            FileOperation::NoOp(expression) => {
                let e = expression.eval(scope);
                let after = scope.with_variables(e.variables);
                match e.value {
                    Err(failure) => Applied { scope: after, changed: Err(failure) },
                    Ok(_) => Applied { scope: after, changed: Ok(false) },
                }
            },
        }
    }
}

/// What a sequence of operations does when each runs in the scope left by
/// the one before it. Every operation runs, whatever the earlier ones
/// reported; the first failure ends the sequence. The result says whether
/// any operation changed the destination.
pub open spec fn apply_all(ops: Seq<FileOperation>, scope: Scope) -> Applied
    decreases ops.len(),
{
    if ops.len() == 0 {
        Applied { scope, changed: Ok(false) }
    } else {
        let before = apply_all(ops.drop_last(), scope);
        match before.changed {
            Err(_) => before,
            Ok(earlier) => {
                let last = ops.last().apply(before.scope);
                match last.changed {
                    Err(_) => last,
                    Ok(now) => Applied { scope: last.scope, changed: Ok(earlier || now) },
                }
            },
        }
    }
}

impl Clone for FileOperation {
    fn clone(&self) -> (r: Self)
        ensures
            r == *self,
    {
        self.duplicate()
    }
}

/// A copy of a list of operations.
pub fn duplicate_all(ops: &[FileOperation]) -> (r: Vec<FileOperation>)
    ensures
        r@ == ops@,
{
    let mut out: Vec<FileOperation> = Vec::new();
    let mut i: usize = 0;
    while i < ops.len()
        invariant
            i <= ops.len(),
            out@ == ops@.take(i as int),
        decreases ops.len() - i,
    {
        out.push(ops[i].duplicate());
        i += 1;
        assert(ops@.take(i as int) =~= ops@.take(i - 1).push(ops@[i - 1]));
    }
    assert(ops@.take(i as int) =~= ops@);
    out
}

impl FileOperation {
    /// A copy of the operation.
    pub fn duplicate(&self) -> (r: Self)
        ensures
            r == *self,
        decreases self,
    {
        match self {
            FileOperation::SetName(e) => FileOperation::SetName(e.duplicate()),
            FileOperation::SetStem(e) => FileOperation::SetStem(e.duplicate()),
            FileOperation::SetExtension(e) => FileOperation::SetExtension(e.duplicate()),
            FileOperation::If(condition, then_op, else_op) => FileOperation::If(
                condition.duplicate(),
                Box::new(then_op.duplicate()),
                match else_op {
                    Some(op) => Some(Box::new(op.duplicate())),
                    None => None,
                },
            ),
            FileOperation::NoOp(e) => FileOperation::NoOp(e.duplicate()),
        }
    }

    /// Applies the operation to the file that the engine is processing.
    pub fn execute(&self, engine: &mut OperationEngine) -> (r: Result<bool, Error>)
        requires
            old(engine)@.has_current(),
        ensures
            change_of(r) == self.apply(old(engine)@.scope()).changed,
            final(engine)@ == old(engine)@.with_scope(self.apply(old(engine)@.scope()).scope),
        decreases self,
    {
        proof {
            crate::operation_engine::lemma_with_scope_same(engine@);
        }
        match self {
            FileOperation::SetName(name) => match name.execute(engine) {
                Err(e) => Err(e),
                Ok(None) => Ok(false),
                Ok(Some(n)) => {
                    let path = destination_of(engine);
                    engine.set_destination(crate::paths::set_file_name(path.as_str(), n.as_str()));
                    Ok(true)
                },
            },
            FileOperation::SetStem(stem) => match stem.execute(engine) {
                Err(e) => Err(e),
                Ok(None) => Ok(false),
                Ok(Some(s)) => {
                    let path = destination_of(engine);
                    let name = match crate::paths::extension(path.as_str()) {
                        Some(extension) => {
                            let mut name = s;
                            name.append(".");
                            name.append(extension.as_str());
                            proof {
                                reveal_strlit(".");
                                assert("."@ =~= seq!['.']);
                            }
                            name
                        },
                        None => s,
                    };
                    engine.set_destination(
                        crate::paths::set_file_name(path.as_str(), name.as_str()),
                    );
                    Ok(true)
                },
            },
            FileOperation::SetExtension(extension) => match extension.execute(engine) {
                Err(e) => Err(e),
                Ok(None) => Ok(false),
                Ok(Some(x)) => {
                    if crate::paths::has_separator(x.as_str()) {
                        return Err(Error::CannotIdentifyFileExtension);
                    }
                    let path = destination_of(engine);
                    engine.set_destination(crate::paths::set_extension(path.as_str(), x.as_str()));
                    Ok(true)
                },
            },
            FileOperation::If(condition, then_op, else_op) => {
                let path = destination_of(engine);
                if condition.resolve(&path) {
                    then_op.execute(engine)
                } else {
                    match else_op {
                        Some(op) => op.execute(engine),
                        None => Ok(false),
                    }
                }
            },
            FileOperation::NoOp(expression) => match expression.execute(engine) {
                Err(e) => Err(e),
                Ok(_) => Ok(false),
            },
        }
    }
}

/// The destination of the file that the engine is processing.
pub fn destination_of(engine: &OperationEngine) -> (r: String)
    requires
        engine@.has_current(),
    ensures
        engine@.scope().destination == Some(r@),
{
    match engine.current_file() {
        Some(f) => f.destination_path_string(),
        None => String::new(),
    }
}

/// Applies the operations in order to the file that the engine is
/// processing, and says whether any of them changed its destination.
pub fn execute_all(ops: &Vec<FileOperation>, engine: &mut OperationEngine) -> (r: Result<
    bool,
    Error,
>)
    requires
        old(engine)@.has_current(),
    ensures
        change_of(r) == apply_all(ops@, old(engine)@.scope()).changed,
        final(engine)@ == old(engine)@.with_scope(apply_all(ops@, old(engine)@.scope()).scope),
{
    let mut changed = false;
    let mut i: usize = 0;
    proof {
        crate::operation_engine::lemma_with_scope_same(engine@);
        assert(ops@.take(0) =~= Seq::empty());
    }
    while i < ops.len()
        invariant
            i <= ops.len(),
            old(engine)@.has_current(),
            engine@.has_current(),
            apply_all(ops@.take(i as int), old(engine)@.scope()).changed == Ok::<bool, ErrorView>(
                changed,
            ),
            engine@ == old(engine)@.with_scope(
                apply_all(ops@.take(i as int), old(engine)@.scope()).scope,
            ),
        decreases ops.len() - i,
    {
        let ghost before = apply_all(ops@.take(i as int), old(engine)@.scope());
        proof {
            assert(ops@.take(i + 1).drop_last() =~= ops@.take(i as int));
            assert(ops@.take(i + 1).last() == ops@[i as int]);
            lemma_apply_all_keeps(ops@.take(i as int), old(engine)@.scope());
            lemma_apply_keeps(ops@[i as int], before.scope);
            crate::operation_engine::lemma_scope_after(old(engine)@, before.scope);
        }
        let r = ops[i].execute(engine);
        proof {
            let last = ops@[i as int].apply(before.scope);
            crate::operation_engine::lemma_with_scope_twice(
                old(engine)@,
                before.scope,
                last.scope,
            );
        }
        match r {
            Err(e) => {
                proof {
                    lemma_failure_ends(ops@, old(engine)@.scope(), i + 1);
                }
                return Err(e);
            },
            Ok(now) => {
                changed = changed || now;
            },
        }
        i += 1;
    }
    assert(ops@.take(i as int) =~= ops@);
    Ok(changed)
}

/// Operations keep the counters of the scope and the presence of a
/// destination.
pub proof fn lemma_apply_keeps(op: FileOperation, scope: Scope)
    requires
        scope.destination is Some,
    ensures
        op.apply(scope).scope.destination is Some,
        op.apply(scope).scope.global_index == scope.global_index,
        op.apply(scope).scope.local_index == scope.local_index,
    decreases op,
{
    match op {
        FileOperation::If(condition, then_op, else_op) => {
            lemma_apply_keeps(*then_op, scope);
            match else_op {
                Some(other) => lemma_apply_keeps(*other, scope),
                None => {},
            }
        },
        _ => {},
    }
}

/// A sequence of operations keeps the counters of the scope and the
/// presence of a destination.
pub proof fn lemma_apply_all_keeps(ops: Seq<FileOperation>, scope: Scope)
    requires
        scope.destination is Some,
    ensures
        apply_all(ops, scope).scope.destination is Some,
        apply_all(ops, scope).scope.global_index == scope.global_index,
        apply_all(ops, scope).scope.local_index == scope.local_index,
    decreases ops.len(),
{
    if ops.len() > 0 {
        lemma_apply_all_keeps(ops.drop_last(), scope);
        lemma_apply_keeps(ops.last(), apply_all(ops.drop_last(), scope).scope);
    }
}

/// Once a prefix of a sequence has failed, the whole sequence has failed
/// in the same way.
pub proof fn lemma_failure_ends(ops: Seq<FileOperation>, scope: Scope, n: int)
    requires
        0 <= n <= ops.len(),
        apply_all(ops.take(n), scope).changed is Err,
    ensures
        apply_all(ops, scope) == apply_all(ops.take(n), scope),
    decreases ops.len() - n,
{
    if n < ops.len() {
        assert(ops.take(n + 1).drop_last() =~= ops.take(n));
        lemma_failure_ends(ops, scope, n + 1);
    } else {
        assert(ops.take(n) =~= ops);
    }
}

} // verus!
