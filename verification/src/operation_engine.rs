//! The engine: the state of a run and the order of evaluation.
use crate::directory::{chain, failure_of, offsets_fit, Batch, DirOperation};
use crate::error::{Error, ErrorView};
use crate::expressions::Scope;
use crate::file::{apply_all, FileOperation};
use crate::paths::text_of;
use crate::rename_tree::{views_of, Dir, DirView, File, FileView};
use crate::text::decimal_string;
use crate::variables::Variables;
use vstd::prelude::*;

verus! {

/// The state that one run threads through every evaluation, and the
/// operations that apply to every directory and file of the run.
#[derive(Debug)]
pub struct OperationEngine {
    pub(crate) global_index: usize,
    pub(crate) local_index: usize,
    pub(crate) variables: Variables,
    pub(crate) dir_operations: Vec<DirOperation>,
    pub(crate) file_operations: Vec<FileOperation>,
    pub(crate) current_file: usize,
    pub(crate) files: Vec<File>,
}

/// The state of an [`OperationEngine`].
pub struct EngineView {
    /// The number of files completed in this run.
    pub global_index: nat,
    /// The index of the current file within its directory.
    pub local_index: nat,
    /// The variable table.
    pub variables: Map<Seq<char>, Seq<char>>,
    /// The operations applied to the files of every directory.
    pub dir_operations: Seq<DirOperation>,
    /// The operations applied to every file, before its own.
    pub file_operations: Seq<FileOperation>,
    /// The index of the current file among `files`; it is the number of
    /// files where no file is being processed.
    pub current_file: nat,
    /// The files taken in so far, in the order they were processed.
    pub files: Seq<FileView>,
}

impl EngineView {
    /// Whether a file is being processed.
    pub open spec fn has_current(self) -> bool {
        self.current_file < self.files.len()
    }

    /// What expressions can read of the state.
    pub open spec fn scope(self) -> Scope {
        Scope {
            global_index: self.global_index,
            local_index: self.local_index,
            variables: self.variables,
            destination: if self.has_current() {
                Some(self.files[self.current_file as int].destination)
            } else {
                None
            },
        }
    }

    /// The same state with another variable table.
    pub open spec fn with_variables(self, variables: Map<Seq<char>, Seq<char>>) -> EngineView {
        EngineView { variables, ..self }
    }

    /// The same state with another destination for the current file.
    pub open spec fn with_destination(self, destination: Seq<char>) -> EngineView {
        let at = self.current_file as int;
        EngineView {
            files: self.files.update(at, FileView { destination, ..self.files[at] }),
            ..self
        }
    }

    /// The same state with the variable table and the current file's
    /// destination taken from a scope.
    pub open spec fn with_scope(self, scope: Scope) -> EngineView {
        if self.has_current() && scope.destination is Some {
            self.with_variables(scope.variables).with_destination(scope.destination->0)
        } else {
            self.with_variables(scope.variables)
        }
    }
}

/// How far a run has come: the state it reached, and the failure that
/// stopped it, if one did.
pub struct Progress {
    pub state: EngineView,
    pub failure: Option<ErrorView>,
}

impl EngineView {
    /// The state after the current file has been completed: both counters
    /// and the cursor have moved on by one.
    pub open spec fn file_done(self) -> EngineView {
        EngineView {
            global_index: self.global_index + 1,
            local_index: self.local_index + 1,
            current_file: self.current_file + 1,
            ..self
        }
    }

    /// Processing the current file: the operations of the engine run
    /// first, then the file's own, and then the file is complete. A
    /// failure leaves the state as the failing operation left it.
    pub open spec fn run_file(self) -> Progress
        recommends
            self.has_current(),
    {
        let first = apply_all(self.file_operations, self.scope());
        match first.changed {
            Err(e) => Progress { state: self.with_scope(first.scope), failure: Some(e) },
            Ok(_) => {
                let second = apply_all(self.files[self.current_file as int].ops, first.scope);
                let after = self.with_scope(second.scope);
                match second.changed {
                    Err(e) => Progress { state: after, failure: Some(e) },
                    Ok(_) => Progress { state: after.file_done(), failure: None },
                }
            },
        }
    }

    /// Processing the current file and every file after it, in order,
    /// until one fails.
    pub open spec fn run_files(self) -> Progress
        decreases self.files.len() - self.current_file,
    {
        if !self.has_current() {
            Progress { state: self, failure: None }
        } else {
            let one = self.run_file();
            if one.failure is Some {
                one
            } else {
                one.state.run_files()
            }
        }
    }

    /// The state in which the files of a batch wait to be processed: they
    /// stand behind the files taken in earlier, the cursor is on the first
    /// of them, and the local index is that of the batch.
    pub open spec fn taking(self, batch: Batch) -> EngineView {
        EngineView {
            local_index: batch.local_index,
            current_file: self.files.len(),
            files: self.files + batch.files,
            ..self
        }
    }

    /// The state in which a directory's operations have failed: no file
    /// was taken in.
    pub open spec fn refusing(self, batch: Batch) -> EngineView {
        EngineView { local_index: batch.local_index, current_file: self.files.len(), ..self }
    }

    /// Whether processing a directory can lead from this state to `after`
    /// with the given outcome. The local index starts at zero; the
    /// operations of the engine and then those of the directory work on
    /// the directory's files; the files they leave are processed in order.
    pub open spec fn processes(
        self,
        dir: DirView,
        after: EngineView,
        failure: Option<ErrorView>,
    ) -> bool {
        exists|batch: Batch, stopped: Option<ErrorView>|
            {
                &&& #[trigger] chain(
                    self.dir_operations + dir.dir_ops,
                    Batch { files: dir.contents, local_index: 0 },
                    batch,
                    stopped,
                )
                &&& if stopped is Some {
                    failure == stopped && after == self.refusing(batch)
                } else {
                    (Progress { state: after, failure }) == self.taking(batch).run_files()
                }
            }
    }

    /// Whether `after` can follow this state in a run: the operations of
    /// the engine are the same, no file was dropped, and the global index
    /// has grown by no more than the number of files taken in.
    pub open spec fn keeps_shape(self, after: EngineView) -> bool {
        &&& after.dir_operations == self.dir_operations
        &&& after.file_operations == self.file_operations
        &&& self.files.len() <= after.files.len()
        &&& self.global_index <= after.global_index
        &&& after.global_index - self.global_index <= after.files.len() - self.files.len()
    }

    /// Whether the counters and the list of files have room for the files
    /// of a directory.
    pub open spec fn can_take(self, dir: DirView) -> bool {
        &&& self.global_index + dir.contents.len() <= usize::MAX
        &&& self.files.len() + dir.contents.len() <= usize::MAX
        &&& offsets_fit(self.dir_operations + dir.dir_ops, dir.contents.len())
    }
}

/// Giving the current file the destination it has changes nothing.
pub proof fn lemma_with_scope_same(view: EngineView)
    requires
        view.has_current(),
    ensures
        view.with_scope(view.scope()) == view,
        forall|variables: Map<Seq<char>, Seq<char>>| #[trigger]
            view.with_scope(view.scope().with_variables(variables)) == view.with_variables(
                variables,
            ),
{
    let at = view.current_file as int;
    assert(view.files.update(
        at,
        FileView { destination: view.files[at].destination, ..view.files[at] },
    ) =~= view.files);
}

/// The scope of a state that took its variables and destination from a
/// scope is that scope, where the two agree on the counters.
pub proof fn lemma_scope_after(view: EngineView, scope: Scope)
    requires
        view.has_current(),
        scope.destination is Some,
        scope.global_index == view.global_index,
        scope.local_index == view.local_index,
    ensures
        view.with_scope(scope).scope() == scope,
        view.with_scope(scope).has_current(),
{
}

/// Taking a scope and then another leaves what the second one gave.
pub proof fn lemma_with_scope_twice(
    view: EngineView,
    first: Scope,
    second: Scope,
)
    requires
        view.has_current(),
        first.destination is Some,
        second.destination is Some,
    ensures
        view.with_scope(first).with_scope(second) == view.with_scope(second),
{
    let at = view.current_file as int;
    assert(view.with_scope(first).with_scope(second).files =~= view.with_scope(second).files);
}

/// Completing a file leaves the list of files as long as it was and moves
/// the cursor on by one.
pub proof fn lemma_run_file_shape(view: EngineView)
    requires
        view.has_current(),
    ensures
        view.run_file().state.files.len() == view.files.len(),
        view.run_file().state.dir_operations == view.dir_operations,
        view.run_file().state.file_operations == view.file_operations,
        view.run_file().failure is None ==> view.run_file().state.current_file
            == view.current_file + 1 && view.run_file().state.global_index == view.global_index
            + 1 && view.run_file().state.local_index == view.local_index + 1,
        view.run_file().failure is Some ==> view.run_file().state.current_file
            == view.current_file && view.run_file().state.global_index == view.global_index,
{
    let first = apply_all(view.file_operations, view.scope());
    crate::file::lemma_apply_all_keeps(view.file_operations, view.scope());
    if first.changed is Ok {
        crate::file::lemma_apply_all_keeps(view.files[view.current_file as int].ops, first.scope);
    }
}

impl View for OperationEngine {
    type V = EngineView;

    open(crate) spec fn view(&self) -> EngineView {
        EngineView {
            global_index: self.global_index as nat,
            local_index: self.local_index as nat,
            variables: self.variables@,
            dir_operations: self.dir_operations@,
            file_operations: self.file_operations@,
            current_file: self.current_file as nat,
            files: views_of(self.files@),
        }
    }
}

impl OperationEngine {
    /// An engine at the start of a run, with the operations that apply to
    /// every directory and to every file.
    pub fn new(dir_operations: Vec<DirOperation>, file_operations: Vec<FileOperation>) -> (r:
        Self)
        ensures
            r@ == (EngineView {
                global_index: 0,
                local_index: 0,
                variables: Map::empty(),
                dir_operations: dir_operations@,
                file_operations: file_operations@,
                current_file: 0,
                files: Seq::empty(),
            }),
    {
        let r = OperationEngine {
            global_index: 0,
            local_index: 0,
            variables: Variables::new(),
            dir_operations,
            file_operations,
            current_file: 0,
            files: Vec::new(),
        };
        assert(views_of(r.files@) =~= Seq::empty());
        r
    }

    /// The index of the current file within its directory.
    pub fn local_index(&self) -> (r: usize)
        ensures
            r == self@.local_index,
    {
        self.local_index
    }

    /// Overwrites the local index.
    pub fn set_local_index(&mut self, index: usize)
        ensures
            final(self)@ == (EngineView { local_index: index as nat, ..old(self)@ }),
    {
        self.local_index = index;
    }

    /// The number of files completed in this run.
    pub fn global_index(&self) -> (r: usize)
        ensures
            r == self@.global_index,
    {
        self.global_index
    }

    /// Assigns a value to a variable.
    pub fn set_variable(&mut self, var_name: String, value: String)
        ensures
            final(self)@ == old(self)@.with_variables(
                old(self)@.variables.insert(var_name@, value@),
            ),
    {
        self.variables.set(var_name, value);
    }

    /// The value that a variable name stands for: one of the two counters
    /// under its reserved name, or what the table holds.
    pub fn get_variable(&self, var_name: &str) -> (r: Option<String>)
        ensures
            text_of(r) == self@.scope().lookup(var_name@),
    {
        let name = var_name.to_owned();
        if name == "global_index".to_owned() {
            Some(decimal_string(self.global_index))
        } else if name == "local_index".to_owned() {
            Some(decimal_string(self.local_index))
        } else {
            self.variables.get(var_name)
        }
    }

    /// The file that is being processed, if any.
    pub fn current_file(&self) -> (r: Option<&File>)
        ensures
            r is Some == self@.has_current(),
            r matches Some(f) ==> f@ == self@.files[self@.current_file as int],
    {
        if self.current_file < self.files.len() {
            Some(&self.files[self.current_file])
        } else {
            None
        }
    }

    /// Gives the current file another destination.
    pub fn set_destination(&mut self, destination: String)
        requires
            old(self)@.has_current(),
        ensures
            final(self)@ == old(self)@.with_destination(destination@),
    {
        let at = self.current_file;
        self.files[at].destination = destination;
        assert(views_of(self.files@) =~= old(self)@.with_destination(destination@).files);
    }

    /// The files taken in so far, with the destinations computed for them.
    pub fn into_files(self) -> (r: Vec<File>)
        ensures
            views_of(r@) == self@.files,
    {
        self.files
    }
}

impl OperationEngine {
    /// Processes the current file.
    pub fn run_file(&mut self) -> (r: Result<(), Error>)
        requires
            old(self)@.has_current(),
            old(self)@.global_index < usize::MAX,
            old(self)@.local_index < usize::MAX,
        ensures
            (Progress { state: final(self)@, failure: failure_of(r) }) == old(self)@.run_file(),
    {
        let ghost start = self@;
        let ghost first = apply_all(start.file_operations, start.scope());
        proof {
            crate::file::lemma_apply_all_keeps(start.file_operations, start.scope());
        }
        let mut defaults: Vec<FileOperation> = Vec::new();
        core::mem::swap(&mut self.file_operations, &mut defaults);
        assert(self@.files =~= start.files);
        let r = crate::file::execute_all(&defaults, self);
        core::mem::swap(&mut self.file_operations, &mut defaults);
        assert(self@ == start.with_scope(first.scope));
        if let Err(e) = r {
            return Err(e);
        }
        let ghost second = apply_all(start.files[start.current_file as int].ops, first.scope);
        proof {
            lemma_scope_after(start, first.scope);
            crate::file::lemma_apply_all_keeps(
                start.files[start.current_file as int].ops,
                first.scope,
            );
            lemma_with_scope_twice(start, first.scope, second.scope);
        }
        let at = self.current_file;
        let ghost middle = self@;
        let mut own: Vec<FileOperation> = Vec::new();
        core::mem::swap(&mut self.files[at].ops, &mut own);
        assert(own@ == start.files[at as int].ops);
        let ghost bare = self@;
        assert(bare.scope() == middle.scope());
        let r = crate::file::execute_all(&own, self);
        let ghost during = self@;
        let ghost held = self.files@;
        assert(during == bare.with_scope(second.scope));
        assert(during.files.len() == bare.files.len());
        assert(held.len() == views_of(held).len());
        core::mem::swap(&mut self.files[at].ops, &mut own);
        proof {
            let wanted = start.with_scope(second.scope).files;
            assert(self.files@.len() == held.len());
            assert forall|i: int| 0 <= i < wanted.len() implies self@.files[i] == wanted[i] by {
                assert(during.files[i] == held[i]@);
                assert(self@.files[i] == self.files@[i]@);
                if i != at {
                    assert(self.files@[i] == held[i]);
                }
            }
            assert(self@.files =~= wanted);
        }
        assert(self@ == start.with_scope(second.scope));
        if let Err(e) = r {
            return Err(e);
        }
        let count: usize = self.files.len();
        assert(self.current_file < count) by {
            assert(self.files@.len() == views_of(self.files@).len());
        }
        self.global_index += 1;
        self.local_index += 1;
        self.current_file += 1;
        Ok(())
    }

    /// Processes the current file and every file after it.
    pub fn run_files(&mut self) -> (r: Result<(), Error>)
        requires
            old(self)@.current_file <= old(self)@.files.len(),
            old(self)@.global_index + (old(self)@.files.len() - old(self)@.current_file)
                <= usize::MAX,
            old(self)@.local_index + (old(self)@.files.len() - old(self)@.current_file)
                <= usize::MAX,
        ensures
            (Progress { state: final(self)@, failure: failure_of(r) }) == old(self)@.run_files(),
            final(self)@.dir_operations == old(self)@.dir_operations,
            final(self)@.file_operations == old(self)@.file_operations,
            final(self)@.files.len() == old(self)@.files.len(),
            old(self)@.global_index <= final(self)@.global_index <= old(self)@.global_index + (
            old(self)@.files.len() - old(self)@.current_file),
    {
        while self.current_file < self.files.len()
            invariant
                old(self)@.current_file <= old(self)@.files.len(),
                self@.files.len() == old(self)@.files.len(),
                self@.dir_operations == old(self)@.dir_operations,
                self@.file_operations == old(self)@.file_operations,
                old(self)@.global_index <= self@.global_index,
                self@.global_index + (self@.files.len() - self@.current_file) <= old(
                    self,
                )@.global_index + (old(self)@.files.len() - old(self)@.current_file),
                self@.current_file <= self@.files.len(),
                self@.global_index + (self@.files.len() - self@.current_file) <= usize::MAX,
                self@.local_index + (self@.files.len() - self@.current_file) <= usize::MAX,
                self@.run_files() == old(self)@.run_files(),
            decreases self@.files.len() - self@.current_file,
        {
            proof {
                lemma_run_file_shape(self@);
            }
            let r = self.run_file();
            if let Err(e) = r {
                return Err(e);
            }
        }
        Ok(())
    }

    /// Whether the counters and the list of files have room for the files
    /// of a directory.
    pub fn can_take(&self, dir: &Dir) -> (r: bool)
        ensures
            r == self@.can_take(dir@),
    {
        let count = dir.contents.len();
        proof {
            crate::directory::lemma_offsets_fit_joined(
                self@.dir_operations,
                dir@.dir_ops,
                count as nat,
            );
            assert(views_of(dir.contents@).len() == count);
            assert(views_of(self.files@).len() == self.files@.len());
        }
        count <= usize::MAX - self.global_index && count <= usize::MAX - self.files.len()
            && crate::directory::offsets_fit_in(&self.dir_operations, count)
            && crate::directory::offsets_fit_in(&dir.dir_ops, count)
    }

    /// Whether the counters and the list of files have room for one more
    /// file.
    pub fn can_take_file(&self) -> (r: bool)
        ensures
            r == (self@.global_index < usize::MAX && self@.files.len() < usize::MAX),
    {
        assert(views_of(self.files@).len() == self.files@.len());
        self.global_index < usize::MAX && self.files.len() < usize::MAX
    }

    /// Processes the files of a directory: the directory operations work
    /// on the batch, then each file that is left is processed. The files
    /// taken in earlier stay as they are.
    pub fn process_dir(&mut self, dir: Dir) -> (r: Result<(), Error>)
        requires
            old(self)@.can_take(dir@),
        ensures
            old(self)@.processes(dir@, final(self)@, failure_of(r)),
            old(self)@.keeps_shape(final(self)@),
            final(self)@.files.len() <= old(self)@.files.len() + dir@.contents.len(),
    {
        let ghost start = self@;
        let ghost all = start.dir_operations + dir@.dir_ops;
        let ghost first_batch = Batch { files: dir@.contents, local_index: 0 };
        self.local_index = 0;
        self.current_file = self.files.len();
        let mut files = dir.contents;
        let own = dir.dir_ops;
        let mut defaults: Vec<DirOperation> = Vec::new();
        core::mem::swap(&mut self.dir_operations, &mut defaults);
        proof {
            assert(self@.files =~= start.files);
            assert forall|i: int| 0 <= i < defaults@.len() implies (
            #[trigger] defaults@[i] matches DirOperation::OffsetLocalIndex(offset) ==> offset
                + files@.len() <= usize::MAX) by {
                assert(all[i] == defaults@[i]);
            }
        }
        let r = crate::directory::execute_all(&defaults, self, &mut files);
        core::mem::swap(&mut self.dir_operations, &mut defaults);
        let ghost mid = Batch { files: views_of(files@), local_index: self@.local_index };
        assert(self@.files =~= start.files);
        if let Err(e) = r {
            proof {
                assert(all.take(start.dir_operations.len() as int) =~= start.dir_operations);
                crate::directory::lemma_chain_failed(
                    all,
                    start.dir_operations.len() as int,
                    first_batch,
                    mid,
                    Some(e@),
                );
                assert(self@ == start.refusing(mid));
            }
            return Err(e);
        }
        proof {
            assert forall|i: int| 0 <= i < own@.len() implies (
            #[trigger] own@[i] matches DirOperation::OffsetLocalIndex(offset) ==> offset
                + files@.len() <= usize::MAX) by {
                assert(all[start.dir_operations.len() + i] == own@[i]);
            }
        }
        let r = crate::directory::execute_all(&own, self, &mut files);
        let ghost batch = Batch { files: views_of(files@), local_index: self@.local_index };
        proof {
            crate::directory::lemma_chain_joined(
                start.dir_operations,
                own@,
                first_batch,
                mid,
                batch,
                failure_of(r),
            );
            assert(self@.files =~= start.files);
        }
        if let Err(e) = r {
            assert(self@ == start.refusing(batch));
            return Err(e);
        }
        self.files.append(&mut files);
        assert(self@.files =~= start.files + batch.files);
        assert(self@ == start.taking(batch));
        self.run_files()
    }

    /// Processes one file on its own: the local index starts at zero and
    /// the file is run as the files of a directory are.
    pub fn process_file(&mut self, file: File) -> (r: Result<(), Error>)
        requires
            old(self)@.global_index < usize::MAX,
            old(self)@.files.len() < usize::MAX,
        ensures
            (Progress { state: final(self)@, failure: failure_of(r) }) == old(self)@.taking(
                Batch { files: seq![file@], local_index: 0 },
            ).run_file(),
            old(self)@.keeps_shape(final(self)@),
            final(self)@.files.len() == old(self)@.files.len() + 1,
    {
        proof {
            lemma_run_file_shape(self@.taking(Batch { files: seq![file@], local_index: 0 }));
        }
        self.local_index = 0;
        self.current_file = self.files.len();
        self.files.push(file);
        assert(self@.files =~= old(self)@.files + seq![file@]);
        self.run_file()
    }
}

} // verus!
