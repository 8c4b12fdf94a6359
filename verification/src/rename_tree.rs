//! The records of a run: files, directories and the renames they lead to.
use crate::directory::{failure_of, offsets_fit, Batch, DirOperation};
use crate::error::{Error, ErrorView};
use crate::file::FileOperation;
use crate::operation_engine::{EngineView, OperationEngine, Progress};
use crate::paths::{path_rank, Rank};
use crate::rules::{DirRule, FileRule};
use vstd::prelude::*;

verus! {

/// A file to rename: where it is, where it is to go, and what is applied
/// to it alone.
#[derive(PartialEq, Eq, Debug)]
pub struct File {
    pub(crate) source: String,
    pub(crate) ops: Vec<FileOperation>,
    pub(crate) rules: Vec<FileRule>,
    pub(crate) destination: String,
}

/// A [`File`] with its paths as character sequences.
pub struct FileView {
    pub source: Seq<char>,
    pub ops: Seq<FileOperation>,
    pub rules: Seq<FileRule>,
    pub destination: Seq<char>,
}

impl View for File {
    type V = FileView;

    open(crate) spec fn view(&self) -> FileView {
        FileView {
            source: self.source@,
            ops: self.ops@,
            rules: self.rules@,
            destination: self.destination@,
        }
    }
}

/// A directory whose files are to be renamed, with what is applied to the
/// batch of its files and to each of them.
#[derive(PartialEq, Eq, Debug)]
pub struct Dir {
    pub(crate) path: String,
    pub(crate) recursive: bool,
    pub(crate) dir_ops: Vec<DirOperation>,
    pub(crate) file_ops: Vec<FileOperation>,
    pub(crate) dir_rules: Vec<DirRule>,
    pub(crate) file_rules: Vec<FileRule>,
    pub(crate) contents: Vec<File>,
    pub(crate) processed: bool,
}

/// A [`Dir`] with its path as a character sequence.
pub struct DirView {
    pub path: Seq<char>,
    pub recursive: bool,
    pub dir_ops: Seq<DirOperation>,
    pub file_ops: Seq<FileOperation>,
    pub dir_rules: Seq<DirRule>,
    pub file_rules: Seq<FileRule>,
    pub contents: Seq<FileView>,
    pub processed: bool,
}

impl View for Dir {
    type V = DirView;

    open(crate) spec fn view(&self) -> DirView {
        DirView {
            path: self.path@,
            recursive: self.recursive,
            dir_ops: self.dir_ops@,
            file_ops: self.file_ops@,
            dir_rules: self.dir_rules@,
            file_rules: self.file_rules@,
            contents: views_of(self.contents@),
            processed: self.processed,
        }
    }
}

impl Clone for File {
    fn clone(&self) -> (r: Self)
        ensures
            r@ == self@,
    {
        File {
            source: self.source.clone(),
            ops: crate::file::duplicate_all(self.ops.as_slice()),
            rules: crate::rules::duplicate_file_rules(self.rules.as_slice()),
            destination: self.destination.clone(),
        }
    }
}

impl File {
    /// A file at `path`, with nothing to apply to it. Its destination is
    /// its source until an operation changes it.
    pub fn new(path: &str) -> (r: Self)
        ensures
            r@ == (FileView {
                source: path@,
                ops: Seq::empty(),
                rules: Seq::empty(),
                destination: path@,
            }),
    {
        File::new_with_ops(path, Vec::new())
    }

    /// A file at `path`, with the operations to apply to it.
    pub fn new_with_ops(path: &str, ops: Vec<FileOperation>) -> (r: Self)
        ensures
            r@ == (FileView {
                source: path@,
                ops: ops@,
                rules: Seq::empty(),
                destination: path@,
            }),
    {
        File { source: path.to_owned(), ops, rules: Vec::new(), destination: path.to_owned() }
    }

    /// A file at `path`, with the fixed rules to apply to it.
    pub fn new_with_rules(path: &str, rules: Vec<FileRule>) -> (r: Self)
        ensures
            r@ == (FileView {
                source: path@,
                ops: Seq::empty(),
                rules: rules@,
                destination: path@,
            }),
    {
        File { source: path.to_owned(), ops: Vec::new(), rules, destination: path.to_owned() }
    }

    /// The file with one more operation, applied after those it has.
    pub fn with_op(self, op: FileOperation) -> (r: Self)
        ensures
            r@ == (FileView { ops: self@.ops.push(op), ..self@ }),
    {
        let mut file = self;
        file.ops.push(op);
        file
    }

    /// The file with more operations, applied after those it has. The
    /// operations are moved out of `ops`.
    pub fn with_ops(self, ops: &mut Vec<FileOperation>) -> (r: Self)
        ensures
            r@ == (FileView { ops: self@.ops + old(ops)@, ..self@ }),
            final(ops)@.len() == 0,
    {
        let mut file = self;
        file.ops.append(ops);
        file
    }

    /// The file with these fixed rules in place of those it has.
    pub fn with_rules(self, rules: Vec<FileRule>) -> (r: Self)
        ensures
            r@ == (FileView { rules: rules@, ..self@ }),
    {
        let mut file = self;
        file.rules = rules;
        file
    }

    /// Where the file is, as text.
    pub fn source_path_string(&self) -> (r: String)
        ensures
            r@ == self@.source,
    {
        self.source.clone()
    }

    /// Where the file is to go, as text.
    pub fn destination_path_string(&self) -> (r: String)
        ensures
            r@ == self@.destination,
    {
        self.destination.clone()
    }
}

/// The views of a batch with one more file are the views of the batch
/// with one more view.
pub proof fn lemma_views_push(files: Seq<File>, f: File)
    ensures
        views_of(files.push(f)) == views_of(files).push(f@),
{
    assert(views_of(files.push(f)) =~= views_of(files).push(f@));
}

/// A copy of a list of files.
pub fn duplicate_files(files: &[File]) -> (r: Vec<File>)
    ensures
        views_of(r@) == views_of(files@),
{
    let mut out: Vec<File> = Vec::new();
    let mut i: usize = 0;
    while i < files.len()
        invariant
            i <= files.len(),
            views_of(out@) == views_of(files@.take(i as int)),
        decreases files.len() - i,
    {
        let ghost before = out@;
        out.push(files[i].clone());
        i += 1;
        proof {
            lemma_views_push(before, out@.last());
            lemma_views_push(files@.take(i - 1), files@[i - 1]);
            assert(files@.take(i as int) =~= files@.take(i - 1).push(files@[i - 1]));
        }
    }
    assert(files@.take(i as int) =~= files@);
    out
}

impl Clone for Dir {
    fn clone(&self) -> (r: Self)
        ensures
            r@ == self@,
    {
        Dir {
            path: self.path.clone(),
            recursive: self.recursive,
            dir_ops: crate::directory::duplicate_all(self.dir_ops.as_slice()),
            file_ops: crate::file::duplicate_all(self.file_ops.as_slice()),
            dir_rules: crate::rules::duplicate_dir_rules(self.dir_rules.as_slice()),
            file_rules: crate::rules::duplicate_file_rules(self.file_rules.as_slice()),
            contents: duplicate_files(self.contents.as_slice()),
            processed: self.processed,
        }
    }
}

impl Dir {
    /// A directory at `path` with nothing to apply; `recursive` says
    /// whether the files of its subdirectories belong to it.
    pub fn new(path: &str, recursive: bool) -> (r: Self)
        ensures
            r@ == DirView::bare(path@, recursive),
    {
        Dir::new_with_ops(path, recursive, Vec::new(), Vec::new())
    }

    /// A directory at `path` with the operations for its batch of files
    /// and for each of its files.
    pub fn new_with_ops(
        path: &str,
        recursive: bool,
        dir_ops: Vec<DirOperation>,
        file_ops: Vec<FileOperation>,
    ) -> (r: Self)
        ensures
            r@ == (DirView {
                dir_ops: dir_ops@,
                file_ops: file_ops@,
                ..DirView::bare(path@, recursive)
            }),
    {
        let r = Dir {
            path: path.to_owned(),
            recursive,
            dir_ops,
            file_ops,
            dir_rules: Vec::new(),
            file_rules: Vec::new(),
            contents: Vec::new(),
            processed: false,
        };
        assert(r@.contents =~= Seq::empty());
        r
    }

    /// A directory at `path` with the fixed rules for its batch of files
    /// and for each of its files.
    pub fn new_with_rules(
        path: &str,
        recursive: bool,
        dir_rules: Vec<DirRule>,
        file_rules: Vec<FileRule>,
    ) -> (r: Self)
        ensures
            r@ == (DirView {
                dir_rules: dir_rules@,
                file_rules: file_rules@,
                ..DirView::bare(path@, recursive)
            }),
    {
        let r = Dir {
            path: path.to_owned(),
            recursive,
            dir_ops: Vec::new(),
            file_ops: Vec::new(),
            dir_rules,
            file_rules,
            contents: Vec::new(),
            processed: false,
        };
        assert(r@.contents =~= Seq::empty());
        r
    }

    /// The directory with one more operation on its batch of files.
    pub fn with_dir_op(self, op: DirOperation) -> (r: Self)
        ensures
            r@ == (DirView { dir_ops: self@.dir_ops.push(op), ..self@ }),
    {
        let mut dir = self;
        dir.dir_ops.push(op);
        dir
    }

    /// The directory with more operations on its batch of files, moved
    /// out of `ops`.
    pub fn with_dir_ops(self, ops: &mut Vec<DirOperation>) -> (r: Self)
        ensures
            r@ == (DirView { dir_ops: self@.dir_ops + old(ops)@, ..self@ }),
            final(ops)@.len() == 0,
    {
        let mut dir = self;
        dir.dir_ops.append(ops);
        dir
    }

    /// The directory with one more operation for each of its files.
    pub fn with_file_op(self, op: FileOperation) -> (r: Self)
        ensures
            r@ == (DirView { file_ops: self@.file_ops.push(op), ..self@ }),
    {
        let mut dir = self;
        dir.file_ops.push(op);
        dir
    }

    /// The directory with more operations for each of its files, moved
    /// out of `ops`.
    pub fn with_file_rules(self, ops: &mut Vec<FileOperation>) -> (r: Self)
        ensures
            r@ == (DirView { file_ops: self@.file_ops + old(ops)@, ..self@ }),
            final(ops)@.len() == 0,
    {
        let mut dir = self;
        dir.file_ops.append(ops);
        dir
    }

    /// The path of the directory.
    pub fn path_string(&self) -> (r: String)
        ensures
            r@ == self@.path,
    {
        self.path.clone()
    }

    /// Whether the files of subdirectories belong to the directory.
    pub fn is_recursive(&self) -> (r: bool)
        ensures
            r == self@.recursive,
    {
        self.recursive
    }

    /// Takes the files found in the directory: each path becomes a file
    /// with the directory's file operations and file rules.
    pub fn fill(&mut self, paths: &Vec<String>)
        ensures
            final(self)@ == (DirView {
                contents: found(paths@, old(self)@.file_ops, old(self)@.file_rules),
                processed: true,
                ..old(self)@
            }),
    {
        let mut contents: Vec<File> = Vec::new();
        let mut i: usize = 0;
        while i < paths.len()
            invariant
                i <= paths.len(),
                self@ == old(self)@,
                views_of(contents@) == found(
                    paths@.take(i as int),
                    self@.file_ops,
                    self@.file_rules,
                ),
            decreases paths.len() - i,
        {
            let mut file = File::new_with_ops(
                paths[i].as_str(),
                crate::file::duplicate_all(self.file_ops.as_slice()),
            );
            file.rules = crate::rules::duplicate_file_rules(self.file_rules.as_slice());
            let ghost before = contents@;
            contents.push(file);
            i += 1;
            proof {
                lemma_views_push(before, file);
                assert(paths@.take(i as int) =~= paths@.take(i - 1).push(paths@[i - 1]));
                assert(views_of(contents@) =~= found(
                    paths@.take(i as int),
                    self@.file_ops,
                    self@.file_rules,
                ));
            }
        }
        assert(paths@.take(i as int) =~= paths@);
        self.contents = contents;
        self.processed = true;
    }
}

impl DirView {
    /// A directory with nothing to apply and no files.
    pub open spec fn bare(path: Seq<char>, recursive: bool) -> DirView {
        DirView {
            path,
            recursive,
            dir_ops: Seq::empty(),
            file_ops: Seq::empty(),
            dir_rules: Seq::empty(),
            file_rules: Seq::empty(),
            contents: Seq::empty(),
            processed: false,
        }
    }
}

/// The files that a directory makes of the paths found in it.
pub open spec fn found(
    paths: Seq<String>,
    file_ops: Seq<FileOperation>,
    file_rules: Seq<FileRule>,
) -> Seq<FileView> {
    paths.map_values(
        |p: String| FileView { source: p@, ops: file_ops, rules: file_rules, destination: p@ },
    )
}

/// The views of a batch of files.
pub open spec fn views_of(files: Seq<File>) -> Seq<FileView> {
    files.map_values(|f: File| f@)
}

/// One rename: where a file was and where it has gone, or is to go.
#[derive(PartialEq, Eq, Debug, Hash)]
pub struct RenameResult {
    pub(crate) source: String,
    pub(crate) destination: String,
}

/// A [`RenameResult`] with its paths as character sequences.
pub struct RenameResultView {
    pub source: Seq<char>,
    pub destination: Seq<char>,
}

impl View for RenameResult {
    type V = RenameResultView;

    open(crate) spec fn view(&self) -> RenameResultView {
        RenameResultView { source: self.source@, destination: self.destination@ }
    }
}

impl Clone for RenameResult {
    fn clone(&self) -> (r: Self)
        ensures
            r@ == self@,
    {
        RenameResult { source: self.source.clone(), destination: self.destination.clone() }
    }
}

impl RenameResult {
    /// The rename of `source` to `destination`.
    pub fn new(source: String, destination: String) -> (r: Self)
        ensures
            r@ == (RenameResultView { source: source@, destination: destination@ }),
    {
        RenameResult { source, destination }
    }

    /// Where the file has gone, as text.
    pub fn destination_path_string(&self) -> (r: Option<String>)
        ensures
            r matches Some(s) && s@ == self@.destination,
    {
        Some(self.destination.clone())
    }

    /// Where the file was, as text.
    pub fn source_path_string(&self) -> (r: Option<String>)
        ensures
            r matches Some(s) && s@ == self@.source,
    {
        Some(self.source.clone())
    }

    /// The rename as one line: the source, an arrow, the destination.
    pub fn describe(&self) -> (r: String)
        ensures
            r@ == self@.source + " -> "@ + self@.destination,
    {
        let mut out = self.source.clone();
        out.append(" -> ");
        out.append(self.destination.as_str());
        out
    }
}

/// Two sources name the same file: they are the same text, or the same
/// path in the order of paths.
pub open spec fn same_source(a: Seq<char>, b: Seq<char>) -> bool {
    a == b || path_rank(a, b) == Rank::Same
}

/// The file at `k` has the source of a file before it.
pub open spec fn claimed_before(files: Seq<FileView>, k: int) -> bool {
    exists|i: int| 0 <= i < k && same_source(files[k].source, #[trigger] files[i].source)
}

/// Some source is the source of two files.
pub open spec fn has_duplicate(files: Seq<FileView>) -> bool {
    exists|k: int| 0 <= k < files.len() && #[trigger] claimed_before(files, k)
}

/// The file at `k` is the first whose source an earlier file has.
pub open spec fn is_first_duplicate(files: Seq<FileView>, k: int) -> bool {
    &&& 0 <= k < files.len()
    &&& claimed_before(files, k)
    &&& forall|j: int| 0 <= j < k ==> !#[trigger] claimed_before(files, j)
}

/// The rename that a file stands for.
pub open spec fn pair_of(f: FileView) -> RenameResultView {
    RenameResultView { source: f.source, destination: f.destination }
}

/// The renames that a list of files stands for.
pub open spec fn pairs_of(files: Seq<FileView>) -> Seq<RenameResultView> {
    files.map_values(|f: FileView| pair_of(f))
}

/// The views of a list of renames.
pub open spec fn renames_of(results: Seq<RenameResult>) -> Seq<RenameResultView> {
    results.map_values(|r: RenameResult| r@)
}

/// What committing a list of files gives: its renames in order, or the
/// failure at the first file whose source an earlier file has.
pub open spec fn commits(
    files: Seq<FileView>,
    outcome: Result<Seq<RenameResultView>, ErrorView>,
) -> bool {
    match outcome {
        Ok(pairs) => !has_duplicate(files) && pairs == pairs_of(files),
        Err(e) => exists|k: int| #[trigger]
            is_first_duplicate(files, k) && e == ErrorView::DuplicateFileError(files[k].source),
    }
}

/// What an executable result stands for.
pub open spec fn committed_of(r: Result<Vec<RenameResult>, Error>) -> Result<
    Seq<RenameResultView>,
    ErrorView,
> {
    match r {
        Ok(results) => Ok(renames_of(results@)),
        Err(e) => Err(e@),
    }
}

/// The files of a run with the destinations computed for them, ready to
/// be committed.
#[derive(Debug)]
pub struct RenameTree {
    pub(crate) files: Vec<File>,
    pub(crate) next: usize,
}

/// The state of a [`RenameTree`].
pub struct RenameTreeView {
    /// The files, in the order they are committed.
    pub files: Seq<FileView>,
    /// The number of files already handed out for renaming.
    pub next: nat,
}

impl View for RenameTree {
    type V = RenameTreeView;

    open(crate) spec fn view(&self) -> RenameTreeView {
        RenameTreeView { files: views_of(self.files@), next: self.next as nat }
    }
}

/// Whether the file at `k` has the source of a file before it.
pub fn is_claimed_before(files: &Vec<File>, k: usize) -> (r: bool)
    requires
        k < files@.len(),
    ensures
        r == claimed_before(views_of(files@), k as int),
{
    let mut i: usize = 0;
    while i < k
        invariant
            i <= k < files@.len(),
            forall|j: int|
                0 <= j < i ==> !same_source(
                    views_of(files@)[k as int].source,
                    #[trigger] views_of(files@)[j].source,
                ),
        decreases k - i,
    {
        if files[k].source == files[i].source || crate::paths::rank(
            files[k].source.as_str(),
            files[i].source.as_str(),
        ) == Rank::Same {
            assert(same_source(
                views_of(files@)[k as int].source,
                views_of(files@)[i as int].source,
            ));
            return true;
        }
        i += 1;
    }
    false
}

/// The renames that a list of files stands for: one per file, in order,
/// unless two files have the same source.
pub fn commit(files: &Vec<File>) -> (r: Result<Vec<RenameResult>, Error>)
    ensures
        commits(views_of(files@), committed_of(r)),
{
    let ghost views = views_of(files@);
    let mut results: Vec<RenameResult> = Vec::new();
    let mut k: usize = 0;
    while k < files.len()
        invariant
            k <= files@.len(),
            views == views_of(files@),
            forall|j: int| 0 <= j < k ==> !#[trigger] claimed_before(views, j),
            renames_of(results@) == pairs_of(views.take(k as int)),
        decreases files@.len() - k,
    {
        if is_claimed_before(files, k) {
            assert(is_first_duplicate(views, k as int));
            return Err(Error::DuplicateFileError(files[k].source.clone()));
        }
        let ghost before = results@;
        results.push(dry_rename_file(&files[k].source, &files[k].destination));
        k += 1;
        proof {
            assert(views.take(k as int) =~= views.take(k - 1).push(views[k - 1]));
            assert(renames_of(results@) =~= renames_of(before).push(results@.last()@));
            assert(renames_of(results@) =~= pairs_of(views.take(k as int)));
        }
    }
    assert(views.take(k as int) =~= views);
    Ok(results)
}

impl RenameTree {
    /// The tree of the given files, none of them handed out yet.
    pub fn from_files(files: Vec<File>) -> (r: Self)
        ensures
            r@ == (RenameTreeView { files: views_of(files@), next: 0 }),
    {
        RenameTree { files, next: 0 }
    }

    /// The tree of the files that an engine has processed.
    pub fn from_engine(engine: OperationEngine) -> (r: Self)
        ensures
            r@ == (RenameTreeView { files: engine@.files, next: 0 }),
    {
        RenameTree { files: engine.into_files(), next: 0 }
    }

    /// The files of the tree.
    pub fn files(&self) -> (r: &Vec<File>)
        ensures
            views_of(r@) == self@.files,
    {
        &self.files
    }

    /// Computes the renames without touching any file: one per file, in
    /// order, unless two files have the same source.
    pub fn dry_run(self) -> (r: Result<Vec<RenameResult>, Error>)
        ensures
            commits(self@.files, committed_of(r)),
    {
        commit(&self.files)
    }

    /// Hands out the next rename to perform. There is none when every
    /// file has been handed out; a file whose source an earlier file has
    /// ends the sequence with a failure.
    pub fn next_rename(&mut self) -> (r: Option<Result<RenameResult, Error>>)
        ensures
            step_of(r) == step_at(old(self)@.files, old(self)@.next as int),
            final(self)@.files == old(self)@.files,
            final(self)@.next == match r {
                None => old(self)@.next,
                Some(Ok(_)) => old(self)@.next + 1,
                Some(Err(_)) => old(self)@.files.len(),
            },
    {
        let k = self.next;
        if k >= self.files.len() {
            return None;
        }
        if is_claimed_before(&self.files, k) {
            self.next = self.files.len();
            return Some(Err(Error::DuplicateFileError(self.files[k].source.clone())));
        }
        self.next = k + 1;
        Some(Ok(dry_rename_file(&self.files[k].source, &self.files[k].destination)))
    }
}

/// What is handed out for the file at `k` when the files are committed
/// one by one: its rename, or a failure where an earlier file has its
/// source; nothing behind the last file.
pub open spec fn step_at(files: Seq<FileView>, k: int) -> Option<
    Result<RenameResultView, ErrorView>,
> {
    if k < 0 || k >= files.len() {
        None
    } else if claimed_before(files, k) {
        Some(Err(ErrorView::DuplicateFileError(files[k].source)))
    } else {
        Some(Ok(pair_of(files[k])))
    }
}

/// What an executable step stands for.
pub open spec fn step_of(r: Option<Result<RenameResult, Error>>) -> Option<
    Result<RenameResultView, ErrorView>,
> {
    match r {
        None => None,
        Some(Ok(pair)) => Some(Ok(pair@)),
        Some(Err(e)) => Some(Err(e@)),
    }
}

/// The rename of `source` to `destination`, with nothing done to any file.
pub fn dry_rename_file(source: &String, destination: &String) -> (r: RenameResult)
    ensures
        r@ == (RenameResultView { source: source@, destination: destination@ }),
{
    RenameResult { source: source.clone(), destination: destination.clone() }
}

/// Two files with one source make the commit fail with a duplicate-source
/// error: no list of renames comes out.
pub proof fn lemma_duplicate_source_fails(
    files: Seq<FileView>,
    i: int,
    j: int,
    outcome: Result<Seq<RenameResultView>, ErrorView>,
)
    requires
        0 <= i < j < files.len(),
        files[i].source == files[j].source,
        commits(files, outcome),
    ensures
        outcome matches Err(ErrorView::DuplicateFileError(_)),
{
    assert(same_source(files[j].source, files[i].source));
    assert(claimed_before(files, j));
}

/// Committing step by step gives the renames that a dry run gives: where
/// the dry run succeeds, the step for the file at `k` hands out the `k`-th
/// rename of the dry run, and there is no step behind the last file.
pub proof fn lemma_steps_match_dry_run(files: Seq<FileView>, pairs: Seq<RenameResultView>, k: int)
    requires
        commits(files, Ok(pairs)),
        0 <= k < files.len(),
    ensures
        pairs.len() == files.len(),
        step_at(files, k) == Some(Ok::<RenameResultView, ErrorView>(pairs[k])),
        step_at(files, files.len() as int) is None,
{
}

/// Committing step by step fails where a dry run fails, and with the same
/// failure: the steps before the failing one hand out the renames of
/// their files.
pub proof fn lemma_steps_fail_as_dry_run(files: Seq<FileView>, failure: ErrorView) -> (k: int)
    requires
        commits(files, Err(failure)),
    ensures
        0 <= k < files.len(),
        step_at(files, k) == Some(Err::<RenameResultView, ErrorView>(failure)),
        forall|j: int|
            0 <= j < k ==> #[trigger] step_at(files, j) == Some(
                Ok::<RenameResultView, ErrorView>(pair_of(files[j])),
            ),
{
    let k = choose|k: int| #[trigger]
        is_first_duplicate(files, k) && failure == ErrorView::DuplicateFileError(files[k].source);
    k
}

/// Collects what a run consists of: directories, single files, and the
/// operations that apply to every directory and to every file.
#[derive(Debug)]
pub struct RTBuilder {
    pub(crate) directories: Vec<Dir>,
    pub(crate) files: Vec<File>,
    pub(crate) dir_ops: Vec<DirOperation>,
    pub(crate) file_ops: Vec<FileOperation>,
}

/// The state of an [`RTBuilder`].
pub struct RTBuilderView {
    pub directories: Seq<DirView>,
    pub files: Seq<FileView>,
    pub dir_ops: Seq<DirOperation>,
    pub file_ops: Seq<FileOperation>,
}

/// The views of a list of directories.
pub open spec fn dir_views_of(dirs: Seq<Dir>) -> Seq<DirView> {
    dirs.map_values(|d: Dir| d@)
}

impl View for RTBuilder {
    type V = RTBuilderView;

    open(crate) spec fn view(&self) -> RTBuilderView {
        RTBuilderView {
            directories: dir_views_of(self.directories@),
            files: views_of(self.files@),
            dir_ops: self.dir_ops@,
            file_ops: self.file_ops@,
        }
    }
}

/// The number of files that a list of directories holds.
pub open spec fn total_contents(dirs: Seq<DirView>) -> nat
    decreases dirs.len(),
{
    if dirs.len() == 0 {
        0
    } else {
        total_contents(dirs.drop_last()) + dirs.last().contents.len()
    }
}

/// The first directories of a list hold no more files than all of them.
pub proof fn lemma_total_contents_grows(dirs: Seq<DirView>, n: int)
    requires
        0 <= n <= dirs.len(),
    ensures
        total_contents(dirs.take(n)) <= total_contents(dirs),
    decreases dirs.len() - n,
{
    if n < dirs.len() {
        assert(dirs.take(n + 1).drop_last() =~= dirs.take(n));
        lemma_total_contents_grows(dirs, n + 1);
    } else {
        assert(dirs.take(n) =~= dirs);
    }
}

/// Whether processing a list of directories in order can lead an engine
/// from `start` to `end` with the given outcome. The first failure ends
/// the run.
pub open spec fn runs_dirs(
    start: EngineView,
    dirs: Seq<DirView>,
    end: EngineView,
    failure: Option<ErrorView>,
) -> bool
    decreases dirs.len(),
{
    if dirs.len() == 0 {
        end == start && failure is None
    } else {
        ||| failure is Some && runs_dirs(start, dirs.drop_last(), end, failure)
        ||| exists|mid: EngineView|
            runs_dirs(start, dirs.drop_last(), mid, None) && #[trigger] mid.processes(
                dirs.last(),
                end,
                failure,
            )
    }
}

/// A failure on the first directories of a list is a failure on the list.
pub proof fn lemma_runs_dirs_failed(
    start: EngineView,
    dirs: Seq<DirView>,
    n: int,
    end: EngineView,
    failure: Option<ErrorView>,
)
    requires
        0 <= n <= dirs.len(),
        failure is Some,
        runs_dirs(start, dirs.take(n), end, failure),
    ensures
        runs_dirs(start, dirs, end, failure),
    decreases dirs.len() - n,
{
    if n < dirs.len() {
        assert(dirs.take(n + 1).drop_last() =~= dirs.take(n));
        lemma_runs_dirs_failed(start, dirs, n + 1, end, failure);
    } else {
        assert(dirs.take(n) =~= dirs);
    }
}

/// Processing single files in order, each on its own, until one fails.
pub open spec fn runs_singles(start: EngineView, files: Seq<FileView>) -> Progress
    decreases files.len(),
{
    if files.len() == 0 {
        Progress { state: start, failure: None }
    } else {
        let before = runs_singles(start, files.drop_last());
        if before.failure is Some {
            before
        } else {
            before.state.taking(Batch { files: seq![files.last()], local_index: 0 }).run_file()
        }
    }
}

/// A failure on the first files of a list is a failure on the list.
pub proof fn lemma_runs_singles_failed(start: EngineView, files: Seq<FileView>, n: int)
    requires
        0 <= n <= files.len(),
        runs_singles(start, files.take(n)).failure is Some,
    ensures
        runs_singles(start, files) == runs_singles(start, files.take(n)),
    decreases files.len() - n,
{
    if n < files.len() {
        assert(files.take(n + 1).drop_last() =~= files.take(n));
        lemma_runs_singles_failed(start, files, n + 1);
    } else {
        assert(files.take(n) =~= files);
    }
}

impl RTBuilderView {
    /// The state of the engine at the start of the run.
    pub open spec fn initial(self) -> EngineView {
        EngineView {
            global_index: 0,
            local_index: 0,
            variables: Map::empty(),
            dir_operations: self.dir_ops,
            file_operations: self.file_ops,
            current_file: 0,
            files: Seq::empty(),
        }
    }

    /// Whether the counters have room for every file of the run.
    pub open spec fn fits(self) -> bool {
        &&& total_contents(self.directories) + self.files.len() <= usize::MAX
        &&& forall|i: int|
            0 <= i < self.directories.len() ==> offsets_fit(
                self.dir_ops + (#[trigger] self.directories[i]).dir_ops,
                self.directories[i].contents.len(),
            )
    }

    /// Whether a run of what the builder holds can have the given
    /// outcome: the directories are processed in the order they were
    /// added, then the single files; the outcome is the list of all files
    /// processed, or the first failure.
    pub open spec fn builds(self, outcome: Result<Seq<FileView>, ErrorView>) -> bool {
        exists|mid: EngineView, stopped: Option<ErrorView>|
            {
                &&& #[trigger] runs_dirs(self.initial(), self.directories, mid, stopped)
                &&& match stopped {
                    Some(e) => outcome == Err::<Seq<FileView>, ErrorView>(e),
                    None => {
                        let last = runs_singles(mid, self.files);
                        match last.failure {
                            Some(e) => outcome == Err::<Seq<FileView>, ErrorView>(e),
                            None => outcome == Ok::<Seq<FileView>, ErrorView>(last.state.files),
                        }
                    },
                }
            }
    }
}

/// What an executable result stands for.
pub open spec fn built_of(r: Result<RenameTree, Error>) -> Result<Seq<FileView>, ErrorView> {
    match r {
        Ok(tree) => Ok(tree@.files),
        Err(e) => Err(e@),
    }
}

impl RTBuilder {
    /// A builder that holds nothing.
    pub fn new() -> (r: Self)
        ensures
            r@ == (RTBuilderView {
                directories: Seq::empty(),
                files: Seq::empty(),
                dir_ops: Seq::empty(),
                file_ops: Seq::empty(),
            }),
    {
        let r = RTBuilder {
            directories: Vec::new(),
            files: Vec::new(),
            dir_ops: Vec::new(),
            file_ops: Vec::new(),
        };
        assert(r@.directories =~= Seq::empty());
        assert(r@.files =~= Seq::empty());
        r
    }

    /// Adds an operation on the batch of files of every directory.
    pub fn with_dir_op(self, op: DirOperation) -> (r: Self)
        ensures
            r@ == (RTBuilderView { dir_ops: self@.dir_ops.push(op), ..self@ }),
    {
        let mut builder = self;
        builder.dir_ops.push(op);
        builder
    }

    /// Adds copies of operations on the batch of files of every directory.
    pub fn with_dir_ops(self, ops: &[DirOperation]) -> (r: Self)
        ensures
            r@ == (RTBuilderView { dir_ops: self@.dir_ops + ops@, ..self@ }),
    {
        let mut builder = self;
        let mut copies = crate::directory::duplicate_all(ops);
        builder.dir_ops.append(&mut copies);
        builder
    }

    /// Adds an operation on every file.
    pub fn with_file_op(self, op: FileOperation) -> (r: Self)
        ensures
            r@ == (RTBuilderView { file_ops: self@.file_ops.push(op), ..self@ }),
    {
        let mut builder = self;
        builder.file_ops.push(op);
        builder
    }

    /// Adds copies of operations on every file.
    pub fn with_file_ops(self, ops: &[FileOperation]) -> (r: Self)
        ensures
            r@ == (RTBuilderView { file_ops: self@.file_ops + ops@, ..self@ }),
    {
        let mut builder = self;
        let mut copies = crate::file::duplicate_all(ops);
        builder.file_ops.append(&mut copies);
        builder
    }

    /// Adds a directory.
    pub fn with_directory(self, dir: Dir) -> (r: Self)
        ensures
            r@ == (RTBuilderView { directories: self@.directories.push(dir@), ..self@ }),
    {
        let mut builder = self;
        builder.directories.push(dir);
        assert(builder@.directories =~= self@.directories.push(dir@));
        builder
    }

    /// Adds copies of directories.
    pub fn with_directories(self, dirs: &[Dir]) -> (r: Self)
        ensures
            r@ == (RTBuilderView {
                directories: self@.directories + dir_views_of(dirs@),
                ..self@
            }),
    {
        let mut builder = self;
        let mut i: usize = 0;
        assert(dir_views_of(dirs@.take(0)) =~= Seq::empty());
        assert(self@.directories + Seq::empty() =~= self@.directories);
        while i < dirs.len()
            invariant
                i <= dirs.len(),
                builder@ == (RTBuilderView {
                    directories: self@.directories + dir_views_of(dirs@.take(i as int)),
                    ..self@
                }),
            decreases dirs.len() - i,
        {
            let ghost before = builder@.directories;
            let copy = dirs[i].clone();
            builder.directories.push(copy);
            i += 1;
            proof {
                assert(dirs@.take(i as int) =~= dirs@.take(i - 1).push(dirs@[i - 1]));
                assert(builder@.directories =~= before.push(copy@));
                assert(dir_views_of(dirs@.take(i as int)) =~= dir_views_of(
                    dirs@.take(i - 1),
                ).push(dirs@[i - 1]@));
                assert(builder@.directories =~= self@.directories + dir_views_of(
                    dirs@.take(i as int),
                ));
            }
        }
        assert(dirs@.take(i as int) =~= dirs@);
        builder
    }

    /// Adds a single file, processed on its own after the directories.
    pub fn with_file(self, file: File) -> (r: Self)
        ensures
            r@ == (RTBuilderView { files: self@.files.push(file@), ..self@ }),
    {
        let mut builder = self;
        builder.files.push(file);
        assert(builder@.files =~= self@.files.push(file@));
        builder
    }

    /// The directories added so far.
    pub fn directories(&self) -> (r: &Vec<Dir>)
        ensures
            dir_views_of(r@) == self@.directories,
    {
        &self.directories
    }

    /// Gives the directory at `index` the files found in it.
    pub fn fill_directory(&mut self, index: usize, paths: &Vec<String>)
        requires
            index < old(self)@.directories.len(),
        ensures
            final(self)@ == (RTBuilderView {
                directories: old(self)@.directories.update(
                    index as int,
                    DirView {
                        contents: found(
                            paths@,
                            old(self)@.directories[index as int].file_ops,
                            old(self)@.directories[index as int].file_rules,
                        ),
                        processed: true,
                        ..old(self)@.directories[index as int]
                    },
                ),
                ..old(self)@
            }),
    {
        self.directories[index].fill(paths);
        assert(self@.directories =~= old(self)@.directories.update(
            index as int,
            self.directories@[index as int]@,
        ));
    }

    /// Whether the counters have room for every file of the run.
    pub fn fits(&self) -> (r: bool)
        ensures
            r == self@.fits(),
    {
        let ghost dirs = self@.directories;
        let mut total: usize = 0;
        let mut i: usize = 0;
        assert(dirs.take(0) =~= Seq::empty());
        while i < self.directories.len()
            invariant
                i <= self.directories@.len(),
                dirs == self@.directories,
                dirs.len() == self.directories@.len(),
                total == total_contents(dirs.take(i as int)),
                forall|j: int|
                    0 <= j < i ==> offsets_fit(
                        self@.dir_ops + (#[trigger] dirs[j]).dir_ops,
                        dirs[j].contents.len(),
                    ),
            decreases self.directories@.len() - i,
        {
            let dir = &self.directories[i];
            let count = dir.contents.len();
            proof {
                assert(dirs[i as int] == dir@);
                assert(views_of(dir.contents@).len() == count);
                lemma_total_contents_step(dirs, i as int);
                crate::directory::lemma_offsets_fit_joined(
                    self@.dir_ops,
                    dir@.dir_ops,
                    count as nat,
                );
            }
            if count > usize::MAX - total {
                return false;
            }
            if !crate::directory::offsets_fit_in(&self.dir_ops, count)
                || !crate::directory::offsets_fit_in(&dir.dir_ops, count) {
                return false;
            }
            total += count;
            i += 1;
        }
        assert(dirs.take(i as int) =~= dirs);
        assert(views_of(self.files@).len() == self.files@.len());
        self.files.len() <= usize::MAX - total
    }

    /// Runs the engine over everything the builder holds and returns the
    /// files with their destinations.
    pub fn build_tree(self) -> (r: Result<RenameTree, Error>)
        requires
            self@.fits(),
        ensures
            self@.builds(built_of(r)),
            r matches Ok(tree) ==> tree@.next == 0,
    {
        RenameTree::build_from_builder(self)
    }
}

/// The directories of a list hold the files of its first directories and
/// those of the next one.
pub proof fn lemma_total_contents_step(dirs: Seq<DirView>, k: int)
    requires
        0 <= k < dirs.len(),
    ensures
        total_contents(dirs.take(k + 1)) == total_contents(dirs.take(k)) + dirs[k].contents.len(),
        total_contents(dirs.take(k + 1)) <= total_contents(dirs),
{
    assert(dirs.take(k + 1).drop_last() =~= dirs.take(k));
    lemma_total_contents_grows(dirs, k + 1);
}

/// One more directory processed extends a run over directories.
pub proof fn lemma_runs_dirs_step(
    start: EngineView,
    dirs: Seq<DirView>,
    k: int,
    mid: EngineView,
    end: EngineView,
    failure: Option<ErrorView>,
)
    requires
        0 <= k < dirs.len(),
        runs_dirs(start, dirs.take(k), mid, None),
        mid.processes(dirs[k], end, failure),
    ensures
        runs_dirs(start, dirs.take(k + 1), end, failure),
        failure is Some ==> runs_dirs(start, dirs, end, failure),
{
    assert(dirs.take(k + 1).drop_last() =~= dirs.take(k));
    assert(dirs.take(k + 1).last() == dirs[k]);
    if failure is Some {
        lemma_runs_dirs_failed(start, dirs, k + 1, end, failure);
    }
}

/// One more file processed extends a run over single files.
pub proof fn lemma_runs_singles_step(start: EngineView, files: Seq<FileView>, n: int)
    requires
        0 <= n < files.len(),
        runs_singles(start, files.take(n)).failure is None,
    ensures
        runs_singles(start, files.take(n + 1)) == runs_singles(
            start,
            files.take(n),
        ).state.taking(Batch { files: seq![files[n]], local_index: 0 }).run_file(),
        runs_singles(start, files.take(n + 1)).failure is Some ==> runs_singles(start, files)
            == runs_singles(start, files.take(n + 1)),
{
    assert(files.take(n + 1).drop_last() =~= files.take(n));
    assert(files.take(n + 1).last() == files[n]);
    if runs_singles(start, files.take(n + 1)).failure is Some {
        lemma_runs_singles_failed(start, files, n + 1);
    }
}

/// Whether the counters of an engine have room for the files of these
/// directories and for `more` files besides.
pub open spec fn has_room(engine: EngineView, dirs: Seq<DirView>, more: nat) -> bool {
    &&& engine.global_index <= engine.files.len()
    &&& engine.files.len() + total_contents(dirs) + more <= usize::MAX
    &&& forall|i: int|
        0 <= i < dirs.len() ==> offsets_fit(
            engine.dir_operations + (#[trigger] dirs[i]).dir_ops,
            dirs[i].contents.len(),
        )
}

/// Processes directories in order until one fails.
pub fn process_directories(engine: &mut OperationEngine, directories: Vec<Dir>) -> (r: Result<
    (),
    Error,
>)
    requires
        has_room(old(engine)@, dir_views_of(directories@), 0),
    ensures
        runs_dirs(old(engine)@, dir_views_of(directories@), final(engine)@, failure_of(r)),
        old(engine)@.keeps_shape(final(engine)@),
        final(engine)@.files.len() <= old(engine)@.files.len() + total_contents(
            dir_views_of(directories@),
        ),
{
    let ghost start = engine@;
    let ghost dirs = dir_views_of(directories@);
    let count: usize = directories.len();
    let mut k: usize = 0;
    assert(dirs.take(0) =~= Seq::empty());
    for dir in it: directories
        invariant
            it.seq() == directories@,
            count == directories@.len(),
            dirs == dir_views_of(directories@),
            start == old(engine)@,
            k == it.index(),
            k <= dirs.len(),
            has_room(start, dirs, 0),
            runs_dirs(start, dirs.take(k as int), engine@, None),
            start.keeps_shape(engine@),
            engine@.files.len() <= start.files.len() + total_contents(dirs.take(k as int)),
    {
        let ghost before = engine@;
        proof {
            assert(dir@ == dirs[k as int]);
            lemma_total_contents_step(dirs, k as int);
        }
        let r = engine.process_dir(dir);
        proof {
            lemma_runs_dirs_step(start, dirs, k as int, before, engine@, failure_of(r));
        }
        if let Err(e) = r {
            return Err(e);
        }
        k += 1;
    }
    assert(dirs.take(k as int) =~= dirs);
    Ok(())
}

/// Processes single files in order, each on its own, until one fails.
pub fn process_files(engine: &mut OperationEngine, files: Vec<File>) -> (r: Result<(), Error>)
    requires
        old(engine)@.global_index <= old(engine)@.files.len(),
        old(engine)@.files.len() + files@.len() <= usize::MAX,
    ensures
        (Progress { state: final(engine)@, failure: failure_of(r) }) == runs_singles(
            old(engine)@,
            views_of(files@),
        ),
{
    let ghost start = engine@;
    let ghost views = views_of(files@);
    let mut n: usize = 0;
    assert(views.take(0) =~= Seq::empty());
    for file in it: files
        invariant
            it.seq() == files@,
            views == views_of(files@),
            start == old(engine)@,
            n == it.index(),
            n <= views.len(),
            start.files.len() + views.len() <= usize::MAX,
            runs_singles(start, views.take(n as int)) == (Progress {
                state: engine@,
                failure: None,
            }),
            engine@.global_index <= engine@.files.len() == start.files.len() + n,
    {
        proof {
            assert(file@ == views[n as int]);
            lemma_runs_singles_step(start, views, n as int);
        }
        let r = engine.process_file(file);
        if let Err(e) = r {
            return Err(e);
        }
        n += 1;
    }
    assert(views.take(n as int) =~= views);
    Ok(())
}

impl RenameTree {
    /// Runs the engine over everything the builder holds.
    pub fn build_from_builder(builder: RTBuilder) -> (r: Result<RenameTree, Error>)
        requires
            builder@.fits(),
        ensures
            builder@.builds(built_of(r)),
            r matches Ok(tree) ==> tree@.next == 0,
    {
        let ghost plan = builder@;
        let mut engine = OperationEngine::new(builder.dir_ops, builder.file_ops);
        let directories = builder.directories;
        let singles = builder.files;
        assert(engine@ == plan.initial());
        let r = process_directories(&mut engine, directories);
        let ghost mid = engine@;
        if let Err(e) = r {
            assert(runs_dirs(plan.initial(), plan.directories, mid, Some(e@)));
            return Err(e);
        }
        assert(runs_dirs(plan.initial(), plan.directories, mid, None));
        let r = process_files(&mut engine, singles);
        if let Err(e) = r {
            return Err(e);
        }
        Ok(RenameTree::from_engine(engine))
    }
}

} // verus!
