//! A run with fixed rules: a builder that collects directories, files and
//! rules, and the files with the destinations that the rules gave them.
use crate::directory::failure_of;
use crate::error::{Error, ErrorView};
use crate::rename_tree::{
    commits, committed_of, dir_views_of, found, lemma_total_contents_step, total_contents,
    views_of, Dir, DirView, File, FileView, RenameResult, RenameTree, RenameTreeView,
};
use crate::rules::{
    rule_offsets_fit, DirRule, FileRule, RuleEngine, RuleEngineView, RuleProgress,
};
use vstd::prelude::*;

verus! {

/// Collects what a run with fixed rules consists of.
#[derive(Debug)]
pub struct Builder {
    pub(crate) directories: Vec<Dir>,
    pub(crate) files: Vec<File>,
    pub(crate) dir_rules: Vec<DirRule>,
    pub(crate) file_rules: Vec<FileRule>,
}

/// The state of a [`Builder`].
pub struct BuilderView {
    pub directories: Seq<DirView>,
    pub files: Seq<FileView>,
    pub dir_rules: Seq<DirRule>,
    pub file_rules: Seq<FileRule>,
}

impl View for Builder {
    type V = BuilderView;

    open(crate) spec fn view(&self) -> BuilderView {
        BuilderView {
            directories: dir_views_of(self.directories@),
            files: views_of(self.files@),
            dir_rules: self.dir_rules@,
            file_rules: self.file_rules@,
        }
    }
}

/// The files of a run with fixed rules, with the destinations computed
/// for them, ready to be committed.
#[derive(Debug)]
pub struct RenameEngine {
    pub(crate) tree: RenameTree,
}

impl View for RenameEngine {
    type V = RenameTreeView;

    open(crate) spec fn view(&self) -> RenameTreeView {
        self.tree@
    }
}

/// How far a run over directories has come.
pub struct Collected {
    /// The state of the rule engine.
    pub engine: RuleEngineView,
    /// The files processed so far, with their new destinations.
    pub files: Seq<FileView>,
    /// The failure that stopped the run, if one did.
    pub failure: Option<ErrorView>,
}

/// Whether processing a list of directories in order can lead a rule
/// engine from `start` to the given result. The files of each directory
/// are collected behind those of the directories before it; the first
/// failure ends the run.
pub open spec fn collects(start: RuleEngineView, dirs: Seq<DirView>, result: Collected) -> bool
    decreases dirs.len(),
{
    if dirs.len() == 0 {
        result == (Collected { engine: start, files: Seq::empty(), failure: None })
    } else {
        ||| result.failure is Some && collects(start, dirs.drop_last(), result)
        ||| exists|before: Collected, progress: RuleProgress|
            {
                &&& collects(start, dirs.drop_last(), before)
                &&& before.failure is None
                &&& #[trigger] before.engine.processes(dirs.last(), progress)
                &&& result == (Collected {
                    engine: progress.engine,
                    files: if progress.failure is None {
                        before.files + progress.files
                    } else {
                        before.files
                    },
                    failure: progress.failure,
                })
            }
    }
}

/// A failure on the first directories of a list is a failure on the list.
pub proof fn lemma_collects_failed(
    start: RuleEngineView,
    dirs: Seq<DirView>,
    n: int,
    result: Collected,
)
    requires
        0 <= n <= dirs.len(),
        result.failure is Some,
        collects(start, dirs.take(n), result),
    ensures
        collects(start, dirs, result),
    decreases dirs.len() - n,
{
    if n < dirs.len() {
        assert(dirs.take(n + 1).drop_last() =~= dirs.take(n));
        lemma_collects_failed(start, dirs, n + 1, result);
    } else {
        assert(dirs.take(n) =~= dirs);
    }
}

/// One more directory processed extends a run over directories.
pub proof fn lemma_collects_step(
    start: RuleEngineView,
    dirs: Seq<DirView>,
    k: int,
    before: Collected,
    progress: RuleProgress,
)
    requires
        0 <= k < dirs.len(),
        collects(start, dirs.take(k), before),
        before.failure is None,
        before.engine.processes(dirs[k], progress),
    ensures
        collects(
            start,
            dirs.take(k + 1),
            Collected {
                engine: progress.engine,
                files: if progress.failure is None {
                    before.files + progress.files
                } else {
                    before.files
                },
                failure: progress.failure,
            },
        ),
{
    assert(dirs.take(k + 1).drop_last() =~= dirs.take(k));
    assert(dirs.take(k + 1).last() == dirs[k]);
}

/// Processing single files in order, each on its own, until one fails.
pub open spec fn runs_each(start: RuleEngineView, files: Seq<FileView>) -> RuleProgress
    decreases files.len(),
{
    if files.len() == 0 {
        RuleProgress { engine: start, files: Seq::empty(), failure: None }
    } else {
        let before = runs_each(start, files.drop_last());
        if before.failure is Some {
            before
        } else {
            let one = before.engine.restarted().ruled(files.last());
            let file = FileView { destination: one.destination, ..files.last() };
            match one.applied {
                Err(e) => RuleProgress {
                    engine: before.engine.restarted(),
                    files: before.files.push(file),
                    failure: Some(e),
                },
                Ok(_) => RuleProgress {
                    engine: before.engine.restarted().file_done(),
                    files: before.files.push(file),
                    failure: None,
                },
            }
        }
    }
}

/// A failure on the first files of a list is a failure on the list.
pub proof fn lemma_runs_each_failed(start: RuleEngineView, files: Seq<FileView>, n: int)
    requires
        0 <= n <= files.len(),
        runs_each(start, files.take(n)).failure is Some,
    ensures
        runs_each(start, files) == runs_each(start, files.take(n)),
    decreases files.len() - n,
{
    if n < files.len() {
        assert(files.take(n + 1).drop_last() =~= files.take(n));
        lemma_runs_each_failed(start, files, n + 1);
    } else {
        assert(files.take(n) =~= files);
    }
}

impl BuilderView {
    /// The state of the rule engine at the start of the run.
    pub open spec fn initial(self) -> RuleEngineView {
        RuleEngineView {
            global_index: 0,
            local_index: 0,
            dir_rules: self.dir_rules,
            file_rules: self.file_rules,
        }
    }

    /// Whether the counters have room for every file of the run.
    pub open spec fn fits(self) -> bool {
        &&& total_contents(self.directories) + self.files.len() <= usize::MAX
        &&& forall|i: int|
            0 <= i < self.directories.len() ==> rule_offsets_fit(
                self.dir_rules + (#[trigger] self.directories[i]).dir_rules,
                self.directories[i].contents.len(),
            )
    }

    /// Whether a run of what the builder holds can have the given
    /// outcome: the directories are processed in the order they were
    /// added, then the single files; the outcome is the list of all files
    /// processed, or the first failure.
    pub open spec fn builds(self, outcome: Result<Seq<FileView>, ErrorView>) -> bool {
        exists|collected: Collected| #[trigger]
            collects(self.initial(), self.directories, collected) && match collected.failure {
                Some(e) => outcome == Err::<Seq<FileView>, ErrorView>(e),
                None => {
                    let last = runs_each(collected.engine, self.files);
                    match last.failure {
                        Some(e) => outcome == Err::<Seq<FileView>, ErrorView>(e),
                        None => outcome == Ok::<Seq<FileView>, ErrorView>(
                            collected.files + last.files,
                        ),
                    }
                },
            }
    }
}

/// What an executable result stands for.
pub open spec fn engine_of(r: Result<RenameEngine, Error>) -> Result<Seq<FileView>, ErrorView> {
    match r {
        Ok(engine) => Ok(engine@.files),
        Err(e) => Err(e@),
    }
}

/// Whether the counters of a rule engine have room for the files of these
/// directories.
pub open spec fn rules_have_room(engine: RuleEngineView, done: nat, dirs: Seq<DirView>) -> bool {
    &&& engine.global_index <= done
    &&& done + total_contents(dirs) <= usize::MAX
    &&& forall|i: int|
        0 <= i < dirs.len() ==> rule_offsets_fit(
            engine.dir_rules + (#[trigger] dirs[i]).dir_rules,
            dirs[i].contents.len(),
        )
}

/// Processes directories in order until one fails, and collects their
/// files.
pub fn collect_directories(engine: &mut RuleEngine, directories: Vec<Dir>) -> (r: Result<
    Vec<File>,
    Error,
>)
    requires
        rules_have_room(old(engine)@, 0, dir_views_of(directories@)),
    ensures
        exists|collected: Collected| #[trigger]
            collects(old(engine)@, dir_views_of(directories@), collected) && collected.engine
                == final(engine)@ && match r {
                Ok(files) => collected.failure is None && views_of(files@) == collected.files,
                Err(e) => collected.failure == Some(e@),
            },
        old(engine)@.keeps_shape(final(engine)@, total_contents(dir_views_of(directories@))),
        r matches Ok(files) ==> files@.len() <= total_contents(dir_views_of(directories@)),
{
    let ghost start = engine@;
    let ghost dirs = dir_views_of(directories@);
    let count: usize = directories.len();
    let mut output: Vec<File> = Vec::new();
    let mut k: usize = 0;
    assert(dirs.take(0) =~= Seq::empty());
    assert(views_of(output@) =~= Seq::empty());
    for dir in it: directories
        invariant
            it.seq() == directories@,
            dirs == dir_views_of(directories@),
            count == directories@.len(),
            start == old(engine)@,
            k == it.index(),
            k <= dirs.len(),
            rules_have_room(start, 0, dirs),
            collects(
                start,
                dirs.take(k as int),
                Collected { engine: engine@, files: views_of(output@), failure: None },
            ),
            start.keeps_shape(engine@, total_contents(dirs.take(k as int))),
            output@.len() <= total_contents(dirs.take(k as int)),
    {
        let ghost before = Collected {
            engine: engine@,
            files: views_of(output@),
            failure: None,
        };
        let ghost held = output@;
        proof {
            assert(dir@ == dirs[k as int]);
            lemma_total_contents_step(dirs, k as int);
        }
        let r = engine.process_dir(dir);
        let ghost progress = choose|progress: RuleProgress| #[trigger]
            before.engine.processes(dirs[k as int], progress) && engine@ == progress.engine
                && match r {
                Ok(files) => progress.failure is None && views_of(files@) == progress.files,
                Err(e) => progress.failure == Some(e@),
            };
        proof {
            lemma_collects_step(start, dirs, k as int, before, progress);
        }
        match r {
            Err(e) => {
                proof {
                    lemma_collects_failed(
                        start,
                        dirs,
                        k + 1,
                        Collected {
                            engine: progress.engine,
                            files: before.files,
                            failure: progress.failure,
                        },
                    );
                }
                return Err(e);
            },
            Ok(mut files) => {
                let ghost these = files@;
                output.append(&mut files);
                assert(views_of(output@) =~= views_of(held) + views_of(these));
            },
        }
        k += 1;
    }
    assert(dirs.take(k as int) =~= dirs);
    Ok(output)
}

/// Processes single files in order, each on its own, until one fails.
pub fn process_each(engine: &mut RuleEngine, files: &mut Vec<File>) -> (r: Result<(), Error>)
    requires
        old(engine)@.global_index + old(files)@.len() <= usize::MAX,
    ensures
        runs_each(old(engine)@, views_of(old(files)@)).engine == final(engine)@,
        runs_each(old(engine)@, views_of(old(files)@)).failure == failure_of(r),
        r is Ok ==> views_of(final(files)@) == runs_each(
            old(engine)@,
            views_of(old(files)@),
        ).files,
        final(files)@.len() == old(files)@.len(),
{
    let ghost start = engine@;
    let ghost batch = views_of(files@);
    let mut i: usize = 0;
    assert(batch.take(0) =~= Seq::empty());
    assert(views_of(files@).take(0) =~= Seq::empty());
    while i < files.len()
        invariant
            i <= files@.len(),
            files@.len() == batch.len(),
            batch == views_of(old(files)@),
            start == old(engine)@,
            start.global_index + batch.len() <= usize::MAX,
            start.keeps_shape(engine@, i as nat),
            runs_each(start, batch.take(i as int)) == (RuleProgress {
                engine: engine@,
                files: views_of(files@).take(i as int),
                failure: None,
            }),
            forall|j: int| i <= j < batch.len() ==> views_of(files@)[j] == batch[j],
        decreases files@.len() - i,
    {
        let ghost before = views_of(files@);
        proof {
            assert(batch.take(i + 1).drop_last() =~= batch.take(i as int));
            assert(batch.take(i + 1).last() == batch[i as int]);
        }
        let r = engine.process_file(&mut files[i]);
        proof {
            assert(views_of(files@) =~= before.update(i as int, files@[i as int]@));
            assert(views_of(files@).take(i + 1) =~= before.take(i as int).push(
                files@[i as int]@,
            ));
        }
        if let Err(e) = r {
            proof {
                lemma_runs_each_failed(start, batch, i + 1);
            }
            return Err(e);
        }
        i += 1;
    }
    assert(batch.take(i as int) =~= batch);
    assert(views_of(files@).take(i as int) =~= views_of(files@));
    Ok(())
}

impl Builder {
    /// A builder that holds nothing.
    pub fn new() -> (r: Self)
        ensures
            r@ == (BuilderView {
                directories: Seq::empty(),
                files: Seq::empty(),
                dir_rules: Seq::empty(),
                file_rules: Seq::empty(),
            }),
    {
        let r = Builder {
            directories: Vec::new(),
            files: Vec::new(),
            dir_rules: Vec::new(),
            file_rules: Vec::new(),
        };
        assert(r@.directories =~= Seq::empty());
        assert(r@.files =~= Seq::empty());
        r
    }

    /// Adds a rule on the batch of files of every directory.
    pub fn with_dir_rule(self, rule: DirRule) -> (r: Self)
        ensures
            r@ == (BuilderView { dir_rules: self@.dir_rules.push(rule), ..self@ }),
    {
        let mut builder = self;
        builder.dir_rules.push(rule);
        builder
    }

    /// Adds copies of rules on the batch of files of every directory.
    pub fn with_dir_rules(self, rules: &[DirRule]) -> (r: Self)
        ensures
            r@ == (BuilderView { dir_rules: self@.dir_rules + rules@, ..self@ }),
    {
        let mut builder = self;
        let mut copies = crate::rules::duplicate_dir_rules(rules);
        builder.dir_rules.append(&mut copies);
        builder
    }

    /// Adds a rule on every file.
    pub fn with_file_rule(self, rule: FileRule) -> (r: Self)
        ensures
            r@ == (BuilderView { file_rules: self@.file_rules.push(rule), ..self@ }),
    {
        let mut builder = self;
        builder.file_rules.push(rule);
        builder
    }

    /// Adds copies of rules on every file.
    pub fn with_file_rules(self, rules: &[FileRule]) -> (r: Self)
        ensures
            r@ == (BuilderView { file_rules: self@.file_rules + rules@, ..self@ }),
    {
        let mut builder = self;
        let mut copies = crate::rules::duplicate_file_rules(rules);
        builder.file_rules.append(&mut copies);
        builder
    }

    /// Adds a directory.
    pub fn with_directory(self, dir: Dir) -> (r: Self)
        ensures
            r@ == (BuilderView { directories: self@.directories.push(dir@), ..self@ }),
    {
        let mut builder = self;
        builder.directories.push(dir);
        assert(builder@.directories =~= self@.directories.push(dir@));
        builder
    }

    /// Adds copies of directories.
    pub fn with_directories(self, dirs: &[Dir]) -> (r: Self)
        ensures
            r@ == (BuilderView { directories: self@.directories + dir_views_of(dirs@), ..self@ }),
    {
        let mut builder = self;
        let mut i: usize = 0;
        assert(dir_views_of(dirs@.take(0)) =~= Seq::empty());
        assert(self@.directories + Seq::empty() =~= self@.directories);
        while i < dirs.len()
            invariant
                i <= dirs.len(),
                builder@ == (BuilderView {
                    directories: self@.directories + dir_views_of(dirs@.take(i as int)),
                    ..self@
                }),
            decreases dirs.len() - i,
        {
            let ghost before = builder@.directories;
            let copy = dirs[i].clone();
            builder.directories.push(copy);
            i += 1;
            proof {
                assert(dirs@.take(i as int) =~= dirs@.take(i - 1).push(dirs@[i - 1]));
                assert(builder@.directories =~= before.push(copy@));
                assert(dir_views_of(dirs@.take(i as int)) =~= dir_views_of(
                    dirs@.take(i - 1),
                ).push(dirs@[i - 1]@));
                assert(builder@.directories =~= self@.directories + dir_views_of(
                    dirs@.take(i as int),
                ));
            }
        }
        assert(dirs@.take(i as int) =~= dirs@);
        builder
    }

    /// Adds a single file, processed on its own after the directories.
    pub fn with_file(self, file: File) -> (r: Self)
        ensures
            r@ == (BuilderView { files: self@.files.push(file@), ..self@ }),
    {
        let mut builder = self;
        builder.files.push(file);
        assert(builder@.files =~= self@.files.push(file@));
        builder
    }

    /// The directories added so far.
    pub fn directories(&self) -> (r: &Vec<Dir>)
        ensures
            dir_views_of(r@) == self@.directories,
    {
        &self.directories
    }

    /// Gives the directory at `index` the files found in it.
    pub fn fill_directory(&mut self, index: usize, paths: &Vec<String>)
        requires
            index < old(self)@.directories.len(),
        ensures
            final(self)@ == (BuilderView {
                directories: old(self)@.directories.update(
                    index as int,
                    DirView {
                        contents: found(
                            paths@,
                            old(self)@.directories[index as int].file_ops,
                            old(self)@.directories[index as int].file_rules,
                        ),
                        processed: true,
                        ..old(self)@.directories[index as int]
                    },
                ),
                ..old(self)@
            }),
    {
        self.directories[index].fill(paths);
        assert(self@.directories =~= old(self)@.directories.update(
            index as int,
            self.directories@[index as int]@,
        ));
    }

    /// Whether the counters have room for every file of the run.
    pub fn fits(&self) -> (r: bool)
        ensures
            r == self@.fits(),
    {
        let ghost dirs = self@.directories;
        let mut total: usize = 0;
        let mut i: usize = 0;
        assert(dirs.take(0) =~= Seq::empty());
        while i < self.directories.len()
            invariant
                i <= self.directories@.len(),
                dirs == self@.directories,
                dirs.len() == self.directories@.len(),
                total == total_contents(dirs.take(i as int)),
                forall|j: int|
                    0 <= j < i ==> rule_offsets_fit(
                        self@.dir_rules + (#[trigger] dirs[j]).dir_rules,
                        dirs[j].contents.len(),
                    ),
            decreases self.directories@.len() - i,
        {
            let dir = &self.directories[i];
            let count = dir.contents.len();
            proof {
                assert(dirs[i as int] == dir@);
                assert(views_of(dir.contents@).len() == count);
                lemma_total_contents_step(dirs, i as int);
                crate::rules::lemma_rule_offsets_fit_joined(
                    self@.dir_rules,
                    dir@.dir_rules,
                    count as nat,
                );
            }
            if count > usize::MAX - total {
                return false;
            }
            if !crate::rules::rule_offsets_fit_in(&self.dir_rules, count)
                || !crate::rules::rule_offsets_fit_in(&dir.dir_rules, count) {
                return false;
            }
            total += count;
            i += 1;
        }
        assert(dirs.take(i as int) =~= dirs);
        assert(views_of(self.files@).len() == self.files@.len());
        self.files.len() <= usize::MAX - total
    }

    /// Runs the rules over everything the builder holds and returns the
    /// files with their destinations.
    pub fn build(self) -> (r: Result<RenameEngine, Error>)
        requires
            self@.fits(),
        ensures
            self@.builds(engine_of(r)),
            r matches Ok(engine) ==> engine@.next == 0,
    {
        let ghost plan = self@;
        let mut engine = RuleEngine::new(self.dir_rules, self.file_rules);
        let directories = self.directories;
        let mut singles = self.files;
        assert(engine@ == plan.initial());
        let r = collect_directories(&mut engine, directories);
        let mut files = match r {
            Err(e) => {
                return Err(e);
            },
            Ok(files) => files,
        };
        let ghost collected = views_of(files@);
        let ghost middle = engine@;
        let ghost waiting = views_of(singles@);
        assert(views_of(singles@).len() == singles@.len());
        if let Err(e) = process_each(&mut engine, &mut singles) {
            return Err(e);
        }
        let ghost processed = views_of(singles@);
        files.append(&mut singles);
        assert(views_of(files@) =~= collected + processed);
        Ok(RenameEngine { tree: RenameTree::from_files(files) })
    }
}

impl RenameEngine {
    /// The files of the run.
    pub fn files(&self) -> (r: &Vec<File>)
        ensures
            views_of(r@) == self@.files,
    {
        self.tree.files()
    }

    /// Computes the renames without touching any file: one per file, in
    /// order, unless two files have the same source.
    pub fn dry_run(self) -> (r: Result<Vec<RenameResult>, Error>)
        ensures
            commits(self@.files, committed_of(r)),
    {
        self.tree.dry_run()
    }

    /// The files as a tree, to be committed step by step.
    pub fn into_tree(self) -> (r: RenameTree)
        ensures
            r@ == self@,
    {
        self.tree
    }
}

} // verus!
