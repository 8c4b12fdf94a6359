use dt_renamer::{
    Dir, DirOperation, Error, Expression, File, FileOperation, MatchRule, OperationEngine,
    RTBuilder, RenameResult, RenameTree, Script, SortDirection,
};

fn constant(text: &str) -> Expression {
    Expression::constant(text)
}

fn variable(name: &str) -> Expression {
    Expression::Variable(name.to_string())
}

fn destinations(files: &[File]) -> Vec<String> {
    files.iter().map(|f| f.destination_path_string()).collect()
}

fn run_one(file: File) -> Result<String, Error> {
    let mut engine = OperationEngine::new(Vec::new(), Vec::new());
    engine.process_file(file)?;
    Ok(engine.into_files()[0].destination_path_string())
}

fn dir_with(paths: &[&str], dir: Dir) -> Dir {
    let mut dir = dir;
    dir.fill(&paths.iter().map(|p| p.to_string()).collect());
    dir
}

#[test]
fn destination_starts_as_source() {
    let file = File::new("/data/a.txt");
    assert_eq!(file.source_path_string(), "/data/a.txt");
    assert_eq!(file.destination_path_string(), "/data/a.txt");
    assert_eq!(run_one(File::new("/data/a.txt")).unwrap(), "/data/a.txt");
}

#[test]
fn set_name_replaces_the_file_name() {
    let file = File::new("/data/a.txt").with_op(FileOperation::SetName(constant("b.md")));
    assert_eq!(run_one(file).unwrap(), "/data/b.md");
}

#[test]
fn set_name_with_absent_value_changes_nothing() {
    let mut engine = OperationEngine::new(Vec::new(), Vec::new());
    engine.process_file(File::new("/")).unwrap();
    assert_eq!(engine.into_files()[0].destination_path_string(), "/");

    let mut engine = OperationEngine::new(Vec::new(), Vec::new());
    engine
        .process_file(File::new("/").with_op(FileOperation::SetName(Expression::FileName)))
        .unwrap();
    assert_eq!(engine.into_files()[0].destination_path_string(), "/");
}

#[test]
fn set_stem_keeps_the_extension() {
    let file = File::new("/data/a.txt").with_op(FileOperation::SetStem(constant("b")));
    assert_eq!(run_one(file).unwrap(), "/data/b.txt");
    let file = File::new("/data/a").with_op(FileOperation::SetStem(constant("b")));
    assert_eq!(run_one(file).unwrap(), "/data/b");
    let file = File::new("/data/a.tar.gz").with_op(FileOperation::SetStem(constant("b")));
    assert_eq!(run_one(file).unwrap(), "/data/b.gz");
}

#[test]
fn set_extension_replaces_adds_and_removes() {
    let file = File::new("/data/a.txt").with_op(FileOperation::SetExtension(constant("md")));
    assert_eq!(run_one(file).unwrap(), "/data/a.md");
    let file = File::new("/data/a").with_op(FileOperation::SetExtension(constant("md")));
    assert_eq!(run_one(file).unwrap(), "/data/a.md");
    let file = File::new("/data/a.txt").with_op(FileOperation::SetExtension(constant("")));
    assert_eq!(run_one(file).unwrap(), "/data/a");
}

#[test]
fn set_extension_refuses_a_separator() {
    let file = File::new("/data/a.txt").with_op(FileOperation::SetExtension(constant("m/d")));
    assert_eq!(run_one(file), Err(Error::CannotIdentifyFileExtension));
}

#[test]
fn file_operation_reports_change() {
    let mut engine = OperationEngine::new(Vec::new(), Vec::new());
    engine.process_file(File::new("/data/a.txt")).unwrap();
    let mut engine = OperationEngine::new(Vec::new(), Vec::new());
    // A file is current only while it is processed, so the operations are
    // observed through the destinations they leave.
    engine
        .process_file(
            File::new("/data/a.txt")
                .with_op(FileOperation::NoOp(Expression::AssignVariable(
                    "stem".to_string(),
                    Box::new(constant("kept")),
                )))
                .with_op(FileOperation::SetStem(variable("stem"))),
        )
        .unwrap();
    assert_eq!(engine.get_variable("stem"), Some("kept".to_string()));
    assert_eq!(engine.into_files()[0].destination_path_string(), "/data/kept.txt");
}

#[test]
fn execute_all_reports_whether_anything_changed() {
    let mut engine = OperationEngine::new(
        Vec::new(),
        vec![FileOperation::NoOp(Expression::AssignVariable(
            "first".to_string(),
            Box::new(Expression::FileName),
        ))],
    );
    engine.process_file(File::new("/data/a.txt")).unwrap();
    assert_eq!(engine.get_variable("first"), Some("a.txt".to_string()));
}

#[test]
fn condition_on_file_operation_sees_the_whole_path() {
    let op = |rule: MatchRule| {
        FileOperation::If(
            rule,
            Box::new(FileOperation::SetName(constant("then"))),
            Some(Box::new(FileOperation::SetName(constant("else")))),
        )
    };
    let file = File::new("/data/a.txt").with_op(op(MatchRule::BeginsWith("/data".to_string())));
    assert_eq!(run_one(file).unwrap(), "/data/then");
    let file = File::new("/data/a.txt").with_op(op(MatchRule::BeginsWith("a".to_string())));
    assert_eq!(run_one(file).unwrap(), "/data/else");
    let file = File::new("/data/a.txt").with_op(FileOperation::If(
        MatchRule::BeginsWith("a".to_string()),
        Box::new(FileOperation::SetName(constant("then"))),
        None,
    ));
    assert_eq!(run_one(file).unwrap(), "/data/a.txt");
}

#[test]
fn condition_on_expression_sees_the_file_name() {
    let expression = |rule: MatchRule| {
        Expression::If(rule, Box::new(constant("then")), Some(Box::new(constant("else"))))
    };
    let file = File::new("/data/a.txt")
        .with_op(FileOperation::SetName(expression(MatchRule::BeginsWith("a".to_string()))));
    assert_eq!(run_one(file).unwrap(), "/data/then");
    let file = File::new("/data/a.txt")
        .with_op(FileOperation::SetName(expression(MatchRule::BeginsWith("/data".to_string()))));
    assert_eq!(run_one(file).unwrap(), "/data/else");
    let file = File::new("/data/a.txt").with_op(FileOperation::SetName(Expression::If(
        MatchRule::BeginsWith("/data".to_string()),
        Box::new(constant("then")),
        None,
    )));
    assert_eq!(run_one(file).unwrap(), "/data/a.txt");
}

#[test]
fn file_name_and_extension_are_read_from_the_destination() {
    let file = File::new("/data/a.txt")
        .with_op(FileOperation::SetName(constant("b.md")))
        .with_op(FileOperation::SetName(Expression::Combine(
            Box::new(Expression::FileExtension),
            Box::new(Expression::Combine(
                Box::new(constant("-")),
                Box::new(Expression::FileName),
            )),
        )));
    assert_eq!(run_one(file).unwrap(), "/data/md-b.md");
}

#[test]
fn undefined_variable_ends_the_run() {
    let file = File::new("/data/a.txt").with_op(FileOperation::SetName(variable("missing")));
    assert_eq!(run_one(file), Err(Error::VariableNotDefined("missing".to_string())));
}

#[test]
fn engine_operations_run_before_the_files_own() {
    let mut engine = OperationEngine::new(
        Vec::new(),
        vec![FileOperation::SetName(constant("engine.txt"))],
    );
    engine
        .process_file(File::new("/data/a.txt").with_op(FileOperation::SetStem(
            Expression::Combine(Box::new(Expression::FileName), Box::new(constant("-own"))),
        )))
        .unwrap();
    assert_eq!(engine.into_files()[0].destination_path_string(), "/data/engine.txt-own.txt");
}

#[test]
fn indices_count_files() {
    let number = FileOperation::SetStem(Expression::Combine(
        Box::new(variable("local_index")),
        Box::new(Expression::Combine(Box::new(constant("-")), Box::new(variable("global_index")))),
    ));
    let mut engine = OperationEngine::new(Vec::new(), vec![number]);
    engine
        .process_dir(dir_with(&["/x/a.txt", "/x/b.txt"], Dir::new("/x", false)))
        .unwrap();
    engine
        .process_dir(dir_with(&["/y/c.txt", "/y/d.txt"], Dir::new("/y", false)))
        .unwrap();
    assert_eq!(engine.global_index(), 4);
    assert_eq!(engine.local_index(), 2);
    assert_eq!(
        destinations(&engine.into_files()),
        vec!["/x/0-0.txt", "/x/1-1.txt", "/y/0-2.txt", "/y/1-3.txt"]
    );
}

#[test]
fn offset_local_index_applies_within_its_directory() {
    let number = FileOperation::SetStem(variable("local_index"));
    let mut engine = OperationEngine::new(Vec::new(), vec![number]);
    engine
        .process_dir(dir_with(
            &["/x/a.txt", "/x/b.txt"],
            Dir::new("/x", false).with_dir_op(DirOperation::OffsetLocalIndex(10)),
        ))
        .unwrap();
    engine.process_dir(dir_with(&["/y/c.txt"], Dir::new("/y", false))).unwrap();
    assert_eq!(
        destinations(&engine.into_files()),
        vec!["/x/10.txt", "/x/11.txt", "/y/0.txt"]
    );
}

#[test]
fn single_file_mode_resets_the_local_index() {
    let number = FileOperation::SetStem(Expression::Combine(
        Box::new(variable("local_index")),
        Box::new(variable("global_index")),
    ));
    let mut engine = OperationEngine::new(Vec::new(), vec![number]);
    engine.process_file(File::new("/x/a.txt")).unwrap();
    engine.process_file(File::new("/x/b.txt")).unwrap();
    assert_eq!(destinations(&engine.into_files()), vec!["/x/00.txt", "/x/01.txt"]);
}

#[test]
fn remove_and_include_only_filter_by_file_name() {
    let paths = ["/x/a.txt", "/x/b.md", "/x/c.txt"];
    let mut engine = OperationEngine::new(Vec::new(), Vec::new());
    engine
        .process_dir(dir_with(
            &paths,
            Dir::new("/x", false)
                .with_dir_op(DirOperation::Remove(MatchRule::EndsWith(".txt".to_string()))),
        ))
        .unwrap();
    assert_eq!(destinations(&engine.into_files()), vec!["/x/b.md"]);

    let mut engine = OperationEngine::new(Vec::new(), Vec::new());
    engine
        .process_dir(dir_with(
            &paths,
            Dir::new("/x", false)
                .with_dir_op(DirOperation::IncludeOnly(MatchRule::EndsWith(".txt".to_string()))),
        ))
        .unwrap();
    assert_eq!(destinations(&engine.into_files()), vec!["/x/a.txt", "/x/c.txt"]);

    // The rule sees the name, not the path.
    let mut engine = OperationEngine::new(Vec::new(), Vec::new());
    engine
        .process_dir(dir_with(
            &paths,
            Dir::new("/x", false)
                .with_dir_op(DirOperation::IncludeOnly(MatchRule::BeginsWith("/x".to_string()))),
        ))
        .unwrap();
    assert_eq!(destinations(&engine.into_files()), Vec::<String>::new());
}

#[test]
fn filter_fails_on_a_path_without_file_name() {
    let mut engine = OperationEngine::new(Vec::new(), Vec::new());
    let result = engine.process_dir(dir_with(
        &["/x/a.txt", "/x/.."],
        Dir::new("/x", false)
            .with_dir_op(DirOperation::Remove(MatchRule::Contains("a".to_string()))),
    ));
    assert_eq!(result, Err(Error::CannotIdentifyFileName));
    assert_eq!(engine.into_files().len(), 0);
}

#[test]
fn sort_orders_by_destination() {
    let paths = ["/x/b", "/x/c", "/x/a"];
    let mut engine =
        OperationEngine::new(vec![DirOperation::Sort(SortDirection::Ascending)], Vec::new());
    engine.process_dir(dir_with(&paths, Dir::new("/x", false))).unwrap();
    assert_eq!(destinations(&engine.into_files()), vec!["/x/a", "/x/b", "/x/c"]);

    let mut engine =
        OperationEngine::new(vec![DirOperation::Sort(SortDirection::Descending)], Vec::new());
    engine.process_dir(dir_with(&paths, Dir::new("/x", false))).unwrap();
    assert_eq!(destinations(&engine.into_files()), vec!["/x/c", "/x/b", "/x/a"]);
}

#[test]
fn sort_compares_paths_by_component() {
    // As text "/x/a.b" comes before "/x/a/b"; as paths it comes after.
    let mut files = vec![File::new("/x/a.b"), File::new("/x/a/b")];
    dt_renamer::sorting::sort(&mut files, SortDirection::Ascending);
    assert_eq!(destinations(&files), vec!["/x/a/b", "/x/a.b"]);
}

#[test]
fn sort_descending_then_ascending_restores_ascending_order() {
    let ascending = ["/x/a", "/x/a/b", "/x/b", "/x/c.txt", "/y"];
    let mut engine = OperationEngine::new(Vec::new(), Vec::new());
    let mut files: Vec<File> = ascending.iter().map(|p| File::new(p)).collect();
    DirOperation::Sort(SortDirection::Descending).execute(&mut engine, &mut files).unwrap();
    assert_eq!(destinations(&files), vec!["/y", "/x/c.txt", "/x/b", "/x/a/b", "/x/a"]);
    DirOperation::Sort(SortDirection::Ascending).execute(&mut engine, &mut files).unwrap();
    assert_eq!(destinations(&files), ascending.to_vec());
}

#[test]
fn engine_directory_operations_apply_to_every_directory() {
    let mut engine = OperationEngine::new(
        vec![DirOperation::Remove(MatchRule::EndsWith(".tmp".to_string()))],
        Vec::new(),
    );
    engine.process_dir(dir_with(&["/x/a.tmp", "/x/b"], Dir::new("/x", false))).unwrap();
    engine.process_dir(dir_with(&["/y/c.tmp", "/y/d"], Dir::new("/y", false))).unwrap();
    assert_eq!(destinations(&engine.into_files()), vec!["/x/b", "/y/d"]);
}

#[test]
fn directory_operations_run_before_file_operations() {
    // The filter sees the names that the files have before any of them is renamed.
    let mut engine = OperationEngine::new(Vec::new(), Vec::new());
    engine
        .process_dir(dir_with(
            &["/x/a.txt", "/x/b.md"],
            Dir::new_with_ops(
                "/x",
                false,
                vec![DirOperation::IncludeOnly(MatchRule::EndsWith(".txt".to_string()))],
                vec![FileOperation::SetExtension(constant("md"))],
            ),
        ))
        .unwrap();
    assert_eq!(destinations(&engine.into_files()), vec!["/x/a.md"]);
}

#[test]
fn builder_runs_directories_then_files() {
    let tree = RTBuilder::new()
        .with_file_op(FileOperation::SetStem(variable("global_index")))
        .with_dir_op(DirOperation::Sort(SortDirection::Ascending))
        .with_directory(dir_with(&["/x/b.txt", "/x/a.txt"], Dir::new("/x", false)))
        .with_file(File::new("/z/single.md"))
        .build_tree()
        .unwrap();
    let results = tree.dry_run().unwrap();
    let pairs: Vec<(String, String)> = results
        .iter()
        .map(|r| (r.source_path_string().unwrap(), r.destination_path_string().unwrap()))
        .collect();
    assert_eq!(
        pairs,
        vec![
            ("/x/a.txt".to_string(), "/x/0.txt".to_string()),
            ("/x/b.txt".to_string(), "/x/1.txt".to_string()),
            ("/z/single.md".to_string(), "/z/2.md".to_string()),
        ]
    );
}

#[test]
fn builder_takes_copies_of_operations_and_directories() {
    let dirs = [
        dir_with(&["/x/a.txt"], Dir::new("/x", false)),
        dir_with(&["/y/b.txt"], Dir::new("/y", true)),
    ];
    let tree = RTBuilder::new()
        .with_dir_ops(&[DirOperation::OffsetLocalIndex(5)])
        .with_file_ops(&[FileOperation::SetStem(variable("local_index"))])
        .with_directories(&dirs)
        .build_tree()
        .unwrap();
    assert_eq!(destinations(tree.files()), vec!["/x/5.txt", "/y/5.txt"]);
    assert_eq!(dirs[1].path_string(), "/y");
    assert!(dirs[1].is_recursive());
    assert!(!dirs[0].is_recursive());
}

#[test]
fn builder_fills_a_directory_in_place() {
    let mut builder = RTBuilder::new().with_directory(
        Dir::new("/x", false).with_file_op(FileOperation::SetExtension(constant("bak"))),
    );
    assert_eq!(builder.directories().len(), 1);
    builder.fill_directory(0, &vec!["/x/a.txt".to_string()]);
    let tree = builder.build_tree().unwrap();
    assert_eq!(destinations(tree.files()), vec!["/x/a.bak"]);
}

#[test]
fn directory_takes_operations_from_lists() {
    let mut dir_ops = vec![DirOperation::Sort(SortDirection::Descending)];
    let mut file_ops = vec![FileOperation::SetExtension(constant("x"))];
    let mut own = vec![FileOperation::SetStem(constant("y"))];
    let dir = Dir::new("/x", false).with_dir_ops(&mut dir_ops).with_file_rules(&mut file_ops);
    assert!(dir_ops.is_empty());
    assert!(file_ops.is_empty());
    let mut engine = OperationEngine::new(Vec::new(), Vec::new());
    engine.process_dir(dir_with(&["/x/a", "/x/b"], dir)).unwrap();
    assert_eq!(destinations(&engine.into_files()), vec!["/x/b.x", "/x/a.x"]);
    let file = File::new("/x/a.txt").with_ops(&mut own);
    assert!(own.is_empty());
    assert_eq!(run_one(file).unwrap(), "/x/y.txt");
}

#[test]
fn failure_in_a_directory_ends_the_build() {
    let result = RTBuilder::new()
        .with_directory(dir_with(
            &["/x/a.txt"],
            Dir::new("/x", false).with_file_op(FileOperation::SetName(variable("missing"))),
        ))
        .with_directory(dir_with(&["/y/b.txt"], Dir::new("/y", false)))
        .build_tree();
    assert_eq!(result.err(), Some(Error::VariableNotDefined("missing".to_string())));
}

#[test]
fn duplicate_source_is_an_error() {
    let tree = RTBuilder::new()
        .with_directory(dir_with(&["/x/a.txt", "/x/b.txt", "/x/a.txt"], Dir::new("/x", false)))
        .build_tree()
        .unwrap();
    assert_eq!(tree.dry_run(), Err(Error::DuplicateFileError("/x/a.txt".to_string())));
}

#[test]
fn duplicate_source_is_found_by_path_not_by_text() {
    let tree = RTBuilder::new()
        .with_file(File::new("/x/a.txt"))
        .with_file(File::new("/x//a.txt"))
        .build_tree()
        .unwrap();
    assert_eq!(tree.dry_run(), Err(Error::DuplicateFileError("/x//a.txt".to_string())));
}

#[test]
fn steps_give_what_the_dry_run_gives() {
    let build = || {
        RTBuilder::new()
            .with_file_op(FileOperation::SetExtension(constant("bak")))
            .with_directory(dir_with(&["/x/a.txt", "/x/b.txt"], Dir::new("/x", false)))
            .build_tree()
            .unwrap()
    };
    let dry = build().dry_run().unwrap();
    let mut tree = build();
    let mut stepped: Vec<RenameResult> = Vec::new();
    while let Some(step) = tree.next_rename() {
        stepped.push(step.unwrap());
    }
    assert_eq!(stepped, dry);
    assert_eq!(dry[0].describe(), "/x/a.txt -> /x/a.bak");
    assert_eq!(dry[1].clone(), RenameResult::new("/x/b.txt".to_string(), "/x/b.bak".to_string()));
    assert!(tree.next_rename().is_none());
}

#[test]
fn steps_stop_at_a_duplicate_source() {
    let mut tree: RenameTree = RTBuilder::new()
        .with_file(File::new("/x/a"))
        .with_file(File::new("/x/b"))
        .with_file(File::new("/x/a"))
        .with_file(File::new("/x/c"))
        .build_tree()
        .unwrap();
    assert_eq!(tree.next_rename().unwrap().unwrap().source_path_string().unwrap(), "/x/a");
    assert_eq!(tree.next_rename().unwrap().unwrap().source_path_string().unwrap(), "/x/b");
    assert_eq!(
        tree.next_rename().unwrap(),
        Err(Error::DuplicateFileError("/x/a".to_string()))
    );
    assert!(tree.next_rename().is_none());
}

#[test]
fn script_commits_trees_in_order() {
    let tree = |path: &str| RTBuilder::new().with_file(File::new(path)).build_tree().unwrap();
    let mut script = Script::new().with_tree(tree("/x/a"));
    script.push(tree("/x/b"));
    let results = script.dry_run().unwrap();
    let sources: Vec<String> = results.iter().map(|r| r.source_path_string().unwrap()).collect();
    // One source in two trees is no duplicate: each tree is committed on its own.
    assert_eq!(sources, vec!["/x/a", "/x/b"]);
    let script = Script::from_trees(vec![tree("/x/a"), tree("/x/a")]);
    assert_eq!(script.dry_run().unwrap().len(), 2);
    assert_eq!(Script::new().dry_run().unwrap().len(), 0);
    assert_eq!(Script::from_trees(vec![tree("/x/a")]).into_trees().len(), 1);
}

#[test]
fn script_stops_at_the_first_failing_tree() {
    let good = RTBuilder::new().with_file(File::new("/x/a")).build_tree().unwrap();
    let bad = RTBuilder::new()
        .with_file(File::new("/x/b"))
        .with_file(File::new("/x/b"))
        .build_tree()
        .unwrap();
    let script = Script::new().with_tree(good).with_tree(bad);
    assert_eq!(script.dry_run(), Err(Error::DuplicateFileError("/x/b".to_string())));
}

#[test]
fn copies_are_equal_to_what_they_copy() {
    let op = FileOperation::If(
        MatchRule::And(
            Box::new(MatchRule::Contains("a".to_string())),
            Box::new(MatchRule::Not(Box::new(MatchRule::EndsWith("b".to_string())))),
        ),
        Box::new(FileOperation::SetName(Expression::Left(
            Box::new(Expression::FileName),
            Box::new(constant(".")),
            false,
        ))),
        Some(Box::new(FileOperation::NoOp(Expression::FileExtension))),
    );
    assert_eq!(op.clone(), op);
    let file = File::new("/x/a").with_op(op);
    assert_eq!(file.clone(), file);
    let dir_op = DirOperation::Remove(MatchRule::Equals("x".to_string()));
    assert_eq!(dir_op.clone(), dir_op);
    let dir = dir_with(&["/x/a"], Dir::new("/x", true).with_dir_op(dir_op));
    assert_eq!(dir.clone(), dir);
}

#[test]
fn room_for_the_counters_is_checked_before_a_run() {
    let builder = RTBuilder::new()
        .with_dir_op(DirOperation::OffsetLocalIndex(usize::MAX))
        .with_directory(dir_with(&["/x/a"], Dir::new("/x", false)));
    assert!(!builder.fits());
    let builder = RTBuilder::new()
        .with_directory(dir_with(
            &["/x/a", "/x/b"],
            Dir::new("/x", false).with_dir_op(DirOperation::OffsetLocalIndex(usize::MAX - 2)),
        ))
        .with_file(File::new("/y"));
    assert!(builder.fits());
    assert!(RTBuilder::new().fits());
    let engine = OperationEngine::new(vec![DirOperation::OffsetLocalIndex(usize::MAX)], Vec::new());
    assert!(!engine.can_take(&dir_with(&["/x/a"], Dir::new("/x", false))));
    assert!(engine.can_take(&Dir::new("/x", false)));
    assert!(engine.can_take_file());
}

#[test]
fn tree_can_be_made_of_files() {
    let tree = RenameTree::from_files(vec![File::new("/x/a"), File::new("/x/b")]);
    assert_eq!(tree.files().len(), 2);
    assert_eq!(dt_renamer::rename_tree::commit(tree.files()).unwrap().len(), 2);
    assert_eq!(tree.dry_run().unwrap()[1].describe(), "/x/b -> /x/b");
}
