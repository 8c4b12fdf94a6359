//! Computes where the files of a directory tree are to be renamed to.
//!
//! A run is described by operations: directory operations filter, sort and
//! number the batch of files of a directory, and file operations set the
//! name, stem or extension of one file to the value of an expression.
//! Expressions are trees over constants, parts of the current file's
//! destination, variables and string edits; match rules are predicates on
//! a string. The [`OperationEngine`] threads two counters and a variable
//! table through the evaluation, the [`RTBuilder`] collects what a run
//! consists of, and the [`RenameTree`] it builds hands out the renames,
//! refusing two files with one source. A second, smaller rule set without
//! expressions is served by the [`RuleEngine`] and its [`Builder`].
//!
//! The library computes and never touches a file: reading directories and
//! renaming files is the caller's part.
pub mod casing;
pub mod directory;
pub mod error;
pub mod expressions;
pub mod file;
pub mod match_rule;
pub mod operation_engine;
pub mod paths;
pub mod pattern;
pub mod rename_engine;
pub mod rename_tree;
pub mod rules;
pub mod script;
pub mod sorting;
pub mod supporting_objects;
pub mod text;
pub mod variables;
pub mod walker;

pub use directory::DirOperation;
pub use error::Error;
pub use expressions::Expression;
pub use file::FileOperation;
pub use match_rule::MatchRule;
pub use operation_engine::OperationEngine;
pub use pattern::Pattern;
pub use rename_engine::{Builder, RenameEngine};
pub use rename_tree::{Dir, File, RTBuilder, RenameResult, RenameTree};
pub use rules::{DirRule, FileRule, RuleEngine};
pub use script::Script;
pub use supporting_objects::{Direction, InsertionType, Position, Selection, SortDirection};
pub use walker::{DTWalker, DirProperties};
