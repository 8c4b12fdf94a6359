//! The policy of a directory walk: which directories are listed among the
//! files found, and what happens at the depth limit. Reading directories
//! is left to the caller.
use crate::error::{Error, ErrorView};
use vstd::prelude::*;

verus! {

/// Whether a walk lists the directories it visits, and where.
#[derive(Clone, Copy, PartialEq, Eq, Structural, Debug, Hash)]
pub enum DirProperties {
    /// Directories are not listed.
    Skip,
    /// A directory is listed before what it holds.
    First,
    /// A directory is listed after what it holds.
    Last,
}

/// The settings of a walk over a directory tree.
#[derive(PartialEq, Eq, Debug)]
pub struct DTWalker {
    pub(crate) root: String,
    pub(crate) directory_inclusions: DirProperties,
    pub(crate) max_depth: usize,
    pub(crate) fail_on_depth: bool,
}

/// The state of a [`DTWalker`].
pub struct DTWalkerView {
    pub root: Seq<char>,
    pub directory_inclusions: DirProperties,
    pub max_depth: nat,
    pub fail_on_depth: bool,
}

impl View for DTWalker {
    type V = DTWalkerView;

    open(crate) spec fn view(&self) -> DTWalkerView {
        DTWalkerView {
            root: self.root@,
            directory_inclusions: self.directory_inclusions,
            max_depth: self.max_depth as nat,
            fail_on_depth: self.fail_on_depth,
        }
    }
}

/// The views of a list of paths.
pub open spec fn paths_of(paths: Seq<String>) -> Seq<Seq<char>> {
    paths.map_values(|p: String| p@)
}

impl DTWalkerView {
    /// What a walk lists for a directory at the depth limit, where it
    /// does not fail there.
    pub open spec fn at_limit(self, dir: Seq<char>) -> Seq<Seq<char>> {
        match self.directory_inclusions {
            DirProperties::Skip => Seq::empty(),
            _ => seq![dir],
        }
    }

    /// What a walk lists for a directory, given what was found in it.
    pub open spec fn listing(self, dir: Seq<char>, found: Seq<Seq<char>>) -> Seq<Seq<char>> {
        match self.directory_inclusions {
            DirProperties::Skip => found,
            DirProperties::First => seq![dir] + found,
            DirProperties::Last => found.push(dir),
        }
    }
}

impl DTWalker {
    /// A walk from `root` that lists directories before what they hold,
    /// has no depth limit to speak of, and fails where it reaches it.
    pub fn new(root: &str) -> (r: Self)
        ensures
            r@ == (DTWalkerView {
                root: root@,
                directory_inclusions: DirProperties::First,
                max_depth: usize::MAX as nat,
                fail_on_depth: true,
            }),
    {
        DTWalker {
            root: root.to_owned(),
            directory_inclusions: DirProperties::First,
            max_depth: usize::MAX,
            fail_on_depth: true,
        }
    }

    /// The walk with another choice of how directories are listed.
    pub fn with_dir_inclusions(self, directory_inclusions: DirProperties) -> (r: Self)
        ensures
            r@ == (DTWalkerView { directory_inclusions, ..self@ }),
    {
        let mut walker = self;
        walker.directory_inclusions = directory_inclusions;
        walker
    }

    /// The walk with a depth limit: the root is at depth zero.
    pub fn with_max_depth(self, depth: usize) -> (r: Self)
        ensures
            r@ == (DTWalkerView { max_depth: depth as nat, ..self@ }),
    {
        let mut walker = self;
        walker.max_depth = depth;
        walker
    }

    /// The walk that stops quietly at the depth limit.
    pub fn without_fail_on_depth(self) -> (r: Self)
        ensures
            r@ == (DTWalkerView { fail_on_depth: false, ..self@ }),
    {
        let mut walker = self;
        walker.fail_on_depth = false;
        walker
    }

    /// Where the walk starts.
    pub fn root(&self) -> (r: String)
        ensures
            r@ == self@.root,
    {
        self.root.clone()
    }

    /// Decides what happens to a directory at a depth: nothing is decided
    /// below the limit, where the directory is read; at the limit the walk
    /// fails or lists what it lists for a directory it does not read.
    pub fn check_depth(&self, dir: &str, depth: usize) -> (r: Option<Result<Vec<String>, Error>>)
        ensures
            r is None == (depth < self@.max_depth),
            match r {
                None => true,
                Some(Err(e)) => self@.fail_on_depth && e@ == ErrorView::MaxDepthReached,
                Some(Ok(listed)) => !self@.fail_on_depth && paths_of(listed@) == self@.at_limit(
                    dir@,
                ),
            },
    {
        if depth < self.max_depth {
            return None;
        }
        if self.fail_on_depth {
            return Some(Err(Error::MaxDepthReached));
        }
        let mut listed: Vec<String> = Vec::new();
        match self.directory_inclusions {
            DirProperties::Skip => {},
            _ => {
                listed.push(dir.to_owned());
            },
        }
        assert(paths_of(listed@) =~= self@.at_limit(dir@));
        Some(Ok(listed))
    }

    /// The listing of a directory that was read: what was found in it,
    /// with the directory itself where the walk lists directories.
    pub fn list(&self, dir: &str, found: Vec<String>) -> (r: Vec<String>)
        ensures
            paths_of(r@) == self@.listing(dir@, paths_of(found@)),
    {
        match self.directory_inclusions {
            DirProperties::Skip => found,
            DirProperties::First => {
                let mut listed: Vec<String> = Vec::new();
                listed.push(dir.to_owned());
                let mut rest = found;
                listed.append(&mut rest);
                assert(paths_of(listed@) =~= seq![dir@] + paths_of(found@));
                listed
            },
            DirProperties::Last => {
                let mut listed = found;
                listed.push(dir.to_owned());
                assert(paths_of(listed@) =~= paths_of(found@).push(dir@));
                listed
            },
        }
    }
}

} // verus!
