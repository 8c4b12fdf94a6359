//! Scripts: several trees committed one after the other.
use crate::error::{Error, ErrorView};
use crate::rename_tree::{
    commits, committed_of, has_duplicate, pairs_of, renames_of, RenameResult, RenameResultView,
    RenameTree, RenameTreeView,
};
use vstd::prelude::*;

verus! {

/// A list of trees that are committed in order.
#[derive(Debug)]
pub struct Script {
    pub(crate) trees: Vec<RenameTree>,
}

/// The views of a list of trees.
pub open spec fn tree_views_of(trees: Seq<RenameTree>) -> Seq<RenameTreeView> {
    trees.map_values(|t: RenameTree| t@)
}

impl View for Script {
    type V = Seq<RenameTreeView>;

    open(crate) spec fn view(&self) -> Seq<RenameTreeView> {
        tree_views_of(self.trees@)
    }
}

/// The renames of all trees, tree after tree.
pub open spec fn all_pairs(trees: Seq<RenameTreeView>) -> Seq<RenameResultView>
    decreases trees.len(),
{
    if trees.len() == 0 {
        Seq::empty()
    } else {
        all_pairs(trees.drop_last()) + pairs_of(trees.last().files)
    }
}

/// What committing the trees in order gives: the renames of all of them,
/// or the failure of the first tree in which two files have one source.
pub open spec fn script_commits(
    trees: Seq<RenameTreeView>,
    outcome: Result<Seq<RenameResultView>, ErrorView>,
) -> bool {
    match outcome {
        Ok(pairs) => {
            &&& forall|t: int| 0 <= t < trees.len() ==> !has_duplicate(#[trigger] trees[t].files)
            &&& pairs == all_pairs(trees)
        },
        Err(e) => exists|t: int|
            {
                &&& 0 <= t < trees.len()
                &&& forall|u: int| 0 <= u < t ==> !has_duplicate(#[trigger] trees[u].files)
                &&& #[trigger] commits(trees[t].files, Err(e))
            },
    }
}

impl Script {
    /// A script without trees.
    pub fn new() -> (r: Self)
        ensures
            r@ == Seq::<RenameTreeView>::empty(),
    {
        let r = Script { trees: Vec::new() };
        assert(r@ =~= Seq::empty());
        r
    }

    /// The script that commits these trees in order.
    pub fn from_trees(trees: Vec<RenameTree>) -> (r: Self)
        ensures
            r@ == tree_views_of(trees@),
    {
        Script { trees }
    }

    /// The script with one more tree, committed after those it has.
    pub fn with_tree(self, tree: RenameTree) -> (r: Self)
        ensures
            r@ == self@.push(tree@),
    {
        let mut script = self;
        script.push(tree);
        script
    }

    /// Adds a tree, committed after those the script has.
    pub fn push(&mut self, tree: RenameTree)
        ensures
            final(self)@ == old(self)@.push(tree@),
    {
        self.trees.push(tree);
        assert(self@ =~= old(self)@.push(tree@));
    }

    /// The trees of the script, in the order they are committed.
    pub fn into_trees(self) -> (r: Vec<RenameTree>)
        ensures
            tree_views_of(r@) == self@,
    {
        self.trees
    }

    /// Computes the renames of all trees without touching any file.
    pub fn dry_run(self) -> (r: Result<Vec<RenameResult>, Error>)
        ensures
            script_commits(self@, committed_of(r)),
    {
        let ghost views = self@;
        let mut output: Vec<RenameResult> = Vec::new();
        let trees = self.trees;
        let count: usize = trees.len();
        let mut k: usize = 0;
        assert(views.take(0) =~= Seq::empty());
        assert(renames_of(output@) =~= Seq::empty());
        for tree in it: trees
            invariant
                it.seq() == trees@,
                views == self@,
                views == tree_views_of(trees@),
                count == trees@.len(),
                k == it.index(),
                forall|t: int| 0 <= t < k ==> !has_duplicate(#[trigger] views[t].files),
                renames_of(output@) == all_pairs(views.take(k as int)),
        {
            let ghost before = output@;
            proof {
                assert(tree@ == views[k as int]);
                assert(views.take(k + 1).drop_last() =~= views.take(k as int));
                assert(views.take(k + 1).last() == views[k as int]);
            }
            match tree.dry_run() {
                Err(e) => {
                    assert(commits(views[k as int].files, Err(e@)));
                    return Err(e);
                },
                Ok(mut results) => {
                    let ghost these = results@;
                    output.append(&mut results);
                    assert(renames_of(output@) =~= renames_of(before) + renames_of(these));
                },
            }
            k += 1;
        }
        assert(views.take(k as int) =~= views);
        Ok(output)
    }
}

} // verus!
