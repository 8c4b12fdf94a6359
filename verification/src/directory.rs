//! Directory operations: changes to the batch of files of one directory.
use crate::error::{Error, ErrorView};
use crate::match_rule::MatchRule;
use crate::operation_engine::{EngineView, OperationEngine};
use crate::paths::file_name_of;
use crate::rename_tree::{views_of, File, FileView};
use crate::sorting::sorted_from;
use crate::supporting_objects::SortDirection;
use vstd::prelude::*;

verus! {

/// A change to the files of one directory, made before any of them is
/// processed.
#[derive(PartialEq, Eq, Debug, Hash)]
pub enum DirOperation {
    /// Orders the files by destination.
    Sort(SortDirection),
    /// Drops the files whose name the rule holds of.
    Remove(MatchRule),
    /// Drops the files whose name the rule does not hold of.
    IncludeOnly(MatchRule),
    /// Sets the local index to this number. The number counts for the
    /// directory in which the operation runs: the next directory starts
    /// at zero again.
    OffsetLocalIndex(usize),
}

/// What directory operations work on: the files of the directory and the
/// local index.
pub struct Batch {
    pub files: Seq<FileView>,
    pub local_index: nat,
}

/// The failure that an executable result reports, if it reports one.
pub open spec fn failure_of(r: Result<(), Error>) -> Option<ErrorView> {
    match r {
        Ok(_) => None,
        Err(e) => Some(e@),
    }
}

/// The file name of a file's destination.
pub open spec fn name_of(f: FileView) -> Option<Seq<char>> {
    file_name_of(f.destination)
}

/// Every file has a destination with a file name.
pub open spec fn all_named(files: Seq<FileView>) -> bool {
    forall|i: int| 0 <= i < files.len() ==> name_of(#[trigger] files[i]) is Some
}

/// Whether a filter keeps a file: `keep_matching` says whether the files
/// that the rule holds of stay or go.
pub open spec fn keeps(rule: MatchRule, keep_matching: bool, f: FileView) -> bool {
    rule.holds(name_of(f)->0) == keep_matching
}

/// The files that a filter by name keeps, in their order.
pub open spec fn kept(files: Seq<FileView>, rule: MatchRule, keep_matching: bool) -> Seq<
    FileView,
> {
    files.filter(|f: FileView| keeps(rule, keep_matching, f))
}

/// The items whose flag is set, in their order.
pub open spec fn flagged<A>(files: Seq<A>, keep: Seq<bool>) -> Seq<A>
    decreases files.len(),
{
    if files.len() == 0 || keep.len() != files.len() {
        Seq::empty()
    } else {
        let rest = flagged(files.drop_last(), keep.drop_last());
        if keep.last() {
            rest.push(files.last())
        } else {
            rest
        }
    }
}

/// Flags that agree with a predicate select what the predicate filters.
pub proof fn lemma_flagged_is_filter<A>(files: Seq<A>, keep: Seq<bool>, pred: spec_fn(A) -> bool)
    requires
        keep.len() == files.len(),
        forall|i: int| 0 <= i < files.len() ==> keep[i] == pred(files[i]),
    ensures
        flagged(files, keep) == files.filter(pred),
    decreases files.len(),
{
    reveal(Seq::filter);
    if files.len() > 0 {
        lemma_flagged_is_filter(files.drop_last(), keep.drop_last(), pred);
    }
}

/// Selecting by flags and taking views can be done in either order.
pub proof fn lemma_flagged_views(files: Seq<File>, keep: Seq<bool>)
    ensures
        views_of(flagged(files, keep)) == flagged(views_of(files), keep),
    decreases files.len(),
{
    if files.len() == 0 || keep.len() != files.len() {
        assert(views_of(flagged(files, keep)) =~= flagged(views_of(files), keep));
    } else {
        lemma_flagged_views(files.drop_last(), keep.drop_last());
        assert(views_of(files).drop_last() =~= views_of(files.drop_last()));
        assert(views_of(flagged(files, keep)) =~= flagged(views_of(files), keep));
    }
}

impl Clone for DirOperation {
    fn clone(&self) -> (r: Self)
        ensures
            r == *self,
    {
        match self {
            DirOperation::Sort(direction) => DirOperation::Sort(*direction),
            DirOperation::Remove(rule) => DirOperation::Remove(rule.duplicate()),
            DirOperation::IncludeOnly(rule) => DirOperation::IncludeOnly(rule.duplicate()),
            DirOperation::OffsetLocalIndex(offset) => DirOperation::OffsetLocalIndex(*offset),
        }
    }
}

/// A copy of a list of operations.
pub fn duplicate_all(ops: &[DirOperation]) -> (r: Vec<DirOperation>)
    ensures
        r@ == ops@,
{
    let mut out: Vec<DirOperation> = Vec::new();
    let mut i: usize = 0;
    while i < ops.len()
        invariant
            i <= ops.len(),
            out@ == ops@.take(i as int),
        decreases ops.len() - i,
    {
        out.push(ops[i].clone());
        i += 1;
        assert(ops@.take(i as int) =~= ops@.take(i - 1).push(ops@[i - 1]));
    }
    assert(ops@.take(i as int) =~= ops@);
    out
}

impl DirOperation {
    /// Whether the operation can take a batch from `before` to `after`
    /// with the given result. A sort leaves the order of files with tied
    /// destinations open; everything else is decided by the batch. A
    /// filter fails, and keeps every file, where some destination has no
    /// file name.
    pub open spec fn effect(self, before: Batch, after: Batch, result: Option<ErrorView>) -> bool {
        match self {
            DirOperation::Sort(direction) => {
                &&& result is None
                &&& after.local_index == before.local_index
                &&& sorted_from(before.files, direction, after.files)
            },
            DirOperation::Remove(rule) => filter_effect(rule, false, before, after, result),
            DirOperation::IncludeOnly(rule) => filter_effect(rule, true, before, after, result),
            DirOperation::OffsetLocalIndex(offset) => {
                &&& result is None
                &&& after.local_index == offset
                &&& after.files == before.files
            },
        }
    }

    /// Applies the operation to the files of a directory.
    pub fn execute(&self, engine: &mut OperationEngine, input: &mut Vec<File>) -> (r: Result<
        (),
        Error,
    >)
        ensures
            self.effect(
                Batch { files: views_of(old(input)@), local_index: old(engine)@.local_index },
                Batch { files: views_of(final(input)@), local_index: final(engine)@.local_index },
                failure_of(r),
            ),
            final(engine)@ == (EngineView {
                local_index: final(engine)@.local_index,
                ..old(engine)@
            }),
            final(input)@.len() <= old(input)@.len(),
    {
        match self {
            DirOperation::Sort(direction) => {
                crate::sorting::sort(input, *direction);
                Ok(())
            },
            DirOperation::Remove(rule) => filter_by_name(input, rule, false),
            DirOperation::IncludeOnly(rule) => filter_by_name(input, rule, true),
            DirOperation::OffsetLocalIndex(offset) => {
                engine.set_local_index(*offset);
                Ok(())
            },
        }
    }
}

/// What a filter by name does to a batch.
pub open spec fn filter_effect(
    rule: MatchRule,
    keep_matching: bool,
    before: Batch,
    after: Batch,
    result: Option<ErrorView>,
) -> bool {
    &&& after.local_index == before.local_index
    &&& if all_named(before.files) {
        result is None && after.files == kept(before.files, rule, keep_matching)
    } else {
        result == Some(ErrorView::CannotIdentifyFileName) && after.files
            == before.files
    }
}

/// Keeps the files whose flag is set.
pub fn retain_flagged(input: &mut Vec<File>, keep: &Vec<bool>)
    requires
        keep@.len() == old(input)@.len(),
    ensures
        final(input)@ == flagged(old(input)@, keep@),
        final(input)@.len() <= old(input)@.len(),
{
    let count: usize = input.len();
    let mut taken: Vec<File> = Vec::new();
    core::mem::swap(input, &mut taken);
    let mut k: usize = 0;
    assert(taken@.take(0) =~= Seq::empty());
    assert(keep@.take(0) =~= Seq::empty());
    for f in it: taken
        invariant
            it.seq() == old(input)@,
            keep@.len() == old(input)@.len(),
            count == old(input)@.len(),
            k == it.index(),
            input@ == flagged(old(input)@.take(k as int), keep@.take(k as int)),
            input@.len() <= k,
    {
        proof {
            assert(old(input)@.take(k + 1).drop_last() =~= old(input)@.take(k as int));
            assert(keep@.take(k + 1).drop_last() =~= keep@.take(k as int));
        }
        if keep[k] {
            input.push(f);
        }
        k += 1;
    }
    assert(old(input)@.take(k as int) =~= old(input)@);
    assert(keep@.take(k as int) =~= keep@);
}

/// Keeps the files whose name the rule holds of, or those whose name it
/// does not hold of.
pub fn filter_by_name(input: &mut Vec<File>, rule: &MatchRule, keep_matching: bool) -> (r: Result<
    (),
    Error,
>)
    ensures
        if all_named(views_of(old(input)@)) {
            r is Ok && views_of(final(input)@) == kept(
                views_of(old(input)@),
                *rule,
                keep_matching,
            )
        } else {
            failure_of(r) == Some(ErrorView::CannotIdentifyFileName) && final(input)@ == old(
                input,
            )@
        },
        final(input)@.len() <= old(input)@.len(),
{
    let mut keep: Vec<bool> = Vec::new();
    let mut i: usize = 0;
    while i < input.len()
        invariant
            i <= input.len(),
            input@ == old(input)@,
            keep@.len() == i,
            forall|j: int| 0 <= j < i ==> name_of(#[trigger] views_of(input@)[j]) is Some,
            forall|j: int|
                0 <= j < i ==> keep@[j] == keeps(*rule, keep_matching, views_of(input@)[j]),
        decreases input.len() - i,
    {
        match crate::paths::file_name(input[i].destination.as_str()) {
            Some(name) => {
                keep.push(rule.resolve(&name) == keep_matching);
            },
            None => {
                assert(name_of(views_of(input@)[i as int]) is None);
                return Err(Error::CannotIdentifyFileName);
            },
        }
        i += 1;
    }
    proof {
        lemma_flagged_is_filter(
            views_of(input@),
            keep@,
            |f: FileView| keeps(*rule, keep_matching, f),
        );
        lemma_flagged_views(input@, keep@);
    }
    retain_flagged(input, &keep);
    Ok(())
}

/// Whether a sequence of operations, each working on what the one before
/// it left, can take a batch from `start` to `end` with the given result.
/// The first failure ends the sequence.
pub open spec fn chain(
    ops: Seq<DirOperation>,
    start: Batch,
    end: Batch,
    result: Option<ErrorView>,
) -> bool
    decreases ops.len(),
{
    if ops.len() == 0 {
        end == start && result is None
    } else {
        ||| result is Some && chain(ops.drop_last(), start, end, result)
        ||| exists|mid: Batch|
            chain(ops.drop_last(), start, mid, None) && ops.last().effect(mid, end, result)
    }
}

/// A failure of a sequence of operations is a failure of every longer
/// sequence that starts with it.
pub proof fn lemma_chain_failed(
    ops: Seq<DirOperation>,
    n: int,
    start: Batch,
    end: Batch,
    result: Option<ErrorView>,
)
    requires
        0 <= n <= ops.len(),
        result is Some,
        chain(ops.take(n), start, end, result),
    ensures
        chain(ops, start, end, result),
    decreases ops.len() - n,
{
    if n < ops.len() {
        assert(ops.take(n + 1).drop_last() =~= ops.take(n));
        lemma_chain_failed(ops, n + 1, start, end, result);
    } else {
        assert(ops.take(n) =~= ops);
    }
}

/// Two sequences of operations that follow each other make one.
pub proof fn lemma_chain_joined(
    first: Seq<DirOperation>,
    second: Seq<DirOperation>,
    start: Batch,
    mid: Batch,
    end: Batch,
    result: Option<ErrorView>,
)
    requires
        chain(first, start, mid, None),
        chain(second, mid, end, result),
    ensures
        chain(first + second, start, end, result),
    decreases second.len(),
{
    if second.len() == 0 {
        assert(first + second =~= first);
    } else {
        assert((first + second).drop_last() =~= first + second.drop_last());
        assert((first + second).last() == second.last());
        let whole = first + second;
        if result is Some && chain(second.drop_last(), mid, end, result) {
            lemma_chain_joined(first, second.drop_last(), start, mid, end, result);
            assert(chain(whole.drop_last(), start, end, result));
        } else {
            let m = choose|m: Batch|
                chain(second.drop_last(), mid, m, None) && second.last().effect(m, end, result);
            lemma_chain_joined(first, second.drop_last(), start, mid, m, None);
            assert(chain(whole.drop_last(), start, m, None) && whole.last().effect(
                m,
                end,
                result,
            ));
        }
        assert(chain(whole, start, end, result));
    }
}

/// No operation of the sequence sets the local index so high that it
/// would overflow while `count` files are processed.
pub open spec fn offsets_fit(ops: Seq<DirOperation>, count: nat) -> bool {
    forall|i: int|
        0 <= i < ops.len() ==> (#[trigger] ops[i] matches DirOperation::OffsetLocalIndex(offset)
            ==> offset + count <= usize::MAX)
}

/// The offsets of two lists fit where those of each list fit.
pub proof fn lemma_offsets_fit_joined(
    first: Seq<DirOperation>,
    second: Seq<DirOperation>,
    count: nat,
)
    ensures
        offsets_fit(first + second, count) == (offsets_fit(first, count) && offsets_fit(
            second,
            count,
        )),
{
    let all = first + second;
    if offsets_fit(all, count) {
        assert forall|i: int| 0 <= i < first.len() implies (
        #[trigger] first[i] matches DirOperation::OffsetLocalIndex(offset) ==> offset + count
            <= usize::MAX) by {
            assert(all[i] == first[i]);
        }
        assert forall|i: int| 0 <= i < second.len() implies (
        #[trigger] second[i] matches DirOperation::OffsetLocalIndex(offset) ==> offset + count
            <= usize::MAX) by {
            assert(all[first.len() + i] == second[i]);
        }
    }
    if offsets_fit(first, count) && offsets_fit(second, count) {
        assert forall|i: int| 0 <= i < all.len() implies (
        #[trigger] all[i] matches DirOperation::OffsetLocalIndex(offset) ==> offset + count
            <= usize::MAX) by {
            if i < first.len() {
                assert(all[i] == first[i]);
            } else {
                assert(all[i] == second[i - first.len()]);
            }
        }
    }
}

/// Whether no operation of the list sets the local index so high that it
/// would overflow while `count` files are processed.
pub fn offsets_fit_in(ops: &Vec<DirOperation>, count: usize) -> (r: bool)
    ensures
        r == offsets_fit(ops@, count as nat),
{
    let mut i: usize = 0;
    while i < ops.len()
        invariant
            i <= ops.len(),
            forall|j: int|
                0 <= j < i ==> (#[trigger] ops@[j] matches DirOperation::OffsetLocalIndex(offset)
                    ==> offset + count <= usize::MAX),
        decreases ops.len() - i,
    {
        match &ops[i] {
            DirOperation::OffsetLocalIndex(offset) => {
                if *offset > usize::MAX - count {
                    return false;
                }
            },
            _ => {},
        }
        i += 1;
    }
    true
}

/// Applies the operations in order to the files of a directory.
pub fn execute_all(
    ops: &Vec<DirOperation>,
    engine: &mut OperationEngine,
    input: &mut Vec<File>,
) -> (r: Result<(), Error>)
    requires
        offsets_fit(ops@, old(input)@.len()),
        old(engine)@.local_index + old(input)@.len() <= usize::MAX,
    ensures
        chain(
            ops@,
            Batch { files: views_of(old(input)@), local_index: old(engine)@.local_index },
            Batch { files: views_of(final(input)@), local_index: final(engine)@.local_index },
            failure_of(r),
        ),
        final(engine)@ == (EngineView {
            local_index: final(engine)@.local_index,
            ..old(engine)@
        }),
        final(input)@.len() <= old(input)@.len(),
        final(engine)@.local_index + final(input)@.len() <= usize::MAX,
{
    let ghost start = Batch { files: views_of(input@), local_index: engine@.local_index };
    let mut i: usize = 0;
    assert(ops@.take(0) =~= Seq::empty());
    while i < ops.len()
        invariant
            i <= ops.len(),
            offsets_fit(ops@, old(input)@.len()),
            start == (Batch {
                files: views_of(old(input)@),
                local_index: old(engine)@.local_index,
            }),
            chain(
                ops@.take(i as int),
                start,
                Batch { files: views_of(input@), local_index: engine@.local_index },
                None,
            ),
            engine@ == (EngineView { local_index: engine@.local_index, ..old(engine)@ }),
            input@.len() <= old(input)@.len(),
            engine@.local_index + input@.len() <= usize::MAX,
        decreases ops.len() - i,
    {
        let ghost mid = Batch { files: views_of(input@), local_index: engine@.local_index };
        let r = ops[i].execute(engine, input);
        proof {
            let end = Batch { files: views_of(input@), local_index: engine@.local_index };
            assert(ops@.take(i + 1).drop_last() =~= ops@.take(i as int));
            assert(ops@.take(i + 1).last() == ops@[i as int]);
            assert(chain(ops@.take(i + 1), start, end, failure_of(r)));
        }
        match r {
            Err(e) => {
                proof {
                    let end = Batch { files: views_of(input@), local_index: engine@.local_index };
                    lemma_chain_failed(ops@, i + 1, start, end, Some(e@));
                }
                return Err(e);
            },
            Ok(_) => {},
        }
        i += 1;
    }
    assert(ops@.take(i as int) =~= ops@);
    Ok(())
}

} // verus!
