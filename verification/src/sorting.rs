//! Ordering a batch of files by destination.
use crate::paths::{path_rank, rank, Rank};
use crate::rename_tree::{views_of, File, FileView};
use crate::supporting_objects::SortDirection;
use vstd::prelude::*;

verus! {

/// Path `a` comes no later than path `b` in the order of paths.
pub open spec fn precedes(a: Seq<char>, b: Seq<char>) -> bool {
    path_rank(a, b) != Rank::After && path_rank(b, a) != Rank::Before
}

/// Neither of two paths comes before the other.
pub open spec fn tied(a: Seq<char>, b: Seq<char>) -> bool {
    precedes(a, b) && precedes(b, a)
}

/// The file at `i` may stand before the file at `j` in the direction given.
pub open spec fn in_order(files: Seq<FileView>, direction: SortDirection, i: int, j: int) -> bool {
    match direction {
        SortDirection::Ascending => precedes(files[i].destination, files[j].destination),
        SortDirection::Descending => precedes(files[j].destination, files[i].destination),
    }
}

/// The files are in the order of their destinations, in the direction
/// given.
pub open spec fn ordered(files: Seq<FileView>, direction: SortDirection) -> bool {
    forall|i: int, j: int| 0 <= i < j < files.len() ==> in_order(files, direction, i, j)
}

/// `after` holds the files of `before`, ordered in the direction given.
pub open spec fn sorted_from(
    before: Seq<FileView>,
    direction: SortDirection,
    after: Seq<FileView>,
) -> bool {
    after.to_multiset() == before.to_multiset() && ordered(after, direction)
}

/// No two files have destinations that are tied in the order of paths.
pub open spec fn untied(files: Seq<FileView>) -> bool {
    forall|i: int, j: int|
        0 <= i < files.len() && 0 <= j < files.len() && i != j ==> !tied(
            files[i].destination,
            files[j].destination,
        )
}

/// How two files stand to each other when the batch is sorted in the
/// direction given.
pub fn compare(a: &File, b: &File, direction: SortDirection) -> (r: core::cmp::Ordering)
    ensures
        match direction {
            SortDirection::Ascending => match path_rank(a@.destination, b@.destination) {
                Rank::Before => r == core::cmp::Ordering::Less,
                Rank::Same => r == core::cmp::Ordering::Equal,
                Rank::After => r == core::cmp::Ordering::Greater,
            },
            SortDirection::Descending => match path_rank(b@.destination, a@.destination) {
                Rank::Before => r == core::cmp::Ordering::Less,
                Rank::Same => r == core::cmp::Ordering::Equal,
                Rank::After => r == core::cmp::Ordering::Greater,
            },
        },
{
    let found = match direction {
        SortDirection::Ascending => rank(a.destination.as_str(), b.destination.as_str()),
        SortDirection::Descending => rank(b.destination.as_str(), a.destination.as_str()),
    };
    match found {
        Rank::Before => core::cmp::Ordering::Less,
        Rank::Same => core::cmp::Ordering::Equal,
        Rank::After => core::cmp::Ordering::Greater,
    }
}

/// Calls `slice::sort_unstable_by` with [`compare`]. The contract claims
/// what a sort by a total order gives, and the order of paths is one: the
/// files are the same as before, and of any two of them the one that
/// stands first does not come after the other, nor the other before it.
/// Files with tied destinations may come out in any order.
#[verifier::external_body]
pub(crate) fn sort_files(files: &mut Vec<File>, direction: SortDirection)
    ensures
        sorted_from(views_of(old(files)@), direction, views_of(final(files)@)),
{
    files.sort_unstable_by(|a, b| compare(a, b, direction));
}

/// Orders the files by destination.
pub fn sort(files: &mut Vec<File>, direction: SortDirection)
    ensures
        sorted_from(views_of(old(files)@), direction, views_of(final(files)@)),
        final(files)@.len() == old(files)@.len(),
{
    sort_files(files, direction);
    proof {
        lemma_same_len(views_of(old(files)@), views_of(files@));
    }
}

/// Two rearrangements of one batch have the same length.
proof fn lemma_same_len(s: Seq<FileView>, t: Seq<FileView>)
    requires
        s.to_multiset() == t.to_multiset(),
    ensures
        s.len() == t.len(),
{
    s.to_multiset_ensures();
    t.to_multiset_ensures();
}

/// A file of one rearrangement stands somewhere in the other.
proof fn lemma_found_in(s: Seq<FileView>, t: Seq<FileView>, i: int) -> (k: int)
    requires
        s.to_multiset() == t.to_multiset(),
        0 <= i < s.len(),
    ensures
        0 <= k < t.len(),
        t[k] == s[i],
{
    s.to_multiset_ensures();
    t.to_multiset_ensures();
    assert(s.contains(s[i]));
    assert(t.to_multiset().count(s[i]) > 0);
    assert(t.contains(s[i]));
    choose|k: int| 0 <= k < t.len() && t[k] == s[i]
}

/// Where no two destinations are tied, the order of a batch is decided by
/// its files: two ascending arrangements of it are the same.
pub proof fn lemma_ascending_unique(s: Seq<FileView>, t: Seq<FileView>)
    requires
        s.to_multiset() == t.to_multiset(),
        ordered(s, SortDirection::Ascending),
        ordered(t, SortDirection::Ascending),
        untied(s),
    ensures
        s == t,
    decreases s.len(),
{
    lemma_same_len(s, t);
    if s.len() == 0 {
        assert(s =~= t);
    } else {
        let k = lemma_found_in(s, t, 0);
        let m = lemma_found_in(t, s, 0);
        if k > 0 && m > 0 {
            assert(in_order(s, SortDirection::Ascending, 0, m));
            assert(in_order(t, SortDirection::Ascending, 0, k));
            assert(tied(s[0].destination, s[m].destination));
        }
        assert(s[0] == t[0]);
        let s1 = s.remove(0);
        let t1 = t.remove(0);
        vstd::seq_lib::to_multiset_remove(s, 0);
        vstd::seq_lib::to_multiset_remove(t, 0);
        assert forall|i: int, j: int| 0 <= i < j < s1.len() implies in_order(
            s1,
            SortDirection::Ascending,
            i,
            j,
        ) by {
            assert(in_order(s, SortDirection::Ascending, i + 1, j + 1));
        }
        assert forall|i: int, j: int| 0 <= i < j < t1.len() implies in_order(
            t1,
            SortDirection::Ascending,
            i,
            j,
        ) by {
            assert(in_order(t, SortDirection::Ascending, i + 1, j + 1));
        }
        assert forall|i: int, j: int|
            0 <= i < s1.len() && 0 <= j < s1.len() && i != j implies !tied(
            s1[i].destination,
            s1[j].destination,
        ) by {
            assert(s1[i] == s[i + 1] && s1[j] == s[j + 1]);
        }
        lemma_ascending_unique(s1, t1);
        assert(s =~= seq![s[0]] + s1);
        assert(t =~= seq![t[0]] + t1);
    }
}

/// A rearrangement of a batch in which no file occurs twice and no two
/// destinations are tied has no tied destinations either.
pub proof fn lemma_untied_rearranged(batch: Seq<FileView>, s: Seq<FileView>)
    requires
        s.to_multiset() == batch.to_multiset(),
        batch.no_duplicates(),
        untied(batch),
    ensures
        untied(s),
{
    batch.lemma_multiset_has_no_duplicates();
    s.lemma_multiset_has_no_duplicates_conv();
    assert forall|i: int, j: int| 0 <= i < s.len() && 0 <= j < s.len() && i != j implies !tied(
        s[i].destination,
        s[j].destination,
    ) by {
        let p = lemma_found_in(s, batch, i);
        let q = lemma_found_in(s, batch, j);
        assert(s[i] != s[j]);
        assert(p != q);
    }
}

/// Sorting a batch of files with distinct destinations downwards and
/// then upwards gives the order that sorting it upwards gives.
pub proof fn lemma_descending_then_ascending(
    batch: Seq<FileView>,
    down: Seq<FileView>,
    up: Seq<FileView>,
    direct: Seq<FileView>,
)
    requires
        batch.no_duplicates(),
        untied(batch),
        sorted_from(batch, SortDirection::Descending, down),
        sorted_from(down, SortDirection::Ascending, up),
        sorted_from(batch, SortDirection::Ascending, direct),
    ensures
        up == direct,
{
    lemma_untied_rearranged(batch, up);
    lemma_ascending_unique(up, direct);
}

/// A batch of files with distinct destinations that stands in ascending
/// order comes back unchanged from a descending sort followed by an
/// ascending one.
pub proof fn lemma_sort_round_trip(batch: Seq<FileView>, down: Seq<FileView>, up: Seq<FileView>)
    requires
        batch.no_duplicates(),
        untied(batch),
        ordered(batch, SortDirection::Ascending),
        sorted_from(batch, SortDirection::Descending, down),
        sorted_from(down, SortDirection::Ascending, up),
    ensures
        up == batch,
{
    lemma_descending_then_ascending(batch, down, up, batch);
}

} // verus!
