//! The variable table of a run.
use crate::paths::text_of;
use vstd::prelude::*;

verus! {

/// A mapping from variable names to their values.
#[derive(Debug)]
pub struct Variables {
    entries: Vec<(String, String)>,
}

/// The mapping that a list of assignments amounts to: of two assignments
/// to one name the later one counts.
pub closed spec fn table_of(entries: Seq<(String, String)>) -> Map<Seq<char>, Seq<char>>
    decreases entries.len(),
{
    if entries.len() == 0 {
        Map::empty()
    } else {
        table_of(entries.drop_last()).insert(entries.last().0@, entries.last().1@)
    }
}

/// A name that no entry has is not in the table.
proof fn lemma_absent(entries: Seq<(String, String)>, name: Seq<char>)
    requires
        forall|i: int| 0 <= i < entries.len() ==> entries[i].0@ != name,
    ensures
        !table_of(entries).contains_key(name),
    decreases entries.len(),
{
    if entries.len() > 0 {
        lemma_absent(entries.drop_last(), name);
    }
}

/// The last entry with a name holds the value of that name.
proof fn lemma_present(entries: Seq<(String, String)>, name: Seq<char>, at: int)
    requires
        0 <= at < entries.len(),
        entries[at].0@ == name,
        forall|i: int| at < i < entries.len() ==> entries[i].0@ != name,
    ensures
        table_of(entries).contains_key(name),
        table_of(entries)[name] == entries[at].1@,
    decreases entries.len(),
{
    if at < entries.len() - 1 {
        lemma_present(entries.drop_last(), name, at);
    }
}

/// Overwriting the last entry of a name assigns to that name.
proof fn lemma_overwrite(entries: Seq<(String, String)>, at: int, entry: (String, String))
    requires
        0 <= at < entries.len(),
        entries[at].0@ == entry.0@,
        forall|i: int| at < i < entries.len() ==> entries[i].0@ != entry.0@,
    ensures
        table_of(entries.update(at, entry)) == table_of(entries).insert(entry.0@, entry.1@),
    decreases entries.len(),
{
    let updated = entries.update(at, entry);
    if at == entries.len() - 1 {
        assert(updated.drop_last() =~= entries.drop_last());
        assert(table_of(updated) =~= table_of(entries).insert(entry.0@, entry.1@));
    } else {
        lemma_overwrite(entries.drop_last(), at, entry);
        assert(updated.drop_last() =~= entries.drop_last().update(at, entry));
        assert(updated.last() == entries.last());
        assert(table_of(updated) =~= table_of(entries).insert(entry.0@, entry.1@));
    }
}

impl View for Variables {
    type V = Map<Seq<char>, Seq<char>>;

    closed spec fn view(&self) -> Map<Seq<char>, Seq<char>> {
        table_of(self.entries@)
    }
}

impl Variables {
    /// A table without variables.
    pub fn new() -> (r: Self)
        ensures
            r@ == Map::<Seq<char>, Seq<char>>::empty(),
    {
        Variables { entries: Vec::new() }
    }

    /// The index of the last entry for `name`.
    fn position(&self, name: &String) -> (r: Option<usize>)
        ensures
            match r {
                Some(at) => at < self.entries@.len() && self.entries@[at as int].0@ == name@
                    && forall|i: int|
                    at < i < self.entries@.len() ==> self.entries@[i].0@ != name@,
                None => forall|i: int|
                    0 <= i < self.entries@.len() ==> self.entries@[i].0@ != name@,
            },
    {
        let mut i: usize = self.entries.len();
        while i > 0
            invariant
                i <= self.entries@.len(),
                forall|j: int| i <= j < self.entries@.len() ==> self.entries@[j].0@ != name@,
            decreases i,
        {
            i -= 1;
            if self.entries[i].0 == *name {
                return Some(i);
            }
        }
        None
    }

    /// The value of a variable, if it has one.
    pub fn get(&self, name: &str) -> (r: Option<String>)
        ensures
            text_of(r) == if self@.contains_key(name@) {
                Some(self@[name@])
            } else {
                None
            },
    {
        let key = name.to_owned();
        match self.position(&key) {
            Some(at) => {
                proof {
                    lemma_present(self.entries@, name@, at as int);
                }
                Some(self.entries[at].1.clone())
            },
            None => {
                proof {
                    lemma_absent(self.entries@, name@);
                }
                None
            },
        }
    }

    /// Assigns a value to a variable.
    pub fn set(&mut self, name: String, value: String)
        ensures
            final(self)@ == old(self)@.insert(name@, value@),
    {
        match self.position(&name) {
            Some(at) => {
                proof {
                    lemma_overwrite(self.entries@, at as int, (name, value));
                }
                self.entries[at] = (name, value);
            },
            None => {
                self.entries.push((name, value));
                assert(self.entries@.drop_last() =~= old(self).entries@);
            },
        }
    }
}

} // verus!
