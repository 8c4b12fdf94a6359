//! Small choices that parameterise rules and operations.
use crate::pattern::Pattern;
use vstd::prelude::*;

verus! {

/// Which occurrences of a matched text an edit applies to.
#[derive(Clone, Copy, PartialEq, Eq, Debug, Hash)]
pub enum Selection {
    First,
    Last,
    All,
}

/// Where in a text something is inserted.
#[derive(PartialEq, Eq, Debug, Hash)]
pub enum Position {
    /// At this byte offset.
    Index(usize),
    /// Directly after the first occurrence of this marker.
    After(String),
    /// Directly after the first match of this pattern.
    AfterRegex(Pattern),
    /// Directly before the first occurrence of this marker.
    Before(String),
    /// Directly before the first match of this pattern.
    BeforeRegex(Pattern),
    /// In front of the text.
    Start,
    /// Behind the text.
    End,
}

/// What a fixed rule inserts.
#[derive(PartialEq, Eq, Debug, Hash)]
pub enum InsertionType {
    /// The index of the file within its directory.
    LocalIndex,
    /// The index of the file within the whole run.
    OverallIndex,
    /// This text.
    Static(String),
    /// The value of this variable.
    Variable(String),
}

/// The direction of a sort.
#[derive(Clone, Copy, PartialEq, Eq, Debug, Hash)]
pub enum SortDirection {
    Ascending,
    Descending,
}

/// The side of a marker that is kept, and whether the marker stays.
#[derive(Clone, Copy, PartialEq, Eq, Debug, Hash)]
pub enum Direction {
    LeftExclusive,
    LeftInclusive,
    RightExclusive,
    RightInclusive,
}

impl Clone for Position {
    fn clone(&self) -> (r: Self)
        ensures
            r == *self,
    {
        match self {
            Position::Index(i) => Position::Index(*i),
            Position::After(s) => Position::After(s.clone()),
            Position::AfterRegex(p) => Position::AfterRegex(p.clone()),
            Position::Before(s) => Position::Before(s.clone()),
            Position::BeforeRegex(p) => Position::BeforeRegex(p.clone()),
            Position::Start => Position::Start,
            Position::End => Position::End,
        }
    }
}

impl Clone for InsertionType {
    fn clone(&self) -> (r: Self)
        ensures
            r == *self,
    {
        match self {
            InsertionType::LocalIndex => InsertionType::LocalIndex,
            InsertionType::OverallIndex => InsertionType::OverallIndex,
            InsertionType::Static(s) => InsertionType::Static(s.clone()),
            InsertionType::Variable(s) => InsertionType::Variable(s.clone()),
        }
    }
}

impl InsertionType {
    /// The insertion of a fixed text.
    pub fn from_text(value: &str) -> (r: Self)
        ensures
            r matches InsertionType::Static(s) && s@ == value@,
    {
        InsertionType::Static(value.to_owned())
    }
}

} // verus!
