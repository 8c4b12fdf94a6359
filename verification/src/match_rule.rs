//! Predicates over a single string.
use crate::pattern::{pattern_found, Pattern};
use crate::text::{chars_of, find_first, occurs_at, occurs_at_index, occurs_in, string_of};
use vstd::prelude::*;
use vstd::utf8::*;

verus! {

/// A condition on a string: a comparison with a fixed text, or a boolean
/// combination of conditions.
#[derive(PartialEq, Eq, Debug, Hash)]
pub enum MatchRule {
    /// The pattern matches somewhere in the input.
    Matches(Pattern),
    /// The input is exactly this text.
    Equals(String),
    /// This text occurs somewhere in the input.
    Contains(String),
    /// The input starts with this text.
    BeginsWith(String),
    /// The input ends with this text.
    EndsWith(String),
    /// The inner rule does not hold.
    Not(Box<MatchRule>),
    /// Both rules hold.
    And(Box<MatchRule>, Box<MatchRule>),
    /// At least one of the rules holds.
    Or(Box<MatchRule>, Box<MatchRule>),
}

impl Clone for MatchRule {
    fn clone(&self) -> (r: Self)
        ensures
            r == *self,
    {
        self.duplicate()
    }
}

impl MatchRule {
    /// A copy of the rule.
    pub fn duplicate(&self) -> (r: Self)
        ensures
            r == *self,
        decreases self,
    {
        match self {
            MatchRule::Matches(p) => MatchRule::Matches(p.clone()),
            MatchRule::Equals(s) => MatchRule::Equals(s.clone()),
            MatchRule::Contains(s) => MatchRule::Contains(s.clone()),
            MatchRule::BeginsWith(s) => MatchRule::BeginsWith(s.clone()),
            MatchRule::EndsWith(s) => MatchRule::EndsWith(s.clone()),
            MatchRule::Not(r) => MatchRule::Not(Box::new(r.duplicate())),
            MatchRule::And(a, b) => MatchRule::And(
                Box::new(a.duplicate()),
                Box::new(b.duplicate()),
            ),
            MatchRule::Or(a, b) => MatchRule::Or(Box::new(a.duplicate()), Box::new(b.duplicate())),
        }
    }

    /// Whether the rule holds of `input`.
    pub open spec fn holds(self, input: Seq<char>) -> bool
        decreases self,
    {
        match self {
            MatchRule::Matches(p) => pattern_found(p@, input) == Some(true),
            MatchRule::Equals(s) => input == s@,
            MatchRule::Contains(s) => occurs_in(input, s@),
            MatchRule::BeginsWith(s) => s@.is_prefix_of(input),
            MatchRule::EndsWith(s) => s@.is_suffix_of(input),
            MatchRule::Not(r) => !r.holds(input),
            MatchRule::And(a, b) => a.holds(input) && b.holds(input),
            MatchRule::Or(a, b) => a.holds(input) || b.holds(input),
        }
    }

    /// Decides whether the rule holds of `input`.
    pub fn resolve(&self, input: &String) -> (r: bool)
        ensures
            r == self.holds(input@),
    {
        let chars = chars_of(input.as_str());
        self.resolve_chars(&chars)
    }

    /// Decides whether the rule holds of the given characters.
    pub fn resolve_chars(&self, input: &Vec<char>) -> (r: bool)
        ensures
            r == self.holds(input@),
        decreases self,
    {
        match self {
            MatchRule::Matches(p) => p.matches(string_of(input).as_str()),
            MatchRule::Equals(s) => {
                let needle = chars_of(s.as_str());
                let r = needle.len() == input.len() && occurs_at_index(input, &needle, 0);
                proof {
                    if r {
                        assert(input@.subrange(0, input@.len() as int) =~= input@);
                    }
                    if input@ == s@ {
                        assert(input@.subrange(0, input@.len() as int) =~= input@);
                    }
                }
                r
            },
            MatchRule::Contains(s) => {
                let needle = chars_of(s.as_str());
                find_first(input, &needle).is_some()
            },
            MatchRule::BeginsWith(s) => {
                let needle = chars_of(s.as_str());
                occurs_at_index(input, &needle, 0)
            },
            MatchRule::EndsWith(s) => {
                let needle = chars_of(s.as_str());
                if needle.len() > input.len() {
                    false
                } else {
                    occurs_at_index(input, &needle, input.len() - needle.len())
                }
            },
            MatchRule::Not(r) => !r.resolve_chars(input),
            MatchRule::And(a, b) => {
                let left = a.resolve_chars(input);
                let right = b.resolve_chars(input);
                left && right
            },
            MatchRule::Or(a, b) => {
                let left = a.resolve_chars(input);
                let right = b.resolve_chars(input);
                left || right
            },
        }
    }
}

/// The empty text is contained in every string.
pub proof fn lemma_contains_empty(needle: String, input: Seq<char>)
    requires
        needle@.len() == 0,
    ensures
        MatchRule::Contains(needle).holds(input),
{
    assert(input.subrange(0, 0) =~= needle@);
    assert(occurs_at(input, needle@, 0));
}

/// The empty text begins and ends every string.
pub proof fn lemma_empty_begins_and_ends(needle: String, input: Seq<char>)
    requires
        needle@.len() == 0,
    ensures
        MatchRule::BeginsWith(needle).holds(input),
        MatchRule::EndsWith(needle).holds(input),
{
    assert(input.subrange(0, 0) =~= needle@);
    assert(input.subrange(input.len() as int, input.len() as int) =~= needle@);
}

/// The UTF-8 encoding of two strings joined is as long as both encodings
/// together.
pub proof fn lemma_encoded_len_add(a: Seq<char>, b: Seq<char>)
    ensures
        encode_utf8(a + b).len() == encode_utf8(a).len() + encode_utf8(b).len(),
    decreases a.len(),
{
    if a.len() == 0 {
        assert(a + b =~= b);
    } else {
        assert((a + b).drop_first() =~= a.drop_first() + b);
        assert((a + b)[0] == a[0]);
        lemma_encoded_len_add(a.drop_first(), b);
    }
}

/// A text longer than the input, counted in characters or in bytes of
/// UTF-8, neither begins nor ends it and is not contained in it.
pub proof fn lemma_longer_needle_fails(needle: String, input: Seq<char>)
    requires
        needle@.len() > input.len() || encode_utf8(needle@).len() > encode_utf8(input).len(),
    ensures
        !MatchRule::BeginsWith(needle).holds(input),
        !MatchRule::EndsWith(needle).holds(input),
        !MatchRule::Contains(needle).holds(input),
        !MatchRule::Equals(needle).holds(input),
{
    let n = needle@;
    assert forall|i: int| !occurs_at(input, n, i) by {
        if occurs_at(input, n, i) {
            let head = input.take(i);
            let tail = input.skip(i + n.len());
            assert(input =~= head + n + tail);
            lemma_encoded_len_add(head + n, tail);
            lemma_encoded_len_add(head, n);
        }
    }
    if n.is_prefix_of(input) {
        assert(occurs_at(input, n, 0));
    }
    if n.is_suffix_of(input) {
        assert(occurs_at(input, n, input.len() - n.len()));
    }
    if input == n {
        assert(input.subrange(0, n.len() as int) =~= n);
        assert(occurs_at(input, n, 0));
    }
}

/// `And`, `Or` and `Not` are conjunction, disjunction and negation of what
/// their operands decide.
pub proof fn lemma_boolean_rules(a: MatchRule, b: MatchRule, input: Seq<char>)
    ensures
        MatchRule::And(Box::new(a), Box::new(MatchRule::Not(Box::new(b)))).holds(input) == (
        a.holds(input) && !b.holds(input)),
        MatchRule::Or(Box::new(a), Box::new(MatchRule::Not(Box::new(b)))).holds(input) == (
        a.holds(input) || !b.holds(input)),
        MatchRule::And(Box::new(a), Box::new(b)).holds(input) == (a.holds(input) && b.holds(
            input,
        )),
        MatchRule::Or(Box::new(a), Box::new(b)).holds(input) == (a.holds(input) || b.holds(input)),
        MatchRule::Not(Box::new(a)).holds(input) == !a.holds(input),
{
    reveal_with_fuel(MatchRule::holds, 3);
}

} // verus!
