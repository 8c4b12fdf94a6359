//! Regular expressions.
//!
//! A pattern is kept as its text, checked once when it is made, and handed
//! to the `regex` crate wherever it is used. What that crate finds is
//! given names here; the library only decides what to do with it.
use crate::error::{Error, ErrorView};
use crate::supporting_objects::Selection;
use regex::Regex;
use vstd::prelude::*;
use vstd::utf8::*;

verus! {

/// A regular expression that is known to compile.
#[derive(PartialEq, Eq, Debug, Hash)]
pub struct Pattern {
    source: String,
}

impl View for Pattern {
    type V = Seq<char>;

    closed spec fn view(&self) -> Seq<char> {
        self.source@
    }
}

impl Clone for Pattern {
    fn clone(&self) -> (r: Self)
        ensures
            r == *self,
    {
        Pattern { source: self.source.clone() }
    }
}

/// Whether a text is a regular expression that compiles.
pub uninterp spec fn pattern_compiles(source: Seq<char>) -> bool;

/// Whether a pattern matches somewhere in an input; nothing for a pattern
/// that does not compile.
pub uninterp spec fn pattern_found(source: Seq<char>, input: Seq<char>) -> Option<bool>;

/// The byte offsets at which the first match of a pattern in an input
/// starts and ends.
pub uninterp spec fn match_span(source: Seq<char>, input: Seq<char>) -> Option<(int, int)>;

/// The byte offsets at which the last match of a pattern in an input
/// starts and ends.
pub uninterp spec fn last_match_span(source: Seq<char>, input: Seq<char>) -> Option<(int, int)>;

/// An input with the first match of a pattern replaced, references to
/// capture groups in the replacement expanded; nothing for a pattern that
/// does not compile.
pub uninterp spec fn first_replaced(
    source: Seq<char>,
    input: Seq<char>,
    replacement: Seq<char>,
) -> Option<Seq<char>>;

/// An input with every match of a pattern replaced, references to capture
/// groups in the replacement expanded; nothing for a pattern that does not
/// compile.
pub uninterp spec fn every_replaced(
    source: Seq<char>,
    input: Seq<char>,
    replacement: Seq<char>,
) -> Option<Seq<char>>;

/// A pair of byte offsets as integers.
pub open spec fn span_of(span: Option<(usize, usize)>) -> Option<(int, int)> {
    match span {
        Some((start, end)) => Some((start as int, end as int)),
        None => None,
    }
}

/// Calls `Regex::new` and says whether it succeeded. The contract only
/// names the result.
#[verifier::external_body]
pub(crate) fn compiles(source: &str) -> (r: bool)
    ensures
        r == pattern_compiles(source@),
{
    Regex::new(source).is_ok()
}

/// Calls `Regex::is_match` on the compiled pattern. The contract only
/// names the result.
#[verifier::external_body]
pub(crate) fn is_match(source: &str, input: &str) -> (r: Option<bool>)
    ensures
        r == pattern_found(source@, input@),
{
    let regex = Regex::new(source).ok()?;
    Some(regex.is_match(input))
}

/// Calls `Regex::find` on the compiled pattern and returns the offsets of
/// the match. The contract only names the result.
#[verifier::external_body]
pub(crate) fn find(source: &str, input: &str) -> (r: Option<(usize, usize)>)
    ensures
        span_of(r) == match_span(source@, input@),
{
    let regex = Regex::new(source).ok()?;
    let found = regex.find(input)?;
    Some((found.start(), found.end()))
}

/// Calls `Regex::find_iter` on the compiled pattern and returns the
/// offsets of the last match it yields. The contract only names the
/// result.
#[verifier::external_body]
pub(crate) fn find_last(source: &str, input: &str) -> (r: Option<(usize, usize)>)
    ensures
        span_of(r) == last_match_span(source@, input@),
{
    let regex = Regex::new(source).ok()?;
    let found = regex.find_iter(input).last()?;
    Some((found.start(), found.end()))
}

/// Calls `Regex::replace` on the compiled pattern. The contract only
/// names the result.
#[verifier::external_body]
pub(crate) fn replace_first(source: &str, input: &str, replacement: &str) -> (r: Option<String>)
    ensures
        crate::paths::text_of(r) == first_replaced(source@, input@, replacement@),
{
    let regex = Regex::new(source).ok()?;
    Some(regex.replace(input, replacement).into_owned())
}

/// Calls `Regex::replace_all` on the compiled pattern. The contract only
/// names the result.
#[verifier::external_body]
pub(crate) fn replace_every(source: &str, input: &str, replacement: &str) -> (r: Option<String>)
    ensures
        crate::paths::text_of(r) == every_replaced(source@, input@, replacement@),
{
    let regex = Regex::new(source).ok()?;
    Some(regex.replace_all(input, replacement).into_owned())
}

/// The part of `base` between two byte offsets of its UTF-8 encoding,
/// where both fall between characters.
pub open spec fn slice_at_offsets(base: Seq<char>, start: int, end: int) -> Option<Seq<char>> {
    let bytes = encode_utf8(base);
    if 0 <= start <= end <= bytes.len() && is_char_boundary(bytes, start) && is_char_boundary(
        bytes,
        end,
    ) {
        Some(decode_utf8(bytes.subrange(start, end)))
    } else {
        None
    }
}

/// `base` with the part between two byte offsets of its UTF-8 encoding
/// replaced by `with`, where both fall between characters.
pub open spec fn splice_at_offsets(
    base: Seq<char>,
    start: int,
    end: int,
    with: Seq<char>,
) -> Option<Seq<char>> {
    let bytes = encode_utf8(base);
    if 0 <= start <= end <= bytes.len() && is_char_boundary(bytes, start) && is_char_boundary(
        bytes,
        end,
    ) {
        Some(
            decode_utf8(bytes.subrange(0, start)) + with + decode_utf8(
                bytes.subrange(end, bytes.len() as int),
            ),
        )
    } else {
        None
    }
}

/// Cuts `base` at two byte offsets into what stands before, between and
/// behind them.
fn cut(base: &str, start: usize, end: usize) -> (r: Option<(&str, &str, &str)>)
    ensures
        match r {
            Some((head, middle, tail)) => {
                let bytes = encode_utf8(base@);
                &&& start <= end <= bytes.len()
                &&& is_char_boundary(bytes, start as int)
                &&& is_char_boundary(bytes, end as int)
                &&& head@ == decode_utf8(bytes.subrange(0, start as int))
                &&& middle@ == decode_utf8(bytes.subrange(start as int, end as int))
                &&& tail@ == decode_utf8(bytes.subrange(end as int, bytes.len() as int))
            },
            None => {
                let bytes = encode_utf8(base@);
                !(start <= end <= bytes.len() && is_char_boundary(bytes, start as int)
                    && is_char_boundary(bytes, end as int))
            },
        },
{
    broadcast use {encode_utf8_valid_utf8, encode_utf8_decode_utf8};

    let len: usize = base.as_bytes().len();
    if start > end || end > len || !base.is_char_boundary(start) || !base.is_char_boundary(end) {
        return None;
    }
    let (front, tail) = base.split_at(end);
    proof {
        let bytes = encode_utf8(base@);
        assert(encode_utf8(front@) == bytes.subrange(0, end as int));
        vstd::utf8::valid_utf8_split(bytes, end as int);
        assert(is_char_boundary(encode_utf8(front@), start as int)) by {
            lemma_boundary_in_prefix(bytes, start as int, end as int);
        }
    }
    let (head, middle) = front.split_at(start);
    proof {
        let bytes = encode_utf8(base@);
        let first = bytes.subrange(0, end as int);
        assert(first.subrange(0, start as int) =~= bytes.subrange(0, start as int));
        assert(first.subrange(start as int, first.len() as int) =~= bytes.subrange(
            start as int,
            end as int,
        ));
        assert(decode_utf8(encode_utf8(head@)) == head@);
        assert(decode_utf8(encode_utf8(middle@)) == middle@);
        assert(decode_utf8(encode_utf8(tail@)) == tail@);
    }
    Some((head, middle, tail))
}

/// An offset between two characters of a text is between two characters
/// of every prefix of the text that reaches it.
proof fn lemma_boundary_in_prefix(bytes: Seq<u8>, start: int, end: int)
    requires
        valid_utf8(bytes),
        0 <= start <= end <= bytes.len(),
        is_char_boundary(bytes, start),
        is_char_boundary(bytes, end),
    ensures
        is_char_boundary(bytes.subrange(0, end), start),
    decreases start,
{
    let prefix = bytes.subrange(0, end);
    valid_utf8_split(bytes, end);
    if start != 0 {
        reveal_with_fuel(is_char_boundary, 2);
        let width = length_of_first_scalar(bytes);
        assert(start >= width);
        assert(end >= width);
        assert(length_of_first_scalar(prefix) == width);
        let rest = pop_first_scalar(bytes);
        assert(pop_first_scalar(prefix) =~= rest.subrange(0, end - width));
        lemma_boundary_in_prefix(rest, start - width, end - width);
    }
}

/// The part of `base` between two byte offsets.
pub fn slice(base: &str, start: usize, end: usize) -> (r: Option<String>)
    ensures
        crate::paths::text_of(r) == slice_at_offsets(base@, start as int, end as int),
{
    match cut(base, start, end) {
        Some((_, middle, _)) => Some(middle.to_owned()),
        None => None,
    }
}

/// `base` with the part between two byte offsets replaced by `with`.
pub fn splice(base: &str, start: usize, end: usize, with: &str) -> (r: Option<String>)
    ensures
        crate::paths::text_of(r) == splice_at_offsets(base@, start as int, end as int, with@),
{
    match cut(base, start, end) {
        Some((head, _, tail)) => {
            let mut out = head.to_owned();
            out.append(with);
            out.append(tail);
            Some(out)
        },
        None => None,
    }
}

impl Pattern {
    /// The pattern with this text, unless the text is no regular
    /// expression.
    pub fn new(source: &str) -> (r: Result<Self, Error>)
        ensures
            r is Ok == pattern_compiles(source@),
            match r {
                Ok(p) => p@ == source@,
                Err(e) => e@ == ErrorView::InvalidPattern(source@),
            },
    {
        if compiles(source) {
            Ok(Pattern { source: source.to_owned() })
        } else {
            Err(Error::InvalidPattern(source.to_owned()))
        }
    }

    /// The text of the pattern.
    pub fn as_str(&self) -> (r: &str)
        ensures
            r@ == self@,
    {
        self.source.as_str()
    }

    /// Whether the pattern matches somewhere in `input`.
    pub fn matches(&self, input: &str) -> (r: bool)
        ensures
            r == (pattern_found(self@, input@) == Some(true)),
    {
        match is_match(self.source.as_str(), input) {
            Some(found) => found,
            None => false,
        }
    }

    /// What the first match of the pattern in `input` matched.
    pub fn matched(&self, input: &str) -> (r: Option<String>)
        ensures
            crate::paths::text_of(r) == matched_text(self@, input@),
    {
        match find(self.source.as_str(), input) {
            Some((start, end)) => slice(input, start, end),
            None => None,
        }
    }

    /// Replaces the selected matches of the pattern in `input`.
    pub fn replace(&self, selection: Selection, input: String, replacement: &str) -> (r: String)
        ensures
            r@ == pattern_replaced(selection, self@, input@, replacement@),
    {
        match selection {
            Selection::First => match replace_first(
                self.source.as_str(),
                input.as_str(),
                replacement,
            ) {
                Some(s) => s,
                None => input,
            },
            Selection::Last => match find_last(self.source.as_str(), input.as_str()) {
                Some((start, end)) => match splice(input.as_str(), start, end, replacement) {
                    Some(s) => s,
                    None => input,
                },
                None => input,
            },
            Selection::All => match replace_every(
                self.source.as_str(),
                input.as_str(),
                replacement,
            ) {
                Some(s) => s,
                None => input,
            },
        }
    }

    /// `text` inserted into `base` directly before the first match of the
    /// pattern, or directly after it.
    pub fn insert(&self, base: &str, text: &str, after: bool) -> (r: Option<String>)
        ensures
            crate::paths::text_of(r) == inserted_at_match(self@, base@, text@, after),
    {
        match find(self.source.as_str(), base) {
            Some((start, end)) => {
                let at = if after {
                    end
                } else {
                    start
                };
                splice(base, at, at, text)
            },
            None => None,
        }
    }
}

/// An input with the selected matches of a pattern replaced. References
/// to capture groups in the replacement are expanded where the first or
/// every match is replaced, and taken as they are where the last one is.
/// The input stays as it is where nothing matches.
pub open spec fn pattern_replaced(
    selection: Selection,
    source: Seq<char>,
    input: Seq<char>,
    replacement: Seq<char>,
) -> Seq<char> {
    match selection {
        Selection::First => match first_replaced(source, input, replacement) {
            Some(s) => s,
            None => input,
        },
        Selection::Last => match last_match_span(source, input) {
            Some((start, end)) => match splice_at_offsets(input, start, end, replacement) {
                Some(s) => s,
                None => input,
            },
            None => input,
        },
        Selection::All => match every_replaced(source, input, replacement) {
            Some(s) => s,
            None => input,
        },
    }
}

/// What the first match of a pattern in an input matched.
pub open spec fn matched_text(source: Seq<char>, input: Seq<char>) -> Option<Seq<char>> {
    match match_span(source, input) {
        Some((start, end)) => slice_at_offsets(input, start, end),
        None => None,
    }
}

/// `text` inserted into `base` directly before the first match of a
/// pattern, or directly after it; nothing where the pattern does not
/// match.
pub open spec fn inserted_at_match(
    source: Seq<char>,
    base: Seq<char>,
    text: Seq<char>,
    after: bool,
) -> Option<Seq<char>> {
    match match_span(source, base) {
        Some((start, end)) => {
            let at = if after {
                end
            } else {
                start
            };
            splice_at_offsets(base, at, at, text)
        },
        None => None,
    }
}

} // verus!
