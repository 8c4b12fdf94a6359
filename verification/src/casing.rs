//! Changes of letter case.
//!
//! Unicode case mapping and the word-splitting case styles are the work of
//! `std` and of the `convert_case` crate. Their results are given names
//! here, so that contracts can speak of them; nothing else is known of them.
use convert_case::Casing;
use vstd::prelude::*;

verus! {

/// A case style that a string can be rewritten in: how its words are
/// capitalised and what joins them.
#[derive(Clone, Copy, PartialEq, Eq, Debug, Hash)]
pub enum Case {
    /// `MY VARIABLE NAME`
    Upper,
    /// `my variable name`
    Lower,
    /// `My Variable Name`
    Title,
    /// `mY vARIABLE nAME`
    Toggle,
    /// `myVariableName`
    Camel,
    /// `MyVariableName`
    Pascal,
    /// `my_variable_name`
    Snake,
    /// `MY_VARIABLE_NAME`
    UpperSnake,
    /// `my-variable-name`
    Kebab,
    /// `MY-VARIABLE-NAME`
    Cobol,
    /// `My-Variable-Name`
    Train,
    /// `myvariablename`
    Flat,
    /// `MYVARIABLENAME`
    UpperFlat,
    /// `mY vArIaBlE nAmE`
    Alternating,
}

/// The upper-case form of a string under Unicode's case mapping.
pub uninterp spec fn uppercase_of(s: Seq<char>) -> Seq<char>;

/// The lower-case form of a string under Unicode's case mapping.
pub uninterp spec fn lowercase_of(s: Seq<char>) -> Seq<char>;

/// A string rewritten in a case style.
pub uninterp spec fn case_converted(s: Seq<char>, case: Case) -> Seq<char>;

/// Calls `str::to_uppercase`. The contract only names the result: it is
/// the upper-case form of the input, whatever Unicode makes of it.
#[verifier::external_body]
pub(crate) fn to_uppercase(s: &str) -> (r: String)
    ensures
        r@ == uppercase_of(s@),
{
    s.to_uppercase()
}

/// Calls `str::to_lowercase`. The contract only names the result: it is
/// the lower-case form of the input, whatever Unicode makes of it.
#[verifier::external_body]
pub(crate) fn to_lowercase(s: &str) -> (r: String)
    ensures
        r@ == lowercase_of(s@),
{
    s.to_lowercase()
}

/// Calls `convert_case::Casing::to_case` with the style of the same name.
/// The contract only names the result: the input split into words and
/// rejoined in the given style, as that crate does it.
#[verifier::external_body]
pub(crate) fn to_case(s: &str, case: Case) -> (r: String)
    ensures
        r@ == case_converted(s@, case),
{
    let style = match case {
        Case::Upper => convert_case::Case::Upper, Case::Lower => convert_case::Case::Lower,
        Case::Title => convert_case::Case::Title, Case::Toggle => convert_case::Case::Toggle,
        Case::Camel => convert_case::Case::Camel, Case::Pascal => convert_case::Case::Pascal,
        Case::Snake => convert_case::Case::Snake,
        Case::UpperSnake => convert_case::Case::UpperSnake,
        Case::Kebab => convert_case::Case::Kebab, Case::Cobol => convert_case::Case::Cobol,
        Case::Train => convert_case::Case::Train, Case::Flat => convert_case::Case::Flat,
        Case::UpperFlat => convert_case::Case::UpperFlat,
        Case::Alternating => convert_case::Case::Alternating,
    };
    s.to_case(style)
}

} // verus!
