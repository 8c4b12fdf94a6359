//! File paths, held as strings.
//!
//! A path is a `String`; how it falls into components is decided by
//! `std::path` for the platform the crate is built for. The results of
//! those calls are given names here, and the rules that `std` documents in
//! terms of the file name alone (what an extension is) are stated and
//! proved over them.
use std::path::{Path, PathBuf};
use vstd::prelude::*;

verus! {

/// How one path stands to another in the order of paths.
#[derive(Clone, Copy, PartialEq, Eq, Structural, Debug, Hash)]
pub enum Rank {
    Before,
    Same,
    After,
}

/// The final component of a path, where it is the name of a file or
/// directory: there is none for an empty path, a root, or a path that ends
/// in `..`.
pub uninterp spec fn file_name_of(path: Seq<char>) -> Option<Seq<char>>;

/// A path with its file name replaced, or with the name added where it had
/// none.
pub uninterp spec fn with_file_name(path: Seq<char>, name: Seq<char>) -> Seq<char>;

/// A path with the extension of its file name replaced, added or, for an
/// empty extension, removed.
pub uninterp spec fn with_extension(path: Seq<char>, extension: Seq<char>) -> Seq<char>;

/// Where path `a` stands relative to path `b` when paths are compared
/// component by component.
pub uninterp spec fn path_rank(a: Seq<char>, b: Seq<char>) -> Rank;

/// The view of an optional string.
pub open spec fn text_of(value: Option<String>) -> Option<Seq<char>> {
    match value {
        Some(s) => Some(s@),
        None => None,
    }
}

/// A character that separates the components of a path on some platform.
pub open spec fn is_separator(c: char) -> bool {
    c == '/' || c == '\\'
}

/// No character of `s` separates path components.
pub open spec fn separator_free(s: Seq<char>) -> bool {
    forall|i: int| 0 <= i < s.len() ==> !is_separator(#[trigger] s[i])
}

/// Calls `Path::file_name`. The contract only names the result.
#[verifier::external_body]
pub(crate) fn file_name(path: &str) -> (r: Option<String>)
    ensures
        text_of(r) == file_name_of(path@),
{
    let name = Path::new(path).file_name()?;
    Some(name.to_str()?.to_owned())
}

/// Calls `PathBuf::set_file_name` on a copy of `path`. The contract only
/// names the result.
#[verifier::external_body]
pub(crate) fn set_file_name(path: &str, name: &str) -> (r: String)
    ensures
        r@ == with_file_name(path@, name@),
{
    let mut buffer = PathBuf::from(path);
    buffer.set_file_name(name);
    buffer.to_string_lossy().into_owned()
}

/// Calls `PathBuf::set_extension` on a copy of `path`. That function
/// panics on an extension that holds a path separator, so such an
/// extension is not accepted. The contract only names the result.
#[verifier::external_body]
pub(crate) fn set_extension(path: &str, extension: &str) -> (r: String)
    requires
        separator_free(extension@),
    ensures
        r@ == with_extension(path@, extension@),
{
    let mut buffer = PathBuf::from(path);
    buffer.set_extension(extension);
    buffer.to_string_lossy().into_owned()
}

/// Calls `Path::cmp`, the total order of paths by their components. The
/// contract only names the result.
#[verifier::external_body]
pub(crate) fn rank(a: &str, b: &str) -> (r: Rank)
    ensures
        r == path_rank(a@, b@),
{
    match Path::new(a).cmp(Path::new(b)) {
        core::cmp::Ordering::Less => Rank::Before,
        core::cmp::Ordering::Equal => Rank::Same,
        core::cmp::Ordering::Greater => Rank::After,
    }
}

/// The extension of a file name: what follows its last dot, unless the
/// name has no dot or its only dot is its first character.
pub open spec fn extension_of_name(name: Seq<char>) -> Option<Seq<char>> {
    if exists|i: int| is_last_dot(name, i) {
        let dot = choose|i: int| is_last_dot(name, i);
        if dot == 0 {
            None
        } else {
            Some(name.skip(dot + 1))
        }
    } else {
        None
    }
}

/// `i` is the index of the last dot in `name`.
pub open spec fn is_last_dot(name: Seq<char>, i: int) -> bool {
    &&& 0 <= i < name.len()
    &&& name[i] == '.'
    &&& forall|j: int| i < j < name.len() ==> name[j] != '.'
}

/// The extension of a path: that of its file name.
pub open spec fn extension_of(path: Seq<char>) -> Option<Seq<char>> {
    match file_name_of(path) {
        Some(name) => extension_of_name(name),
        None => None,
    }
}

/// The last dot of a name is the one index that is a dot with none after it.
pub proof fn lemma_last_dot_unique(name: Seq<char>, i: int)
    requires
        is_last_dot(name, i),
    ensures
        extension_of_name(name) == if i == 0 {
            None
        } else {
            Some(name.skip(i + 1))
        },
{
    let j = choose|j: int| is_last_dot(name, j);
    assert(is_last_dot(name, j));
    assert(i == j);
}

/// The extension of a file name.
pub fn name_extension(name: &str) -> (r: Option<String>)
    ensures
        text_of(r) == extension_of_name(name@),
{
    let chars = crate::text::chars_of(name);
    let mut i: usize = chars.len();
    while i > 0
        invariant
            i <= chars.len(),
            chars@ == name@,
            forall|j: int| i <= j < chars.len() ==> chars@[j] != '.',
        decreases i,
    {
        i -= 1;
        if chars[i] == '.' {
            proof {
                lemma_last_dot_unique(name@, i as int);
            }
            if i == 0 {
                return None;
            }
            let mut out = String::new();
            crate::text::push_range(&mut out, &chars, i + 1, chars.len());
            assert(out@ =~= name@.skip(i + 1));
            return Some(out);
        }
    }
    assert forall|j: int| !is_last_dot(name@, j) by {
        if 0 <= j < name@.len() {
            assert(chars@[j] != '.');
        }
    }
    None
}

/// The extension of the file that a path names.
pub fn extension(path: &str) -> (r: Option<String>)
    ensures
        text_of(r) == extension_of(path@),
{
    match file_name(path) {
        Some(name) => name_extension(name.as_str()),
        None => None,
    }
}

/// Whether any character of `s` separates path components.
pub fn has_separator(s: &str) -> (r: bool)
    ensures
        r == !separator_free(s@),
{
    let chars = crate::text::chars_of(s);
    let mut i: usize = 0;
    while i < chars.len()
        invariant
            i <= chars.len(),
            chars@ == s@,
            forall|j: int| 0 <= j < i ==> !is_separator(#[trigger] chars@[j]),
        decreases chars.len() - i,
    {
        if chars[i] == '/' || chars[i] == '\\' {
            assert(is_separator(s@[i as int]));
            return true;
        }
        i += 1;
    }
    false
}

} // verus!
