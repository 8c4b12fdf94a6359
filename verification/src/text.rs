//! Substring search and splicing over character sequences.
//!
//! Every value the rule language produces is a string, modelled as a
//! `Seq<char>`. The definitions here say what "the first occurrence",
//! "the last occurrence" and "every occurrence" of a marker mean, and the
//! executable functions are proved against them.
use vstd::prelude::*;
use vstd::utf8::*;

verus! {

/// `needle` occurs in `hay` starting at index `i`.
pub open spec fn occurs_at(hay: Seq<char>, needle: Seq<char>, i: int) -> bool {
    &&& 0 <= i
    &&& i + needle.len() <= hay.len()
    &&& hay.subrange(i, i + needle.len()) == needle
}

/// `needle` occurs somewhere in `hay`.
pub open spec fn occurs_in(hay: Seq<char>, needle: Seq<char>) -> bool {
    exists|i: int| occurs_at(hay, needle, i)
}

/// `i` is the leftmost index at which `needle` occurs in `hay`.
pub open spec fn is_first_occurrence(hay: Seq<char>, needle: Seq<char>, i: int) -> bool {
    &&& occurs_at(hay, needle, i)
    &&& forall|j: int| 0 <= j < i ==> !occurs_at(hay, needle, j)
}

/// `i` is the rightmost index at which `needle` occurs in `hay`.
pub open spec fn is_last_occurrence(hay: Seq<char>, needle: Seq<char>, i: int) -> bool {
    &&& occurs_at(hay, needle, i)
    &&& forall|j: int| i < j ==> !occurs_at(hay, needle, j)
}

/// The leftmost index at which `needle` occurs in `hay`, if it occurs at all.
pub open spec fn first_occurrence(hay: Seq<char>, needle: Seq<char>) -> Option<int> {
    if exists|i: int| is_first_occurrence(hay, needle, i) {
        Some(choose|i: int| is_first_occurrence(hay, needle, i))
    } else {
        None
    }
}

/// The rightmost index at which `needle` occurs in `hay`, if it occurs at all.
pub open spec fn last_occurrence(hay: Seq<char>, needle: Seq<char>) -> Option<int> {
    if exists|i: int| is_last_occurrence(hay, needle, i) {
        Some(choose|i: int| is_last_occurrence(hay, needle, i))
    } else {
        None
    }
}

/// `hay` with the `len` characters starting at `at` replaced by `with`.
pub open spec fn splice(hay: Seq<char>, at: int, len: int, with: Seq<char>) -> Seq<char> {
    hay.take(at) + with + hay.skip(at + len)
}

/// `hay` with the leftmost occurrence of `needle` replaced by `with`;
/// `hay` itself when `needle` does not occur.
pub open spec fn replace_first(hay: Seq<char>, needle: Seq<char>, with: Seq<char>) -> Seq<char> {
    match first_occurrence(hay, needle) {
        Some(i) => splice(hay, i, needle.len() as int, with),
        None => hay,
    }
}

/// `hay` with the rightmost occurrence of `needle` replaced by `with`;
/// `hay` itself when `needle` does not occur.
pub open spec fn replace_last(hay: Seq<char>, needle: Seq<char>, with: Seq<char>) -> Seq<char> {
    match last_occurrence(hay, needle) {
        Some(i) => splice(hay, i, needle.len() as int, with),
        None => hay,
    }
}

/// `with` placed before every character of `hay` and once more at its end.
pub open spec fn interleave(hay: Seq<char>, with: Seq<char>) -> Seq<char>
    decreases hay.len(),
{
    if hay.len() == 0 {
        with
    } else {
        with + seq![hay[0]] + interleave(hay.skip(1), with)
    }
}

/// `hay` with every occurrence of `needle` replaced by `with`, scanning
/// from the left and skipping past each replaced occurrence, so that
/// occurrences never overlap. An empty `needle` occurs before every
/// character and at the end. (An occurrence always lies within `hay`; the
/// test for it is there to show that the scan ends.)
pub open spec fn replace_all(hay: Seq<char>, needle: Seq<char>, with: Seq<char>) -> Seq<char>
    decreases hay.len(),
{
    if needle.len() == 0 {
        interleave(hay, with)
    } else {
        match first_occurrence(hay, needle) {
            Some(i) => if 0 <= i && i + needle.len() <= hay.len() {
                hay.take(i) + with + replace_all(hay.skip(i + needle.len()), needle, with)
            } else {
                hay
            },
            None => hay,
        }
    }
}

/// The part of `hay` to the left of the first occurrence of `marker`,
/// with the marker itself when `inclusive`; `hay` when there is none.
pub open spec fn left_of(hay: Seq<char>, marker: Seq<char>, inclusive: bool) -> Seq<char> {
    match first_occurrence(hay, marker) {
        Some(i) => hay.take(if inclusive { i + marker.len() } else { i }),
        None => hay,
    }
}

/// The part of `hay` to the right of the first occurrence of `marker`,
/// with the marker itself when `inclusive`; `hay` when there is none.
pub open spec fn right_of(hay: Seq<char>, marker: Seq<char>, inclusive: bool) -> Seq<char> {
    match first_occurrence(hay, marker) {
        Some(i) => hay.skip(if inclusive { i } else { i + marker.len() }),
        None => hay,
    }
}

/// `text` inserted directly before the first occurrence of `marker`.
pub open spec fn insert_before(hay: Seq<char>, marker: Seq<char>, text: Seq<char>) -> Option<
    Seq<char>,
> {
    match first_occurrence(hay, marker) {
        Some(i) => Some(splice(hay, i, 0, text)),
        None => None,
    }
}

/// `text` inserted directly after the first occurrence of `marker`.
pub open spec fn insert_after(hay: Seq<char>, marker: Seq<char>, text: Seq<char>) -> Option<
    Seq<char>,
> {
    match first_occurrence(hay, marker) {
        Some(i) => Some(splice(hay, i + marker.len(), 0, text)),
        None => None,
    }
}

/// The first occurrence is the one index that has no occurrence before it.
pub proof fn lemma_first_occurrence_unique(hay: Seq<char>, needle: Seq<char>, i: int)
    requires
        is_first_occurrence(hay, needle, i),
    ensures
        first_occurrence(hay, needle) == Some(i),
{
    let j = choose|j: int| is_first_occurrence(hay, needle, j);
    assert(is_first_occurrence(hay, needle, j));
    if j < i {
        assert(!occurs_at(hay, needle, j));
    }
    if i < j {
        assert(!occurs_at(hay, needle, i));
    }
}

/// The last occurrence is the one index that has no occurrence after it.
pub proof fn lemma_last_occurrence_unique(hay: Seq<char>, needle: Seq<char>, i: int)
    requires
        is_last_occurrence(hay, needle, i),
    ensures
        last_occurrence(hay, needle) == Some(i),
{
    let j = choose|j: int| is_last_occurrence(hay, needle, j);
    assert(is_last_occurrence(hay, needle, j));
    if j < i {
        assert(!occurs_at(hay, needle, i));
    }
    if i < j {
        assert(!occurs_at(hay, needle, j));
    }
}

/// Where nothing occurs there is neither a first nor a last occurrence.
pub proof fn lemma_no_occurrence(hay: Seq<char>, needle: Seq<char>)
    requires
        !occurs_in(hay, needle),
    ensures
        first_occurrence(hay, needle) is None,
        last_occurrence(hay, needle) is None,
{
    assert forall|i: int| !is_first_occurrence(hay, needle, i) by {
        assert(!occurs_at(hay, needle, i));
    }
    assert forall|i: int| !is_last_occurrence(hay, needle, i) by {
        assert(!occurs_at(hay, needle, i));
    }
}

/// An occurrence in the part of `hay` after `start` is an occurrence in
/// `hay`, shifted by `start`.
pub proof fn lemma_occurs_at_skip(hay: Seq<char>, needle: Seq<char>, start: int, i: int)
    requires
        0 <= start <= hay.len(),
        0 <= i,
    ensures
        occurs_at(hay.skip(start), needle, i) == occurs_at(hay, needle, start + i),
{
    if i + needle.len() <= hay.len() - start {
        assert(hay.skip(start).subrange(i, i + needle.len()) =~= hay.subrange(
            start + i,
            start + i + needle.len(),
        ));
    }
}

/// The characters of a string, in order.
pub fn chars_of(s: &str) -> (r: Vec<char>)
    ensures
        r@ == s@,
{
    let mut out: Vec<char> = Vec::new();
    for c in it: s.chars()
        invariant
            it.seq() == s@,
            out@ == s@.take(it.index() as int),
    {
        out.push(c);
    }
    out
}

/// `String::push`: the character is appended to the string, and nothing
/// else of the string changes.
pub assume_specification[ String::push ](s: &mut String, c: char)
    ensures
        final(s)@ == old(s)@.push(c),
;

/// The string made of the characters `v[from..to]`, appended to `out`.
pub fn push_range(out: &mut String, v: &Vec<char>, from: usize, to: usize)
    requires
        from <= to <= v.len(),
    ensures
        final(out)@ == old(out)@ + v@.subrange(from as int, to as int),
{
    let mut i: usize = from;
    while i < to
        invariant
            from <= i <= to <= v.len(),
            out@ == old(out)@ + v@.subrange(from as int, i as int),
        decreases to - i,
    {
        out.push(v[i]);
        i += 1;
        assert(v@.subrange(from as int, i as int) =~= v@.subrange(from as int, i as int - 1).push(
            v@[i as int - 1],
        ));
    }
}

/// The string made of the given characters.
pub fn string_of(v: &Vec<char>) -> (r: String)
    ensures
        r@ == v@,
{
    let mut out = String::new();
    push_range(&mut out, v, 0, v.len());
    assert(v@.subrange(0, v@.len() as int) =~= v@);
    out
}

/// Whether `needle` occurs in `hay` at index `i`.
pub fn occurs_at_index(hay: &Vec<char>, needle: &Vec<char>, i: usize) -> (r: bool)
    ensures
        r == occurs_at(hay@, needle@, i as int),
{
    if needle.len() > hay.len() || i > hay.len() - needle.len() {
        return false;
    }
    let mut k: usize = 0;
    while k < needle.len()
        invariant
            k <= needle.len(),
            i + needle.len() <= hay.len(),
            forall|j: int| 0 <= j < k ==> hay@[i + j] == needle@[j],
        decreases needle.len() - k,
    {
        if hay[i + k] != needle[k] {
            assert(hay@.subrange(i as int, i + needle.len())[k as int] != needle@[k as int]);
            return false;
        }
        k += 1;
    }
    assert(hay@.subrange(i as int, i + needle.len()) =~= needle@);
    true
}

/// The leftmost index at or after `start` at which `needle` occurs in `hay`.
pub fn find_from(hay: &Vec<char>, needle: &Vec<char>, start: usize) -> (r: Option<usize>)
    ensures
        match r {
            Some(i) => start <= i && occurs_at(hay@, needle@, i as int) && forall|j: int|
                start <= j < i ==> !occurs_at(hay@, needle@, j),
            None => forall|j: int| start <= j ==> !occurs_at(hay@, needle@, j),
        },
{
    if needle.len() > hay.len() {
        return None;
    }
    let last: usize = hay.len() - needle.len();
    let mut i: usize = start;
    while i <= last
        invariant
            start <= i,
            last == hay.len() - needle.len(),
            forall|j: int| start <= j < i ==> !occurs_at(hay@, needle@, j),
        decreases last + 1 - i,
    {
        if occurs_at_index(hay, needle, i) {
            return Some(i);
        }
        if i == last {
            return None;
        }
        i += 1;
    }
    None
}

/// The leftmost index at which `needle` occurs in `hay`.
pub fn find_first(hay: &Vec<char>, needle: &Vec<char>) -> (r: Option<usize>)
    ensures
        match r {
            Some(i) => first_occurrence(hay@, needle@) == Some(i as int) && i + needle.len()
                <= hay.len(),
            None => first_occurrence(hay@, needle@) is None,
        },
        r is Some == occurs_in(hay@, needle@),
{
    let r = find_from(hay, needle, 0);
    proof {
        match r {
            Some(i) => {
                lemma_first_occurrence_unique(hay@, needle@, i as int);
            },
            None => {
                lemma_no_occurrence(hay@, needle@);
            },
        }
    }
    r
}

/// The rightmost index at which `needle` occurs in `hay`.
pub fn find_last(hay: &Vec<char>, needle: &Vec<char>) -> (r: Option<usize>)
    ensures
        match r {
            Some(i) => last_occurrence(hay@, needle@) == Some(i as int) && i + needle.len()
                <= hay.len(),
            None => last_occurrence(hay@, needle@) is None,
        },
        r is Some == occurs_in(hay@, needle@),
{
    if needle.len() > hay.len() {
        proof {
            lemma_no_occurrence(hay@, needle@);
        }
        return None;
    }
    let mut i: usize = hay.len() - needle.len();
    loop
        invariant
            i + needle.len() <= hay.len(),
            forall|j: int| i < j ==> !occurs_at(hay@, needle@, j),
        decreases i,
    {
        if occurs_at_index(hay, needle, i) {
            proof {
                lemma_last_occurrence_unique(hay@, needle@, i as int);
            }
            return Some(i);
        }
        if i == 0 {
            proof {
                lemma_no_occurrence(hay@, needle@);
            }
            return None;
        }
        i -= 1;
    }
}

/// `hay` with the `len` characters from `at` on replaced by `with`.
pub fn splice_chars(hay: &Vec<char>, at: usize, len: usize, with: &Vec<char>) -> (r: String)
    requires
        at + len <= hay.len(),
    ensures
        r@ == splice(hay@, at as int, len as int, with@),
{
    let mut out = String::new();
    push_range(&mut out, hay, 0, at);
    push_range(&mut out, with, 0, with.len());
    push_range(&mut out, hay, at + len, hay.len());
    proof {
        assert(hay@.subrange(0, at as int) =~= hay@.take(at as int));
        assert(with@.subrange(0, with@.len() as int) =~= with@);
        assert(hay@.subrange(at + len, hay@.len() as int) =~= hay@.skip(at + len));
        assert(out@ =~= splice(hay@, at as int, len as int, with@));
    }
    out
}

/// Replaces the leftmost occurrence of `needle` in `hay` by `with`.
pub fn replace_first_in(hay: &str, needle: &str, with: &str) -> (r: String)
    ensures
        r@ == replace_first(hay@, needle@, with@),
{
    let h = chars_of(hay);
    let n = chars_of(needle);
    match find_first(&h, &n) {
        Some(i) => splice_chars(&h, i, n.len(), &chars_of(with)),
        None => hay.to_owned(),
    }
}

/// Replaces the rightmost occurrence of `needle` in `hay` by `with`.
pub fn replace_last_in(hay: &str, needle: &str, with: &str) -> (r: String)
    ensures
        r@ == replace_last(hay@, needle@, with@),
{
    let h = chars_of(hay);
    let n = chars_of(needle);
    match find_last(&h, &n) {
        Some(i) => splice_chars(&h, i, n.len(), &chars_of(with)),
        None => hay.to_owned(),
    }
}

/// Skipping `a` characters and then `b` more skips `a + b`.
proof fn lemma_skip_skip(s: Seq<char>, a: int, b: int)
    requires
        0 <= a,
        0 <= b,
        a + b <= s.len(),
    ensures
        s.skip(a).skip(b) == s.skip(a + b),
{
    assert(s.skip(a).skip(b) =~= s.skip(a + b));
}

/// Replaces every occurrence of `needle` in `hay` by `with`.
pub fn replace_all_in(hay: &str, needle: &str, with: &str) -> (r: String)
    ensures
        r@ == replace_all(hay@, needle@, with@),
{
    let h = chars_of(hay);
    let n = chars_of(needle);
    let w = chars_of(with);
    let mut out = String::new();
    let mut pos: usize = 0;
    assert(h@.skip(0) =~= h@);
    assert(out@ + replace_all(h@, n@, w@) =~= replace_all(h@, n@, w@));
    if n.len() == 0 {
        while pos < h.len()
            invariant
                pos <= h.len(),
                n@.len() == 0,
                replace_all(h@, n@, w@) == out@ + interleave(h@.skip(pos as int), w@),
            decreases h.len() - pos,
        {
            proof {
                lemma_skip_skip(h@, pos as int, 1);
                assert(h@.skip(pos as int)[0] == h@[pos as int]);
            }
            let ghost before = out@;
            push_range(&mut out, &w, 0, w.len());
            out.push(h[pos]);
            proof {
                assert(w@.subrange(0, w@.len() as int) =~= w@);
                assert(out@ + interleave(h@.skip(pos + 1), w@) =~= before + (w@ + seq![
                    h@[pos as int],
                ] + interleave(h@.skip(pos + 1), w@)));
            }
            pos += 1;
        }
        push_range(&mut out, &w, 0, w.len());
        proof {
            assert(w@.subrange(0, w@.len() as int) =~= w@);
            assert(h@.skip(pos as int).len() == 0);
        }
        return out;
    }
    loop
        invariant
            pos <= h.len(),
            n@.len() > 0,
            h@ == hay@,
            n@ == needle@,
            w@ == with@,
            replace_all(h@, n@, w@) == out@ + replace_all(h@.skip(pos as int), n@, w@),
        decreases h.len() - pos,
    {
        let ghost rest = h@.skip(pos as int);
        let ghost before = out@;
        match find_from(&h, &n, pos) {
            Some(i) => {
                proof {
                    lemma_occurs_at_skip(h@, n@, pos as int, i - pos);
                    assert forall|j: int| 0 <= j < i - pos implies !occurs_at(rest, n@, j) by {
                        lemma_occurs_at_skip(h@, n@, pos as int, j);
                    }
                    lemma_first_occurrence_unique(rest, n@, i - pos);
                    lemma_skip_skip(h@, pos as int, i - pos + n@.len());
                    assert(rest.take(i - pos) =~= h@.subrange(pos as int, i as int));
                }
                push_range(&mut out, &h, pos, i);
                push_range(&mut out, &w, 0, w.len());
                proof {
                    assert(w@.subrange(0, w@.len() as int) =~= w@);
                    assert(out@ + replace_all(h@.skip(i + n@.len()), n@, w@) =~= before + (
                    rest.take(i - pos) + w@ + replace_all(h@.skip(i + n@.len()), n@, w@)));
                }
                pos = i + n.len();
            },
            None => {
                proof {
                    assert forall|j: int| !occurs_at(rest, n@, j) by {
                        if 0 <= j {
                            lemma_occurs_at_skip(h@, n@, pos as int, j);
                        }
                    }
                    lemma_no_occurrence(rest, n@);
                    assert(replace_all(rest, n@, w@) == rest);
                    assert(h@.subrange(pos as int, h@.len() as int) =~= rest);
                }
                push_range(&mut out, &h, pos, h.len());
                return out;
            },
        }
    }
}

/// Keeps what stands to the left of the first occurrence of `marker`.
pub fn keep_left(hay: &str, marker: &str, inclusive: bool) -> (r: String)
    ensures
        r@ == left_of(hay@, marker@, inclusive),
{
    let h = chars_of(hay);
    let m = chars_of(marker);
    match find_first(&h, &m) {
        Some(i) => {
            let end: usize = if inclusive {
                i + m.len()
            } else {
                i
            };
            let mut out = String::new();
            push_range(&mut out, &h, 0, end);
            assert(out@ =~= h@.take(end as int));
            out
        },
        None => hay.to_owned(),
    }
}

/// Keeps what stands to the right of the first occurrence of `marker`.
pub fn keep_right(hay: &str, marker: &str, inclusive: bool) -> (r: String)
    ensures
        r@ == right_of(hay@, marker@, inclusive),
{
    let h = chars_of(hay);
    let m = chars_of(marker);
    match find_first(&h, &m) {
        Some(i) => {
            let start: usize = if inclusive {
                i
            } else {
                i + m.len()
            };
            let mut out = String::new();
            push_range(&mut out, &h, start, h.len());
            assert(out@ =~= h@.skip(start as int));
            out
        },
        None => hay.to_owned(),
    }
}

/// Inserts `text` directly before the first occurrence of `marker`.
pub fn insert_before_marker(hay: &str, marker: &str, text: &str) -> (r: Option<String>)
    ensures
        r is Some == occurs_in(hay@, marker@),
        match r {
            Some(s) => insert_before(hay@, marker@, text@) == Some(s@),
            None => insert_before(hay@, marker@, text@) is None,
        },
{
    let h = chars_of(hay);
    let m = chars_of(marker);
    match find_first(&h, &m) {
        Some(i) => Some(splice_chars(&h, i, 0, &chars_of(text))),
        None => None,
    }
}

/// Inserts `text` directly after the first occurrence of `marker`.
pub fn insert_after_marker(hay: &str, marker: &str, text: &str) -> (r: Option<String>)
    ensures
        r is Some == occurs_in(hay@, marker@),
        match r {
            Some(s) => insert_after(hay@, marker@, text@) == Some(s@),
            None => insert_after(hay@, marker@, text@) is None,
        },
{
    let h = chars_of(hay);
    let m = chars_of(marker);
    match find_first(&h, &m) {
        Some(i) => Some(splice_chars(&h, i + m.len(), 0, &chars_of(text))),
        None => None,
    }
}

/// The two strings one after the other.
pub fn concat(a: &str, b: &str) -> (r: String)
    ensures
        r@ == a@ + b@,
{
    let mut out = a.to_owned();
    out.append(b);
    out
}

/// `text` inserted into `base` at byte offset `offset` of its UTF-8
/// encoding, an offset past the end counting as the end. There is no
/// result when the offset falls inside the encoding of a character.
pub open spec fn insert_at_offset(base: Seq<char>, offset: int, text: Seq<char>) -> Option<
    Seq<char>,
> {
    let bytes = encode_utf8(base);
    let at = if offset < bytes.len() {
        offset
    } else {
        bytes.len() as int
    };
    if is_char_boundary(bytes, at) {
        Some(
            decode_utf8(bytes.subrange(0, at)) + text + decode_utf8(
                bytes.subrange(at, bytes.len() as int),
            ),
        )
    } else {
        None
    }
}

/// An offset at or past the end of `base` appends `text`.
pub proof fn lemma_insert_at_offset_end(base: Seq<char>, offset: int, text: Seq<char>)
    requires
        offset >= encode_utf8(base).len(),
    ensures
        insert_at_offset(base, offset, text) == Some(base + text),
{
    broadcast use {
        encode_utf8_valid_utf8,
        encode_utf8_decode_utf8,
        is_char_boundary_start_end_of_seq,
    };

    let bytes = encode_utf8(base);
    let n = bytes.len() as int;
    assert(is_char_boundary(bytes, n));
    assert(bytes.subrange(0, n) =~= bytes);
    assert(bytes.subrange(n, n) =~= encode_utf8(Seq::<char>::empty()));
    assert(decode_utf8(bytes.subrange(n, n)) =~= Seq::<char>::empty());
    assert(base + text + Seq::<char>::empty() =~= base + text);
}

/// Offset zero puts `text` in front of `base`.
pub proof fn lemma_insert_at_offset_start(base: Seq<char>, text: Seq<char>)
    ensures
        insert_at_offset(base, 0, text) == Some(text + base),
{
    broadcast use {
        encode_utf8_valid_utf8,
        encode_utf8_decode_utf8,
        is_char_boundary_start_end_of_seq,
    };

    let bytes = encode_utf8(base);
    let n = bytes.len() as int;
    assert(is_char_boundary(bytes, 0));
    assert(bytes.subrange(0, n) =~= bytes);
    assert(bytes.subrange(0, 0) =~= encode_utf8(Seq::<char>::empty()));
    assert(decode_utf8(bytes.subrange(0, 0)) =~= Seq::<char>::empty());
    assert(Seq::<char>::empty() + text + base =~= text + base);
}

/// Inserts `text` into `base` at a byte offset, clamped to the length of
/// `base`.
pub fn insert_at(base: &str, offset: usize, text: &str) -> (r: Option<String>)
    ensures
        r is Some == is_char_boundary(
            encode_utf8(base@),
            if offset < encode_utf8(base@).len() {
                offset as int
            } else {
                encode_utf8(base@).len() as int
            },
        ),
        match r {
            Some(s) => insert_at_offset(base@, offset as int, text@) == Some(s@),
            None => insert_at_offset(base@, offset as int, text@) is None,
        },
{
    broadcast use {encode_utf8_valid_utf8, encode_utf8_decode_utf8};

    let len: usize = base.as_bytes().len();
    let at: usize = if offset < len {
        offset
    } else {
        len
    };
    if !base.is_char_boundary(at) {
        return None;
    }
    let (head, tail) = base.split_at(at);
    let mut out = head.to_owned();
    out.append(text);
    out.append(tail);
    proof {
        let bytes = encode_utf8(base@);
        assert(decode_utf8(encode_utf8(head@)) == head@);
        assert(decode_utf8(encode_utf8(tail@)) == tail@);
        assert(encode_utf8(head@) == bytes.subrange(0, at as int));
        assert(encode_utf8(tail@) == bytes.subrange(at as int, bytes.len() as int));
    }
    Some(out)
}

/// The character that stands for a digit below ten.
pub open spec fn digit_char(d: int) -> char {
    if d == 0 {
        '0'
    } else if d == 1 {
        '1'
    } else if d == 2 {
        '2'
    } else if d == 3 {
        '3'
    } else if d == 4 {
        '4'
    } else if d == 5 {
        '5'
    } else if d == 6 {
        '6'
    } else if d == 7 {
        '7'
    } else if d == 8 {
        '8'
    } else {
        '9'
    }
}

/// A number written in decimal, without sign or leading zeros.
pub open spec fn decimal(n: nat) -> Seq<char>
    decreases n,
{
    if n < 10 {
        seq![digit_char(n as int)]
    } else {
        decimal(n / 10).push(digit_char((n % 10) as int))
    }
}

/// The character of one decimal digit.
pub fn digit_of(d: usize) -> (c: char)
    requires
        d < 10,
    ensures
        c == digit_char(d as int),
{
    if d == 0 {
        '0'
    } else if d == 1 {
        '1'
    } else if d == 2 {
        '2'
    } else if d == 3 {
        '3'
    } else if d == 4 {
        '4'
    } else if d == 5 {
        '5'
    } else if d == 6 {
        '6'
    } else if d == 7 {
        '7'
    } else if d == 8 {
        '8'
    } else {
        '9'
    }
}

/// Writes a number in decimal.
pub fn decimal_string(n: usize) -> (r: String)
    ensures
        r@ == decimal(n as nat),
{
    // Digits are produced from the least significant one upwards.
    let mut digits: Vec<char> = Vec::new();
    let mut rest: usize = n;
    while rest >= 10
        invariant
            decimal(n as nat) == decimal(rest as nat) + digits@.reverse(),
        decreases rest,
    {
        let ghost before = digits@;
        digits.push(digit_of(rest % 10));
        proof {
            assert(digits@.reverse() =~= seq![digit_char((rest % 10) as int)] + before.reverse());
            assert(decimal(rest as nat) =~= decimal((rest / 10) as nat) + seq![
                digit_char((rest % 10) as int),
            ]);
        }
        rest = rest / 10;
    }
    let mut out = String::new();
    out.push(digit_of(rest));
    let mut i: usize = digits.len();
    while i > 0
        invariant
            i <= digits.len(),
            out@ == decimal(rest as nat) + digits@.reverse().take(digits.len() - i),
        decreases i,
    {
        i -= 1;
        out.push(digits[i]);
        proof {
            let r = digits@.reverse();
            assert(r.take(digits.len() - i) =~= r.take(digits.len() - i - 1).push(
                digits@[i as int],
            ));
        }
    }
    assert(digits@.reverse().take(digits.len() as int) =~= digits@.reverse());
    out
}

} // verus!
