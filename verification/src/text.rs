//! Searching, splitting and trimming byte strings.

use vstd::prelude::*;
use vstd::slice::*;

verus! {

/// Whether `needle` lies in `hay` at position `at`.
pub open spec fn occurs_at(hay: Seq<u8>, needle: Seq<u8>, at: int) -> bool {
    &&& 0 <= at
    &&& at + needle.len() <= hay.len()
    &&& hay.subrange(at, at + needle.len()) == needle
}

/// The first position at or behind `from` at which `needle` lies in `hay`.
pub open spec fn first_occurrence(hay: Seq<u8>, needle: Seq<u8>, from: int) -> Option<int>
    decreases hay.len() - from,
{
    if from < 0 || from + needle.len() > hay.len() {
        None
    } else if occurs_at(hay, needle, from) {
        Some(from)
    } else if from >= hay.len() {
        None
    } else {
        first_occurrence(hay, needle, from + 1)
    }
}

/// Whether `needle` lies somewhere in `hay`.
pub open spec fn contains(hay: Seq<u8>, needle: Seq<u8>) -> bool {
    first_occurrence(hay, needle, 0) is Some
}

/// `hay` cut in two at the first occurrence of `needle`, which belongs to
/// neither part.
pub open spec fn split_once(hay: Seq<u8>, needle: Seq<u8>) -> Option<(Seq<u8>, Seq<u8>)> {
    match first_occurrence(hay, needle, 0) {
        Some(i) => Some((hay.subrange(0, i), hay.subrange(i + needle.len(), hay.len() as int))),
        None => None,
    }
}

/// The pieces of `s` between the occurrences of the byte `sep`. There is
/// one piece more than there are separators, so an empty `s` has one empty
/// piece.
pub open spec fn split(s: Seq<u8>, sep: u8) -> Seq<Seq<u8>>
    decreases s.len(),
{
    if s.len() == 0 {
        seq![Seq::empty()]
    } else {
        let before = split(s.drop_last(), sep);
        if s.last() == sep {
            before.push(Seq::empty())
        } else {
            before.drop_last().push(before.last().push(s.last()))
        }
    }
}

/// Whether `b` is a white-space character of one byte: a blank, or one of
/// the control characters from tab to carriage return.
pub open spec fn is_space(b: u8) -> bool {
    b == 0x20 || (0x09 <= b <= 0x0d)
}

/// Whether `a b` is a white-space character of two bytes: U+0085 or U+00A0.
pub open spec fn is_space_pair(a: u8, b: u8) -> bool {
    a == 0xc2 && (b == 0x85 || b == 0xa0)
}

/// Whether `a b c` is a white-space character of three bytes: U+1680,
/// U+2000 to U+200A, U+2028, U+2029, U+202F, U+205F or U+3000.
pub open spec fn is_space_triple(a: u8, b: u8, c: u8) -> bool {
    ||| a == 0xe1 && b == 0x9a && c == 0x80
    ||| a == 0xe2 && b == 0x80 && (0x80 <= c <= 0x8a || c == 0xa8 || c == 0xa9 || c == 0xaf)
    ||| a == 0xe2 && b == 0x81 && c == 0x9f
    ||| a == 0xe3 && b == 0x80 && c == 0x80
}

/// The number of bytes of the white-space character that starts at `at`;
/// `0` where none starts there. White space is what Unicode gives the
/// property `White_Space`, in UTF-8.
pub open spec fn space_at(s: Seq<u8>, at: int) -> int {
    if at < 0 || at >= s.len() {
        0
    } else if is_space(s[at]) {
        1
    } else if at + 1 < s.len() && is_space_pair(s[at], s[at + 1]) {
        2
    } else if at + 2 < s.len() && is_space_triple(s[at], s[at + 1], s[at + 2]) {
        3
    } else {
        0
    }
}

/// The number of bytes of the white-space character that ends just before
/// `to` and starts at or behind `floor`; `0` where there is none.
pub open spec fn space_before(s: Seq<u8>, to: int, floor: int) -> int {
    if floor < 0 || to > s.len() {
        0
    } else if to - 1 >= floor && is_space(s[to - 1]) {
        1
    } else if to - 2 >= floor && is_space_pair(s[to - 2], s[to - 1]) {
        2
    } else if to - 3 >= floor && is_space_triple(s[to - 3], s[to - 2], s[to - 1]) {
        3
    } else {
        0
    }
}

/// The position behind the white space that starts at `from`.
pub open spec fn skip_spaces(s: Seq<u8>, from: int) -> int
    decreases s.len() - from,
{
    if space_at(s, from) > 0 {
        skip_spaces(s, from + space_at(s, from))
    } else {
        from
    }
}

/// The position at which the white space starts that ends just before
/// `to`, as far as it lies behind `floor`.
pub open spec fn skip_spaces_back(s: Seq<u8>, to: int, floor: int) -> int
    decreases to,
{
    if space_before(s, to, floor) > 0 {
        skip_spaces_back(s, to - space_before(s, to, floor), floor)
    } else {
        to
    }
}

/// `s` without the white space at its two ends.
pub open spec fn trim(s: Seq<u8>) -> Seq<u8> {
    let start = skip_spaces(s, 0);
    s.subrange(start, skip_spaces_back(s, s.len() as int, start))
}

/// Returns whether `needle` lies in `hay` at position `at`.
pub fn starts_at(hay: &[u8], at: usize, needle: &[u8]) -> (r: bool)
    ensures
        r == occurs_at(hay@, needle@, at as int),
{
    let len: usize = hay.len();
    if at > len || needle.len() > len - at {
        return false;
    }
    let mut i: usize = 0;
    while i < needle.len()
        invariant
            i <= needle@.len(),
            len == hay@.len(),
            at + needle@.len() <= hay@.len(),
            hay@.subrange(at as int, at + i) == needle@.subrange(0, i as int),
        decreases needle@.len() - i,
    {
        if hay[at + i] != needle[i] {
            proof {
                let window = hay@.subrange(at as int, at + needle@.len());
                assert(window[i as int] != needle@[i as int]);
            }
            return false;
        }
        i += 1;
        assert(hay@.subrange(at as int, at + i) =~= needle@.subrange(0, i as int));
    }
    assert(needle@.subrange(0, i as int) =~= needle@);
    true
}

/// Finds the first position at which `needle` lies in `hay`.
pub fn find(hay: &[u8], needle: &[u8]) -> (r: Option<usize>)
    ensures
        match r {
            Some(i) => first_occurrence(hay@, needle@, 0) == Some(i as int) && occurs_at(
                hay@,
                needle@,
                i as int,
            ),
            None => first_occurrence(hay@, needle@, 0) is None,
        },
{
    if needle.len() > hay.len() {
        return None;
    }
    let last: usize = hay.len() - needle.len();
    let mut i: usize = 0;
    loop
        invariant
            i <= last,
            last + needle@.len() == hay@.len(),
            first_occurrence(hay@, needle@, 0) == first_occurrence(hay@, needle@, i as int),
        decreases last - i,
    {
        if starts_at(hay, i, needle) {
            return Some(i);
        }
        if i == last {
            proof {
                assert(first_occurrence(hay@, needle@, i + 1) is None);
            }
            return None;
        }
        i += 1;
    }
}

/// Copies `s[from..to]` into a vector of its own.
pub(crate) fn copy_of(s: &[u8], from: usize, to: usize) -> (v: Vec<u8>)
    requires
        from <= to <= s@.len(),
    ensures
        v@ == s@.subrange(from as int, to as int),
{
    slice_to_vec(slice_subrange(s, from, to))
}

/// Appends `src` to `out`.
pub fn append(out: &mut Vec<u8>, src: &[u8])
    ensures
        final(out)@ == old(out)@ + src@,
{
    let mut i: usize = 0;
    while i < src.len()
        invariant
            i <= src@.len(),
            out@ == old(out)@ + src@.subrange(0, i as int),
        decreases src@.len() - i,
    {
        out.push(src[i]);
        i += 1;
        assert(out@ =~= old(out)@ + src@.subrange(0, i as int));
    }
    assert(src@.subrange(0, i as int) =~= src@);
}

/// Cuts `hay` in two at the first occurrence of `needle`.
pub fn cut_once(hay: &[u8], needle: &[u8]) -> (r: Option<(Vec<u8>, Vec<u8>)>)
    ensures
        match r {
            Some((before, behind)) => split_once(hay@, needle@) == Some((before@, behind@)),
            None => split_once(hay@, needle@) is None,
        },
{
    let len: usize = hay.len();
    match find(hay, needle) {
        None => None,
        Some(i) => {
            let before = copy_of(hay, 0, i);
            let behind = copy_of(hay, i + needle.len(), len);
            Some((before, behind))
        },
    }
}

/// Cuts `s` into the pieces between the occurrences of the byte `sep`.
pub fn split_on(s: &[u8], sep: u8) -> (pieces: Vec<Vec<u8>>)
    ensures
        pieces@.len() >= 1,
        pieces@.map_values(|p: Vec<u8>| p@) == split(s@, sep),
{
    let mut pieces: Vec<Vec<u8>> = Vec::new();
    let mut current: Vec<u8> = Vec::new();
    let mut i: usize = 0;
    proof {
        assert(s@.take(0) =~= Seq::<u8>::empty());
        assert(pieces@.map_values(|p: Vec<u8>| p@).push(current@) =~= split(s@.take(0), sep));
    }
    while i < s.len()
        invariant
            i <= s@.len(),
            pieces@.map_values(|p: Vec<u8>| p@).push(current@) == split(s@.take(i as int), sep),
        decreases s@.len() - i,
    {
        let ghost done = pieces@.map_values(|p: Vec<u8>| p@);
        let ghost collected = current@;
        proof {
            assert(s@.take(i + 1).drop_last() =~= s@.take(i as int));
            assert(s@.take(i + 1).last() == s@[i as int]);
            assert(done.push(collected).drop_last() =~= done);
        }
        if s[i] == sep {
            pieces.push(current);
            current = Vec::new();
            proof {
                assert(pieces@.map_values(|p: Vec<u8>| p@) =~= done.push(collected));
            }
        } else {
            current.push(s[i]);
        }
        i += 1;
    }
    proof {
        assert(s@.take(i as int) =~= s@);
    }
    let ghost done = pieces@.map_values(|p: Vec<u8>| p@);
    let ghost collected = current@;
    pieces.push(current);
    proof {
        assert(pieces@.map_values(|p: Vec<u8>| p@) =~= done.push(collected));
    }
    pieces
}

/// Returns the number of bytes of the white-space character that starts at
/// `at`; `0` where none starts there.
pub fn space_len_at(s: &[u8], at: usize) -> (n: usize)
    ensures
        n == space_at(s@, at as int),
        at + n <= s@.len() || n == 0,
{
    let len: usize = s.len();
    if at >= len {
        return 0;
    }
    let a = s[at];
    if a == 0x20 || (0x09 <= a && a <= 0x0d) {
        return 1;
    }
    if len - at < 2 {
        return 0;
    }
    let b = s[at + 1];
    if a == 0xc2 && (b == 0x85 || b == 0xa0) {
        return 2;
    }
    if len - at < 3 {
        return 0;
    }
    let c = s[at + 2];
    if is_triple(a, b, c) {
        3
    } else {
        0
    }
}

/// Returns the number of bytes of the white-space character that ends just
/// before `to` and starts at or behind `floor`; `0` where there is none.
pub fn space_len_before(s: &[u8], to: usize, floor: usize) -> (n: usize)
    ensures
        n == space_before(s@, to as int, floor as int),
        floor + n <= to || n == 0,
{
    if to > s.len() || to <= floor {
        return 0;
    }
    let c = s[to - 1];
    if c == 0x20 || (0x09 <= c && c <= 0x0d) {
        return 1;
    }
    if to - floor < 2 {
        return 0;
    }
    let b = s[to - 2];
    if b == 0xc2 && (c == 0x85 || c == 0xa0) {
        return 2;
    }
    if to - floor < 3 {
        return 0;
    }
    if is_triple(s[to - 3], b, c) {
        3
    } else {
        0
    }
}

/// Returns whether `a b c` is a white-space character of three bytes.
fn is_triple(a: u8, b: u8, c: u8) -> (r: bool)
    ensures
        r == is_space_triple(a, b, c),
{
    a == 0xe1 && b == 0x9a && c == 0x80 || a == 0xe2 && b == 0x80 && (0x80 <= c && c <= 0x8a
        || c == 0xa8 || c == 0xa9 || c == 0xaf) || a == 0xe2 && b == 0x81 && c == 0x9f || a
        == 0xe3 && b == 0x80 && c == 0x80
}

/// Returns `s` without the white space at its two ends. White space is
/// what Unicode gives the property `White_Space`, in UTF-8.
pub fn trimmed(s: &[u8]) -> (r: Vec<u8>)
    ensures
        r@ == trim(s@),
{
    let len: usize = s.len();
    let mut start: usize = 0;
    let mut n: usize = space_len_at(s, start);
    while n > 0
        invariant
            start <= len == s@.len(),
            n == space_at(s@, start as int),
            start + n <= len,
            skip_spaces(s@, 0) == skip_spaces(s@, start as int),
        decreases len - start,
    {
        start += n;
        n = space_len_at(s, start);
    }
    let mut end: usize = len;
    n = space_len_before(s, end, start);
    while n > 0
        invariant
            start <= end <= len == s@.len(),
            n == space_before(s@, end as int, start as int),
            start + n <= end || n == 0,
            skip_spaces(s@, 0) == start,
            skip_spaces_back(s@, len as int, start as int) == skip_spaces_back(
                s@,
                end as int,
                start as int,
            ),
        decreases end,
    {
        end -= n;
        n = space_len_before(s, end, start);
    }
    copy_of(s, start, end)
}

/// Returns whether the two byte strings are equal.
pub fn same(a: &[u8], b: &[u8]) -> (r: bool)
    ensures
        r == (a@ == b@),
{
    if a.len() != b.len() {
        return false;
    }
    let r = starts_at(a, 0, b);
    proof {
        assert(a@.subrange(0, a@.len() as int) =~= a@);
    }
    r
}

} // verus!
