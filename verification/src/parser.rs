//! The fragment parser: a format string becomes an ordered sequence of
//! literal text and placeholders.
//!
//! ```text
//! format      := ( text | "{{" | "}}" | placeholder )*
//! placeholder := "{" [ ":" specifier ] "}"
//! specifier   := "x" | "X" | "ip" | "i" | "mac" | "MAC"
//! ```
//!
//! `{{` and `}}` stand for one literal brace. Text that touches is one
//! literal fragment, and no literal fragment is empty.

use vstd::prelude::*;
use vstd::slice::*;
use vstd::string::StringSliceAdditionalSpecFns;
use crate::hint::DisplayHint;

verus! {

/// The byte `{`.
pub const OPEN: u8 = 0x7b;

/// The byte `}`.
pub const CLOSE: u8 = 0x7d;

/// The byte `:`.
pub const COLON: u8 = 0x3a;

/// A parsed piece of a format string.
#[derive(Clone, Debug, PartialEq, Eq)]
pub enum Fragment {
    /// Literal text, with its braces unescaped.
    Literal(Vec<u8>),
    /// A placeholder with its display hint.
    Parameter(DisplayHint),
}

/// A fragment as a mathematical value.
pub enum FragmentView {
    Literal(Seq<u8>),
    Parameter(DisplayHint),
}

impl View for Fragment {
    type V = FragmentView;

    open spec fn view(&self) -> FragmentView {
        match self {
            Fragment::Literal(text) => FragmentView::Literal(text@),
            Fragment::Parameter(hint) => FragmentView::Parameter(*hint),
        }
    }
}

/// The fragments of a vector as mathematical values.
pub open spec fn fragments_view(fragments: Seq<Fragment>) -> Seq<FragmentView> {
    fragments.map_values(|f: Fragment| f@)
}

/// Why a format string was rejected. Each error names the byte offset of
/// the brace that it is about.
#[derive(Clone, Copy, Debug, PartialEq, Eq, Structural)]
pub enum ParseError {
    /// A `{` opens a placeholder that no `}` closes.
    UnterminatedPlaceholder { at: usize },
    /// A `}` stands alone: a literal `}` is written `}}`.
    UnmatchedClose { at: usize },
    /// A placeholder holds a `:` and no specifier behind it.
    MissingHint { at: usize },
    /// A placeholder holds a specifier that names no hint.
    UnknownHint { at: usize },
    /// A placeholder holds something that does not start with `:`.
    UnexpectedContent { at: usize },
}

/// What is wrong with the content of a placeholder.
pub enum HintError {
    Missing,
    Unknown,
    Unexpected,
}

/// The hint that the content of a placeholder asks for.
pub open spec fn hint_of(content: Seq<u8>) -> Result<DisplayHint, HintError> {
    if content.len() == 0 {
        Ok(DisplayHint::Default)
    } else if content[0] != COLON {
        Err(HintError::Unexpected)
    } else {
        let name = content.subrange(1, content.len() as int);
        if name.len() == 0 {
            Err(HintError::Missing)
        } else if name == seq![0x78u8] {
            Ok(DisplayHint::LowerHex)
        } else if name == seq![0x58u8] {
            Ok(DisplayHint::UpperHex)
        } else if name == seq![0x69u8] || name == seq![0x69u8, 0x70u8] {
            Ok(DisplayHint::Ip)
        } else if name == seq![0x6du8, 0x61u8, 0x63u8] {
            Ok(DisplayHint::LowerMac)
        } else if name == seq![0x4du8, 0x41u8, 0x43u8] {
            Ok(DisplayHint::UpperMac)
        } else {
            Err(HintError::Unknown)
        }
    }
}

/// The error for a placeholder that opens at `at`.
pub open spec fn placeholder_error(e: HintError, at: usize) -> ParseError {
    match e {
        HintError::Missing => ParseError::MissingHint { at },
        HintError::Unknown => ParseError::UnknownHint { at },
        HintError::Unexpected => ParseError::UnexpectedContent { at },
    }
}

/// What the scanner sees: one byte of literal text, or a placeholder.
pub enum Piece {
    Byte(u8),
    Param(DisplayHint),
}

/// The position of the first `}` at or behind `from`.
pub open spec fn find_close(s: Seq<u8>, from: int) -> Option<int>
    decreases s.len() - from,
{
    if from < 0 || from >= s.len() {
        None
    } else if s[from] == CLOSE {
        Some(from)
    } else {
        find_close(s, from + 1)
    }
}

/// `scanned` with `piece` in front, where there is no error.
pub open spec fn with_first(piece: Piece, scanned: Result<Seq<Piece>, ParseError>) -> Result<
    Seq<Piece>,
    ParseError,
> {
    match scanned {
        Ok(rest) => Ok(seq![piece] + rest),
        Err(e) => Err(e),
    }
}

/// The pieces of `s` from position `i` on, or the first error.
pub open spec fn scan(s: Seq<u8>, i: int) -> Result<Seq<Piece>, ParseError>
    decreases s.len() - i,
{
    if i < 0 || i >= s.len() {
        Ok(Seq::empty())
    } else if s[i] == OPEN {
        if i + 1 < s.len() && s[i + 1] == OPEN {
            with_first(Piece::Byte(OPEN), scan(s, i + 2))
        } else {
            match find_close(s, i + 1) {
                Some(j) => if i < j < s.len() {
                    match hint_of(s.subrange(i + 1, j)) {
                        Ok(hint) => with_first(Piece::Param(hint), scan(s, j + 1)),
                        Err(e) => Err(placeholder_error(e, i as usize)),
                    }
                } else {
                    Err(ParseError::UnterminatedPlaceholder { at: i as usize })
                },
                None => Err(ParseError::UnterminatedPlaceholder { at: i as usize }),
            }
        }
    } else if s[i] == CLOSE {
        if i + 1 < s.len() && s[i + 1] == CLOSE {
            with_first(Piece::Byte(CLOSE), scan(s, i + 2))
        } else {
            Err(ParseError::UnmatchedClose { at: i as usize })
        }
    } else {
        with_first(Piece::Byte(s[i]), scan(s, i + 1))
    }
}

/// `fragments` with the byte `b` of literal text behind them.
pub open spec fn push_byte(fragments: Seq<FragmentView>, b: u8) -> Seq<FragmentView> {
    if fragments.len() > 0 {
        match fragments.last() {
            FragmentView::Literal(text) => fragments.drop_last().push(
                FragmentView::Literal(text.push(b)),
            ),
            FragmentView::Parameter(_) => fragments.push(FragmentView::Literal(seq![b])),
        }
    } else {
        fragments.push(FragmentView::Literal(seq![b]))
    }
}

/// The fragments that `pieces` make: bytes that touch are one literal.
pub open spec fn group(pieces: Seq<Piece>) -> Seq<FragmentView>
    decreases pieces.len(),
{
    if pieces.len() == 0 {
        Seq::empty()
    } else {
        let before = group(pieces.drop_last());
        match pieces.last() {
            Piece::Byte(b) => push_byte(before, b),
            Piece::Param(hint) => before.push(FragmentView::Parameter(hint)),
        }
    }
}

/// The fragments of the format string `s`, or why it is rejected.
pub open spec fn parse_spec(s: Seq<u8>) -> Result<Seq<FragmentView>, ParseError> {
    match scan(s, 0) {
        Ok(pieces) => Ok(group(pieces)),
        Err(e) => Err(e),
    }
}

/// The number of placeholders among `fragments`.
pub open spec fn param_count(fragments: Seq<FragmentView>) -> nat
    decreases fragments.len(),
{
    if fragments.len() == 0 {
        0
    } else {
        param_count(fragments.drop_last()) + if fragments.last() is Parameter {
            1nat
        } else {
            0nat
        }
    }
}

/// The hints of the placeholders among `fragments`, in order.
pub open spec fn param_hints(fragments: Seq<FragmentView>) -> Seq<DisplayHint>
    decreases fragments.len(),
{
    if fragments.len() == 0 {
        Seq::empty()
    } else {
        match fragments.last() {
            FragmentView::Parameter(hint) => param_hints(fragments.drop_last()).push(hint),
            FragmentView::Literal(_) => param_hints(fragments.drop_last()),
        }
    }
}

/// Whether no literal among `fragments` is empty and no two literals
/// touch.
pub open spec fn normalized(fragments: Seq<FragmentView>) -> bool {
    &&& forall|i: int|
        0 <= i < fragments.len() ==> (#[trigger] fragments[i] matches FragmentView::Literal(text)
            ==> text.len() > 0)
    &&& forall|i: int|
        0 <= i < fragments.len() - 1 ==> !(#[trigger] fragments[i] is Literal && fragments[i
            + 1] is Literal)
}

/// Grouping keeps literals apart and never makes an empty one, and the
/// last fragment is a literal exactly where the last piece is a byte.
proof fn lemma_group_normalized(pieces: Seq<Piece>)
    ensures
        normalized(group(pieces)),
        pieces.len() > 0 ==> group(pieces).len() > 0,
        pieces.len() > 0 ==> (group(pieces).last() is Literal <==> pieces.last() is Byte),
    decreases pieces.len(),
{
    if pieces.len() > 0 {
        let before = group(pieces.drop_last());
        lemma_group_normalized(pieces.drop_last());
        let all = group(pieces);
        assert forall|i: int| 0 <= i < all.len() - 1 implies !(#[trigger] all[i] is Literal
            && all[i + 1] is Literal) by {
            assert(all[i] == before[i]);
            if i + 1 < all.len() - 1 {
                assert(all[i + 1] == before[i + 1]);
            }
        }
        assert forall|i: int| 0 <= i < all.len() implies (#[trigger] all[i] matches
        FragmentView::Literal(text) ==> text.len() > 0) by {
            if i < all.len() - 1 {
                assert(all[i] == before[i]);
            }
        }
    }
}

/// What the parser hands out is normalized: no literal fragment is empty,
/// and text that touches is one fragment.
pub proof fn lemma_parse_normalized(s: Seq<u8>)
    ensures
        parse_spec(s) matches Ok(fragments) ==> normalized(fragments),
{
    if let Ok(pieces) = scan(s, 0) {
        lemma_group_normalized(pieces);
    }
}

/// Whether `s` holds no brace.
pub open spec fn is_plain(s: Seq<u8>) -> bool {
    forall|i: int| 0 <= i < s.len() ==> s[i] != OPEN && s[i] != CLOSE
}

/// The bytes of `s` from position `from` on, each as a piece.
pub open spec fn byte_pieces(s: Seq<u8>, from: int) -> Seq<Piece> {
    Seq::new((s.len() - from) as nat, |i: int| Piece::Byte(s[from + i]))
}

/// Text without braces is scanned byte by byte.
proof fn lemma_scan_plain(s: Seq<u8>, i: int)
    requires
        is_plain(s),
        0 <= i <= s.len(),
    ensures
        scan(s, i) == Ok::<Seq<Piece>, ParseError>(byte_pieces(s, i)),
    decreases s.len() - i,
{
    if i < s.len() {
        lemma_scan_plain(s, i + 1);
        assert(seq![Piece::Byte(s[i])] + byte_pieces(s, i + 1) =~= byte_pieces(s, i));
    } else {
        assert(byte_pieces(s, i) =~= Seq::<Piece>::empty());
    }
}

/// Bytes alone make one literal.
proof fn lemma_group_bytes(s: Seq<u8>, n: int)
    requires
        0 < n <= s.len(),
    ensures
        group(byte_pieces(s, 0).take(n)) == seq![FragmentView::Literal(s.take(n))],
    decreases n,
{
    let pieces = byte_pieces(s, 0).take(n);
    assert(pieces.drop_last() =~= byte_pieces(s, 0).take(n - 1));
    assert(pieces.last() == Piece::Byte(s[n - 1]));
    if n == 1 {
        assert(group(pieces.drop_last()) =~= Seq::<FragmentView>::empty());
        assert(s.take(1) =~= seq![s[0]]);
        assert(group(pieces) =~= seq![FragmentView::Literal(s.take(n))]);
    } else {
        lemma_group_bytes(s, n - 1);
        let before = seq![FragmentView::Literal(s.take(n - 1))];
        assert(before.drop_last() =~= Seq::<FragmentView>::empty());
        assert(s.take(n - 1).push(s[n - 1]) =~= s.take(n));
        assert(group(pieces) =~= seq![FragmentView::Literal(s.take(n))]);
    }
}

/// A format string without braces is one literal fragment, its own text;
/// the empty format string has no fragment at all. Either way there is no
/// placeholder.
pub proof fn lemma_plain_text(s: Seq<u8>)
    requires
        is_plain(s),
    ensures
        s.len() == 0 ==> parse_spec(s) == Ok::<Seq<FragmentView>, ParseError>(Seq::empty()),
        s.len() > 0 ==> parse_spec(s) == Ok::<Seq<FragmentView>, ParseError>(
            seq![FragmentView::Literal(s)],
        ),
        parse_spec(s) matches Ok(fragments) && param_count(fragments) == 0,
{
    lemma_scan_plain(s, 0);
    if s.len() > 0 {
        lemma_group_bytes(s, s.len() as int);
        assert(byte_pieces(s, 0).take(s.len() as int) =~= byte_pieces(s, 0));
        assert(s.take(s.len() as int) =~= s);
        let fragments = seq![FragmentView::Literal(s)];
        assert(fragments.drop_last() =~= Seq::<FragmentView>::empty());
        assert(param_count(fragments.drop_last()) == 0);
    } else {
        assert(byte_pieces(s, 0) =~= Seq::<Piece>::empty());
    }
}

/// The text `text` as a format string writes it: each brace twice.
pub open spec fn escape(text: Seq<u8>) -> Seq<u8>
    decreases text.len(),
{
    if text.len() == 0 {
        Seq::empty()
    } else if text[0] == OPEN || text[0] == CLOSE {
        seq![text[0], text[0]] + escape(text.drop_first())
    } else {
        seq![text[0]] + escape(text.drop_first())
    }
}

/// The specifier that a format string writes for `hint`.
pub open spec fn specifier(hint: DisplayHint) -> Seq<u8> {
    match hint {
        DisplayHint::Default => Seq::empty(),
        DisplayHint::LowerHex => seq![COLON, 0x78u8],
        DisplayHint::UpperHex => seq![COLON, 0x58u8],
        DisplayHint::Ip => seq![COLON, 0x69u8, 0x70u8],
        DisplayHint::LowerMac => seq![COLON, 0x6du8, 0x61u8, 0x63u8],
        DisplayHint::UpperMac => seq![COLON, 0x4du8, 0x41u8, 0x43u8],
    }
}

/// The format string that writes one fragment.
pub open spec fn format_of_one(fragment: FragmentView) -> Seq<u8> {
    match fragment {
        FragmentView::Literal(text) => escape(text),
        FragmentView::Parameter(hint) => seq![OPEN] + specifier(hint) + seq![CLOSE],
    }
}

/// The format string that writes `fragments`.
pub open spec fn format_of(fragments: Seq<FragmentView>) -> Seq<u8>
    decreases fragments.len(),
{
    if fragments.len() == 0 {
        Seq::empty()
    } else {
        format_of_one(fragments[0]) + format_of(fragments.drop_first())
    }
}

/// The pieces that the scanner sees in the format string of one fragment.
pub open spec fn pieces_of_one(fragment: FragmentView) -> Seq<Piece> {
    match fragment {
        FragmentView::Literal(text) => byte_pieces(text, 0),
        FragmentView::Parameter(hint) => seq![Piece::Param(hint)],
    }
}

/// The pieces that the scanner sees in the format string of `fragments`.
pub open spec fn pieces_of(fragments: Seq<FragmentView>) -> Seq<Piece>
    decreases fragments.len(),
{
    if fragments.len() == 0 {
        Seq::empty()
    } else {
        pieces_of_one(fragments[0]) + pieces_of(fragments.drop_first())
    }
}

/// Where `s` from `i` on is `t` from `j` on, a closing brace is found in
/// both at the same distance.
proof fn lemma_find_close_shift(s: Seq<u8>, i: int, t: Seq<u8>, j: int)
    requires
        0 <= i <= s.len(),
        0 <= j <= t.len(),
        s.subrange(i, s.len() as int) == t.subrange(j, t.len() as int),
    ensures
        match find_close(t, j) {
            Some(k) => find_close(s, i) == Some(k - j + i),
            None => find_close(s, i) is None,
        },
    decreases t.len() - j,
{
    let tail_s = s.subrange(i, s.len() as int);
    let tail_t = t.subrange(j, t.len() as int);
    assert(tail_s.len() == tail_t.len());
    if j < t.len() {
        assert(tail_s[0] == tail_t[0]);
        if t[j] != CLOSE {
            assert(s.subrange(i + 1, s.len() as int) =~= tail_s.drop_first());
            assert(t.subrange(j + 1, t.len() as int) =~= tail_t.drop_first());
            lemma_find_close_shift(s, i + 1, t, j + 1);
        }
    }
}

/// Scanning looks at nothing but what lies ahead: where `s` from `i` on is
/// `t` from `j` on and `t` scans from `j` without an error, `s` scans from
/// `i` to the same pieces.
proof fn lemma_scan_shift(s: Seq<u8>, i: int, t: Seq<u8>, j: int)
    requires
        0 <= i <= s.len(),
        0 <= j <= t.len(),
        s.subrange(i, s.len() as int) == t.subrange(j, t.len() as int),
        scan(t, j) is Ok,
    ensures
        scan(s, i) == scan(t, j),
    decreases t.len() - j,
{
    let tail_s = s.subrange(i, s.len() as int);
    let tail_t = t.subrange(j, t.len() as int);
    assert(tail_s.len() == tail_t.len());
    if j < t.len() {
        assert(tail_s[0] == tail_t[0]);
        if j + 1 < t.len() {
            assert(tail_s[1] == tail_t[1]);
        }
        let doubled = j + 1 < t.len() && t[j + 1] == t[j];
        if (t[j] == OPEN || t[j] == CLOSE) && doubled {
            assert(s.subrange(i + 2, s.len() as int) =~= tail_s.subrange(
                2,
                tail_s.len() as int,
            ));
            assert(t.subrange(j + 2, t.len() as int) =~= tail_t.subrange(
                2,
                tail_t.len() as int,
            ));
            lemma_scan_shift(s, i + 2, t, j + 2);
        } else if t[j] == OPEN {
            assert(s.subrange(i + 1, s.len() as int) =~= tail_s.drop_first());
            assert(t.subrange(j + 1, t.len() as int) =~= tail_t.drop_first());
            lemma_find_close_shift(s, i + 1, t, j + 1);
            let k = find_close(t, j + 1).unwrap();
            let m = k - j + i;
            assert(s.subrange(i + 1, m) =~= tail_s.subrange(1, k - j));
            assert(t.subrange(j + 1, k) =~= tail_t.subrange(1, k - j));
            assert(s.subrange(m + 1, s.len() as int) =~= tail_s.subrange(
                k - j + 1,
                tail_s.len() as int,
            ));
            assert(t.subrange(k + 1, t.len() as int) =~= tail_t.subrange(
                k - j + 1,
                tail_t.len() as int,
            ));
            lemma_scan_shift(s, m + 1, t, k + 1);
        } else if t[j] != CLOSE {
            assert(s.subrange(i + 1, s.len() as int) =~= tail_s.drop_first());
            assert(t.subrange(j + 1, t.len() as int) =~= tail_t.drop_first());
            lemma_scan_shift(s, i + 1, t, j + 1);
        }
    }
}

/// Escaped text in front of a format string scans to the bytes of the
/// text, and then to what the format string scans to.
proof fn lemma_scan_escaped(text: Seq<u8>, rest: Seq<u8>)
    requires
        scan(rest, 0) is Ok,
    ensures
        scan(escape(text) + rest, 0) == Ok::<Seq<Piece>, ParseError>(
            byte_pieces(text, 0) + scan(rest, 0)->Ok_0,
        ),
    decreases text.len(),
{
    let s = escape(text) + rest;
    let behind = scan(rest, 0)->Ok_0;
    if text.len() == 0 {
        assert(s =~= rest);
        assert(byte_pieces(text, 0) + behind =~= behind);
    } else {
        let b = text[0];
        let tail = escape(text.drop_first()) + rest;
        lemma_scan_escaped(text.drop_first(), rest);
        let step: int = if b == OPEN || b == CLOSE {
            2
        } else {
            1
        };
        assert(s.subrange(step, s.len() as int) =~= tail);
        assert(tail.subrange(0, tail.len() as int) =~= tail);
        lemma_scan_shift(s, step, tail, 0);
        assert(s[0] == b);
        if step == 2 {
            assert(s[1] == b);
        }
        assert(seq![Piece::Byte(b)] + (byte_pieces(text.drop_first(), 0) + behind)
            =~= byte_pieces(text, 0) + behind);
    }
}

/// No specifier holds a closing brace, and each reads as its own hint.
proof fn lemma_specifier(hint: DisplayHint)
    ensures
        hint_of(specifier(hint)) == Ok::<DisplayHint, HintError>(hint),
        specifier(hint).len() <= 4,
        forall|i: int| 0 <= i < specifier(hint).len() ==> specifier(hint)[i] != CLOSE,
        specifier(hint).len() > 0 ==> specifier(hint)[0] == COLON,
{
    let name = specifier(hint).subrange(1, specifier(hint).len() as int);
    match hint {
        DisplayHint::Default => {},
        DisplayHint::LowerHex => {
            assert(name =~= seq![0x78u8]);
        },
        DisplayHint::UpperHex => {
            assert(name =~= seq![0x58u8]);
            assert(seq![0x78u8][0] != seq![0x58u8][0]);
        },
        DisplayHint::Ip => {
            assert(name =~= seq![0x69u8, 0x70u8]);
        },
        DisplayHint::LowerMac => {
            assert(name =~= seq![0x6du8, 0x61u8, 0x63u8]);
        },
        DisplayHint::UpperMac => {
            assert(name =~= seq![0x4du8, 0x41u8, 0x43u8]);
            assert(seq![0x6du8, 0x61u8, 0x63u8][0] != seq![0x4du8, 0x41u8, 0x43u8][0]);
        },
    }
}

/// The first closing brace behind bytes that hold none is the one that
/// follows them.
proof fn lemma_find_close_behind(s: Seq<u8>, from: int, to: int)
    requires
        0 <= from <= to < s.len(),
        forall|i: int| from <= i < to ==> s[i] != CLOSE,
        s[to] == CLOSE,
    ensures
        find_close(s, from) == Some(to),
    decreases to - from,
{
    if from < to {
        lemma_find_close_behind(s, from + 1, to);
    }
}

/// A placeholder in front of a format string scans to its hint, and then
/// to what the format string scans to.
proof fn lemma_scan_placeholder(hint: DisplayHint, rest: Seq<u8>)
    requires
        scan(rest, 0) is Ok,
    ensures
        scan(seq![OPEN] + specifier(hint) + seq![CLOSE] + rest, 0) == Ok::<
            Seq<Piece>,
            ParseError,
        >(seq![Piece::Param(hint)] + scan(rest, 0)->Ok_0),
{
    let s = seq![OPEN] + specifier(hint) + seq![CLOSE] + rest;
    let close = 1 + specifier(hint).len() as int;
    lemma_specifier(hint);
    assert(s[0] == OPEN);
    assert(s[close] == CLOSE);
    assert forall|i: int| 1 <= i < close implies s[i] != CLOSE by {
        assert(s[i] == specifier(hint)[i - 1]);
    }
    if specifier(hint).len() > 0 {
        assert(s[1] == specifier(hint)[0]);
    }
    lemma_find_close_behind(s, 1, close);
    assert(s.subrange(1, close) =~= specifier(hint));
    assert(s.subrange(close + 1, s.len() as int) =~= rest);
    assert(rest.subrange(0, rest.len() as int) =~= rest);
    lemma_scan_shift(s, close + 1, rest, 0);
}

/// The format string of fragments scans to their pieces.
proof fn lemma_scan_format_of(fragments: Seq<FragmentView>)
    ensures
        scan(format_of(fragments), 0) == Ok::<Seq<Piece>, ParseError>(pieces_of(fragments)),
    decreases fragments.len(),
{
    if fragments.len() > 0 {
        let rest = format_of(fragments.drop_first());
        lemma_scan_format_of(fragments.drop_first());
        match fragments[0] {
            FragmentView::Literal(text) => {
                lemma_scan_escaped(text, rest);
            },
            FragmentView::Parameter(hint) => {
                lemma_scan_placeholder(hint, rest);
            },
        }
    }
}

/// The pieces of fragments end with the pieces of the last fragment.
proof fn lemma_pieces_of_last(fragments: Seq<FragmentView>)
    requires
        fragments.len() > 0,
    ensures
        pieces_of(fragments) == pieces_of(fragments.drop_last()) + pieces_of_one(
            fragments.last(),
        ),
    decreases fragments.len(),
{
    if fragments.len() == 1 {
        assert(fragments.drop_first() =~= Seq::<FragmentView>::empty());
        assert(fragments.drop_last() =~= Seq::<FragmentView>::empty());
        assert(pieces_of(fragments.drop_first()) =~= Seq::<Piece>::empty());
        assert(pieces_of(fragments) =~= pieces_of(fragments.drop_last()) + pieces_of_one(
            fragments.last(),
        ));
    } else {
        lemma_pieces_of_last(fragments.drop_first());
        assert(fragments.drop_first().drop_last() =~= fragments.drop_last().drop_first());
        assert(fragments.drop_last()[0] == fragments[0]);
        assert(pieces_of(fragments) =~= pieces_of(fragments.drop_last()) + pieces_of_one(
            fragments.last(),
        ));
    }
}

/// Bytes behind pieces that do not end in a byte make one more literal.
proof fn lemma_group_literal(pieces: Seq<Piece>, text: Seq<u8>, n: int)
    requires
        0 < n <= text.len(),
        group(pieces).len() > 0 ==> group(pieces).last() is Parameter,
    ensures
        group(pieces + byte_pieces(text, 0).take(n)) == group(pieces).push(
            FragmentView::Literal(text.take(n)),
        ),
    decreases n,
{
    let all = pieces + byte_pieces(text, 0).take(n);
    assert(all.drop_last() =~= pieces + byte_pieces(text, 0).take(n - 1));
    assert(all.last() == Piece::Byte(text[n - 1]));
    if n == 1 {
        assert(pieces + byte_pieces(text, 0).take(0) =~= pieces);
        assert(text.take(1) =~= seq![text[0]]);
    } else {
        lemma_group_literal(pieces, text, n - 1);
        let before = group(pieces).push(FragmentView::Literal(text.take(n - 1)));
        assert(before.drop_last() =~= group(pieces));
        assert(text.take(n - 1).push(text[n - 1]) =~= text.take(n));
    }
}

/// The pieces of normalized fragments group back into the fragments.
proof fn lemma_group_pieces_of(fragments: Seq<FragmentView>)
    requires
        normalized(fragments),
    ensures
        group(pieces_of(fragments)) == fragments,
    decreases fragments.len(),
{
    if fragments.len() > 0 {
        let before = fragments.drop_last();
        assert(normalized(before)) by {
            assert forall|i: int| 0 <= i < before.len() implies before[i] == fragments[i] by {}
        }
        lemma_group_pieces_of(before);
        lemma_pieces_of_last(fragments);
        match fragments.last() {
            FragmentView::Parameter(hint) => {
                let all = pieces_of(before) + seq![Piece::Param(hint)];
                assert(all.drop_last() =~= pieces_of(before));
                assert(group(all) =~= fragments);
            },
            FragmentView::Literal(text) => {
                assert(fragments[fragments.len() - 1] is Literal);
                assert(text.len() > 0);
                if before.len() > 0 {
                    assert(before.last() == fragments[fragments.len() - 2]);
                    assert(!(fragments[fragments.len() - 2] is Literal && fragments[fragments.len()
                        - 2 + 1] is Literal));
                }
                lemma_group_literal(pieces_of(before), text, text.len() as int);
                assert(byte_pieces(text, 0).take(text.len() as int) =~= byte_pieces(text, 0));
                assert(text.take(text.len() as int) =~= text);
                assert(before.push(FragmentView::Literal(text)) =~= fragments);
            },
        }
    } else {
        assert(fragments =~= Seq::<FragmentView>::empty());
    }
}

/// Parsing undoes writing: the format string that writes normalized
/// fragments parses to these fragments. So every sequence of literal text
/// and placeholders in which no literal is empty and no two literals touch
/// is the template of some format string.
pub proof fn lemma_parse_format_of(fragments: Seq<FragmentView>)
    requires
        normalized(fragments),
    ensures
        parse_spec(format_of(fragments)) == Ok::<Seq<FragmentView>, ParseError>(fragments),
{
    lemma_scan_format_of(fragments);
    lemma_group_pieces_of(fragments);
}

/// `scanned` with `done` in front, where there is no error.
pub open spec fn with_done(done: Seq<Piece>, scanned: Result<Seq<Piece>, ParseError>) -> Result<
    Seq<Piece>,
    ParseError,
> {
    match scanned {
        Ok(rest) => Ok(done + rest),
        Err(e) => Err(e),
    }
}

/// The fragments so far, with the literal text that is still being
/// collected as the last of them.
pub open spec fn with_pending(fragments: Seq<FragmentView>, pending: Seq<u8>) -> Seq<
    FragmentView,
> {
    if pending.len() > 0 {
        fragments.push(FragmentView::Literal(pending))
    } else {
        fragments
    }
}

/// One more piece behind `done` is the first piece of what follows.
proof fn lemma_with_done_step(
    done: Seq<Piece>,
    piece: Piece,
    scanned: Result<Seq<Piece>, ParseError>,
)
    ensures
        with_done(done, with_first(piece, scanned)) == with_done(done.push(piece), scanned),
{
    match scanned {
        Ok(rest) => {
            assert(done + (seq![piece] + rest) =~= done.push(piece) + rest);
        },
        Err(_) => {},
    }
}

/// Reads the hint that the placeholder content `s[from..to]` asks for.
fn parse_hint(s: &[u8], from: usize, to: usize) -> (r: Result<DisplayHint, HintError>)
    requires
        from <= to <= s@.len(),
    ensures
        r == hint_of(s@.subrange(from as int, to as int)),
{
    let ghost content = s@.subrange(from as int, to as int);
    if from == to {
        return Ok(DisplayHint::Default);
    }
    if s[from] != COLON {
        return Err(HintError::Unexpected);
    }
    let ghost name = content.subrange(1, content.len() as int);
    let n: usize = to - from - 1;
    let a: usize = from + 1;
    proof {
        assert(content[0] == s@[from as int]);
        assert(name.len() == n);
        assert(seq![0x78u8][0] == 0x78u8);
        assert(seq![0x58u8][0] == 0x58u8);
        assert(seq![0x69u8][0] == 0x69u8);
        assert(seq![0x69u8, 0x70u8][0] == 0x69u8 && seq![0x69u8, 0x70u8][1] == 0x70u8);
        assert(seq![0x6du8, 0x61u8, 0x63u8][0] == 0x6du8 && seq![0x6du8, 0x61u8, 0x63u8][1]
            == 0x61u8 && seq![0x6du8, 0x61u8, 0x63u8][2] == 0x63u8);
        assert(seq![0x4du8, 0x41u8, 0x43u8][0] == 0x4du8 && seq![0x4du8, 0x41u8, 0x43u8][1]
            == 0x41u8 && seq![0x4du8, 0x41u8, 0x43u8][2] == 0x43u8);
        assert forall|k: int| 0 <= k < n implies name[k] == s@[a + k] by {}
    }
    if n == 0 {
        Err(HintError::Missing)
    } else if n == 1 && s[a] == 0x78 {
        assert(name =~= seq![0x78u8]);
        Ok(DisplayHint::LowerHex)
    } else if n == 1 && s[a] == 0x58 {
        assert(name =~= seq![0x58u8]);
        Ok(DisplayHint::UpperHex)
    } else if n == 1 && s[a] == 0x69 {
        assert(name =~= seq![0x69u8]);
        Ok(DisplayHint::Ip)
    } else if n == 2 && s[a] == 0x69 && s[a + 1] == 0x70 {
        assert(name =~= seq![0x69u8, 0x70u8]);
        Ok(DisplayHint::Ip)
    } else if n == 3 && s[a] == 0x6d && s[a + 1] == 0x61 && s[a + 2] == 0x63 {
        assert(name =~= seq![0x6du8, 0x61u8, 0x63u8]);
        Ok(DisplayHint::LowerMac)
    } else if n == 3 && s[a] == 0x4d && s[a + 1] == 0x41 && s[a + 2] == 0x43 {
        assert(name =~= seq![0x4du8, 0x41u8, 0x43u8]);
        Ok(DisplayHint::UpperMac)
    } else {
        proof {
            assert(name[0] == s@[a as int]);
            if n >= 2 {
                assert(name[1] == s@[a + 1]);
            }
            if n >= 3 {
                assert(name[2] == s@[a + 2]);
            }
        }
        Err(HintError::Unknown)
    }
}

/// Finds the first `}` at or behind `from`.
fn find_closing(s: &[u8], from: usize) -> (r: Option<usize>)
    requires
        from <= s@.len(),
    ensures
        match r {
            Some(j) => find_close(s@, from as int) == Some(j as int) && from <= j < s@.len(),
            None => find_close(s@, from as int) is None,
        },
{
    let mut j: usize = from;
    while j < s.len()
        invariant
            from <= j <= s@.len(),
            find_close(s@, from as int) == find_close(s@, j as int),
        decreases s@.len() - j,
    {
        if s[j] == CLOSE {
            return Some(j);
        }
        j += 1;
    }
    None
}

/// Parses the bytes of a format string into fragments.
///
/// Returns the fragments in the order in which they stand in `s`, or the
/// first error from the left.
pub fn parse_bytes(s: &[u8]) -> (r: Result<Vec<Fragment>, ParseError>)
    ensures
        match r {
            Ok(fragments) => parse_spec(s@) == Ok::<Seq<FragmentView>, ParseError>(
                fragments_view(fragments@),
            ),
            Err(e) => parse_spec(s@) == Err::<Seq<FragmentView>, ParseError>(e),
        },
{
    let len: usize = s.len();
    let mut fragments: Vec<Fragment> = Vec::new();
    let mut pending: Vec<u8> = Vec::new();
    let mut i: usize = 0;
    let ghost mut done: Seq<Piece> = Seq::empty();
    proof {
        match scan(s@, 0) {
            Ok(rest) => {
                assert(done + rest =~= rest);
            },
            Err(_) => {},
        }
        assert(fragments_view(fragments@) =~= Seq::<FragmentView>::empty());
    }
    while i < len
        invariant
            i <= len == s@.len(),
            scan(s@, 0) == with_done(done, scan(s@, i as int)),
            group(done) == with_pending(fragments_view(fragments@), pending@),
            fragments@.len() > 0 ==> fragments@.last() is Parameter,
        decreases len - i,
    {
        let b = s[i];
        let ghost before = fragments_view(fragments@);
        if b == OPEN && i + 1 < len && s[i + 1] == OPEN || b == CLOSE && i + 1 < len && s[i + 1]
            == CLOSE || b != OPEN && b != CLOSE {
            let step: usize = if b == OPEN || b == CLOSE {
                2
            } else {
                1
            };
            proof {
                lemma_with_done_step(done, Piece::Byte(b), scan(s@, i + step));
                assert(done.push(Piece::Byte(b)).drop_last() =~= done);
                if pending@.len() > 0 {
                    assert(before.push(FragmentView::Literal(pending@)).drop_last() =~= before);
                } else if fragments@.len() > 0 {
                    assert(before.last() == fragments@.last()@);
                }
                done = done.push(Piece::Byte(b));
            }
            let ghost collected = pending@;
            pending.push(b);
            proof {
                if collected.len() == 0 {
                    assert(pending@ =~= seq![b]);
                }
                assert(group(done) =~= with_pending(before, pending@));
            }
            i += step;
        } else if b == CLOSE {
            return Err(ParseError::UnmatchedClose { at: i });
        } else {
            let j = match find_closing(s, i + 1) {
                Some(j) => j,
                None => {
                    return Err(ParseError::UnterminatedPlaceholder { at: i });
                },
            };
            let hint = match parse_hint(s, i + 1, j) {
                Ok(hint) => hint,
                Err(HintError::Missing) => {
                    return Err(ParseError::MissingHint { at: i });
                },
                Err(HintError::Unknown) => {
                    return Err(ParseError::UnknownHint { at: i });
                },
                Err(HintError::Unexpected) => {
                    return Err(ParseError::UnexpectedContent { at: i });
                },
            };
            proof {
                lemma_with_done_step(done, Piece::Param(hint), scan(s@, j + 1));
                assert(done.push(Piece::Param(hint)).drop_last() =~= done);
                done = done.push(Piece::Param(hint));
            }
            if pending.len() > 0 {
                fragments.push(Fragment::Literal(pending));
                pending = Vec::new();
            }
            fragments.push(Fragment::Parameter(hint));
            proof {
                assert(fragments_view(fragments@) =~= group(done));
            }
            i = j + 1;
        }
    }
    proof {
        assert(done + Seq::<Piece>::empty() =~= done);
    }
    if pending.len() > 0 {
        fragments.push(Fragment::Literal(pending));
        proof {
            assert(fragments_view(fragments@) =~= group(done));
        }
    }
    Ok(fragments)
}

/// Parses a format string into fragments.
///
/// Returns the fragments in the order in which they stand in the string,
/// or the first error from the left. The same string always gives the same
/// result.
pub fn parse(format_string: &str) -> (r: Result<Vec<Fragment>, ParseError>)
    ensures
        match r {
            Ok(fragments) => parse_spec(format_string.spec_bytes()) == Ok::<
                Seq<FragmentView>,
                ParseError,
            >(fragments_view(fragments@)),
            Err(e) => parse_spec(format_string.spec_bytes()) == Err::<
                Seq<FragmentView>,
                ParseError,
            >(e),
        },
{
    parse_bytes(format_string.as_bytes())
}

} // verus!
