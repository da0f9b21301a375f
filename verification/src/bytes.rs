//! Little-endian integers and bounded copies into a fixed byte region.

use vstd::prelude::*;
use vstd::slice::*;

verus! {

/// `256` to the power `n`.
pub open spec fn pow256(n: nat) -> nat
    decreases n,
{
    if n == 0 {
        1
    } else {
        256 * pow256((n - 1) as nat)
    }
}

/// The `width` low-order bytes of `x`, least significant first.
pub open spec fn le_bytes(x: nat, width: nat) -> Seq<u8>
    decreases width,
{
    if width == 0 {
        Seq::empty()
    } else {
        seq![(x % 256) as u8] + le_bytes(x / 256, (width - 1) as nat)
    }
}

/// The number whose little-endian bytes are `s`.
pub open spec fn le_value(s: Seq<u8>) -> nat
    decreases s.len(),
{
    if s.len() == 0 {
        0
    } else {
        s[0] as nat + 256 * le_value(s.drop_first())
    }
}

/// `dst` with `src` written over it from position `at` on.
pub open spec fn splice(dst: Seq<u8>, at: int, src: Seq<u8>) -> Seq<u8> {
    dst.subrange(0, at) + src + dst.subrange(at + src.len(), dst.len() as int)
}

/// Writing `b` right behind `a` is writing `a + b`.
pub proof fn lemma_splice_append(dst: Seq<u8>, a: Seq<u8>, b: Seq<u8>)
    requires
        a.len() + b.len() <= dst.len(),
    ensures
        splice(splice(dst, 0, a), a.len() as int, b) == splice(dst, 0, a + b),
{
    assert(splice(splice(dst, 0, a), a.len() as int, b) =~= splice(dst, 0, a + b));
}

/// Writing `b` at the start of what lies behind `a` is writing `a + b`.
pub proof fn lemma_splice_tail(dst: Seq<u8>, a: Seq<u8>, b: Seq<u8>)
    requires
        a.len() + b.len() <= dst.len(),
    ensures
        ({
            let cur = splice(dst, 0, a);
            let n = a.len() as int;
            cur.subrange(0, n) + splice(cur.subrange(n, cur.len() as int), 0, b)
        }) == splice(dst, 0, a + b),
{
    let cur = splice(dst, 0, a);
    let n = a.len() as int;
    assert(cur.subrange(0, n) + splice(cur.subrange(n, cur.len() as int), 0, b) =~= splice(
        dst,
        0,
        a + b,
    ));
}

/// Setting one byte is writing a text of one byte.
pub proof fn lemma_splice_one(dst: Seq<u8>, at: int, b: u8)
    requires
        0 <= at < dst.len(),
    ensures
        dst.update(at, b) == splice(dst, at, seq![b]),
{
    assert(dst.update(at, b) =~= splice(dst, at, seq![b]));
}

/// The powers of `256` that integers of up to eight bytes need.
pub proof fn lemma_pow256_values()
    ensures
        pow256(0) == 1,
        pow256(1) == 0x100,
        pow256(2) == 0x1_0000,
        pow256(3) == 0x100_0000,
        pow256(4) == 0x1_0000_0000,
        pow256(5) == 0x100_0000_0000,
        pow256(6) == 0x1_0000_0000_0000,
        pow256(7) == 0x100_0000_0000_0000,
        pow256(8) == 0x1_0000_0000_0000_0000,
{
    reveal_with_fuel(pow256, 10);
}

/// `width` bytes are `width` bytes.
pub proof fn lemma_le_bytes_len(x: nat, width: nat)
    ensures
        le_bytes(x, width).len() == width,
    decreases width,
{
    if width > 0 {
        lemma_le_bytes_len(x / 256, (width - 1) as nat);
    }
}

/// Reading back what was written gives the number, as long as it fits.
pub proof fn lemma_le_round_trip(x: nat, width: nat)
    requires
        x < pow256(width),
    ensures
        le_value(le_bytes(x, width)) == x,
    decreases width,
{
    if width > 0 {
        let rest = le_bytes(x / 256, (width - 1) as nat);
        lemma_le_round_trip(x / 256, (width - 1) as nat);
        assert(le_bytes(x, width).drop_first() =~= rest);
        assert(le_bytes(x, width)[0] == (x % 256) as u8);
    }
}

/// `width` bytes hold a number below `256^width`.
pub proof fn lemma_le_value_bound(s: Seq<u8>)
    ensures
        le_value(s) < pow256(s.len()),
    decreases s.len(),
{
    if s.len() > 0 {
        lemma_le_value_bound(s.drop_first());
    }
}

/// Writing back what was read gives the bytes.
pub proof fn lemma_le_bytes_of_value(s: Seq<u8>)
    ensures
        le_bytes(le_value(s), s.len()) == s,
    decreases s.len(),
{
    if s.len() > 0 {
        let t = s.drop_first();
        lemma_le_bytes_of_value(t);
        let x = le_value(s);
        assert(x % 256 == s[0] as nat);
        assert(x / 256 == le_value(t));
        assert(le_bytes(x, s.len()) =~= s);
    } else {
        assert(le_bytes(le_value(s), s.len()) =~= s);
    }
}

/// The bytes of `x` in `width + 1` bytes are those in `width` bytes and one
/// more, the byte of weight `256^width`.
pub proof fn lemma_le_bytes_push(x: nat, width: nat)
    ensures
        le_bytes(x, width + 1) == le_bytes(x, width).push(((x / pow256(width)) % 256) as u8),
    decreases width,
{
    if width == 0 {
        assert(le_bytes(x, 1) =~= seq![(x % 256) as u8] + le_bytes(x / 256, 0));
        assert(le_bytes(x, 1) =~= le_bytes(x, 0).push(((x / 1) % 256) as u8));
    } else {
        lemma_le_bytes_push(x / 256, (width - 1) as nat);
        assert((x / 256) / pow256((width - 1) as nat) == x / pow256(width)) by {
            lemma_pow256_positive((width - 1) as nat);
            lemma_div_div(x, pow256((width - 1) as nat));
        }
        assert(le_bytes(x, width + 1) =~= le_bytes(x, width).push(
            ((x / pow256(width)) % 256) as u8,
        ));
    }
}

/// Dividing by `256` and then by `d` is dividing by `256 * d`.
proof fn lemma_div_div(x: nat, d: nat)
    requires
        d > 0,
    ensures
        (x / 256) / d == x / (256 * d),
{
    vstd::arithmetic::div_mod::lemma_div_denominator(x as int, 256, d as int);
}

/// A power of `256` is positive.
pub proof fn lemma_pow256_positive(n: nat)
    ensures
        pow256(n) > 0,
    decreases n,
{
    if n > 0 {
        lemma_pow256_positive((n - 1) as nat);
    }
}

/// Copies `src` into `buf` from position `at` on, if it fits; otherwise
/// leaves `buf` as it was. Returns whether it fitted.
pub fn copy_at(buf: &mut [u8], at: usize, src: &[u8]) -> (ok: bool)
    ensures
        ok == (at + src@.len() <= old(buf)@.len()),
        ok ==> final(buf)@ == splice(old(buf)@, at as int, src@),
        !ok ==> final(buf)@ == old(buf)@,
        final(buf)@.len() == old(buf)@.len(),
{
    if at > buf.len() || src.len() > buf.len() - at {
        return false;
    }
    let mut i: usize = 0;
    while i < src.len()
        invariant
            i <= src@.len(),
            at + src@.len() <= buf@.len(),
            buf@.len() == old(buf)@.len(),
            buf@.len() <= usize::MAX,
            buf@ == splice(old(buf)@, at as int, src@.subrange(0, i as int)),
        decreases src@.len() - i,
    {
        buf[at + i] = src[i];
        i += 1;
        assert(buf@ =~= splice(old(buf)@, at as int, src@.subrange(0, i as int)));
    }
    assert(src@.subrange(0, i as int) =~= src@);
    true
}

/// Writes the `width` low-order bytes of `value` into `buf` from position
/// `at` on, least significant first.
pub(crate) fn put_le(buf: &mut [u8], at: usize, value: u64, width: usize)
    requires
        width <= 8,
        at + width <= old(buf)@.len(),
    ensures
        final(buf)@ == splice(old(buf)@, at as int, le_bytes(value as nat, width as nat)),
        final(buf)@.len() == old(buf)@.len(),
{
    let len: usize = buf.len();
    let mut i: usize = 0;
    let mut rest: u64 = value;
    proof {
        lemma_pow256_values();
        assert(buf@ =~= splice(old(buf)@, at as int, le_bytes(value as nat, 0)));
    }
    while i < width
        invariant
            i <= width <= 8,
            at + width <= buf@.len(),
            buf@.len() == old(buf)@.len(),
            buf@.len() == len,
            rest as nat == (value as nat) / pow256(i as nat),
            buf@ == splice(old(buf)@, at as int, le_bytes(value as nat, i as nat)),
        decreases width - i,
    {
        proof {
            lemma_le_bytes_push(value as nat, i as nat);
            lemma_le_bytes_len(value as nat, i as nat);
            lemma_pow256_positive(i as nat);
            lemma_div_div_rev(value as nat, pow256(i as nat));
        }
        buf[at + i] = (rest % 256) as u8;
        rest = rest / 256;
        i += 1;
        assert(buf@ =~= splice(old(buf)@, at as int, le_bytes(value as nat, i as nat)));
    }
}

/// Dividing by `d` and then by `256` is dividing by `256 * d`.
proof fn lemma_div_div_rev(x: nat, d: nat)
    requires
        d > 0,
    ensures
        (x / d) / 256 == x / (256 * d),
{
    vstd::arithmetic::div_mod::lemma_div_denominator(x as int, d as int, 256);
    assert(d * 256 == 256 * d);
}

/// Reads `width` bytes of `buf` from position `at` on as a little-endian
/// number.
pub(crate) fn get_le(buf: &[u8], at: usize, width: usize) -> (value: u64)
    requires
        width <= 8,
        at + width <= buf@.len(),
    ensures
        value as nat == le_value(buf@.subrange(at as int, at + width)),
{
    let len: usize = buf.len();
    let mut i: usize = width;
    let mut acc: u64 = 0;
    proof {
        assert(buf@.subrange(at + i, at + width) =~= Seq::<u8>::empty());
    }
    while i > 0
        invariant
            i <= width <= 8,
            at + width <= buf@.len(),
            buf@.len() == len,
            acc as nat == le_value(buf@.subrange(at + i, at + width)),
        decreases i,
    {
        proof {
            let s = buf@.subrange(at + i - 1, at + width);
            assert(s.drop_first() =~= buf@.subrange(at + i, at + width));
            lemma_le_value_bound(s.drop_first());
            lemma_pow256_monotone((width - i) as nat, 7);
            lemma_pow256_values();
        }
        i -= 1;
        acc = acc * 256 + buf[at + i] as u64;
    }
    acc
}

/// The powers of `256` grow with the exponent.
pub proof fn lemma_pow256_monotone(a: nat, b: nat)
    requires
        a <= b,
    ensures
        pow256(a) <= pow256(b),
    decreases b,
{
    if a < b {
        lemma_pow256_monotone(a, (b - 1) as nat);
    }
}

} // verus!
