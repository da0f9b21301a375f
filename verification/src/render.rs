//! Rendering: the text that a decoded value and a whole record stand for.
//!
//! | hint                  | value            | text                                   |
//! |-----------------------|------------------|----------------------------------------|
//! | `Default`             | integer          | decimal, `-` before a negative number  |
//! | `Default`, `Ip`       | IPv4             | four decimal octets joined by `.`      |
//! | `Default`, `Ip`       | IPv6             | eight hexadecimal groups joined by `:` |
//! | `Ip`                  | `u32`            | as IPv4, most significant octet first  |
//! | `LowerHex`/`UpperHex` | integer          | hexadecimal digits of the payload bits |
//! | `LowerMac`/`UpperMac` | hardware address | six two-digit octets joined by `:`     |
//!
//! Numbers have no leading zeros and no prefix; only the octets of a
//! hardware address are padded to two digits.

use vstd::prelude::*;
use vstd::slice::*;
use crate::bytes::lemma_pow256_values;
use crate::hint::DisplayHint;
use crate::parser::{param_count, FragmentView};
use crate::value::Value;
use crate::wire::Binding;

verus! {

/// The byte `.`.
pub const DOT: u8 = 0x2e;

/// The byte `:`.
pub const SEPARATOR: u8 = 0x3a;

/// The byte `-`.
pub const MINUS: u8 = 0x2d;

/// The character for the digit `d`, which is below 16.
pub open spec fn digit(d: nat, upper: bool) -> u8 {
    if d < 10 {
        (0x30 + d) as u8
    } else if upper {
        (0x41 + d - 10) as u8
    } else {
        (0x61 + d - 10) as u8
    }
}

/// The digits of `n` in `base`, most significant first, without leading
/// zeros.
pub open spec fn digits(n: nat, base: nat, upper: bool) -> Seq<u8>
    decreases n,
{
    if base < 2 || n < base {
        seq![digit(n, upper)]
    } else {
        proof {
            vstd::arithmetic::div_mod::lemma_div_decreases(n as int, base as int);
        }
        digits(n / base, base, upper).push(digit(n % base, upper))
    }
}

/// `n` in decimal.
pub open spec fn decimal(n: nat) -> Seq<u8> {
    digits(n, 10, false)
}

/// `x` in decimal, with `-` before a negative number.
pub open spec fn signed_decimal(x: int) -> Seq<u8> {
    if x < 0 {
        seq![MINUS] + decimal((-x) as nat)
    } else {
        decimal(x as nat)
    }
}

/// The two hexadecimal digits of one octet.
pub open spec fn octet_hex(b: u8, upper: bool) -> Seq<u8> {
    seq![digit((b / 16) as nat, upper), digit((b % 16) as nat, upper)]
}

/// The first `n` octets of `a` in decimal, joined by `.`.
pub open spec fn dotted(a: Seq<u8>, n: nat) -> Seq<u8>
    decreases n,
{
    if n == 0 {
        Seq::empty()
    } else if n == 1 {
        decimal(a[0] as nat)
    } else {
        dotted(a, (n - 1) as nat) + seq![DOT] + decimal(a[n - 1] as nat)
    }
}

/// The first `n` octets of `a` as two hexadecimal digits each, joined by
/// `:`.
pub open spec fn colon_octets(a: Seq<u8>, n: nat, upper: bool) -> Seq<u8>
    decreases n,
{
    if n == 0 {
        Seq::empty()
    } else if n == 1 {
        octet_hex(a[0], upper)
    } else {
        colon_octets(a, (n - 1) as nat, upper) + seq![SEPARATOR] + octet_hex(a[n - 1], upper)
    }
}

/// The group of 16 bits that the octets `2k` and `2k + 1` of `a` make.
pub open spec fn group16(a: Seq<u8>, k: int) -> nat {
    (a[2 * k] as nat) * 256 + a[2 * k + 1] as nat
}

/// The first `n` groups of `a` in lower-case hexadecimal, joined by `:`.
pub open spec fn colon_groups(a: Seq<u8>, n: nat) -> Seq<u8>
    decreases n,
{
    if n == 0 {
        Seq::empty()
    } else if n == 1 {
        digits(group16(a, 0), 16, false)
    } else {
        colon_groups(a, (n - 1) as nat) + seq![SEPARATOR] + digits(group16(a, n - 1), 16, false)
    }
}

/// The octets of `x`, which is below `2^32`, most significant first.
pub open spec fn be_octets(x: nat) -> Seq<u8> {
    seq![
        (x / 0x100_0000) as u8,
        ((x / 0x1_0000) % 256) as u8,
        ((x / 0x100) % 256) as u8,
        (x % 256) as u8,
    ]
}

/// The text of `value` under `hint`; empty where the hint does not accept
/// the value.
pub open spec fn render_value(hint: DisplayHint, value: Value) -> Seq<u8> {
    let kind = value.kind_of();
    if !hint.accepts(kind) {
        Seq::empty()
    } else {
        match hint {
            DisplayHint::Default => if kind.is_integer() {
                signed_decimal(value.number())
            } else if kind is Ipv4 {
                dotted(value.octets(), 4)
            } else {
                colon_groups(value.octets(), 8)
            },
            DisplayHint::LowerHex => digits(value.bits(), 16, false),
            DisplayHint::UpperHex => digits(value.bits(), 16, true),
            DisplayHint::Ip => if kind is U32 {
                dotted(be_octets(value.bits()), 4)
            } else if kind is Ipv4 {
                dotted(value.octets(), 4)
            } else {
                colon_groups(value.octets(), 8)
            },
            DisplayHint::LowerMac => colon_octets(value.octets(), 6, false),
            DisplayHint::UpperMac => colon_octets(value.octets(), 6, true),
        }
    }
}

/// The text of a record: the literal text of `fragments`, with the text of
/// the next of `bindings` in the place of each placeholder.
pub open spec fn render_text(fragments: Seq<FragmentView>, bindings: Seq<Binding>) -> Seq<u8>
    decreases fragments.len(),
{
    if fragments.len() == 0 {
        Seq::empty()
    } else {
        let before = fragments.drop_last();
        match fragments.last() {
            FragmentView::Literal(text) => render_text(before, bindings) + text,
            FragmentView::Parameter(_) => {
                let binding = bindings[param_count(before) as int];
                render_text(before, bindings) + render_value(binding.hint, binding.value)
            },
        }
    }
}

/// Returns the character for the digit `d`.
fn digit_char(d: u64, upper: bool) -> (c: u8)
    requires
        d < 16,
    ensures
        c == digit(d as nat, upper),
{
    if d < 10 {
        (0x30 + d) as u8
    } else if upper {
        (0x41 + d - 10) as u8
    } else {
        (0x61 + d - 10) as u8
    }
}

/// Appends the digits of `n` in `base` to `out`.
fn push_digits(out: &mut Vec<u8>, n: u64, base: u64, upper: bool)
    requires
        2 <= base <= 16,
    ensures
        final(out)@ == old(out)@ + digits(n as nat, base as nat, upper),
    decreases n,
{
    if n >= base {
        proof {
            vstd::arithmetic::div_mod::lemma_div_decreases(n as int, base as int);
        }
        push_digits(out, n / base, base, upper);
    }
    let ghost high = out@;
    out.push(digit_char(n % base, upper));
    proof {
        let last = digit((n % base) as nat, upper);
        if n >= base {
            assert(digits(n as nat, base as nat, upper) == digits(
                (n as nat) / (base as nat),
                base as nat,
                upper,
            ).push(digit((n as nat) % (base as nat), upper)));
            assert(high == old(out)@ + digits((n / base) as nat, base as nat, upper));
            assert(out@ == high.push(last));
        } else {
            vstd::arithmetic::div_mod::lemma_small_mod(n as nat, base as nat);
            assert(digits(n as nat, base as nat, upper) == seq![digit(n as nat, upper)]);
            assert(out@ == high.push(last));
        }
        assert(out@ =~= old(out)@ + digits(n as nat, base as nat, upper));
    }
}

/// Appends `x` in decimal to `out`.
fn push_signed(out: &mut Vec<u8>, x: i64)
    ensures
        final(out)@ == old(out)@ + signed_decimal(x as int),
{
    if x < 0 {
        out.push(MINUS);
        let magnitude: u64 = (-(x + 1)) as u64 + 1;
        push_digits(out, magnitude, 10, false);
        assert(out@ =~= old(out)@ + signed_decimal(x as int));
    } else {
        push_digits(out, x as u64, 10, false);
    }
}

/// Appends the octets of `a` in decimal, joined by `.`, to `out`.
fn push_dotted(out: &mut Vec<u8>, a: &[u8])
    requires
        a@.len() > 0,
    ensures
        final(out)@ == old(out)@ + dotted(a@, a@.len()),
{
    push_digits(out, a[0] as u64, 10, false);
    let mut i: usize = 1;
    while i < a.len()
        invariant
            1 <= i <= a@.len(),
            out@ == old(out)@ + dotted(a@, i as nat),
        decreases a@.len() - i,
    {
        let ghost before = out@;
        out.push(DOT);
        push_digits(out, a[i] as u64, 10, false);
        i += 1;
        assert(out@ =~= old(out)@ + dotted(a@, i as nat));
    }
}

/// Appends the octets of `a` as two hexadecimal digits each, joined by
/// `:`, to `out`.
fn push_colon_octets(out: &mut Vec<u8>, a: &[u8], upper: bool)
    requires
        a@.len() > 0,
    ensures
        final(out)@ == old(out)@ + colon_octets(a@, a@.len(), upper),
{
    out.push(digit_char((a[0] / 16) as u64, upper));
    out.push(digit_char((a[0] % 16) as u64, upper));
    assert(out@ =~= old(out)@ + colon_octets(a@, 1, upper));
    let mut i: usize = 1;
    while i < a.len()
        invariant
            1 <= i <= a@.len(),
            out@ == old(out)@ + colon_octets(a@, i as nat, upper),
        decreases a@.len() - i,
    {
        out.push(SEPARATOR);
        out.push(digit_char((a[i] / 16) as u64, upper));
        out.push(digit_char((a[i] % 16) as u64, upper));
        i += 1;
        assert(out@ =~= old(out)@ + colon_octets(a@, i as nat, upper));
    }
}

/// Appends the groups of the sixteen octets `a` in hexadecimal, joined by
/// `:`, to `out`.
fn push_colon_groups(out: &mut Vec<u8>, a: &[u8])
    requires
        a@.len() == 16,
    ensures
        final(out)@ == old(out)@ + colon_groups(a@, 8),
{
    push_digits(out, a[0] as u64 * 256 + a[1] as u64, 16, false);
    let mut k: usize = 1;
    while k < 8
        invariant
            1 <= k <= 8,
            a@.len() == 16,
            out@ == old(out)@ + colon_groups(a@, k as nat),
        decreases 8 - k,
    {
        out.push(SEPARATOR);
        push_digits(out, a[2 * k] as u64 * 256 + a[2 * k + 1] as u64, 16, false);
        k += 1;
        assert(out@ =~= old(out)@ + colon_groups(a@, k as nat));
    }
}

/// Appends the text of `value` under `hint` to `out`; nothing where the
/// hint does not accept the value.
pub fn push_value(out: &mut Vec<u8>, hint: DisplayHint, value: &Value)
    ensures
        final(out)@ == old(out)@ + render_value(hint, *value),
{
    let kind = value.kind();
    if !hint.supports(kind) {
        assert(out@ =~= old(out)@ + render_value(hint, *value));
        return ;
    }
    proof {
        lemma_pow256_values();
    }
    match hint {
        DisplayHint::Default => match value {
            Value::Ipv4(a) => push_dotted(out, a.as_slice()),
            Value::Ipv6(a) => push_colon_groups(out, a.as_slice()),
            Value::Mac(_) => {},
            Value::U8(x) => push_digits(out, *x as u64, 10, false),
            Value::U16(x) => push_digits(out, *x as u64, 10, false),
            Value::U32(x) => push_digits(out, *x as u64, 10, false),
            Value::U64(x) => push_digits(out, *x, 10, false),
            Value::I8(x) => push_signed(out, *x as i64),
            Value::I16(x) => push_signed(out, *x as i64),
            Value::I32(x) => push_signed(out, *x as i64),
            Value::I64(x) => push_signed(out, *x),
        },
        DisplayHint::Ip => match value {
            Value::Ipv4(a) => push_dotted(out, a.as_slice()),
            Value::Ipv6(a) => push_colon_groups(out, a.as_slice()),
            Value::U32(x) => {
                let v: u32 = *x;
                let octets: [u8; 4] = [
                    (v / 0x100_0000) as u8,
                    ((v / 0x1_0000) % 256) as u8,
                    ((v / 0x100) % 256) as u8,
                    (v % 256) as u8,
                ];
                assert(octets@ =~= be_octets(v as nat));
                push_dotted(out, octets.as_slice())
            },
            _ => {},
        },
        DisplayHint::LowerHex => push_digits(out, value.to_bits(), 16, false),
        DisplayHint::UpperHex => push_digits(out, value.to_bits(), 16, true),
        DisplayHint::LowerMac => match value {
            Value::Mac(a) => push_colon_octets(out, a.as_slice(), false),
            _ => {},
        },
        DisplayHint::UpperMac => match value {
            Value::Mac(a) => push_colon_octets(out, a.as_slice(), true),
            _ => {},
        },
    }
}

} // verus!
