//! Fixed-width integer encodings and byte-slice copies, and the arithmetic
//! that says what they mean.
//!
//! [`le_bytes`] and [`le_value`] are inverse to each other on the widths they
//! are used with; the wire format's length prefixes and a sealed caveat's
//! timestamp are both read through them.

use vstd::prelude::*;

verus! {

/// The `width` low base-256 digits of `x`, least significant first.
pub open spec fn le_bytes(x: nat, width: nat) -> Seq<u8>
    decreases width,
{
    if width == 0 {
        Seq::empty()
    } else {
        seq![(x % 256) as u8] + le_bytes(x / 256, (width - 1) as nat)
    }
}

/// The number whose base-256 digits are `s`, least significant first.
pub open spec fn le_value(s: Seq<u8>) -> nat
    decreases s.len(),
{
    if s.len() == 0 {
        0
    } else {
        s[0] as nat + 256 * le_value(s.drop_first())
    }
}

/// The `width` low base-256 digits of `x`, most significant first.
pub open spec fn be_bytes(x: nat, width: nat) -> Seq<u8> {
    le_bytes(x, width).reverse()
}

/// 256 to the power `width`: how many values `width` bytes can hold.
pub open spec fn byte_span(width: nat) -> nat
    decreases width,
{
    if width == 0 {
        1
    } else {
        256 * byte_span((width - 1) as nat)
    }
}

/// `buf` with the bytes from `at` on replaced by `field`.
pub open spec fn overwrite(buf: Seq<u8>, at: int, field: Seq<u8>) -> Seq<u8> {
    buf.take(at) + field + buf.skip(at + field.len())
}

/// An encoding has the width it was asked for.
pub proof fn le_bytes_len(x: nat, width: nat)
    ensures
        le_bytes(x, width).len() == width,
    decreases width,
{
    if width > 0 {
        le_bytes_len(x / 256, (width - 1) as nat);
    }
}

/// Reading back an encoding gives the number, as far as `width` bytes can
/// hold it.
pub proof fn le_value_of_le_bytes(x: nat, width: nat)
    ensures
        le_value(le_bytes(x, width)) == x % byte_span(width),
    decreases width,
{
    byte_span_positive(width);
    if width > 0 {
        let rest: nat = (width - 1) as nat;
        byte_span_positive(rest);
        le_value_of_le_bytes(x / 256, rest);
        let tail = le_bytes(x / 256, rest);
        assert(le_bytes(x, width).drop_first() =~= tail);
        let m: nat = byte_span(rest);
        vstd::arithmetic::div_mod::lemma_breakdown(x as int, 256, m as int);
        assert(x % (256 * m) == 256 * ((x / 256) % m) + x % 256);
    }
}

/// Encoding what was read gives back the bytes.
pub proof fn le_bytes_of_le_value(s: Seq<u8>)
    ensures
        le_bytes(le_value(s), s.len()) =~= s,
    decreases s.len(),
{
    if s.len() > 0 {
        let rest = s.drop_first();
        le_bytes_of_le_value(rest);
        let x: nat = le_value(s);
        assert(x % 256 == s[0] as nat);
        assert(x / 256 == le_value(rest));
        assert(le_bytes(x, s.len()) =~= seq![s[0]] + rest);
    }
}

/// Two numbers that both fit in `width` bytes and have the same encoding are
/// the same number.
pub proof fn le_bytes_injective(x: nat, y: nat, width: nat)
    requires
        x < byte_span(width),
        y < byte_span(width),
        le_bytes(x, width) == le_bytes(y, width),
    ensures
        x == y,
{
    le_value_of_le_bytes(x, width);
    le_value_of_le_bytes(y, width);
    vstd::arithmetic::div_mod::lemma_small_mod(x, byte_span(width));
    vstd::arithmetic::div_mod::lemma_small_mod(y, byte_span(width));
}

proof fn byte_span_positive(width: nat)
    ensures
        byte_span(width) >= 1,
    decreases width,
{
    if width > 0 {
        byte_span_positive((width - 1) as nat);
    }
}

/// `x` as four little-endian bytes.
pub(crate) fn u32_to_le(x: u32) -> (out: [u8; 4])
    ensures
        out@ == le_bytes(x as nat, 4),
{
    let out: [u8; 4] = [
        (x % 256) as u8,
        ((x / 256) % 256) as u8,
        ((x / 65536) % 256) as u8,
        (x / 16777216) as u8,
    ];
    proof {
        reveal_with_fuel(le_bytes, 5);
        assert(out@ =~= le_bytes(x as nat, 4));
    }
    out
}

/// The number that the four little-endian bytes at the start of `s` encode.
pub(crate) fn u32_from_le(s: &[u8]) -> (x: u32)
    requires
        s@.len() >= 4,
    ensures
        x == le_value(s@.take(4)),
{
    proof {
        reveal_with_fuel(le_value, 5);
        let t = s@.take(4);
        assert(t.drop_first().drop_first().drop_first().drop_first().len() == 0);
    }
    s[0] as u32 + 256 * (s[1] as u32) + 65536 * (s[2] as u32) + 16777216 * (s[3] as u32)
}

/// `x` as eight big-endian bytes.
pub(crate) fn u64_to_be(x: u64) -> (out: [u8; 8])
    ensures
        out@ == be_bytes(x as nat, 8),
{
    let ghost digits = le_bytes(x as nat, 8);
    let mut out: [u8; 8] = [0u8;8];
    let mut rest: u64 = x;
    let mut i: usize = 0;
    proof {
        le_bytes_len(x as nat, 8);
    }
    while i < 8
        invariant
            i <= 8,
            digits.len() == 8,
            digits.skip(i as int) == le_bytes(rest as nat, (8 - i) as nat),
            forall|j: int| 0 <= j < i ==> out@[7 - j] == #[trigger] digits[j],
        decreases 8 - i,
    {
        proof {
            let tail = le_bytes((rest / 256) as nat, (7 - i) as nat);
            assert(digits.skip(i as int)[0] == (rest % 256) as u8);
            assert(digits.skip(i + 1) =~= digits.skip(i as int).skip(1));
            assert(digits.skip(i as int).skip(1) =~= tail);
        }
        out[7 - i] = (rest % 256) as u8;
        rest = rest / 256;
        i = i + 1;
    }
    proof {
        assert forall|k: int| 0 <= k < 8 implies out@[k] == digits[7 - k] by {
            assert(out@[7 - (7 - k)] == digits[7 - k]);
        }
        assert(out@ =~= be_bytes(x as nat, 8));
    }
    out
}

/// Copies `field` over the start of `dst`, which is at least as long.
pub(crate) fn copy_into(dst: &mut [u8], field: &[u8])
    requires
        field@.len() <= old(dst)@.len(),
    ensures
        final(dst)@ == overwrite(old(dst)@, 0, field@),
{
    let ghost before = dst@;
    let n: usize = field.len();
    let mut i: usize = 0;
    while i < n
        invariant
            i <= n,
            n == field@.len(),
            n <= dst@.len(),
            dst@ == overwrite(before, 0, field@.take(i as int)),
            before.len() == dst@.len(),
        decreases n - i,
    {
        dst[i] = field[i];
        i = i + 1;
        proof {
            assert(dst@ =~= overwrite(before, 0, field@.take(i as int)));
        }
    }
    proof {
        assert(field@.take(n as int) =~= field@);
    }
}

/// Whether two byte slices hold the same bytes.
pub(crate) fn same_bytes(a: &[u8], b: &[u8]) -> (same: bool)
    ensures
        same == (a@ == b@),
{
    if a.len() != b.len() {
        return false;
    }
    let n: usize = a.len();
    let mut i: usize = 0;
    while i < n
        invariant
            i <= n,
            n == a@.len(),
            n == b@.len(),
            forall|j: int| 0 <= j < i ==> a@[j] == b@[j],
        decreases n - i,
    {
        if a[i] != b[i] {
            return false;
        }
        i = i + 1;
    }
    proof {
        assert(a@ =~= b@);
    }
    true
}

/// `width` bytes can hold as many values as the power says.
pub proof fn byte_span_is_a_power(width: nat)
    ensures
        byte_span(width) == vstd::arithmetic::power::pow(256, width),
    decreases width,
{
    reveal(vstd::arithmetic::power::pow);
    if width > 0 {
        byte_span_is_a_power((width - 1) as nat);
    }
}

/// The byte at place `i` of an encoding is the `i`th digit of the number in
/// base 256, counted from the least significant.
pub proof fn le_bytes_are_digits(x: nat, width: nat, i: int)
    requires
        0 <= i < width,
    ensures
        le_bytes(x, width).len() == width,
        le_bytes(x, width)[i] as int == (x as int / vstd::arithmetic::power::pow(256, i as nat))
            % 256,
    decreases width,
{
    reveal(vstd::arithmetic::power::pow);
    le_bytes_len(x, width);
    if i > 0 {
        let rest: nat = (width - 1) as nat;
        let tail: nat = x / 256;
        le_bytes_len(tail, rest);
        le_bytes_are_digits(tail, rest, i - 1);
        let p: int = vstd::arithmetic::power::pow(256, (i - 1) as nat);
        byte_span_is_a_power((i - 1) as nat);
        byte_span_positive((i - 1) as nat);
        vstd::arithmetic::div_mod::lemma_div_denominator(x as int, 256, p);
        assert(le_bytes(x, width)[i] == le_bytes(tail, rest)[i - 1]);
    } else {
        vstd::arithmetic::div_mod::lemma_div_by_multiple(x as int, 1);
    }
}

/// What four bytes say, least significant first.
pub proof fn four_bytes_add_up(s: Seq<u8>)
    requires
        s.len() == 4,
    ensures
        le_value(s) == s[0] as int + 256 * s[1] as int + 65536 * s[2] as int + 16777216
            * s[3] as int,
{
    reveal_with_fuel(le_value, 5);
    assert(s.drop_first().drop_first().drop_first().drop_first().len() == 0);
}

/// What the four bytes of an encoding say, least significant first.
pub proof fn le_bytes_add_up(x: nat)
    ensures
        ({
            let s = le_bytes(x, 4);
            &&& s.len() == 4
            &&& s[0] as int + 256 * s[1] as int + 65536 * s[2] as int + 16777216 * s[3] as int == x
                % 0x1_0000_0000
        }),
{
    le_bytes_len(x, 4);
    le_value_of_le_bytes(x, 4);
    reveal_with_fuel(byte_span, 5);
    four_bytes_add_up(le_bytes(x, 4));
}

/// What the eight bytes of an encoding say, most significant first.
pub proof fn be_bytes_add_up(x: u64)
    ensures
        ({
            let s = be_bytes(x as nat, 8);
            &&& s.len() == 8
            &&& x == 0x100_0000_0000_0000 * s[0] as int + 0x1_0000_0000_0000 * s[1] as int
                + 0x100_0000_0000 * s[2] as int + 0x1_0000_0000 * s[3] as int + 0x100_0000
                * s[4] as int + 0x1_0000 * s[5] as int + 0x100 * s[6] as int + s[7] as int
        }),
{
    let l = le_bytes(x as nat, 8);
    le_bytes_len(x as nat, 8);
    le_value_of_le_bytes(x as nat, 8);
    reveal_with_fuel(byte_span, 9);
    vstd::arithmetic::div_mod::lemma_small_mod(x as nat, byte_span(8));
    let high = l.skip(4);
    assert(high.len() == 4);
    assert(l.drop_first().drop_first().drop_first().drop_first() =~= high);
    assert(le_value(l) == l[0] as int + 256 * l[1] as int + 65536 * l[2] as int + 16777216
        * l[3] as int + 0x1_0000_0000 * le_value(high)) by {
        reveal_with_fuel(le_value, 5);
    }
    four_bytes_add_up(high);
}

/// Overwriting puts the field in its place, touches nothing else and moves
/// nothing.
pub proof fn overwriting_touches_only_its_place(buf: Seq<u8>, at: int, field: Seq<u8>, i: int)
    requires
        0 <= at,
        at + field.len() <= buf.len(),
        0 <= i < buf.len(),
    ensures
        overwrite(buf, at, field).len() == buf.len(),
        overwrite(buf, at, field)[i] == if at <= i < at + field.len() {
            field[i - at]
        } else {
            buf[i]
        },
{
}

} // verus!
