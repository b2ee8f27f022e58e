//! Little-endian integer fields inside fixed-size byte records.
//!
//! A field of `n` bytes holds the `n` low-order base-256 digits of a number,
//! least significant digit first. The two spec functions below say so; the
//! executable readers and writers are proved against them.

use vstd::prelude::*;

verus! {

/// `256^n`: the number of values an `n`-byte field can hold.
pub open spec fn radix_pow(n: nat) -> nat
    decreases n,
{
    if n == 0 {
        1
    } else {
        256 * radix_pow((n - 1) as nat)
    }
}

/// The `n` low-order base-256 digits of `x`, least significant first.
pub open spec fn le_bytes(x: nat, n: nat) -> Seq<u8>
    decreases n,
{
    if n == 0 {
        Seq::empty()
    } else {
        seq![(x % 256) as u8] + le_bytes(x / 256, (n - 1) as nat)
    }
}

/// The number whose base-256 digits, least significant first, are `s`.
pub open spec fn le_value(s: Seq<u8>) -> nat
    decreases s.len(),
{
    if s.len() == 0 {
        0
    } else {
        s[0] as nat + 256 * le_value(s.drop_first())
    }
}

/// A field of `n` bytes is `n` bytes long.
pub proof fn lemma_le_bytes_len(x: nat, n: nat)
    ensures
        le_bytes(x, n).len() == n,
    decreases n,
{
    if n > 0 {
        lemma_le_bytes_len(x / 256, (n - 1) as nat);
    }
}

/// `radix_pow` grows with its argument and is never zero.
pub proof fn lemma_radix_pow_monotone(a: nat, b: nat)
    requires
        a <= b,
    ensures
        0 < radix_pow(a) <= radix_pow(b),
    decreases b,
{
    if a == 0 {
        if b > 0 {
            lemma_radix_pow_monotone(0, (b - 1) as nat);
        }
    } else {
        lemma_radix_pow_monotone((a - 1) as nat, (b - 1) as nat);
    }
}

/// The widths in use: two, four, six and eight bytes.
pub proof fn lemma_radix_pow_values()
    ensures
        radix_pow(0) == 1,
        radix_pow(1) == 0x100,
        radix_pow(2) == 0x1_0000,
        radix_pow(4) == 0x1_0000_0000,
        radix_pow(6) == 0x1_0000_0000_0000,
        radix_pow(7) == 0x100_0000_0000_0000,
        radix_pow(8) == 0x1_0000_0000_0000_0000,
{
    reveal_with_fuel(radix_pow, 9);
}

/// What a byte string decodes to fits the field it came from.
pub proof fn lemma_le_value_bound(s: Seq<u8>)
    ensures
        le_value(s) < radix_pow(s.len()),
    decreases s.len(),
{
    if s.len() > 0 {
        lemma_le_value_bound(s.drop_first());
    }
}

/// Decoding the field written for `x` gives `x` back, if `x` fits the field.
pub proof fn lemma_le_value_of_bytes(x: nat, n: nat)
    requires
        x < radix_pow(n),
    ensures
        le_value(le_bytes(x, n)) == x,
    decreases n,
{
    if n > 0 {
        let rest = le_bytes(x / 256, (n - 1) as nat);
        lemma_le_value_of_bytes(x / 256, (n - 1) as nat);
        assert(le_bytes(x, n).drop_first() =~= rest);
    }
}

/// Writing what a byte string decodes to, in a field of the same width,
/// gives the byte string back.
pub proof fn lemma_le_bytes_of_value(s: Seq<u8>)
    ensures
        le_bytes(le_value(s), s.len()) == s,
    decreases s.len(),
{
    if s.len() > 0 {
        let tail = s.drop_first();
        lemma_le_bytes_of_value(tail);
        assert(le_value(s) % 256 == s[0] as nat);
        assert(le_value(s) / 256 == le_value(tail));
        assert(le_bytes(le_value(s), s.len()) =~= s);
    } else {
        assert(le_bytes(le_value(s), s.len()) =~= s);
    }
}

/// Two numbers that fit a field and are written alike are the same number.
pub proof fn lemma_le_bytes_injective(x: nat, y: nat, n: nat)
    requires
        x < radix_pow(n),
        y < radix_pow(n),
        le_bytes(x, n) == le_bytes(y, n),
    ensures
        x == y,
{
    lemma_le_value_of_bytes(x, n);
    lemma_le_value_of_bytes(y, n);
}

/// Writes the `width` low-order bytes of `value` at offset `at`, least
/// significant first, and leaves the rest of the record as it was.
pub fn write_le<const N: usize>(buf: &mut [u8; N], at: usize, value: u64, width: usize)
    requires
        at + width <= N,
    ensures
        final(buf)@ == old(buf)@.subrange(0, at as int) + le_bytes(value as nat, width as nat)
            + old(buf)@.subrange(at + width, N as int),
{
    let mut rest: u64 = value;
    let mut i: usize = 0;
    proof {
        lemma_le_bytes_len(value as nat, width as nat);
    }
    while i < width
        invariant
            i <= width,
            at + width <= N,
            buf@.len() == N,
            le_bytes(value as nat, width as nat).len() == width,
            buf@.subrange(0, at as int) == old(buf)@.subrange(0, at as int),
            buf@.subrange(at + width, N as int) == old(buf)@.subrange(at + width, N as int),
            buf@.subrange(at as int, at + i) + le_bytes(rest as nat, (width - i) as nat)
                == le_bytes(value as nat, width as nat),
        decreases width - i,
    {
        let ghost before = buf@;
        let digit: u8 = (rest % 256) as u8;
        buf[at + i] = digit;
        proof {
            let written = before.subrange(at as int, at + i);
            let tail = le_bytes((rest / 256) as nat, (width - i - 1) as nat);
            assert(le_bytes(rest as nat, (width - i) as nat) == seq![digit] + tail);
            assert(buf@.subrange(at as int, at + i + 1) =~= written + seq![digit]);
            assert(buf@.subrange(at as int, at + i + 1) + tail =~= written + (seq![digit] + tail));
            assert(buf@.subrange(0, at as int) =~= before.subrange(0, at as int));
            assert(buf@.subrange(at + width, N as int) =~= before.subrange(
                at + width,
                N as int,
            ));
        }
        rest = rest / 256;
        i = i + 1;
    }
    proof {
        assert(le_bytes(rest as nat, 0) =~= Seq::<u8>::empty());
        assert(buf@.subrange(at as int, at + width) =~= le_bytes(value as nat, width as nat));
        assert(buf@ =~= old(buf)@.subrange(0, at as int) + le_bytes(value as nat, width as nat)
            + old(buf)@.subrange(at + width, N as int));
    }
}

/// Reads the `width`-byte little-endian field at offset `at`.
pub fn read_le(buf: &[u8], at: usize, width: usize) -> (value: u64)
    requires
        at + width <= buf@.len(),
        width <= 8,
    ensures
        value == le_value(buf@.subrange(at as int, at + width)),
        value < radix_pow(width as nat),
{
    let len: usize = buf.len();
    let mut acc: u64 = 0;
    let mut i: usize = width;
    proof {
        assert(buf@.subrange(at + width, at + width) =~= Seq::<u8>::empty());
    }
    while i > 0
        invariant
            i <= width <= 8,
            at + width <= len == buf@.len(),
            acc == le_value(buf@.subrange(at + i, at + width)),
        decreases i,
    {
        let ghost high = buf@.subrange(at + i, at + width);
        proof {
            lemma_le_value_bound(high);
            lemma_radix_pow_monotone((width - i) as nat, 7);
            lemma_radix_pow_values();
        }
        i = i - 1;
        let digit: u8 = buf[at + i];
        proof {
            assert(buf@.subrange(at + i, at + width).drop_first() =~= high);
        }
        acc = acc * 256 + digit as u64;
    }
    proof {
        lemma_le_value_bound(buf@.subrange(at as int, at + width));
    }
    acc
}

} // verus!
