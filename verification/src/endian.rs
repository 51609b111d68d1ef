//! Little-endian numbers as mathematics: the bytes of a number, the number of
//! some bytes, and two's complement.

use vstd::prelude::*;

verus! {

/// 256 to the power `width`: how many numbers `width` bytes can tell apart.
pub open spec fn radix(width: nat) -> nat
    decreases width,
{
    if width == 0 {
        1
    } else {
        256 * radix((width - 1) as nat)
    }
}

/// The `width` lowest base-256 digits of `v`, lowest first.
pub open spec fn le_bytes(v: nat, width: nat) -> Seq<u8>
    decreases width,
{
    if width == 0 {
        Seq::empty()
    } else {
        seq![(v % 256) as u8] + le_bytes(v / 256, (width - 1) as nat)
    }
}

/// The number whose base-256 digits, lowest first, are `bytes`.
pub open spec fn le_value(bytes: Seq<u8>) -> nat
    decreases bytes.len(),
{
    if bytes.len() == 0 {
        0
    } else {
        bytes[0] as nat + 256 * le_value(bytes.skip(1))
    }
}

/// The number below `radix(width)` that has the bits of `v` in two's complement.
pub open spec fn to_unsigned(v: int, width: nat) -> nat {
    if v < 0 {
        (v + radix(width)) as nat
    } else {
        v as nat
    }
}

/// The number that `n` stands for when its `8 * width` bits are read as two's
/// complement.
pub open spec fn to_signed(n: nat, width: nat) -> int {
    if 2 * n >= radix(width) {
        n - radix(width)
    } else {
        n as int
    }
}

/// The values of `radix` at the widths of the integer types.
pub proof fn lemma_radix_values()
    ensures
        radix(1) == 0x100,
        radix(2) == 0x1_0000,
        radix(4) == 0x1_0000_0000,
        radix(8) == 0x1_0000_0000_0000_0000,
        radix(16) == 0x1_0000_0000_0000_0000_0000_0000_0000_0000,
{
    reveal_with_fuel(radix, 17);
}

/// A number has as many bytes as are asked for.
pub proof fn lemma_le_bytes_len(v: nat, width: nat)
    ensures
        le_bytes(v, width).len() == width,
    decreases width,
{
    if width > 0 {
        lemma_le_bytes_len(v / 256, (width - 1) as nat);
    }
}

/// Some bytes stand for a number below the radix of their count.
pub proof fn lemma_le_value_below_radix(bytes: Seq<u8>)
    ensures
        le_value(bytes) < radix(bytes.len()),
    decreases bytes.len(),
{
    if bytes.len() > 0 {
        lemma_le_value_below_radix(bytes.skip(1));
    }
}

/// The bytes of a number that fits stand for that number.
pub proof fn lemma_le_value_of_bytes(v: nat, width: nat)
    requires
        v < radix(width),
    ensures
        le_value(le_bytes(v, width)) == v,
    decreases width,
{
    if width > 0 {
        let rest = le_bytes(v / 256, (width - 1) as nat);
        lemma_le_bytes_len(v / 256, (width - 1) as nat);
        lemma_le_value_of_bytes(v / 256, (width - 1) as nat);
        assert(le_bytes(v, width).skip(1) =~= rest);
    }
}

/// Some bytes are the bytes of the number that they stand for.
pub proof fn lemma_le_bytes_of_value(bytes: Seq<u8>)
    ensures
        le_bytes(le_value(bytes), bytes.len()) == bytes,
    decreases bytes.len(),
{
    if bytes.len() > 0 {
        lemma_le_bytes_of_value(bytes.skip(1));
        assert(le_bytes(le_value(bytes), bytes.len()) =~= bytes);
    }
}

/// Two's complement loses nothing of a number in the signed range.
pub proof fn lemma_signed_of_unsigned(v: int, width: nat)
    requires
        width > 0,
        -(radix(width) as int) <= 2 * v < radix(width),
    ensures
        to_unsigned(v, width) < radix(width),
        to_signed(to_unsigned(v, width), width) == v,
{
}

/// The bytes of a number that fits, with anything behind them, begin with
/// bytes that stand for that number.
pub proof fn lemma_le_value_of_head(v: nat, width: nat, rest: Seq<u8>)
    requires
        v < radix(width),
    ensures
        le_bytes(v, width).len() == width,
        le_value((le_bytes(v, width) + rest).take(width as int)) == v,
{
    lemma_le_bytes_len(v, width);
    lemma_le_value_of_bytes(v, width);
    assert((le_bytes(v, width) + rest).take(width as int) =~= le_bytes(v, width));
}

} // verus!
