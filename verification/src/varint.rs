//! Variable-length unsigned integers: seven bits of the number to a byte,
//! lowest group first, with the high bit set on every byte but the last.
//!
//! A number of a given width has no more bytes than it takes groups of seven
//! bits to cover the width. Bytes that go on beyond that are malformed: a
//! reader gives them up as an error in the data.

use vstd::prelude::*;

use crate::codec::{DecodeError, Parsed};
use crate::endian::radix;

verus! {

/// The bytes of `v`: its base-128 digits, lowest first, each but the last
/// with 128 added as the sign that more follow.
pub open spec fn varint_bytes(v: nat) -> Seq<u8>
    decreases v,
{
    if v < 128 {
        seq![v as u8]
    } else {
        seq![(v % 128 + 128) as u8] + varint_bytes(v / 128)
    }
}

/// The number of binary digits of `v`. Zero has one digit.
pub open spec fn bits_used(v: nat) -> nat
    decreases v,
{
    if v < 2 {
        1
    } else {
        1 + bits_used(v / 2)
    }
}

/// 128 to the power `index`: what a unit of the byte at `index` is worth.
pub open spec fn weight(index: nat) -> nat
    decreases index,
{
    if index == 0 {
        1
    } else {
        128 * weight((index - 1) as nat)
    }
}

/// The number that the low seven bits of each of `bytes` spell, lowest group
/// first.
pub open spec fn groups_value(bytes: Seq<u8>) -> nat
    decreases bytes.len(),
{
    if bytes.len() == 0 {
        0
    } else {
        (bytes[0] % 128) as nat + 128 * groups_value(bytes.skip(1))
    }
}

/// The most bytes that a number of `width` bytes can have, and so the most
/// that a reader takes for it: enough groups of seven bits to cover all its
/// bits.
pub open spec fn max_len(width: nat) -> nat {
    (8 * width + 6) / 7
}

/// How many of `bytes` a reader takes that may take `limit` bytes: all up
/// to the first byte without the high bit, and that byte.
///
/// Where `limit` bytes in a row have the high bit set, the number goes on
/// beyond its width: the data is invalid. Where `bytes` ends before that,
/// and before a byte without the high bit, the source has ended.
pub open spec fn varint_span(bytes: Seq<u8>, limit: nat) -> Result<nat, DecodeError>
    decreases limit,
{
    if limit == 0 {
        Err(DecodeError::InvalidData)
    } else if bytes.len() == 0 {
        Err(DecodeError::UnexpectedEof)
    } else if bytes[0] < 128 {
        Ok(1)
    } else {
        match varint_span(bytes.skip(1), (limit - 1) as nat) {
            Ok(n) => Ok(n + 1),
            Err(e) => Err(e),
        }
    }
}

/// What a reader of a number of `width` bytes makes of `bytes`: the groups
/// it takes spell a number, of which the bits that the width has room for
/// are kept. Bytes that go on beyond `max_len(width)` are invalid data,
/// and bytes that end too early are a source that has ended.
pub open spec fn varint_parse(bytes: Seq<u8>, width: nat) -> Parsed<nat> {
    match varint_span(bytes, max_len(width)) {
        Err(e) => Err(e),
        Ok(n) => Ok((groups_value(bytes.take(n as int)) % radix(width), n)),
    }
}

/// The values of `weight` that bound the integer types.
pub proof fn lemma_weight_values()
    ensures
        weight(2) == 0x4000,
        weight(3) == 0x20_0000,
        weight(4) == 0x1000_0000,
        weight(5) == 0x8_0000_0000,
        weight(9) == 0x8000_0000_0000_0000,
        weight(10) == 0x40_0000_0000_0000_0000,
        weight(18) == 0x4000_0000_0000_0000_0000_0000_0000_0000,
        weight(19) == 0x20_0000_0000_0000_0000_0000_0000_0000_0000,
{
    reveal_with_fuel(weight, 20);
}

/// A later place weighs no less than an earlier one, and none weighs nothing.
pub proof fn lemma_weight_increases(i: nat, j: nat)
    requires
        i <= j,
    ensures
        0 < weight(i) <= weight(j),
    decreases j,
{
    if j > 0 {
        if i < j {
            lemma_weight_increases(i, (j - 1) as nat);
        } else {
            lemma_weight_increases((i - 1) as nat, (j - 1) as nat);
        }
    }
}

/// A number below 128 has at most seven binary digits.
proof fn lemma_bits_used_small(v: nat)
    requires
        v < 128,
    ensures
        1 <= bits_used(v) <= 7,
{
    reveal_with_fuel(bits_used, 8);
}

/// Dividing by 128 takes seven binary digits away.
proof fn lemma_bits_used_step(v: nat)
    requires
        v >= 128,
    ensures
        bits_used(v) == 7 + bits_used(v / 128),
{
    reveal_with_fuel(bits_used, 8);
    assert(v / 2 / 2 / 2 / 2 / 2 / 2 / 2 == v / 128);
}

/// The encoding has one byte for every seven binary digits of the number,
/// the last of them possibly not full.
pub proof fn lemma_varint_len(v: nat)
    ensures
        varint_bytes(v).len() == (bits_used(v) + 6) / 7,
        varint_bytes(v).len() >= 1,
    decreases v,
{
    if v < 128 {
        lemma_bits_used_small(v);
    } else {
        lemma_bits_used_step(v);
        lemma_varint_len(v / 128);
    }
}

/// A number below `weight(n)` has at most `n` bytes.
pub proof fn lemma_varint_len_below_weight(v: nat, n: nat)
    requires
        n >= 1,
        v < weight(n),
    ensures
        varint_bytes(v).len() <= n,
    decreases n,
{
    if v >= 128 {
        assert(n >= 2) by {
            reveal_with_fuel(weight, 2);
        }
        lemma_varint_len_below_weight(v / 128, (n - 1) as nat);
    }
}

/// A number from `weight(n)` on has more than `n` bytes.
pub proof fn lemma_varint_len_from_weight(v: nat, n: nat)
    requires
        v >= weight(n),
    ensures
        varint_bytes(v).len() > n,
    decreases n,
{
    if n > 0 {
        lemma_weight_increases(1, n);
        assert(weight(1) == 128) by {
            reveal_with_fuel(weight, 2);
        }
        lemma_varint_len_from_weight(v / 128, (n - 1) as nat);
    }
}

/// The groups of the encoding spell the number.
pub proof fn lemma_groups_of_varint(v: nat)
    ensures
        groups_value(varint_bytes(v)) == v,
    decreases v,
{
    if v < 128 {
        reveal_with_fuel(groups_value, 2);
    } else {
        lemma_groups_of_varint(v / 128);
        assert(varint_bytes(v).skip(1) =~= varint_bytes(v / 128));
    }
}

/// A reader with room for the whole encoding stops exactly behind it.
pub proof fn lemma_span_of_varint(v: nat, rest: Seq<u8>, limit: nat)
    requires
        varint_bytes(v).len() <= limit,
    ensures
        varint_span(varint_bytes(v) + rest, limit) == Ok::<nat, DecodeError>(
            varint_bytes(v).len(),
        ),
    decreases v,
{
    let bytes = varint_bytes(v) + rest;
    lemma_varint_len(v);
    if v >= 128 {
        lemma_varint_len(v / 128);
        lemma_span_of_varint(v / 128, rest, (limit - 1) as nat);
        assert(bytes.skip(1) =~= varint_bytes(v / 128) + rest);
    }
}

/// Reading the encoding of a number that fits the width gives the number
/// back, whatever follows the encoding.
pub proof fn lemma_parse_of_varint(v: nat, width: nat, rest: Seq<u8>)
    requires
        width >= 1,
        v < radix(width),
        radix(width) <= weight(max_len(width)),
    ensures
        varint_parse(varint_bytes(v) + rest, width) == Ok::<(nat, nat), DecodeError>(
            (v, varint_bytes(v).len()),
        ),
{
    let n = varint_bytes(v).len();
    lemma_varint_len(v);
    lemma_varint_len_below_weight(v, max_len(width));
    lemma_span_of_varint(v, rest, max_len(width));
    lemma_groups_of_varint(v);
    assert((varint_bytes(v) + rest).take(n as int) =~= varint_bytes(v));
    assert(v % radix(width) == v) by (nonlinear_arith)
        requires
            v < radix(width),
    ;
}

/// The span is at least one byte, and never reaches past the bytes nor
/// past the limit.
pub proof fn lemma_span_within(bytes: Seq<u8>, limit: nat)
    ensures
        varint_span(bytes, limit) matches Ok(n) ==> 1 <= n <= bytes.len() && n <= limit,
    decreases limit,
{
    if limit > 0 && bytes.len() > 0 && bytes[0] >= 128 {
        lemma_span_within(bytes.skip(1), (limit - 1) as nat);
    }
}

/// Bytes of which the first `limit` all have the high bit set go on beyond
/// the limit: they are invalid data, whatever follows them.
pub proof fn lemma_span_over_long(bytes: Seq<u8>, limit: nat)
    requires
        limit <= bytes.len(),
        forall|j: int| 0 <= j < limit ==> bytes[j] >= 128,
    ensures
        varint_span(bytes, limit) == Err::<nat, DecodeError>(DecodeError::InvalidData),
{
    lemma_span_skip(bytes, limit, limit);
}

/// One more byte behind some bytes adds its group at the weight of its place.
pub proof fn lemma_groups_push(bytes: Seq<u8>, b: u8)
    ensures
        groups_value(bytes.push(b)) == groups_value(bytes) + (b % 128) * weight(bytes.len()),
    decreases bytes.len(),
{
    let group = (b % 128) as nat;
    if bytes.len() == 0 {
        assert(bytes.push(b).skip(1).len() == 0);
        assert(groups_value(bytes.push(b).skip(1)) == 0);
        assert(group * weight(0) == group) by (nonlinear_arith)
            requires
                weight(0) == 1,
        ;
    } else {
        let below = weight((bytes.len() - 1) as nat);
        lemma_groups_push(bytes.skip(1), b);
        assert(bytes.push(b).skip(1) =~= bytes.skip(1).push(b));
        assert(128 * (group * below) == group * weight(bytes.len())) by (nonlinear_arith)
            requires
                weight(bytes.len()) == 128 * below,
        ;
    }
}

/// Some bytes spell a number below the weight of the place behind them.
pub proof fn lemma_groups_below_weight(bytes: Seq<u8>)
    ensures
        groups_value(bytes) < weight(bytes.len()),
    decreases bytes.len(),
{
    if bytes.len() > 0 {
        lemma_groups_below_weight(bytes.skip(1));
    }
}

/// Behind `taken` bytes with the high bit set the reader goes on as if it
/// started there with that much less room.
pub proof fn lemma_span_skip(bytes: Seq<u8>, limit: nat, taken: nat)
    requires
        taken <= limit,
        taken <= bytes.len(),
        forall|j: int| 0 <= j < taken ==> bytes[j] >= 128,
    ensures
        varint_span(bytes, limit) == match varint_span(
            bytes.skip(taken as int),
            (limit - taken) as nat,
        ) {
            Ok(n) => Ok(n + taken),
            Err(e) => Err(e),
        },
    decreases taken,
{
    if taken == 0 {
        assert(bytes.skip(0) =~= bytes);
    } else {
        lemma_span_skip(bytes.skip(1), (limit - 1) as nat, (taken - 1) as nat);
        assert(bytes.skip(1).skip(taken - 1) =~= bytes.skip(taken as int));
    }
}

/// What the number read so far becomes when the group of the next byte is
/// joined to it and the bits beyond the width are dropped.
pub proof fn lemma_join(prefix: Seq<u8>, b: u8, joined: nat, modulus: nat)
    requires
        modulus > 0,
        joined < modulus,
        joined == groups_value(prefix) + ((b % 128) * weight(prefix.len())) % (modulus as int),
    ensures
        joined == groups_value(prefix.push(b)) % modulus,
{
    let group = (b % 128) * weight(prefix.len());
    lemma_groups_push(prefix, b);
    vstd::arithmetic::div_mod::lemma_fundamental_div_mod(group, modulus as int);
    vstd::arithmetic::div_mod::lemma_mod_multiples_vanish(
        group / (modulus as int),
        joined as int,
        modulus as int,
    );
    vstd::arithmetic::div_mod::lemma_small_mod(joined, modulus);
    assert(modulus * (group / (modulus as int)) == (group / (modulus as int)) * modulus)
        by (nonlinear_arith);
}

} // verus!
