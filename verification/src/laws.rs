//! What holds of the wire format as a whole: that reading undoes writing,
//! for every type of the format, and how long a variable-length integer is.
//!
//! The laws are stated over `wire` and `parse`, in which the contracts of
//! `encode` and `decode` are written: what `encode` appends is `wire` of the
//! value, and what `decode` makes of the bytes is `parse` of them.

use vstd::prelude::*;

use crate::codec::{Decode, DecodeError, Encode, Parsed, RoundTrip};
use crate::endian::{
    lemma_le_bytes_len, lemma_le_bytes_of_value, lemma_le_value_below_radix, lemma_radix_values,
    to_unsigned,
};
use crate::var::Var;
use crate::varint::{
    bits_used, lemma_span_over_long, lemma_span_within, lemma_varint_len,
    lemma_varint_len_below_weight, lemma_varint_len_from_weight, lemma_weight_values, max_len,
    varint_bytes, varint_parse,
};

verus! {

/// The outcome of a reader that gave `v` and took `n` bytes.
pub open spec fn read<V>(v: V, n: nat) -> Parsed<V> {
    Ok((v, n))
}

/// Reading what was written gives the value back, for every type of the
/// format, and the reader takes exactly the bytes of the value.
pub proof fn law_round_trip<T: RoundTrip>(v: T::V)
    requires
        T::encodable(v),
    ensures
        T::parse(T::wire(v)) == read(v, T::wire(v).len()),
{
    T::lemma_round_trip(v, Seq::empty());
    assert(T::wire(v) + Seq::<u8>::empty() =~= T::wire(v));
}

/// Reading what was written gives the value back whatever is written
/// behind it, and leaves the reader there.
pub proof fn law_round_trip_in_a_row<T: RoundTrip>(v: T::V, rest: Seq<u8>)
    requires
        T::encodable(v),
    ensures
        T::parse(T::wire(v) + rest) == read(v, T::wire(v).len()),
        (T::wire(v) + rest).skip(T::wire(v).len() as int) == rest,
{
    T::lemma_round_trip(v, rest);
    assert((T::wire(v) + rest).skip(T::wire(v).len() as int) =~= rest);
}

/// Every integer of every fixed width comes back from its bytes, and so
/// does a boolean. An integer takes as many bytes as its width has.
pub proof fn law_fixed_width_round_trip(
    a: u8,
    b: u16,
    c: u32,
    d: u64,
    e: u128,
    f: i8,
    g: i16,
    h: i32,
    i: i64,
    j: i128,
    k: bool,
)
    ensures
        <u8 as Decode>::parse(<u8 as Encode>::wire(a)) == read(a, 1),
        <u16 as Decode>::parse(<u16 as Encode>::wire(b)) == read(b, 2),
        <u32 as Decode>::parse(<u32 as Encode>::wire(c)) == read(c, 4),
        <u64 as Decode>::parse(<u64 as Encode>::wire(d)) == read(d, 8),
        <u128 as Decode>::parse(<u128 as Encode>::wire(e)) == read(e, 16),
        <i8 as Decode>::parse(<i8 as Encode>::wire(f)) == read(f, 1),
        <i16 as Decode>::parse(<i16 as Encode>::wire(g)) == read(g, 2),
        <i32 as Decode>::parse(<i32 as Encode>::wire(h)) == read(h, 4),
        <i64 as Decode>::parse(<i64 as Encode>::wire(i)) == read(i, 8),
        <i128 as Decode>::parse(<i128 as Encode>::wire(j)) == read(j, 16),
        <bool as Decode>::parse(<bool as Encode>::wire(k)) == read(k, 1),
{
    law_round_trip::<u8>(a);
    law_round_trip::<u16>(b);
    law_round_trip::<u32>(c);
    law_round_trip::<u64>(d);
    law_round_trip::<u128>(e);
    law_round_trip::<i8>(f);
    law_round_trip::<i16>(g);
    law_round_trip::<i32>(h);
    law_round_trip::<i64>(i);
    law_round_trip::<i128>(j);
    law_round_trip::<bool>(k);
    lemma_le_bytes_len(b as nat, 2);
    lemma_le_bytes_len(c as nat, 4);
    lemma_le_bytes_len(d as nat, 8);
    lemma_le_bytes_len(e as nat, 16);
    lemma_le_bytes_len(to_unsigned(g as int, 2), 2);
    lemma_le_bytes_len(to_unsigned(h as int, 4), 4);
    lemma_le_bytes_len(to_unsigned(i as int, 8), 8);
    lemma_le_bytes_len(to_unsigned(j as int, 16), 16);
}

/// The bytes of an unsigned integer of a fixed width are the only bytes
/// that are read as that integer: what a reader gives, written again, is
/// the bytes that it took.
pub proof fn law_fixed_width_is_canonical(bytes: Seq<u8>)
    ensures
        <u16 as Decode>::parse(bytes) matches Ok((v, n)) ==> <u16 as Encode>::wire(v)
            == bytes.take(n as int),
        <u32 as Decode>::parse(bytes) matches Ok((v, n)) ==> <u32 as Encode>::wire(v)
            == bytes.take(n as int),
        <u64 as Decode>::parse(bytes) matches Ok((v, n)) ==> <u64 as Encode>::wire(v)
            == bytes.take(n as int),
        <u128 as Decode>::parse(bytes) matches Ok((v, n)) ==> <u128 as Encode>::wire(v)
            == bytes.take(n as int),
{
    lemma_radix_values();
    if bytes.len() >= 2 {
        lemma_le_value_below_radix(bytes.take(2));
        lemma_le_bytes_of_value(bytes.take(2));
    }
    if bytes.len() >= 4 {
        lemma_le_value_below_radix(bytes.take(4));
        lemma_le_bytes_of_value(bytes.take(4));
    }
    if bytes.len() >= 8 {
        lemma_le_value_below_radix(bytes.take(8));
        lemma_le_bytes_of_value(bytes.take(8));
    }
    if bytes.len() >= 16 {
        lemma_le_value_below_radix(bytes.take(16));
        lemma_le_bytes_of_value(bytes.take(16));
    }
}

/// Every unsigned integer of every width comes back from its
/// variable-length bytes.
pub proof fn law_varint_round_trip(a: u16, b: u32, c: u64, d: u128)
    ensures
        <Var<u16> as Decode>::parse(<Var<u16> as Encode>::wire(a)) == read(
            a,
            varint_bytes(a as nat).len(),
        ),
        <Var<u32> as Decode>::parse(<Var<u32> as Encode>::wire(b)) == read(
            b,
            varint_bytes(b as nat).len(),
        ),
        <Var<u64> as Decode>::parse(<Var<u64> as Encode>::wire(c)) == read(
            c,
            varint_bytes(c as nat).len(),
        ),
        <Var<u128> as Decode>::parse(<Var<u128> as Encode>::wire(d)) == read(
            d,
            varint_bytes(d as nat).len(),
        ),
{
    law_round_trip::<Var<u16>>(a);
    law_round_trip::<Var<u32>>(b);
    law_round_trip::<Var<u64>>(c);
    law_round_trip::<Var<u128>>(d);
}

/// A variable-length integer has one byte for every seven binary digits
/// of the number, a digit for a byte where they do not go up. Zero, which
/// has one digit, has one byte.
pub proof fn law_varint_length(v: nat)
    ensures
        varint_bytes(v).len() == (bits_used(v) + 6) / 7,
        v < 128 <==> varint_bytes(v).len() == 1,
        varint_bytes(0) == seq![0u8],
{
    lemma_varint_len(v);
    if v >= 128 {
        lemma_varint_len(v / 128);
    }
}

/// The largest number of each width has as many bytes as it takes groups
/// of seven bits to cover the width, and no number of the width has more.
pub proof fn law_varint_longest(a: u16, b: u32, c: u64, d: u128)
    ensures
        varint_bytes(a as nat).len() <= varint_bytes(u16::MAX as nat).len() == 3,
        varint_bytes(b as nat).len() <= varint_bytes(u32::MAX as nat).len() == 5,
        varint_bytes(c as nat).len() <= varint_bytes(u64::MAX as nat).len() == 10,
        varint_bytes(d as nat).len() <= varint_bytes(u128::MAX as nat).len() == 19,
{
    lemma_weight_values();
    lemma_varint_len_below_weight(a as nat, 3);
    lemma_varint_len_below_weight(b as nat, 5);
    lemma_varint_len_below_weight(c as nat, 10);
    lemma_varint_len_below_weight(d as nat, 19);
    lemma_varint_len_below_weight(u16::MAX as nat, 3);
    lemma_varint_len_below_weight(u32::MAX as nat, 5);
    lemma_varint_len_below_weight(u64::MAX as nat, 10);
    lemma_varint_len_below_weight(u128::MAX as nat, 19);
    lemma_varint_len_from_weight(u16::MAX as nat, 2);
    lemma_varint_len_from_weight(u32::MAX as nat, 4);
    lemma_varint_len_from_weight(u64::MAX as nat, 9);
    lemma_varint_len_from_weight(u128::MAX as nat, 18);
}

/// A variable-length integer that goes on beyond its width is not read:
/// where as many bytes as cover the width all have the high bit set, the
/// reader reports invalid data, whatever the bytes hold else and whatever
/// follows them. This holds of each width, and so of a text or a sequence
/// with such a length and of a datagram with such a number of its kind.
pub proof fn law_varint_over_long(bytes: Seq<u8>, width: nat)
    requires
        max_len(width) <= bytes.len(),
        forall|j: int| 0 <= j < max_len(width) ==> bytes[j] >= 128,
    ensures
        varint_parse(bytes, width) == Err::<(nat, nat), DecodeError>(DecodeError::InvalidData),
        width == 2 ==> <Var<u16> as Decode>::parse(bytes) == Err::<(u16, nat), DecodeError>(
            DecodeError::InvalidData,
        ),
        width == 4 ==> <Var<u32> as Decode>::parse(bytes) == Err::<(u32, nat), DecodeError>(
            DecodeError::InvalidData,
        ),
        width == 8 ==> <Var<u64> as Decode>::parse(bytes) == Err::<(u64, nat), DecodeError>(
            DecodeError::InvalidData,
        ),
        width == 16 ==> <Var<u128> as Decode>::parse(bytes) == Err::<(u128, nat), DecodeError>(
            DecodeError::InvalidData,
        ),
        width == 4 ==> <String as Decode>::parse(bytes) == Err::<(Seq<char>, nat), DecodeError>(
            DecodeError::InvalidData,
        ),
{
    lemma_span_over_long(bytes, max_len(width));
}

/// A reader of a variable-length integer takes at least one byte and no
/// more bytes than cover the width.
pub proof fn law_varint_reader_is_bounded(bytes: Seq<u8>, width: nat)
    ensures
        varint_parse(bytes, width) matches Ok((_, n)) ==> 1 <= n <= max_len(width) && n
            <= bytes.len(),
        max_len(2) == 3 && max_len(4) == 5 && max_len(8) == 10 && max_len(16) == 19,
{
    lemma_span_within(bytes, max_len(width));
}

/// Every text whose UTF-8 form has a length of at most 32 bits comes back
/// from its bytes, the empty text among them.
pub proof fn law_text_round_trip(text: Seq<char>)
    requires
        <String as Encode>::encodable(text),
    ensures
        <String as Decode>::parse(<String as Encode>::wire(text)) == read(
            text,
            <String as Encode>::wire(text).len(),
        ),
        <String as Encode>::encodable(Seq::<char>::empty()),
{
    law_round_trip::<String>(text);
}

/// A text whose length prefix announces more bytes than follow it is not
/// read: the reader reports that the source ended.
pub proof fn law_text_cut_short(bytes: Seq<u8>)
    requires
        varint_parse(bytes, 4) matches Ok((len, n)) && bytes.len() < n + len,
    ensures
        <String as Decode>::parse(bytes) == Err::<(Seq<char>, nat), DecodeError>(
            DecodeError::UnexpectedEof,
        ),
{
}

/// Every sequence of values that can be written comes back from its
/// bytes: as many items as went in, each in its place.
pub proof fn law_sequence_round_trip<T: RoundTrip>(items: Seq<T::V>)
    requires
        <Vec<T> as Encode>::encodable(items),
    ensures
        <Vec<T> as Decode>::parse(<Vec<T> as Encode>::wire(items)) == read(
            items,
            <Vec<T> as Encode>::wire(items).len(),
        ),
        <Vec<T> as Decode>::parse(<Vec<T> as Encode>::wire(items)) matches Ok((back, _))
            && back.len() == items.len() && forall|i: int|
            0 <= i < items.len() ==> back[i] == items[i],
{
    law_round_trip::<Vec<T>>(items);
}

} // verus!
