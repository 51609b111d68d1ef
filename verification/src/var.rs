//! `Var`, the wrapper that makes an unsigned integer travel as a
//! variable-length integer, for the widths of 16, 32, 64 and 128 bits.
//!
//! A reader takes bytes up to the first one without the high bit. It takes
//! no more of them than cover the width: where even the last of those has
//! the high bit set, it gives the bytes up as invalid data.

use vstd::prelude::*;

use crate::codec::{Decode, DecodeError, Encode, Parsed, RoundTrip};
use crate::endian::{lemma_radix_values, radix};
use crate::fixed::read_u8;
use crate::varint::{
    groups_value, lemma_groups_below_weight, lemma_join, lemma_parse_of_varint,
    lemma_span_over_long, lemma_span_skip, lemma_span_within, lemma_weight_increases,
    lemma_weight_values, max_len, varint_bytes, varint_parse, weight,
};

verus! {

/// An unsigned integer that travels in as few bytes as its size allows.
#[derive(Debug, PartialEq, Eq, PartialOrd, Ord)]
pub struct Var<T>(pub T);

impl<T: DeepView> DeepView for Var<T> {
    type V = T::V;

    open spec fn deep_view(&self) -> T::V {
        self.0.deep_view()
    }
}

impl<T> std::ops::Deref for Var<T> {
    type Target = T;

    fn deref(&self) -> (r: &T)
        ensures
            *r == self.0,
    {
        &self.0
    }
}

impl<T> std::ops::DerefMut for Var<T> {
    fn deref_mut(&mut self) -> (r: &mut T)
        ensures
            *r == old(self).0,
            final(self).0 == *final(r),
    {
        &mut self.0
    }
}

/// Splitting a `u16` into its lowest group of seven bits and the rest, by
/// bit operations, is splitting it by division.
proof fn lemma_u16_split(value: u16)
    ensures
        (value & !0x7f) == 0 <==> value < 128,
        value < 128 ==> value as u8 == value,
        (value as u8 & 0x7f) | 0x80 == value % 128 + 128,
        value >> 7 == value / 128,
{
    assert((value & !0x7f) == 0 <==> value < 128) by (bit_vector);
    assert((value as u8 & 0x7f) | 0x80 == value % 128 + 128) by (bit_vector);
    assert(value >> 7 == value / 128) by (bit_vector);
}

/// In a `u16`, one shifted to the place of a group is the weight of that group.
proof fn lemma_u16_unit(index: nat)
    requires
        7 * index < 16,
    ensures
        (1u16 << ((7 * index) as u32)) == weight(index),
    decreases index,
{
    if index == 0 {
        assert(1u16 << 0u32 == 1) by (bit_vector);
    } else {
        lemma_u16_unit((index - 1) as nat);
        let p: u32 = (7 * (index - 1)) as u32;
        let q: u32 = (p + 7) as u32;
        assert(1u16 << q == 128 * (1u16 << p)) by (bit_vector)
            requires
                q == p + 7,
                q < 16,
        ;
    }
}

/// Joining the group of `b` to a `u16` that lies below the place of the group
/// adds the group at its weight, less the bits that a `u16` has no room for.
proof fn lemma_u16_join(value: u16, b: u8, position: u32, unit: u16)
    requires
        position < 16,
        unit == 1u16 << position,
        value < unit,
    ensures
        (value | ((b as u16 & 0x7f) << position)) == value + ((b % 128) * unit) % 0x1_0000int,
        (b & 0x80) == 0 <==> b < 128,
{
    assert((value | ((b as u16 & 0x7f) << position)) == value + ((b % 128) * unit)
        % 0x1_0000int) by (bit_vector)
        requires
            position < 16,
            unit == 1u16 << position,
            value < unit,
    ;
    assert((b & 0x80) == 0 <==> b < 128) by (bit_vector);
}

impl Encode for Var<u16> {
    open spec fn encodable(v: u16) -> bool {
        true
    }

    open spec fn wire(v: u16) -> Seq<u8> {
        varint_bytes(v as nat)
    }

    fn encode(&self, writer: &mut Vec<u8>) {
        let mut value = self.0;
        loop
            invariant
                Self::wire(self.deep_view()) == varint_bytes(self.0 as nat),
                writer@ + varint_bytes(value as nat) == old(writer)@ + varint_bytes(self.0 as nat),
            decreases value,
        {
            proof {
                lemma_u16_split(value);
            }
            if (value & !0x7f) == 0 {
                writer.push(value as u8);
                assert(writer@ =~= old(writer)@ + varint_bytes(self.0 as nat));
                return ;
            }
            let next = (#[verifier::truncate] (value as u8) & 0x7f) | 0x80;
            let ghost before = writer@;
            writer.push(next);
            value >>= 7;
            assert(writer@ + varint_bytes(value as nat) =~= before + (seq![next] + varint_bytes(
                value as nat,
            )));
        }
    }
}

impl Decode for Var<u16> {
    open spec fn parse(bytes: Seq<u8>) -> Parsed<u16> {
        match varint_parse(bytes, 2) {
            Ok((v, n)) => Ok((v as u16, n)),
            Err(e) => Err(e),
        }
    }

    proof fn lemma_parse_within(bytes: Seq<u8>) {
        lemma_span_within(bytes, max_len(2));
    }

    fn decode(reader: &mut &[u8]) -> (r: Result<Self, DecodeError>) {
        let ghost bytes = reader@;
        let mut value: u16 = 0;
        let mut position: u32 = 0;
        proof {
            lemma_radix_values();
            assert(bytes.take(0) =~= Seq::<u8>::empty());
            assert(bytes.skip(0) =~= bytes);
        }
        while position < 16
            invariant
                bytes == old(reader)@,
                Self::parse(bytes) == match varint_parse(bytes, 2) {
                    Ok((v, n)) => Ok::<(u16, nat), DecodeError>((v as u16, n)),
                    Err(e) => Err(e),
                },
                position % 7 == 0,
                position / 7 <= 3,
                position / 7 <= bytes.len(),
                reader@ == bytes.skip(position as int / 7),
                forall|j: int| 0 <= j < position / 7 ==> bytes[j] >= 128,
                value as nat == groups_value(bytes.take(position as int / 7)) % radix(2),
                radix(2) == 0x1_0000int,
            decreases 21 - position,
        {
            let ghost taken: int = position as int / 7;
            let ghost prefix = bytes.take(taken);
            proof {
                lemma_span_skip(bytes, 3, taken as nat);
            }
            let b = match read_u8(reader) {
                Some(b) => b,
                None => {
                    return Err(DecodeError::UnexpectedEof);
                },
            };
            proof {
                lemma_weight_values();
                lemma_weight_increases(taken as nat, 2);
                lemma_groups_below_weight(prefix);
                lemma_u16_unit(taken as nat);
                lemma_u16_join(value, b, position, 1u16 << position);
                lemma_join(
                    prefix,
                    b,
                    (value | ((b as u16 & 0x7f) << position)) as nat,
                    radix(2),
                );
                assert(bytes.skip(taken)[0] == bytes[taken]);
                assert(prefix.push(b) =~= bytes.take(taken + 1));
                assert(bytes.skip(taken).skip(1) =~= bytes.skip(taken + 1));
            }
            value |= (b as u16 & 0x7f) << position;
            if (b & 0x80) == 0 {
                return Ok(Var(value));
            }
            position += 7;
        }
        proof {
            lemma_span_over_long(bytes, 3);
        }
        Err(DecodeError::InvalidData)
    }
}

impl RoundTrip for Var<u16> {
    proof fn lemma_round_trip(v: u16, rest: Seq<u8>) {
        lemma_radix_values();
        lemma_weight_values();
        lemma_parse_of_varint(v as nat, 2, rest);
    }

    proof fn lemma_parsed_encodable(bytes: Seq<u8>) {
    }
}

/// Splitting a `u32` into its lowest group of seven bits and the rest, by
/// bit operations, is splitting it by division.
proof fn lemma_u32_split(value: u32)
    ensures
        (value & !0x7f) == 0 <==> value < 128,
        value < 128 ==> value as u8 == value,
        (value as u8 & 0x7f) | 0x80 == value % 128 + 128,
        value >> 7 == value / 128,
{
    assert((value & !0x7f) == 0 <==> value < 128) by (bit_vector);
    assert((value as u8 & 0x7f) | 0x80 == value % 128 + 128) by (bit_vector);
    assert(value >> 7 == value / 128) by (bit_vector);
}

/// In a `u32`, one shifted to the place of a group is the weight of that group.
proof fn lemma_u32_unit(index: nat)
    requires
        7 * index < 32,
    ensures
        (1u32 << ((7 * index) as u32)) == weight(index),
    decreases index,
{
    if index == 0 {
        assert(1u32 << 0u32 == 1) by (bit_vector);
    } else {
        lemma_u32_unit((index - 1) as nat);
        let p: u32 = (7 * (index - 1)) as u32;
        let q: u32 = (p + 7) as u32;
        assert(1u32 << q == 128 * (1u32 << p)) by (bit_vector)
            requires
                q == p + 7,
                q < 32,
        ;
    }
}

/// Joining the group of `b` to a `u32` that lies below the place of the group
/// adds the group at its weight, less the bits that a `u32` has no room for.
proof fn lemma_u32_join(value: u32, b: u8, position: u32, unit: u32)
    requires
        position < 32,
        unit == 1u32 << position,
        value < unit,
    ensures
        (value | ((b as u32 & 0x7f) << position)) == value + ((b % 128) * unit) % 0x1_0000_0000int,
        (b & 0x80) == 0 <==> b < 128,
{
    assert((value | ((b as u32 & 0x7f) << position)) == value + ((b % 128) * unit)
        % 0x1_0000_0000int) by (bit_vector)
        requires
            position < 32,
            unit == 1u32 << position,
            value < unit,
    ;
    assert((b & 0x80) == 0 <==> b < 128) by (bit_vector);
}

impl Encode for Var<u32> {
    open spec fn encodable(v: u32) -> bool {
        true
    }

    open spec fn wire(v: u32) -> Seq<u8> {
        varint_bytes(v as nat)
    }

    fn encode(&self, writer: &mut Vec<u8>) {
        let mut value = self.0;
        loop
            invariant
                Self::wire(self.deep_view()) == varint_bytes(self.0 as nat),
                writer@ + varint_bytes(value as nat) == old(writer)@ + varint_bytes(self.0 as nat),
            decreases value,
        {
            proof {
                lemma_u32_split(value);
            }
            if (value & !0x7f) == 0 {
                writer.push(value as u8);
                assert(writer@ =~= old(writer)@ + varint_bytes(self.0 as nat));
                return ;
            }
            let next = (#[verifier::truncate] (value as u8) & 0x7f) | 0x80;
            let ghost before = writer@;
            writer.push(next);
            value >>= 7;
            assert(writer@ + varint_bytes(value as nat) =~= before + (seq![next] + varint_bytes(
                value as nat,
            )));
        }
    }
}

impl Decode for Var<u32> {
    open spec fn parse(bytes: Seq<u8>) -> Parsed<u32> {
        match varint_parse(bytes, 4) {
            Ok((v, n)) => Ok((v as u32, n)),
            Err(e) => Err(e),
        }
    }

    proof fn lemma_parse_within(bytes: Seq<u8>) {
        lemma_span_within(bytes, max_len(4));
    }

    fn decode(reader: &mut &[u8]) -> (r: Result<Self, DecodeError>) {
        let ghost bytes = reader@;
        let mut value: u32 = 0;
        let mut position: u32 = 0;
        proof {
            lemma_radix_values();
            assert(bytes.take(0) =~= Seq::<u8>::empty());
            assert(bytes.skip(0) =~= bytes);
        }
        while position < 32
            invariant
                bytes == old(reader)@,
                Self::parse(bytes) == match varint_parse(bytes, 4) {
                    Ok((v, n)) => Ok::<(u32, nat), DecodeError>((v as u32, n)),
                    Err(e) => Err(e),
                },
                position % 7 == 0,
                position / 7 <= 5,
                position / 7 <= bytes.len(),
                reader@ == bytes.skip(position as int / 7),
                forall|j: int| 0 <= j < position / 7 ==> bytes[j] >= 128,
                value as nat == groups_value(bytes.take(position as int / 7)) % radix(4),
                radix(4) == 0x1_0000_0000int,
            decreases 35 - position,
        {
            let ghost taken: int = position as int / 7;
            let ghost prefix = bytes.take(taken);
            proof {
                lemma_span_skip(bytes, 5, taken as nat);
            }
            let b = match read_u8(reader) {
                Some(b) => b,
                None => {
                    return Err(DecodeError::UnexpectedEof);
                },
            };
            proof {
                lemma_weight_values();
                lemma_weight_increases(taken as nat, 4);
                lemma_groups_below_weight(prefix);
                lemma_u32_unit(taken as nat);
                lemma_u32_join(value, b, position, 1u32 << position);
                lemma_join(
                    prefix,
                    b,
                    (value | ((b as u32 & 0x7f) << position)) as nat,
                    radix(4),
                );
                assert(bytes.skip(taken)[0] == bytes[taken]);
                assert(prefix.push(b) =~= bytes.take(taken + 1));
                assert(bytes.skip(taken).skip(1) =~= bytes.skip(taken + 1));
            }
            value |= (b as u32 & 0x7f) << position;
            if (b & 0x80) == 0 {
                return Ok(Var(value));
            }
            position += 7;
        }
        proof {
            lemma_span_over_long(bytes, 5);
        }
        Err(DecodeError::InvalidData)
    }
}

impl RoundTrip for Var<u32> {
    proof fn lemma_round_trip(v: u32, rest: Seq<u8>) {
        lemma_radix_values();
        lemma_weight_values();
        lemma_parse_of_varint(v as nat, 4, rest);
    }

    proof fn lemma_parsed_encodable(bytes: Seq<u8>) {
    }
}

/// Splitting a `u64` into its lowest group of seven bits and the rest, by
/// bit operations, is splitting it by division.
proof fn lemma_u64_split(value: u64)
    ensures
        (value & !0x7f) == 0 <==> value < 128,
        value < 128 ==> value as u8 == value,
        (value as u8 & 0x7f) | 0x80 == value % 128 + 128,
        value >> 7 == value / 128,
{
    assert((value & !0x7f) == 0 <==> value < 128) by (bit_vector);
    assert((value as u8 & 0x7f) | 0x80 == value % 128 + 128) by (bit_vector);
    assert(value >> 7 == value / 128) by (bit_vector);
}

/// In a `u64`, one shifted to the place of a group is the weight of that group.
proof fn lemma_u64_unit(index: nat)
    requires
        7 * index < 64,
    ensures
        (1u64 << ((7 * index) as u32)) == weight(index),
    decreases index,
{
    if index == 0 {
        assert(1u64 << 0u32 == 1) by (bit_vector);
    } else {
        lemma_u64_unit((index - 1) as nat);
        let p: u32 = (7 * (index - 1)) as u32;
        let q: u32 = (p + 7) as u32;
        assert(1u64 << q == 128 * (1u64 << p)) by (bit_vector)
            requires
                q == p + 7,
                q < 64,
        ;
    }
}

/// Joining the group of `b` to a `u64` that lies below the place of the group
/// adds the group at its weight, less the bits that a `u64` has no room for.
proof fn lemma_u64_join(value: u64, b: u8, position: u32, unit: u64)
    requires
        position < 64,
        unit == 1u64 << position,
        value < unit,
    ensures
        (value | ((b as u64 & 0x7f) << position)) == value + ((b % 128) * unit) % 0x1_0000_0000_0000_0000int,
        (b & 0x80) == 0 <==> b < 128,
{
    assert((value | ((b as u64 & 0x7f) << position)) == value + ((b % 128) * unit)
        % 0x1_0000_0000_0000_0000int) by (bit_vector)
        requires
            position < 64,
            unit == 1u64 << position,
            value < unit,
    ;
    assert((b & 0x80) == 0 <==> b < 128) by (bit_vector);
}

impl Encode for Var<u64> {
    open spec fn encodable(v: u64) -> bool {
        true
    }

    open spec fn wire(v: u64) -> Seq<u8> {
        varint_bytes(v as nat)
    }

    fn encode(&self, writer: &mut Vec<u8>) {
        let mut value = self.0;
        loop
            invariant
                Self::wire(self.deep_view()) == varint_bytes(self.0 as nat),
                writer@ + varint_bytes(value as nat) == old(writer)@ + varint_bytes(self.0 as nat),
            decreases value,
        {
            proof {
                lemma_u64_split(value);
            }
            if (value & !0x7f) == 0 {
                writer.push(value as u8);
                assert(writer@ =~= old(writer)@ + varint_bytes(self.0 as nat));
                return ;
            }
            let next = (#[verifier::truncate] (value as u8) & 0x7f) | 0x80;
            let ghost before = writer@;
            writer.push(next);
            value >>= 7;
            assert(writer@ + varint_bytes(value as nat) =~= before + (seq![next] + varint_bytes(
                value as nat,
            )));
        }
    }
}

impl Decode for Var<u64> {
    open spec fn parse(bytes: Seq<u8>) -> Parsed<u64> {
        match varint_parse(bytes, 8) {
            Ok((v, n)) => Ok((v as u64, n)),
            Err(e) => Err(e),
        }
    }

    proof fn lemma_parse_within(bytes: Seq<u8>) {
        lemma_span_within(bytes, max_len(8));
    }

    fn decode(reader: &mut &[u8]) -> (r: Result<Self, DecodeError>) {
        let ghost bytes = reader@;
        let mut value: u64 = 0;
        let mut position: u32 = 0;
        proof {
            lemma_radix_values();
            assert(bytes.take(0) =~= Seq::<u8>::empty());
            assert(bytes.skip(0) =~= bytes);
        }
        while position < 64
            invariant
                bytes == old(reader)@,
                Self::parse(bytes) == match varint_parse(bytes, 8) {
                    Ok((v, n)) => Ok::<(u64, nat), DecodeError>((v as u64, n)),
                    Err(e) => Err(e),
                },
                position % 7 == 0,
                position / 7 <= 10,
                position / 7 <= bytes.len(),
                reader@ == bytes.skip(position as int / 7),
                forall|j: int| 0 <= j < position / 7 ==> bytes[j] >= 128,
                value as nat == groups_value(bytes.take(position as int / 7)) % radix(8),
                radix(8) == 0x1_0000_0000_0000_0000int,
            decreases 70 - position,
        {
            let ghost taken: int = position as int / 7;
            let ghost prefix = bytes.take(taken);
            proof {
                lemma_span_skip(bytes, 10, taken as nat);
            }
            let b = match read_u8(reader) {
                Some(b) => b,
                None => {
                    return Err(DecodeError::UnexpectedEof);
                },
            };
            proof {
                lemma_weight_values();
                lemma_weight_increases(taken as nat, 9);
                lemma_groups_below_weight(prefix);
                lemma_u64_unit(taken as nat);
                lemma_u64_join(value, b, position, 1u64 << position);
                lemma_join(
                    prefix,
                    b,
                    (value | ((b as u64 & 0x7f) << position)) as nat,
                    radix(8),
                );
                assert(bytes.skip(taken)[0] == bytes[taken]);
                assert(prefix.push(b) =~= bytes.take(taken + 1));
                assert(bytes.skip(taken).skip(1) =~= bytes.skip(taken + 1));
            }
            value |= (b as u64 & 0x7f) << position;
            if (b & 0x80) == 0 {
                return Ok(Var(value));
            }
            position += 7;
        }
        proof {
            lemma_span_over_long(bytes, 10);
        }
        Err(DecodeError::InvalidData)
    }
}

impl RoundTrip for Var<u64> {
    proof fn lemma_round_trip(v: u64, rest: Seq<u8>) {
        lemma_radix_values();
        lemma_weight_values();
        lemma_parse_of_varint(v as nat, 8, rest);
    }

    proof fn lemma_parsed_encodable(bytes: Seq<u8>) {
    }
}

/// Splitting a `u128` into its lowest group of seven bits and the rest, by
/// bit operations, is splitting it by division.
proof fn lemma_u128_split(value: u128)
    ensures
        (value & !0x7f) == 0 <==> value < 128,
        value < 128 ==> value as u8 == value,
        (value as u8 & 0x7f) | 0x80 == value % 128 + 128,
        value >> 7 == value / 128,
{
    assert((value & !0x7f) == 0 <==> value < 128) by (bit_vector);
    assert((value as u8 & 0x7f) | 0x80 == value % 128 + 128) by (bit_vector);
    assert(value >> 7 == value / 128) by (bit_vector);
}

/// In a `u128`, one shifted to the place of a group is the weight of that group.
proof fn lemma_u128_unit(index: nat)
    requires
        7 * index < 128,
    ensures
        (1u128 << ((7 * index) as u32)) == weight(index),
    decreases index,
{
    if index == 0 {
        assert(1u128 << 0u32 == 1) by (bit_vector);
    } else {
        lemma_u128_unit((index - 1) as nat);
        let p: u32 = (7 * (index - 1)) as u32;
        let q: u32 = (p + 7) as u32;
        assert(1u128 << q == 128 * (1u128 << p)) by (bit_vector)
            requires
                q == p + 7,
                q < 128,
        ;
    }
}

/// Joining the group of `b` to a `u128` that lies below the place of the group
/// adds the group at its weight, less the bits that a `u128` has no room for.
proof fn lemma_u128_join(value: u128, b: u8, position: u32, unit: u128)
    requires
        position < 128,
        unit == 1u128 << position,
        value < unit,
    ensures
        (value | ((b as u128 & 0x7f) << position)) == value + ((b % 128) * unit) % 0x1_0000_0000_0000_0000_0000_0000_0000_0000int,
        (b & 0x80) == 0 <==> b < 128,
{
    assert((value | ((b as u128 & 0x7f) << position)) == value + ((b % 128) * unit)
        % 0x1_0000_0000_0000_0000_0000_0000_0000_0000int) by (bit_vector)
        requires
            position < 128,
            unit == 1u128 << position,
            value < unit,
    ;
    assert((b & 0x80) == 0 <==> b < 128) by (bit_vector);
}

impl Encode for Var<u128> {
    open spec fn encodable(v: u128) -> bool {
        true
    }

    open spec fn wire(v: u128) -> Seq<u8> {
        varint_bytes(v as nat)
    }

    fn encode(&self, writer: &mut Vec<u8>) {
        let mut value = self.0;
        loop
            invariant
                Self::wire(self.deep_view()) == varint_bytes(self.0 as nat),
                writer@ + varint_bytes(value as nat) == old(writer)@ + varint_bytes(self.0 as nat),
            decreases value,
        {
            proof {
                lemma_u128_split(value);
            }
            if (value & !0x7f) == 0 {
                writer.push(value as u8);
                assert(writer@ =~= old(writer)@ + varint_bytes(self.0 as nat));
                return ;
            }
            let next = (#[verifier::truncate] (value as u8) & 0x7f) | 0x80;
            let ghost before = writer@;
            writer.push(next);
            value >>= 7;
            assert(writer@ + varint_bytes(value as nat) =~= before + (seq![next] + varint_bytes(
                value as nat,
            )));
        }
    }
}

impl Decode for Var<u128> {
    open spec fn parse(bytes: Seq<u8>) -> Parsed<u128> {
        match varint_parse(bytes, 16) {
            Ok((v, n)) => Ok((v as u128, n)),
            Err(e) => Err(e),
        }
    }

    proof fn lemma_parse_within(bytes: Seq<u8>) {
        lemma_span_within(bytes, max_len(16));
    }

    fn decode(reader: &mut &[u8]) -> (r: Result<Self, DecodeError>) {
        let ghost bytes = reader@;
        let mut value: u128 = 0;
        let mut position: u32 = 0;
        proof {
            lemma_radix_values();
            assert(bytes.take(0) =~= Seq::<u8>::empty());
            assert(bytes.skip(0) =~= bytes);
        }
        while position < 128
            invariant
                bytes == old(reader)@,
                Self::parse(bytes) == match varint_parse(bytes, 16) {
                    Ok((v, n)) => Ok::<(u128, nat), DecodeError>((v as u128, n)),
                    Err(e) => Err(e),
                },
                position % 7 == 0,
                position / 7 <= 19,
                position / 7 <= bytes.len(),
                reader@ == bytes.skip(position as int / 7),
                forall|j: int| 0 <= j < position / 7 ==> bytes[j] >= 128,
                value as nat == groups_value(bytes.take(position as int / 7)) % radix(16),
                radix(16) == 0x1_0000_0000_0000_0000_0000_0000_0000_0000int,
            decreases 133 - position,
        {
            let ghost taken: int = position as int / 7;
            let ghost prefix = bytes.take(taken);
            proof {
                lemma_span_skip(bytes, 19, taken as nat);
            }
            let b = match read_u8(reader) {
                Some(b) => b,
                None => {
                    return Err(DecodeError::UnexpectedEof);
                },
            };
            proof {
                lemma_weight_values();
                lemma_weight_increases(taken as nat, 18);
                lemma_groups_below_weight(prefix);
                lemma_u128_unit(taken as nat);
                lemma_u128_join(value, b, position, 1u128 << position);
                lemma_join(
                    prefix,
                    b,
                    (value | ((b as u128 & 0x7f) << position)) as nat,
                    radix(16),
                );
                assert(bytes.skip(taken)[0] == bytes[taken]);
                assert(prefix.push(b) =~= bytes.take(taken + 1));
                assert(bytes.skip(taken).skip(1) =~= bytes.skip(taken + 1));
            }
            value |= (b as u128 & 0x7f) << position;
            if (b & 0x80) == 0 {
                return Ok(Var(value));
            }
            position += 7;
        }
        proof {
            lemma_span_over_long(bytes, 19);
        }
        Err(DecodeError::InvalidData)
    }
}

impl RoundTrip for Var<u128> {
    proof fn lemma_round_trip(v: u128, rest: Seq<u8>) {
        lemma_radix_values();
        lemma_weight_values();
        lemma_parse_of_varint(v as nat, 16, rest);
    }

    proof fn lemma_parsed_encodable(bytes: Seq<u8>) {
    }
}

} // verus!
