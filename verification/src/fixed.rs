//! Booleans and the fixed-width integers: one byte for a boolean, and for an
//! integer the bytes of its width, lowest first, in two's complement where it
//! is signed.
//!
//! The bytes are laid out by the `byteorder` crate. Each of its functions in
//! use here has one wrapper, whose contract is taken on trust.

use byteorder::{LittleEndian, ReadBytesExt, WriteBytesExt};
use vstd::prelude::*;

use crate::codec::{Decode, DecodeError, Encode, Parsed, RoundTrip};
use crate::endian::{
    le_bytes, le_value, lemma_le_value_of_head, lemma_radix_values, lemma_signed_of_unsigned,
    to_signed, to_unsigned,
};

verus! {

/// `byteorder::ReadBytesExt::read_u8`, on a byte slice. Where a byte is left,
/// it takes the byte and gives it. Where none is left, it fails.
#[verifier::external_body]
pub(crate) fn read_u8(reader: &mut &[u8]) -> (r: Option<u8>)
    ensures
        r is Some <==> old(reader)@.len() >= 1,
        r matches Some(v) ==> v == old(reader)@[0],
        r is Some ==> final(reader)@ == old(reader)@.skip(1),
{
    reader.read_u8().ok()
}

/// `byteorder::WriteBytesExt::write_u8`, on a byte vector. Appends the byte
/// `v`. A vector takes every write.
#[verifier::external_body]
fn write_u8(writer: &mut Vec<u8>, v: u8)
    ensures
        final(writer)@ == old(writer)@.push(v),
{
    let _ = writer.write_u8(v);
}

/// `byteorder::ReadBytesExt::read_i8`, on a byte slice. Where a byte is left,
/// it takes the byte and gives the number that it stands for in two's
/// complement. Where none is left, it fails.
#[verifier::external_body]
fn read_i8(reader: &mut &[u8]) -> (r: Option<i8>)
    ensures
        r is Some <==> old(reader)@.len() >= 1,
        r matches Some(v) ==> v as int == to_signed(old(reader)@[0] as nat, 1),
        r is Some ==> final(reader)@ == old(reader)@.skip(1),
{
    reader.read_i8().ok()
}

/// `byteorder::WriteBytesExt::write_i8`, on a byte vector. Appends the byte
/// that stands for `v` in two's complement. A vector takes every write.
#[verifier::external_body]
fn write_i8(writer: &mut Vec<u8>, v: i8)
    ensures
        final(writer)@ == old(writer)@.push(to_unsigned(v as int, 1) as u8),
{
    let _ = writer.write_i8(v);
}

/// `byteorder::ReadBytesExt::read_u16` with `LittleEndian`, on a byte slice.
/// Where two bytes are left, it takes them and gives the number that they stand
/// for, lowest byte first. Where fewer are left, it fails.
#[verifier::external_body]
fn read_u16(reader: &mut &[u8]) -> (r: Option<u16>)
    ensures
        r is Some <==> old(reader)@.len() >= 2,
        r matches Some(v) ==> v as nat == le_value(old(reader)@.take(2)),
        r is Some ==> final(reader)@ == old(reader)@.skip(2),
{
    reader.read_u16::<LittleEndian>().ok()
}

/// `byteorder::WriteBytesExt::write_u16` with `LittleEndian`, on a byte vector.
/// Appends the two bytes of `v`, lowest first. A vector takes every write.
#[verifier::external_body]
fn write_u16(writer: &mut Vec<u8>, v: u16)
    ensures
        final(writer)@ == old(writer)@ + le_bytes(v as nat, 2),
{
    let _ = writer.write_u16::<LittleEndian>(v);
}

/// `byteorder::ReadBytesExt::read_u32` with `LittleEndian`, on a byte slice.
/// Where four bytes are left, it takes them and gives the number that they
/// stand for, lowest byte first. Where fewer are left, it fails.
#[verifier::external_body]
fn read_u32(reader: &mut &[u8]) -> (r: Option<u32>)
    ensures
        r is Some <==> old(reader)@.len() >= 4,
        r matches Some(v) ==> v as nat == le_value(old(reader)@.take(4)),
        r is Some ==> final(reader)@ == old(reader)@.skip(4),
{
    reader.read_u32::<LittleEndian>().ok()
}

/// `byteorder::WriteBytesExt::write_u32` with `LittleEndian`, on a byte vector.
/// Appends the four bytes of `v`, lowest first. A vector takes every write.
#[verifier::external_body]
fn write_u32(writer: &mut Vec<u8>, v: u32)
    ensures
        final(writer)@ == old(writer)@ + le_bytes(v as nat, 4),
{
    let _ = writer.write_u32::<LittleEndian>(v);
}

/// `byteorder::ReadBytesExt::read_u64` with `LittleEndian`, on a byte slice.
/// Where eight bytes are left, it takes them and gives the number that they
/// stand for, lowest byte first. Where fewer are left, it fails.
#[verifier::external_body]
fn read_u64(reader: &mut &[u8]) -> (r: Option<u64>)
    ensures
        r is Some <==> old(reader)@.len() >= 8,
        r matches Some(v) ==> v as nat == le_value(old(reader)@.take(8)),
        r is Some ==> final(reader)@ == old(reader)@.skip(8),
{
    reader.read_u64::<LittleEndian>().ok()
}

/// `byteorder::WriteBytesExt::write_u64` with `LittleEndian`, on a byte vector.
/// Appends the eight bytes of `v`, lowest first. A vector takes every write.
#[verifier::external_body]
fn write_u64(writer: &mut Vec<u8>, v: u64)
    ensures
        final(writer)@ == old(writer)@ + le_bytes(v as nat, 8),
{
    let _ = writer.write_u64::<LittleEndian>(v);
}

/// `byteorder::ReadBytesExt::read_u128` with `LittleEndian`, on a byte slice.
/// Where sixteen bytes are left, it takes them and gives the number that they
/// stand for, lowest byte first. Where fewer are left, it fails.
#[verifier::external_body]
fn read_u128(reader: &mut &[u8]) -> (r: Option<u128>)
    ensures
        r is Some <==> old(reader)@.len() >= 16,
        r matches Some(v) ==> v as nat == le_value(old(reader)@.take(16)),
        r is Some ==> final(reader)@ == old(reader)@.skip(16),
{
    reader.read_u128::<LittleEndian>().ok()
}

/// `byteorder::WriteBytesExt::write_u128` with `LittleEndian`, on a byte
/// vector. Appends the sixteen bytes of `v`, lowest first. A vector takes every
/// write.
#[verifier::external_body]
fn write_u128(writer: &mut Vec<u8>, v: u128)
    ensures
        final(writer)@ == old(writer)@ + le_bytes(v as nat, 16),
{
    let _ = writer.write_u128::<LittleEndian>(v);
}

/// `byteorder::ReadBytesExt::read_i16` with `LittleEndian`, on a byte slice.
/// Where two bytes are left, it takes them and gives the number that they stand
/// for in two's complement, lowest byte first. Where fewer are left, it fails.
#[verifier::external_body]
fn read_i16(reader: &mut &[u8]) -> (r: Option<i16>)
    ensures
        r is Some <==> old(reader)@.len() >= 2,
        r matches Some(v) ==> v as int == to_signed(le_value(old(reader)@.take(2)), 2),
        r is Some ==> final(reader)@ == old(reader)@.skip(2),
{
    reader.read_i16::<LittleEndian>().ok()
}

/// `byteorder::WriteBytesExt::write_i16` with `LittleEndian`, on a byte vector.
/// Appends the two bytes of `v` in two's complement, lowest first. A vector
/// takes every write.
#[verifier::external_body]
fn write_i16(writer: &mut Vec<u8>, v: i16)
    ensures
        final(writer)@ == old(writer)@ + le_bytes(to_unsigned(v as int, 2), 2),
{
    let _ = writer.write_i16::<LittleEndian>(v);
}

/// `byteorder::ReadBytesExt::read_i32` with `LittleEndian`, on a byte slice.
/// Where four bytes are left, it takes them and gives the number that they
/// stand for in two's complement, lowest byte first. Where fewer are left, it
/// fails.
#[verifier::external_body]
fn read_i32(reader: &mut &[u8]) -> (r: Option<i32>)
    ensures
        r is Some <==> old(reader)@.len() >= 4,
        r matches Some(v) ==> v as int == to_signed(le_value(old(reader)@.take(4)), 4),
        r is Some ==> final(reader)@ == old(reader)@.skip(4),
{
    reader.read_i32::<LittleEndian>().ok()
}

/// `byteorder::WriteBytesExt::write_i32` with `LittleEndian`, on a byte vector.
/// Appends the four bytes of `v` in two's complement, lowest first. A vector
/// takes every write.
#[verifier::external_body]
fn write_i32(writer: &mut Vec<u8>, v: i32)
    ensures
        final(writer)@ == old(writer)@ + le_bytes(to_unsigned(v as int, 4), 4),
{
    let _ = writer.write_i32::<LittleEndian>(v);
}

/// `byteorder::ReadBytesExt::read_i64` with `LittleEndian`, on a byte slice.
/// Where eight bytes are left, it takes them and gives the number that they
/// stand for in two's complement, lowest byte first. Where fewer are left, it
/// fails.
#[verifier::external_body]
fn read_i64(reader: &mut &[u8]) -> (r: Option<i64>)
    ensures
        r is Some <==> old(reader)@.len() >= 8,
        r matches Some(v) ==> v as int == to_signed(le_value(old(reader)@.take(8)), 8),
        r is Some ==> final(reader)@ == old(reader)@.skip(8),
{
    reader.read_i64::<LittleEndian>().ok()
}

/// `byteorder::WriteBytesExt::write_i64` with `LittleEndian`, on a byte vector.
/// Appends the eight bytes of `v` in two's complement, lowest first. A vector
/// takes every write.
#[verifier::external_body]
fn write_i64(writer: &mut Vec<u8>, v: i64)
    ensures
        final(writer)@ == old(writer)@ + le_bytes(to_unsigned(v as int, 8), 8),
{
    let _ = writer.write_i64::<LittleEndian>(v);
}

/// `byteorder::ReadBytesExt::read_i128` with `LittleEndian`, on a byte slice.
/// Where sixteen bytes are left, it takes them and gives the number that they
/// stand for in two's complement, lowest byte first. Where fewer are left, it
/// fails.
#[verifier::external_body]
fn read_i128(reader: &mut &[u8]) -> (r: Option<i128>)
    ensures
        r is Some <==> old(reader)@.len() >= 16,
        r matches Some(v) ==> v as int == to_signed(le_value(old(reader)@.take(16)), 16),
        r is Some ==> final(reader)@ == old(reader)@.skip(16),
{
    reader.read_i128::<LittleEndian>().ok()
}

/// `byteorder::WriteBytesExt::write_i128` with `LittleEndian`, on a byte
/// vector. Appends the sixteen bytes of `v` in two's complement, lowest first.
/// A vector takes every write.
#[verifier::external_body]
fn write_i128(writer: &mut Vec<u8>, v: i128)
    ensures
        final(writer)@ == old(writer)@ + le_bytes(to_unsigned(v as int, 16), 16),
{
    let _ = writer.write_i128::<LittleEndian>(v);
}

impl Encode for bool {
    open spec fn encodable(v: bool) -> bool {
        true
    }

    /// One byte: 1 for `true`, 0 for `false`.
    open spec fn wire(v: bool) -> Seq<u8> {
        seq![if v { 1u8 } else { 0u8 }]
    }

    fn encode(&self, writer: &mut Vec<u8>) {
        write_u8(writer, if *self { 1 } else { 0 });
        assert(writer@ =~= old(writer)@ + Self::wire(*self));
    }
}

impl Decode for bool {
    /// One byte: `false` where it is 0, `true` where it is anything else.
    open spec fn parse(bytes: Seq<u8>) -> Parsed<bool> {
        if bytes.len() < 1 {
            Err(DecodeError::UnexpectedEof)
        } else {
            Ok((bytes[0] != 0, 1))
        }
    }

    proof fn lemma_parse_within(bytes: Seq<u8>) {
    }

    fn decode(reader: &mut &[u8]) -> (r: Result<Self, DecodeError>) {
        match read_u8(reader) {
            Some(v) => Ok(v != 0),
            None => Err(DecodeError::UnexpectedEof),
        }
    }
}

impl RoundTrip for bool {
    proof fn lemma_round_trip(v: bool, rest: Seq<u8>) {
    }

    proof fn lemma_parsed_encodable(bytes: Seq<u8>) {
    }
}

impl Encode for u8 {
    open spec fn encodable(v: u8) -> bool {
        true
    }

    /// The byte `v`.
    open spec fn wire(v: u8) -> Seq<u8> {
        seq![v]
    }

    fn encode(&self, writer: &mut Vec<u8>) {
        write_u8(writer, *self);
        assert(writer@ =~= old(writer)@ + Self::wire(*self));
    }
}

impl Decode for u8 {
    /// The first byte.
    open spec fn parse(bytes: Seq<u8>) -> Parsed<u8> {
        if bytes.len() < 1 {
            Err(DecodeError::UnexpectedEof)
        } else {
            Ok((bytes[0], 1))
        }
    }

    proof fn lemma_parse_within(bytes: Seq<u8>) {
    }

    fn decode(reader: &mut &[u8]) -> (r: Result<Self, DecodeError>) {
        match read_u8(reader) {
            Some(v) => Ok(v),
            None => Err(DecodeError::UnexpectedEof),
        }
    }
}

impl RoundTrip for u8 {
    proof fn lemma_round_trip(v: u8, rest: Seq<u8>) {
    }

    proof fn lemma_parsed_encodable(bytes: Seq<u8>) {
    }
}

impl Encode for i8 {
    open spec fn encodable(v: i8) -> bool {
        true
    }

    /// The byte that stands for `v` in two's complement.
    open spec fn wire(v: i8) -> Seq<u8> {
        seq![to_unsigned(v as int, 1) as u8]
    }

    fn encode(&self, writer: &mut Vec<u8>) {
        write_i8(writer, *self);
        assert(writer@ =~= old(writer)@ + Self::wire(*self));
    }
}

impl Decode for i8 {
    /// The number that the first byte stands for in two's complement.
    open spec fn parse(bytes: Seq<u8>) -> Parsed<i8> {
        if bytes.len() < 1 {
            Err(DecodeError::UnexpectedEof)
        } else {
            Ok((to_signed(bytes[0] as nat, 1) as i8, 1))
        }
    }

    proof fn lemma_parse_within(bytes: Seq<u8>) {
    }

    fn decode(reader: &mut &[u8]) -> (r: Result<Self, DecodeError>) {
        match read_i8(reader) {
            Some(v) => Ok(v),
            None => Err(DecodeError::UnexpectedEof),
        }
    }
}

impl RoundTrip for i8 {
    proof fn lemma_round_trip(v: i8, rest: Seq<u8>) {
        lemma_radix_values();
        lemma_signed_of_unsigned(v as int, 1);
    }

    proof fn lemma_parsed_encodable(bytes: Seq<u8>) {
    }
}

impl Encode for u16 {
    open spec fn encodable(v: u16) -> bool {
        true
    }

    /// The two bytes of `v`, lowest first.
    open spec fn wire(v: u16) -> Seq<u8> {
        le_bytes(v as nat, 2)
    }

    fn encode(&self, writer: &mut Vec<u8>) {
        write_u16(writer, *self);
    }
}

impl Decode for u16 {
    /// The number that the first two bytes stand for, lowest first.
    open spec fn parse(bytes: Seq<u8>) -> Parsed<u16> {
        if bytes.len() < 2 {
            Err(DecodeError::UnexpectedEof)
        } else {
            Ok((le_value(bytes.take(2)) as u16, 2))
        }
    }

    proof fn lemma_parse_within(bytes: Seq<u8>) {
    }

    fn decode(reader: &mut &[u8]) -> (r: Result<Self, DecodeError>) {
        match read_u16(reader) {
            Some(v) => Ok(v),
            None => Err(DecodeError::UnexpectedEof),
        }
    }
}

impl RoundTrip for u16 {
    proof fn lemma_round_trip(v: u16, rest: Seq<u8>) {
        lemma_radix_values();
        lemma_le_value_of_head(v as nat, 2, rest);
    }

    proof fn lemma_parsed_encodable(bytes: Seq<u8>) {
    }
}

impl Encode for u32 {
    open spec fn encodable(v: u32) -> bool {
        true
    }

    /// The four bytes of `v`, lowest first.
    open spec fn wire(v: u32) -> Seq<u8> {
        le_bytes(v as nat, 4)
    }

    fn encode(&self, writer: &mut Vec<u8>) {
        write_u32(writer, *self);
    }
}

impl Decode for u32 {
    /// The number that the first four bytes stand for, lowest first.
    open spec fn parse(bytes: Seq<u8>) -> Parsed<u32> {
        if bytes.len() < 4 {
            Err(DecodeError::UnexpectedEof)
        } else {
            Ok((le_value(bytes.take(4)) as u32, 4))
        }
    }

    proof fn lemma_parse_within(bytes: Seq<u8>) {
    }

    fn decode(reader: &mut &[u8]) -> (r: Result<Self, DecodeError>) {
        match read_u32(reader) {
            Some(v) => Ok(v),
            None => Err(DecodeError::UnexpectedEof),
        }
    }
}

impl RoundTrip for u32 {
    proof fn lemma_round_trip(v: u32, rest: Seq<u8>) {
        lemma_radix_values();
        lemma_le_value_of_head(v as nat, 4, rest);
    }

    proof fn lemma_parsed_encodable(bytes: Seq<u8>) {
    }
}

impl Encode for u64 {
    open spec fn encodable(v: u64) -> bool {
        true
    }

    /// The eight bytes of `v`, lowest first.
    open spec fn wire(v: u64) -> Seq<u8> {
        le_bytes(v as nat, 8)
    }

    fn encode(&self, writer: &mut Vec<u8>) {
        write_u64(writer, *self);
    }
}

impl Decode for u64 {
    /// The number that the first eight bytes stand for, lowest first.
    open spec fn parse(bytes: Seq<u8>) -> Parsed<u64> {
        if bytes.len() < 8 {
            Err(DecodeError::UnexpectedEof)
        } else {
            Ok((le_value(bytes.take(8)) as u64, 8))
        }
    }

    proof fn lemma_parse_within(bytes: Seq<u8>) {
    }

    fn decode(reader: &mut &[u8]) -> (r: Result<Self, DecodeError>) {
        match read_u64(reader) {
            Some(v) => Ok(v),
            None => Err(DecodeError::UnexpectedEof),
        }
    }
}

impl RoundTrip for u64 {
    proof fn lemma_round_trip(v: u64, rest: Seq<u8>) {
        lemma_radix_values();
        lemma_le_value_of_head(v as nat, 8, rest);
    }

    proof fn lemma_parsed_encodable(bytes: Seq<u8>) {
    }
}

impl Encode for u128 {
    open spec fn encodable(v: u128) -> bool {
        true
    }

    /// The sixteen bytes of `v`, lowest first.
    open spec fn wire(v: u128) -> Seq<u8> {
        le_bytes(v as nat, 16)
    }

    fn encode(&self, writer: &mut Vec<u8>) {
        write_u128(writer, *self);
    }
}

impl Decode for u128 {
    /// The number that the first sixteen bytes stand for, lowest first.
    open spec fn parse(bytes: Seq<u8>) -> Parsed<u128> {
        if bytes.len() < 16 {
            Err(DecodeError::UnexpectedEof)
        } else {
            Ok((le_value(bytes.take(16)) as u128, 16))
        }
    }

    proof fn lemma_parse_within(bytes: Seq<u8>) {
    }

    fn decode(reader: &mut &[u8]) -> (r: Result<Self, DecodeError>) {
        match read_u128(reader) {
            Some(v) => Ok(v),
            None => Err(DecodeError::UnexpectedEof),
        }
    }
}

impl RoundTrip for u128 {
    proof fn lemma_round_trip(v: u128, rest: Seq<u8>) {
        lemma_radix_values();
        lemma_le_value_of_head(v as nat, 16, rest);
    }

    proof fn lemma_parsed_encodable(bytes: Seq<u8>) {
    }
}

impl Encode for i16 {
    open spec fn encodable(v: i16) -> bool {
        true
    }

    /// The two bytes of `v` in two's complement, lowest first.
    open spec fn wire(v: i16) -> Seq<u8> {
        le_bytes(to_unsigned(v as int, 2), 2)
    }

    fn encode(&self, writer: &mut Vec<u8>) {
        write_i16(writer, *self);
    }
}

impl Decode for i16 {
    /// The number that the first two bytes stand for in two's complement.
    open spec fn parse(bytes: Seq<u8>) -> Parsed<i16> {
        if bytes.len() < 2 {
            Err(DecodeError::UnexpectedEof)
        } else {
            Ok((to_signed(le_value(bytes.take(2)), 2) as i16, 2))
        }
    }

    proof fn lemma_parse_within(bytes: Seq<u8>) {
    }

    fn decode(reader: &mut &[u8]) -> (r: Result<Self, DecodeError>) {
        match read_i16(reader) {
            Some(v) => Ok(v),
            None => Err(DecodeError::UnexpectedEof),
        }
    }
}

impl RoundTrip for i16 {
    proof fn lemma_round_trip(v: i16, rest: Seq<u8>) {
        lemma_radix_values();
        lemma_signed_of_unsigned(v as int, 2);
        lemma_le_value_of_head(to_unsigned(v as int, 2), 2, rest);
    }

    proof fn lemma_parsed_encodable(bytes: Seq<u8>) {
    }
}

impl Encode for i32 {
    open spec fn encodable(v: i32) -> bool {
        true
    }

    /// The four bytes of `v` in two's complement, lowest first.
    open spec fn wire(v: i32) -> Seq<u8> {
        le_bytes(to_unsigned(v as int, 4), 4)
    }

    fn encode(&self, writer: &mut Vec<u8>) {
        write_i32(writer, *self);
    }
}

impl Decode for i32 {
    /// The number that the first four bytes stand for in two's complement.
    open spec fn parse(bytes: Seq<u8>) -> Parsed<i32> {
        if bytes.len() < 4 {
            Err(DecodeError::UnexpectedEof)
        } else {
            Ok((to_signed(le_value(bytes.take(4)), 4) as i32, 4))
        }
    }

    proof fn lemma_parse_within(bytes: Seq<u8>) {
    }

    fn decode(reader: &mut &[u8]) -> (r: Result<Self, DecodeError>) {
        match read_i32(reader) {
            Some(v) => Ok(v),
            None => Err(DecodeError::UnexpectedEof),
        }
    }
}

impl RoundTrip for i32 {
    proof fn lemma_round_trip(v: i32, rest: Seq<u8>) {
        lemma_radix_values();
        lemma_signed_of_unsigned(v as int, 4);
        lemma_le_value_of_head(to_unsigned(v as int, 4), 4, rest);
    }

    proof fn lemma_parsed_encodable(bytes: Seq<u8>) {
    }
}

impl Encode for i64 {
    open spec fn encodable(v: i64) -> bool {
        true
    }

    /// The eight bytes of `v` in two's complement, lowest first.
    open spec fn wire(v: i64) -> Seq<u8> {
        le_bytes(to_unsigned(v as int, 8), 8)
    }

    fn encode(&self, writer: &mut Vec<u8>) {
        write_i64(writer, *self);
    }
}

impl Decode for i64 {
    /// The number that the first eight bytes stand for in two's complement.
    open spec fn parse(bytes: Seq<u8>) -> Parsed<i64> {
        if bytes.len() < 8 {
            Err(DecodeError::UnexpectedEof)
        } else {
            Ok((to_signed(le_value(bytes.take(8)), 8) as i64, 8))
        }
    }

    proof fn lemma_parse_within(bytes: Seq<u8>) {
    }

    fn decode(reader: &mut &[u8]) -> (r: Result<Self, DecodeError>) {
        match read_i64(reader) {
            Some(v) => Ok(v),
            None => Err(DecodeError::UnexpectedEof),
        }
    }
}

impl RoundTrip for i64 {
    proof fn lemma_round_trip(v: i64, rest: Seq<u8>) {
        lemma_radix_values();
        lemma_signed_of_unsigned(v as int, 8);
        lemma_le_value_of_head(to_unsigned(v as int, 8), 8, rest);
    }

    proof fn lemma_parsed_encodable(bytes: Seq<u8>) {
    }
}

impl Encode for i128 {
    open spec fn encodable(v: i128) -> bool {
        true
    }

    /// The sixteen bytes of `v` in two's complement, lowest first.
    open spec fn wire(v: i128) -> Seq<u8> {
        le_bytes(to_unsigned(v as int, 16), 16)
    }

    fn encode(&self, writer: &mut Vec<u8>) {
        write_i128(writer, *self);
    }
}

impl Decode for i128 {
    /// The number that the first sixteen bytes stand for in two's complement.
    open spec fn parse(bytes: Seq<u8>) -> Parsed<i128> {
        if bytes.len() < 16 {
            Err(DecodeError::UnexpectedEof)
        } else {
            Ok((to_signed(le_value(bytes.take(16)), 16) as i128, 16))
        }
    }

    proof fn lemma_parse_within(bytes: Seq<u8>) {
    }

    fn decode(reader: &mut &[u8]) -> (r: Result<Self, DecodeError>) {
        match read_i128(reader) {
            Some(v) => Ok(v),
            None => Err(DecodeError::UnexpectedEof),
        }
    }
}

impl RoundTrip for i128 {
    proof fn lemma_round_trip(v: i128, rest: Seq<u8>) {
        lemma_radix_values();
        lemma_signed_of_unsigned(v as int, 16);
        lemma_le_value_of_head(to_unsigned(v as int, 16), 16, rest);
    }

    proof fn lemma_parsed_encodable(bytes: Seq<u8>) {
    }
}

} // verus!
