use std::fmt::Debug;

use udp_chat::{Decode, DecodeError, Encode, Var};

fn test_roundtrip<T: Debug + Eq + Encode + Decode>(value: T) {
    let mut buf = Vec::new();
    value.encode(&mut buf);
    let mut reader = buf.as_slice();
    let decoded = T::decode(&mut reader).unwrap();
    assert_eq!(value, decoded, "Round-trip encoded values do not match!");
    assert!(reader.is_empty());
}

fn encoded<T: Encode>(value: T) -> Vec<u8> {
    let mut buf = Vec::new();
    value.encode(&mut buf);
    buf
}

fn decoded<T: Decode>(bytes: &[u8]) -> (Result<T, DecodeError>, usize) {
    let mut reader = bytes;
    let value = T::decode(&mut reader);
    (value, bytes.len() - reader.len())
}

#[test]
fn hello_world() {
    test_roundtrip("Hello world!".to_string());
}

#[test]
fn empty() {
    test_roundtrip("".to_string());
}

#[test]
fn u8_min() {
    test_roundtrip(u8::MIN);
}

#[test]
fn u8_max() {
    test_roundtrip(u8::MAX);
}

#[test]
fn u8_one() {
    test_roundtrip(1 as u8);
}

#[test]
fn u16_min() {
    test_roundtrip(u16::MIN);
}

#[test]
fn u16_max() {
    test_roundtrip(u16::MAX);
}

#[test]
fn u16_one() {
    test_roundtrip(1 as u16);
}

#[test]
fn u32_min() {
    test_roundtrip(u32::MIN);
}

#[test]
fn u32_max() {
    test_roundtrip(u32::MAX);
}

#[test]
fn u32_one() {
    test_roundtrip(1 as u32);
}

#[test]
fn u64_min() {
    test_roundtrip(u64::MIN);
}

#[test]
fn u64_max() {
    test_roundtrip(u64::MAX);
}

#[test]
fn u64_one() {
    test_roundtrip(1 as u64);
}

#[test]
fn u128_min() {
    test_roundtrip(u128::MIN);
}

#[test]
fn u128_max() {
    test_roundtrip(u128::MAX);
}

#[test]
fn u128_one() {
    test_roundtrip(1 as u128);
}

#[test]
fn i8_min() {
    test_roundtrip(i8::MIN);
}

#[test]
fn i8_max() {
    test_roundtrip(i8::MAX);
}

#[test]
fn i8_one() {
    test_roundtrip(1 as i8);
}

#[test]
fn i16_min() {
    test_roundtrip(i16::MIN);
}

#[test]
fn i16_max() {
    test_roundtrip(i16::MAX);
}

#[test]
fn i16_one() {
    test_roundtrip(1 as i16);
}

#[test]
fn i32_min() {
    test_roundtrip(i32::MIN);
}

#[test]
fn i32_max() {
    test_roundtrip(i32::MAX);
}

#[test]
fn i32_one() {
    test_roundtrip(1 as i32);
}

#[test]
fn i64_min() {
    test_roundtrip(i64::MIN);
}

#[test]
fn i64_max() {
    test_roundtrip(i64::MAX);
}

#[test]
fn i64_one() {
    test_roundtrip(1 as i64);
}

#[test]
fn i128_min() {
    test_roundtrip(i128::MIN);
}

#[test]
fn i128_max() {
    test_roundtrip(i128::MAX);
}

#[test]
fn i128_one() {
    test_roundtrip(1 as i128);
}

#[test]
fn var_u16_min() {
    test_roundtrip(Var(u16::MIN));
}

#[test]
fn var_u16_max() {
    test_roundtrip(Var(u16::MAX));
}

#[test]
fn var_u16_one() {
    test_roundtrip(Var::<u16>(1));
}

#[test]
fn var_u32_min() {
    test_roundtrip(Var(u32::MIN));
}

#[test]
fn var_u32_max() {
    test_roundtrip(Var(u32::MAX));
}

#[test]
fn var_u32_one() {
    test_roundtrip(Var::<u32>(1));
}

#[test]
fn var_u64_min() {
    test_roundtrip(Var(u64::MIN));
}

#[test]
fn var_u64_max() {
    test_roundtrip(Var(u64::MAX));
}

#[test]
fn var_u64_one() {
    test_roundtrip(Var::<u64>(1));
}

#[test]
fn var_u128_min() {
    test_roundtrip(Var(u128::MIN));
}

#[test]
fn var_u128_max() {
    test_roundtrip(Var(u128::MAX));
}

#[test]
fn var_u128_one() {
    test_roundtrip(Var::<u128>(1));
}

#[test]
fn bool_is_one_byte() {
    assert_eq!(encoded(true), vec![1]);
    assert_eq!(encoded(false), vec![0]);
    test_roundtrip(true);
    test_roundtrip(false);
}

#[test]
fn bool_reads_any_nonzero_byte_as_true() {
    assert_eq!(decoded::<bool>(&[0]), (Ok(false), 1));
    assert_eq!(decoded::<bool>(&[1]), (Ok(true), 1));
    assert_eq!(decoded::<bool>(&[2, 9]), (Ok(true), 1));
    assert_eq!(decoded::<bool>(&[0xff]), (Ok(true), 1));
    assert_eq!(decoded::<bool>(&[]).0, Err(DecodeError::UnexpectedEof));
}

#[test]
fn unsigned_integers_are_little_endian() {
    assert_eq!(encoded(0xabu8), vec![0xab]);
    assert_eq!(encoded(0x0102u16), vec![0x02, 0x01]);
    assert_eq!(encoded(0x01020304u32), vec![0x04, 0x03, 0x02, 0x01]);
    assert_eq!(
        encoded(0x0102030405060708u64),
        vec![0x08, 0x07, 0x06, 0x05, 0x04, 0x03, 0x02, 0x01]
    );
    assert_eq!(
        encoded(0x0102030405060708090a0b0c0d0e0f10u128),
        vec![
            0x10, 0x0f, 0x0e, 0x0d, 0x0c, 0x0b, 0x0a, 0x09, 0x08, 0x07, 0x06, 0x05, 0x04, 0x03,
            0x02, 0x01
        ]
    );
}

#[test]
fn signed_integers_are_twos_complement() {
    assert_eq!(encoded(-5i8), vec![0xfb]);
    assert_eq!(encoded(-2i16), vec![0xfe, 0xff]);
    assert_eq!(encoded(-132i16), vec![0x7c, 0xff]);
    assert_eq!(encoded(-2i32), vec![0xfe, 0xff, 0xff, 0xff]);
    assert_eq!(encoded(i32::MIN), vec![0x00, 0x00, 0x00, 0x80]);
    assert_eq!(encoded(-2i64), vec![0xfe, 0xff, 0xff, 0xff, 0xff, 0xff, 0xff, 0xff]);
    let mut minus_two = vec![0xffu8; 16];
    minus_two[0] = 0xfe;
    assert_eq!(encoded(-2i128), minus_two);
    assert_eq!(encoded(0x0102i16), vec![0x02, 0x01]);
}

#[test]
fn unsigned_integers_are_read_lowest_byte_first() {
    assert_eq!(decoded::<u8>(&[0xab, 1]), (Ok(0xab), 1));
    assert_eq!(decoded::<u16>(&[0x02, 0x01, 7]), (Ok(0x0102), 2));
    assert_eq!(decoded::<u32>(&[0x04, 0x03, 0x02, 0x01, 7]), (Ok(0x01020304), 4));
    assert_eq!(
        decoded::<u64>(&[0x08, 0x07, 0x06, 0x05, 0x04, 0x03, 0x02, 0x01, 7]),
        (Ok(0x0102030405060708), 8)
    );
    assert_eq!(
        decoded::<u128>(&[
            0x10, 0x0f, 0x0e, 0x0d, 0x0c, 0x0b, 0x0a, 0x09, 0x08, 0x07, 0x06, 0x05, 0x04, 0x03,
            0x02, 0x01, 7
        ]),
        (Ok(0x0102030405060708090a0b0c0d0e0f10), 16)
    );
}

#[test]
fn signed_integers_are_read_as_twos_complement() {
    assert_eq!(decoded::<i8>(&[0xfb]), (Ok(-5), 1));
    assert_eq!(decoded::<i16>(&[0x7c, 0xff]), (Ok(-132), 2));
    assert_eq!(decoded::<i32>(&[0xfe, 0xff, 0xff, 0xff]), (Ok(-2), 4));
    assert_eq!(decoded::<i64>(&[0xfe, 0xff, 0xff, 0xff, 0xff, 0xff, 0xff, 0xff]), (Ok(-2), 8));
    let mut minus_two = vec![0xffu8; 16];
    minus_two[0] = 0xfe;
    assert_eq!(decoded::<i128>(&minus_two), (Ok(-2), 16));
    assert_eq!(decoded::<i16>(&[0xff, 0x7f]), (Ok(i16::MAX), 2));
}

#[test]
fn short_input_for_an_integer_is_an_error() {
    assert_eq!(decoded::<u8>(&[]).0, Err(DecodeError::UnexpectedEof));
    assert_eq!(decoded::<i8>(&[]).0, Err(DecodeError::UnexpectedEof));
    assert_eq!(decoded::<u16>(&[1]).0, Err(DecodeError::UnexpectedEof));
    assert_eq!(decoded::<i16>(&[1]).0, Err(DecodeError::UnexpectedEof));
    assert_eq!(decoded::<u32>(&[1, 2, 3]).0, Err(DecodeError::UnexpectedEof));
    assert_eq!(decoded::<i32>(&[1, 2, 3]).0, Err(DecodeError::UnexpectedEof));
    assert_eq!(decoded::<u64>(&[1, 2, 3, 4, 5, 6, 7]).0, Err(DecodeError::UnexpectedEof));
    assert_eq!(decoded::<i64>(&[1, 2, 3, 4, 5, 6, 7]).0, Err(DecodeError::UnexpectedEof));
    assert_eq!(decoded::<u128>(&[0; 15]).0, Err(DecodeError::UnexpectedEof));
    assert_eq!(decoded::<i128>(&[0; 15]).0, Err(DecodeError::UnexpectedEof));
}

#[test]
fn encode_appends_to_what_is_there() {
    let mut buf = vec![9u8, 8];
    0x0102u16.encode(&mut buf);
    Var::<u32>(300).encode(&mut buf);
    "hi".to_string().encode(&mut buf);
    assert_eq!(buf, vec![9, 8, 0x02, 0x01, 0xac, 0x02, 2, b'h', b'i']);
}

#[test]
fn varint_of_zero_is_one_zero_byte() {
    assert_eq!(encoded(Var::<u16>(0)), vec![0]);
    assert_eq!(encoded(Var::<u32>(0)), vec![0]);
    assert_eq!(encoded(Var::<u64>(0)), vec![0]);
    assert_eq!(encoded(Var::<u128>(0)), vec![0]);
}

#[test]
fn varint_lengths_at_the_edges_of_a_byte() {
    assert_eq!(encoded(Var::<u32>(127)), vec![0x7f]);
    assert_eq!(encoded(Var::<u32>(128)), vec![0x80, 0x01]);
    assert_eq!(encoded(Var::<u32>(300)), vec![0xac, 0x02]);
    assert_eq!(encoded(Var::<u32>(16383)), vec![0xff, 0x7f]);
    assert_eq!(encoded(Var::<u32>(16384)), vec![0x80, 0x80, 0x01]);
}

#[test]
fn varint_of_the_largest_value_has_a_byte_for_every_seven_bits() {
    assert_eq!(encoded(Var(u16::MAX)), vec![0xff, 0xff, 0x03]);
    assert_eq!(encoded(Var(u32::MAX)), vec![0xff, 0xff, 0xff, 0xff, 0x0f]);
    let mut long = vec![0xffu8; 9];
    long.push(0x01);
    assert_eq!(encoded(Var(u64::MAX)), long);
    let mut longest = vec![0xffu8; 18];
    longest.push(0x03);
    assert_eq!(encoded(Var(u128::MAX)), longest);
}

#[test]
fn varint_length_is_the_bits_in_use_over_seven_rounded_up() {
    let values: [u64; 12] =
        [0, 1, 2, 127, 128, 255, 256, 16383, 16384, 1 << 35, (1 << 56) - 1, u64::MAX];
    for v in values {
        let bits_used = if v == 0 { 1 } else { 64 - v.leading_zeros() as usize };
        assert_eq!(encoded(Var(v)).len(), (bits_used + 6) / 7);
    }
}

#[test]
fn varint_reader_stops_at_the_first_byte_without_the_high_bit() {
    assert_eq!(decoded::<Var<u16>>(&[0x05, 0xff, 0xff]), (Ok(Var(5)), 1));
    assert_eq!(decoded::<Var<u32>>(&[0xac, 0x02, 0xff]), (Ok(Var(300)), 2));
    assert_eq!(decoded::<Var<u64>>(&[0x80, 0x80, 0x01, 0x80]), (Ok(Var(16384)), 3));
    assert_eq!(decoded::<Var<u128>>(&[0x80, 0x01]), (Ok(Var(128)), 2));
}

#[test]
fn varint_that_goes_on_beyond_the_width_is_a_data_error() {
    assert_eq!(decoded::<Var<u16>>(&[0x80; 20]).0, Err(DecodeError::InvalidData));
    assert_eq!(decoded::<Var<u16>>(&[0xff; 20]).0, Err(DecodeError::InvalidData));
    assert_eq!(decoded::<Var<u32>>(&[0x80; 20]).0, Err(DecodeError::InvalidData));
    assert_eq!(decoded::<Var<u32>>(&[0xff; 20]).0, Err(DecodeError::InvalidData));
    assert_eq!(decoded::<Var<u64>>(&[0x80; 20]).0, Err(DecodeError::InvalidData));
    assert_eq!(decoded::<Var<u64>>(&[0xff; 20]).0, Err(DecodeError::InvalidData));
    assert_eq!(decoded::<Var<u128>>(&[0x80; 20]).0, Err(DecodeError::InvalidData));
    assert_eq!(decoded::<Var<u128>>(&[0xff; 20]).0, Err(DecodeError::InvalidData));
}

#[test]
fn varint_with_the_high_bit_on_its_last_allowed_byte_is_a_data_error() {
    assert_eq!(decoded::<Var<u16>>(&[0x80, 0x80, 0x80]).0, Err(DecodeError::InvalidData));
    assert_eq!(decoded::<Var<u16>>(&[0xff, 0xff, 0x83, 0x00]).0, Err(DecodeError::InvalidData));
    assert_eq!(decoded::<Var<u32>>(&[0x81, 0x80, 0x80, 0x80, 0x80]).0, Err(DecodeError::InvalidData));
    assert_eq!(decoded::<Var<u64>>(&[0x80; 10]).0, Err(DecodeError::InvalidData));
    assert_eq!(decoded::<Var<u128>>(&[0x80; 19]).0, Err(DecodeError::InvalidData));
}

#[test]
fn varint_reader_takes_as_many_bytes_as_cover_the_width() {
    assert_eq!(decoded::<Var<u16>>(&[0xff, 0xff, 0x03, 0xff]), (Ok(Var(u16::MAX)), 3));
    assert_eq!(decoded::<Var<u16>>(&[0x80, 0x80, 0x00, 0xff]), (Ok(Var(0)), 3));
    assert_eq!(decoded::<Var<u32>>(&[0xff, 0xff, 0xff, 0xff, 0x0f, 0xff]), (Ok(Var(u32::MAX)), 5));
    let mut long = vec![0xffu8; 9];
    long.extend_from_slice(&[0x01, 0xff]);
    assert_eq!(decoded::<Var<u64>>(&long), (Ok(Var(u64::MAX)), 10));
    let mut longest = vec![0xffu8; 18];
    longest.extend_from_slice(&[0x03, 0xff]);
    assert_eq!(decoded::<Var<u128>>(&longest), (Ok(Var(u128::MAX)), 19));
}

#[test]
fn varint_reader_gives_up_within_the_bytes_that_cover_the_width() {
    assert!(decoded::<Var<u16>>(&[0x80; 20]).1 <= 3);
    assert!(decoded::<Var<u32>>(&[0x80; 20]).1 <= 5);
    assert!(decoded::<Var<u64>>(&[0x80; 20]).1 <= 10);
    assert!(decoded::<Var<u128>>(&[0x80; 20]).1 <= 19);
    assert!(decoded::<String>(&[0x80; 20]).1 <= 5);
}

#[test]
fn varint_reader_drops_the_bits_beyond_the_width() {
    assert_eq!(decoded::<Var<u16>>(&[0x80, 0x80, 0x7f]), (Ok(Var(0xc000)), 3));
    assert_eq!(decoded::<Var<u16>>(&[0x81, 0x80, 0x04]), (Ok(Var(1)), 3));
    assert_eq!(decoded::<Var<u32>>(&[0x80, 0x80, 0x80, 0x80, 0x7f]), (Ok(Var(0xf000_0000)), 5));
}

#[test]
fn varint_cut_short_is_an_error() {
    assert_eq!(decoded::<Var<u16>>(&[]).0, Err(DecodeError::UnexpectedEof));
    assert_eq!(decoded::<Var<u16>>(&[0x80]).0, Err(DecodeError::UnexpectedEof));
    assert_eq!(decoded::<Var<u32>>(&[0xff, 0xff]).0, Err(DecodeError::UnexpectedEof));
    assert_eq!(decoded::<Var<u64>>(&[0x80; 9]).0, Err(DecodeError::UnexpectedEof));
    assert_eq!(decoded::<Var<u128>>(&[0x80; 18]).0, Err(DecodeError::UnexpectedEof));
}

#[test]
fn var_gives_access_to_its_number() {
    let mut v = Var::<u32>(41);
    assert_eq!(*v, 41);
    *v += 1;
    assert_eq!(v, Var(42));
    assert!(Var::<u16>(1) < Var::<u16>(2));
}

#[test]
fn string_is_its_length_and_its_utf8_bytes() {
    assert_eq!(encoded("".to_string()), vec![0]);
    assert_eq!(encoded("abc".to_string()), vec![3, b'a', b'b', b'c']);
    assert_eq!(encoded("é".to_string()), vec![2, 0xc3, 0xa9]);
    let long = "x".repeat(200);
    let bytes = encoded(long.clone());
    assert_eq!(&bytes[..2], &[0xc8, 0x01]);
    assert_eq!(bytes.len(), 202);
    test_roundtrip(long);
}

#[test]
fn string_of_many_scripts_round_trips() {
    test_roundtrip("héllo wörld — 你好 🎉".to_string());
}

#[test]
fn string_reader_leaves_what_follows() {
    assert_eq!(decoded::<String>(&[2, b'h', b'i', b'!']), (Ok("hi".to_string()), 3));
}

#[test]
fn string_with_invalid_utf8_is_a_data_error() {
    assert_eq!(decoded::<String>(&[2, 0xff, 0xfe]).0, Err(DecodeError::InvalidData));
    assert_eq!(decoded::<String>(&[1, 0xc3]).0, Err(DecodeError::InvalidData));
}

#[test]
fn string_with_a_length_that_goes_on_beyond_its_width_is_a_data_error() {
    assert_eq!(decoded::<String>(&[0x80; 20]).0, Err(DecodeError::InvalidData));
    assert_eq!(decoded::<String>(&[0xff; 20]).0, Err(DecodeError::InvalidData));
    assert_eq!(
        decoded::<String>(&[0x80, 0x80, 0x80, 0x80, 0x80, 0x00]).0,
        Err(DecodeError::InvalidData)
    );
    assert_eq!(decoded::<String>(&[0x80, 0x80, 0x80, 0x80, 0x00, b'!']), (Ok("".to_string()), 5));
}

#[test]
fn string_with_a_length_beyond_the_input_is_an_error() {
    assert_eq!(decoded::<String>(&[5, b'a', b'b']).0, Err(DecodeError::UnexpectedEof));
    assert_eq!(decoded::<String>(&[1]).0, Err(DecodeError::UnexpectedEof));
    assert_eq!(
        decoded::<String>(&[0xff, 0xff, 0xff, 0xff, 0x0f, b'a']).0,
        Err(DecodeError::UnexpectedEof)
    );
    assert_eq!(decoded::<String>(&[]).0, Err(DecodeError::UnexpectedEof));
}

#[test]
fn sequence_is_its_count_and_its_items() {
    assert_eq!(encoded(Vec::<u16>::new()), vec![0]);
    assert_eq!(encoded(vec![1u16, 2, 3]), vec![3, 1, 0, 2, 0, 3, 0]);
    assert_eq!(
        encoded(vec!["a".to_string(), "".to_string(), "bc".to_string()]),
        vec![3, 1, b'a', 0, 2, b'b', b'c']
    );
}

#[test]
fn sequence_round_trip_keeps_length_and_order() {
    test_roundtrip(vec![3u32, 1, 2, 1, 0, u32::MAX]);
    test_roundtrip(vec!["b".to_string(), "a".to_string(), "b".to_string()]);
    test_roundtrip(vec![vec![1u8, 2], vec![], vec![3]]);
    test_roundtrip(vec![Var::<u64>(1 << 40), Var(0), Var(127)]);
    test_roundtrip(vec![true, false, true]);
    test_roundtrip((0..300u16).collect::<Vec<u16>>());
}

#[test]
fn sequence_with_too_few_items_is_an_error() {
    assert_eq!(decoded::<Vec<u16>>(&[3, 1, 0, 2, 0]).0, Err(DecodeError::UnexpectedEof));
    assert_eq!(decoded::<Vec<u16>>(&[3, 1, 0, 2, 0, 3]).0, Err(DecodeError::UnexpectedEof));
    assert_eq!(decoded::<Vec<u8>>(&[0xff, 0xff, 0xff, 0xff, 0x0f]).0, Err(DecodeError::UnexpectedEof));
    assert_eq!(decoded::<Vec<u8>>(&[]).0, Err(DecodeError::UnexpectedEof));
}

#[test]
fn sequence_with_a_count_that_goes_on_beyond_its_width_is_a_data_error() {
    assert_eq!(decoded::<Vec<u8>>(&[0x80; 20]).0, Err(DecodeError::InvalidData));
    assert_eq!(decoded::<Vec<String>>(&[0xff; 20]).0, Err(DecodeError::InvalidData));
    assert_eq!(
        decoded::<Vec<String>>(&[1, 0x80, 0x80, 0x80, 0x80, 0x80, 0x00]).0,
        Err(DecodeError::InvalidData)
    );
}

#[test]
fn sequence_hands_on_the_error_of_its_item() {
    assert_eq!(decoded::<Vec<String>>(&[2, 1, b'a', 1, 0xff]).0, Err(DecodeError::InvalidData));
    assert_eq!(decoded::<Vec<String>>(&[2, 1, b'a', 4, b'b']).0, Err(DecodeError::UnexpectedEof));
}

#[test]
fn sequence_reader_takes_no_more_than_its_count() {
    assert_eq!(decoded::<Vec<u8>>(&[2, 7, 8, 9, 10]), (Ok(vec![7, 8]), 3));
}
