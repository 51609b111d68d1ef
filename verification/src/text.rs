//! Text: the number of bytes of its UTF-8 form as a variable-length
//! integer of 32 bits, then those bytes.

use vstd::prelude::*;
use vstd::slice::slice_to_vec;
use vstd::utf8::{
    decode_utf8, decode_utf8_encode_utf8, encode_utf8, encode_utf8_decode_utf8,
    encode_utf8_valid_utf8, valid_utf8,
};

use crate::codec::{take_bytes, Decode, DecodeError, Encode, Parsed, RoundTrip};
use crate::endian::lemma_radix_values;
use crate::var::Var;
use crate::varint::{
    lemma_parse_of_varint, lemma_span_within, lemma_weight_values, max_len, varint_bytes,
    varint_parse,
};

verus! {

/// `String::from_utf8`: the text that `bytes` spell where they are valid
/// UTF-8; a failure where they are not.
#[verifier::external_body]
fn string_from_utf8(bytes: Vec<u8>) -> (r: Option<String>)
    ensures
        r is Some <==> valid_utf8(bytes@),
        r matches Some(text) ==> text@ == decode_utf8(bytes@),
{
    String::from_utf8(bytes).ok()
}

/// The bytes of a text: the length of its UTF-8 form, then that form.
pub open spec fn text_bytes(text: Seq<char>) -> Seq<u8> {
    varint_bytes(encode_utf8(text).len()) + encode_utf8(text)
}

/// What a reader makes of `bytes` as a text. The length has to be a
/// variable-length integer of 32 bits, and the bytes that it announces have
/// to be there and have to be valid UTF-8.
pub open spec fn text_parse(bytes: Seq<u8>) -> Parsed<Seq<char>> {
    match varint_parse(bytes, 4) {
        Err(e) => Err(e),
        Ok((len, n)) => {
            let body = bytes.subrange(n as int, (n + len) as int);
            if bytes.len() < n + len {
                Err(DecodeError::UnexpectedEof)
            } else if !valid_utf8(body) {
                Err(DecodeError::InvalidData)
            } else {
                Ok((decode_utf8(body), n + len))
            }
        },
    }
}

impl Encode for String {
    /// The length of the UTF-8 form has to fit in 32 bits.
    open spec fn encodable(v: Seq<char>) -> bool {
        encode_utf8(v).len() <= u32::MAX
    }

    open spec fn wire(v: Seq<char>) -> Seq<u8> {
        text_bytes(v)
    }

    fn encode(&self, writer: &mut Vec<u8>) {
        let bytes = self.as_str().as_bytes();
        let len = Var::<u32>(bytes.len() as u32);
        len.encode(writer);
        writer.extend_from_slice(bytes);
    }
}

impl Decode for String {
    open spec fn parse(bytes: Seq<u8>) -> Parsed<Seq<char>> {
        text_parse(bytes)
    }

    proof fn lemma_parse_within(bytes: Seq<u8>) {
    }

    fn decode(reader: &mut &[u8]) -> (r: Result<Self, DecodeError>) {
        let ghost bytes = reader@;
        proof {
            lemma_radix_values();
            lemma_span_within(bytes, max_len(4));
        }
        let len = Var::<u32>::decode(reader)?.0 as usize;
        if reader.len() < len {
            return Err(DecodeError::UnexpectedEof);
        }
        let ghost n = bytes.len() - reader@.len();
        let body = take_bytes(reader, len);
        assert(body@ =~= bytes.subrange(n, n + len));
        assert(reader@ =~= bytes.skip(n + len));
        match string_from_utf8(slice_to_vec(body)) {
            Some(text) => Ok(text),
            None => Err(DecodeError::InvalidData),
        }
    }
}

impl RoundTrip for String {
    proof fn lemma_round_trip(v: Seq<char>, rest: Seq<u8>) {
        let body = encode_utf8(v);
        let prefix = varint_bytes(body.len());
        lemma_radix_values();
        lemma_weight_values();
        lemma_parse_of_varint(body.len(), 4, body + rest);
        assert(text_bytes(v) + rest =~= prefix + (body + rest));
        assert((text_bytes(v) + rest).subrange(
            prefix.len() as int,
            (prefix.len() + body.len()) as int,
        )
            =~= body);
        encode_utf8_valid_utf8(v);
        encode_utf8_decode_utf8(v);
    }

    proof fn lemma_parsed_encodable(bytes: Seq<u8>) {
        lemma_radix_values();
        if let Ok((len, n)) = varint_parse(bytes, 4) {
            let body = bytes.subrange(n as int, (n + len) as int);
            if bytes.len() >= n + len && valid_utf8(body) {
                lemma_span_within(bytes, max_len(4));
                decode_utf8_encode_utf8(body);
            }
        }
    }
}

/// The UTF-8 form of two texts joined is the two forms joined.
pub proof fn lemma_utf8_of_joined(first: Seq<char>, second: Seq<char>)
    ensures
        encode_utf8(first + second) == encode_utf8(first) + encode_utf8(second),
    decreases first.len(),
{
    if first.len() == 0 {
        assert(first + second =~= second);
        assert(encode_utf8(first) + encode_utf8(second) =~= encode_utf8(second));
    } else {
        lemma_utf8_of_joined(first.drop_first(), second);
        assert((first + second).drop_first() =~= first.drop_first() + second);
        assert(encode_utf8(first + second) =~= encode_utf8(first) + encode_utf8(second));
    }
}

/// Whether `text` can be written: whether the length of its UTF-8 form
/// fits in 32 bits.
pub fn fits(text: &str) -> (r: bool)
    ensures
        r == <String as Encode>::encodable(text@),
{
    text.as_bytes().len() <= u32::MAX as usize
}

} // verus!
