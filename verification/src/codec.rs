//! The two capabilities of the wire format: writing a value to a byte sink and
//! reading one from a byte source.
//!
//! Every type that takes part has a mathematical model, its deep view. The
//! format is stated over models: `wire` gives the bytes of a model value and
//! `parse` says what a reader makes of a byte sequence.

use vstd::prelude::*;

verus! {

/// Why a value could not be read.
#[derive(Debug, Clone, Copy, PartialEq, Eq, Structural)]
pub enum DecodeError {
    /// The source ended before the value was complete.
    UnexpectedEof,
    /// The bytes were all there but do not stand for a value.
    InvalidData,
}

/// What a reader makes of some bytes: a model value and the number of bytes
/// it covers, or the reason why there is none.
pub type Parsed<V> = Result<(V, nat), DecodeError>;

/// Values that can be written to a byte sink.
pub trait Encode: DeepView {
    /// Whether the format can express the value: whether every length in it
    /// fits its prefix.
    spec fn encodable(v: Self::V) -> bool;

    /// The bytes that stand for the value.
    spec fn wire(v: Self::V) -> Seq<u8>;

    /// Appends the bytes of `self` to `writer`.
    fn encode(&self, writer: &mut Vec<u8>)
        requires
            Self::encodable(self.deep_view()),
        ensures
            final(writer)@ == old(writer)@ + Self::wire(self.deep_view()),
    ;
}

/// Values that can be read from a byte source.
pub trait Decode: Sized + DeepView {
    /// The value at the head of `bytes` and the number of bytes it covers.
    spec fn parse(bytes: Seq<u8>) -> Parsed<Self::V>;

    /// A value never covers more bytes than there are.
    proof fn lemma_parse_within(bytes: Seq<u8>)
        ensures
            Self::parse(bytes) matches Ok((_, n)) ==> n <= bytes.len(),
    ;

    /// Reads the value at the head of `reader` and moves `reader` past it.
    ///
    /// Where the bytes hold no value the error says why, and `reader` is left
    /// at an unspecified position.
    fn decode(reader: &mut &[u8]) -> (r: Result<Self, DecodeError>)
        ensures
            decoded(Self::parse(old(reader)@), r, old(reader)@, final(reader)@),
    ;
}

/// Whether the outcome `r` of a read, which moved the source from `before` to
/// `after`, is the one that `parsed` asks for.
pub open spec fn decoded<T: DeepView>(
    parsed: Parsed<T::V>,
    r: Result<T, DecodeError>,
    before: Seq<u8>,
    after: Seq<u8>,
) -> bool {
    match parsed {
        Ok((v, n)) => r is Ok && r->Ok_0.deep_view() == v && after == before.skip(n as int),
        Err(e) => r == Err::<T, DecodeError>(e),
    }
}

/// Types whose reader undoes their writer.
pub trait RoundTrip: Encode + Decode {
    /// Reading the bytes of a value gives the value back and covers exactly
    /// those bytes, whatever follows them.
    proof fn lemma_round_trip(v: Self::V, rest: Seq<u8>)
        requires
            Self::encodable(v),
        ensures
            Self::parse(Self::wire(v) + rest) == Ok::<(Self::V, nat), DecodeError>(
                (v, Self::wire(v).len()),
            ),
    ;

    /// What a reader gives, a writer can write.
    proof fn lemma_parsed_encodable(bytes: Seq<u8>)
        ensures
            Self::parse(bytes) matches Ok((v, _)) ==> Self::encodable(v),
    ;
}

/// Moves `reader` past its first `n` bytes and hands them out.
pub(crate) fn take_bytes<'a>(reader: &mut &'a [u8], n: usize) -> (head: &'a [u8])
    requires
        n <= old(reader)@.len(),
    ensures
        head@ == old(reader)@.take(n as int),
        final(reader)@ == old(reader)@.skip(n as int),
{
    let all: &'a [u8] = *reader;
    *reader = vstd::slice::slice_subrange(all, n, all.len());
    vstd::slice::slice_subrange(all, 0, n)
}

/// Bytes joined in a row are the same however the joins are grouped.
pub proof fn lemma_regroup(a: Seq<u8>, b: Seq<u8>, c: Seq<u8>)
    ensures
        (a + b) + c == a + (b + c),
{
    assert((a + b) + c =~= a + (b + c));
}

/// The value that starts `at` bytes into `bytes`, and where it ends.
pub open spec fn parse_at<T: Decode>(bytes: Seq<u8>, at: nat) -> Parsed<T::V> {
    match T::parse(bytes.skip(at as int)) {
        Ok((v, n)) => Ok((v, at + n)),
        Err(e) => Err(e),
    }
}

/// A value that starts within the bytes ends within them, and not before
/// it starts.
pub proof fn lemma_parse_at_within<T: Decode>(bytes: Seq<u8>, at: nat)
    requires
        at <= bytes.len(),
    ensures
        parse_at::<T>(bytes, at) matches Ok((_, end)) ==> at <= end <= bytes.len(),
{
    T::lemma_parse_within(bytes.skip(at as int));
}

/// Where the bytes of `v` start `at` bytes into `bytes`, with `behind`
/// after them to the end, `v` is the value that starts there, and it ends
/// where `behind` begins.
pub proof fn lemma_parse_at_of_wire<T: RoundTrip>(
    bytes: Seq<u8>,
    at: nat,
    v: T::V,
    behind: Seq<u8>,
)
    requires
        T::encodable(v),
        at <= bytes.len(),
        bytes.skip(at as int) == T::wire(v) + behind,
    ensures
        parse_at::<T>(bytes, at) == Ok::<(T::V, nat), DecodeError>((v, at + T::wire(v).len())),
        bytes.skip((at + T::wire(v).len()) as int) == behind,
{
    T::lemma_round_trip(v, behind);
    assert(bytes.skip((at + T::wire(v).len()) as int) =~= bytes.skip(at as int).skip(
        T::wire(v).len() as int,
    ));
    assert((T::wire(v) + behind).skip(T::wire(v).len() as int) =~= behind);
}

/// A value that was read wherever in the bytes can be written.
pub proof fn lemma_parse_at_encodable<T: RoundTrip>(bytes: Seq<u8>, at: nat)
    ensures
        parse_at::<T>(bytes, at) matches Ok((v, _)) ==> T::encodable(v),
{
    T::lemma_parsed_encodable(bytes.skip(at as int));
}

/// Reads the value that starts `at` bytes into `bytes`, where `reader`
/// stands, and moves `reader` to its end.
pub(crate) fn decode_at<T: Decode>(
    reader: &mut &[u8],
    Ghost(bytes): Ghost<Seq<u8>>,
    Ghost(at): Ghost<nat>,
) -> (r: Result<T, DecodeError>)
    requires
        at <= bytes.len(),
        old(reader)@ == bytes.skip(at as int),
    ensures
        match parse_at::<T>(bytes, at) {
            Ok((v, end)) => r is Ok && r->Ok_0.deep_view() == v && end <= bytes.len()
                && final(reader)@ == bytes.skip(end as int),
            Err(e) => r == Err::<T, DecodeError>(e),
        },
{
    proof {
        T::lemma_parse_within(bytes.skip(at as int));
    }
    let r = T::decode(reader);
    proof {
        if let Ok((v, n)) = T::parse(bytes.skip(at as int)) {
            assert(bytes.skip(at as int).skip(n as int) =~= bytes.skip((at + n) as int));
        }
    }
    r
}

} // verus!
