//! Sequences: the number of items as a variable-length integer of 32 bits,
//! then the items in order.

use vstd::prelude::*;

use crate::codec::{Decode, DecodeError, Encode, Parsed, RoundTrip};
use crate::endian::lemma_radix_values;
use crate::var::Var;
use crate::varint::{
    lemma_parse_of_varint, lemma_span_within, lemma_weight_values, max_len, varint_bytes,
    varint_parse,
};

verus! {

/// The bytes of some items, one behind the other.
pub open spec fn wire_items<T: Encode>(items: Seq<T::V>) -> Seq<u8>
    decreases items.len(),
{
    if items.len() == 0 {
        Seq::empty()
    } else {
        T::wire(items[0]) + wire_items::<T>(items.skip(1))
    }
}

/// What a reader makes of `bytes` as `count` items, one behind the other.
/// The first item that cannot be read decides the error.
pub open spec fn parse_items<T: Decode>(bytes: Seq<u8>, count: nat) -> Parsed<Seq<T::V>>
    decreases count,
{
    if count == 0 {
        Ok((Seq::empty(), 0))
    } else {
        match T::parse(bytes) {
            Err(e) => Err(e),
            Ok((first, n)) => match parse_items::<T>(bytes.skip(n as int), (count - 1) as nat) {
                Err(e) => Err(e),
                Ok((others, m)) => Ok((seq![first] + others, n + m)),
            },
        }
    }
}

/// The bytes of some items and one more are the bytes of the items, then
/// those of the last.
pub proof fn lemma_wire_items_push<T: Encode>(items: Seq<T::V>, last: T::V)
    ensures
        wire_items::<T>(items.push(last)) == wire_items::<T>(items) + T::wire(last),
    decreases items.len(),
{
    let all = items.push(last);
    if items.len() == 0 {
        assert(all.skip(1) =~= Seq::<T::V>::empty());
        assert(wire_items::<T>(all.skip(1)) =~= Seq::<u8>::empty());
        assert(wire_items::<T>(all) =~= T::wire(last));
    } else {
        lemma_wire_items_push::<T>(items.skip(1), last);
        assert(all.skip(1) =~= items.skip(1).push(last));
        assert(wire_items::<T>(all) =~= wire_items::<T>(items) + T::wire(last));
    }
}

/// Some items never cover more bytes than there are, and there are as many
/// of them as were asked for.
pub proof fn lemma_parse_items_within<T: Decode>(bytes: Seq<u8>, count: nat)
    ensures
        parse_items::<T>(bytes, count) matches Ok((items, n)) ==> n <= bytes.len() && items.len()
            == count,
    decreases count,
{
    if count > 0 {
        T::lemma_parse_within(bytes);
        if let Ok((first, n)) = T::parse(bytes) {
            lemma_parse_items_within::<T>(bytes.skip(n as int), (count - 1) as nat);
        }
    }
}

/// Reading one item more: where `count` items were read, the next one is
/// read behind them; where they were not, their error stands.
pub proof fn lemma_parse_items_more<T: Decode>(bytes: Seq<u8>, count: nat)
    ensures
        parse_items::<T>(bytes, count + 1) == match parse_items::<T>(bytes, count) {
            Err(e) => Err(e),
            Ok((items, n)) => match T::parse(bytes.skip(n as int)) {
                Err(e) => Err(e),
                Ok((last, m)) => Ok((items.push(last), n + m)),
            },
        },
    decreases count,
{
    if count == 0 {
        assert(bytes.skip(0) =~= bytes);
        if let Ok((first, n)) = T::parse(bytes) {
            assert(parse_items::<T>(bytes.skip(n as int), 0) == Ok::<(Seq<T::V>, nat), DecodeError>(
                (Seq::empty(), 0),
            ));
            assert(seq![first] + Seq::<T::V>::empty() =~= Seq::<T::V>::empty().push(first));
        }
    } else {
        T::lemma_parse_within(bytes);
        if let Ok((first, n)) = T::parse(bytes) {
            let tail = bytes.skip(n as int);
            lemma_parse_items_more::<T>(tail, (count - 1) as nat);
            lemma_parse_items_within::<T>(tail, (count - 1) as nat);
            assert(parse_items::<T>(bytes, count + 1) == match parse_items::<T>(tail, count) {
                Err(e) => Err(e),
                Ok((others, m)) => Ok((seq![first] + others, n + m)),
            });
            if let Ok((others, m)) = parse_items::<T>(tail, (count - 1) as nat) {
                assert(tail.skip(m as int) =~= bytes.skip((n + m) as int));
                if let Ok((last, k)) = T::parse(tail.skip(m as int)) {
                    assert(seq![first] + others.push(last) =~= (seq![first] + others).push(last));
                }
            }
        }
    }
}

/// An error in the first items is the error of any longer run of items.
pub proof fn lemma_parse_items_error_stays<T: Decode>(bytes: Seq<u8>, count: nat, more: nat)
    requires
        count <= more,
        parse_items::<T>(bytes, count) is Err,
    ensures
        parse_items::<T>(bytes, more) == parse_items::<T>(bytes, count),
    decreases count,
{
    if count > 0 {
        if let Ok((first, n)) = T::parse(bytes) {
            lemma_parse_items_error_stays::<T>(
                bytes.skip(n as int),
                (count - 1) as nat,
                (more - 1) as nat,
            );
        }
    }
}

/// Reading the bytes of some items gives the items back, in their order,
/// and covers exactly those bytes, whatever follows them.
pub proof fn lemma_parse_items_of_wire<T: RoundTrip>(items: Seq<T::V>, rest: Seq<u8>)
    requires
        forall|i: int| 0 <= i < items.len() ==> T::encodable(#[trigger] items[i]),
    ensures
        parse_items::<T>(wire_items::<T>(items) + rest, items.len()) == Ok::<
            (Seq<T::V>, nat),
            DecodeError,
        >((items, wire_items::<T>(items).len())),
    decreases items.len(),
{
    if items.len() == 0 {
        assert(items =~= Seq::<T::V>::empty());
    } else {
        let first = T::wire(items[0]);
        let others = wire_items::<T>(items.skip(1));
        T::lemma_round_trip(items[0], others + rest);
        lemma_parse_items_of_wire::<T>(items.skip(1), rest);
        assert(wire_items::<T>(items) + rest =~= first + (others + rest));
        assert((first + (others + rest)).skip(first.len() as int) =~= others + rest);
        assert(seq![items[0]] + items.skip(1) =~= items);
    }
}

/// Each of some items that were read can be written.
pub proof fn lemma_parse_items_encodable<T: RoundTrip>(bytes: Seq<u8>, count: nat)
    ensures
        parse_items::<T>(bytes, count) matches Ok((items, _)) ==> forall|i: int|
            0 <= i < items.len() ==> T::encodable(#[trigger] items[i]),
    decreases count,
{
    if count > 0 {
        T::lemma_parsed_encodable(bytes);
        if let Ok((first, n)) = T::parse(bytes) {
            lemma_parse_items_encodable::<T>(bytes.skip(n as int), (count - 1) as nat);
        }
    }
}

impl<T: Encode> Encode for Vec<T> {
    /// The number of items has to fit in 32 bits, and each item has to be
    /// encodable.
    open spec fn encodable(v: Seq<T::V>) -> bool {
        &&& v.len() <= u32::MAX
        &&& forall|i: int| 0 <= i < v.len() ==> T::encodable(#[trigger] v[i])
    }

    open spec fn wire(v: Seq<T::V>) -> Seq<u8> {
        varint_bytes(v.len()) + wire_items::<T>(v)
    }

    fn encode(&self, writer: &mut Vec<u8>) {
        let ghost items = self.deep_view();
        let len = Var::<u32>(self.len() as u32);
        len.encode(writer);
        let mut i: usize = 0;
        assert(items.take(0) =~= Seq::<T::V>::empty());
        while i < self.len()
            invariant
                i <= self.len(),
                items == self.deep_view(),
                Self::encodable(items),
                writer@ == old(writer)@ + varint_bytes(items.len()) + wire_items::<T>(
                    items.take(i as int),
                ),
            decreases self.len() - i,
        {
            proof {
                lemma_wire_items_push::<T>(items.take(i as int), items[i as int]);
                assert(items.take(i as int).push(items[i as int]) =~= items.take(i + 1));
            }
            self[i].encode(writer);
            i = i + 1;
        }
        assert(items.take(i as int) =~= items);
    }
}

impl<T: Decode> Decode for Vec<T> {
    open spec fn parse(bytes: Seq<u8>) -> Parsed<Seq<T::V>> {
        match varint_parse(bytes, 4) {
            Err(e) => Err(e),
            Ok((count, n)) => match parse_items::<T>(bytes.skip(n as int), count) {
                Err(e) => Err(e),
                Ok((items, m)) => Ok((items, n + m)),
            },
        }
    }

    proof fn lemma_parse_within(bytes: Seq<u8>) {
        lemma_span_within(bytes, max_len(4));
        if let Ok((count, n)) = varint_parse(bytes, 4) {
            lemma_parse_items_within::<T>(bytes.skip(n as int), count);
        }
    }

    fn decode(reader: &mut &[u8]) -> (r: Result<Self, DecodeError>) {
        let ghost bytes = reader@;
        proof {
            lemma_radix_values();
            lemma_span_within(bytes, max_len(4));
        }
        let len = Var::<u32>::decode(reader)?.0;
        let ghost start = reader@;
        let ghost mut taken: nat = 0;
        let mut buf: Vec<T> = Vec::new();
        let mut i: u32 = 0;
        proof {
            assert(start.skip(0) =~= start);
            assert(buf.deep_view() =~= Seq::<T::V>::empty());
        }
        while i < len
            invariant
                i <= len,
                bytes == old(reader)@,
                varint_parse(bytes, 4) matches Ok((count, n)) && count == len && start
                    == bytes.skip(n as int),
                taken <= start.len(),
                reader@ == start.skip(taken as int),
                parse_items::<T>(start, i as nat) == Ok::<(Seq<T::V>, nat), DecodeError>(
                    (buf.deep_view(), taken),
                ),
            decreases len - i,
        {
            proof {
                lemma_parse_items_more::<T>(start, i as nat);
                T::lemma_parse_within(reader@);
                if parse_items::<T>(start, (i + 1) as nat) is Err {
                    lemma_parse_items_error_stays::<T>(start, (i + 1) as nat, len as nat);
                }
            }
            let ghost before = buf.deep_view();
            let item = T::decode(reader)?;
            proof {
                let n = T::parse(start.skip(taken as int))->Ok_0.1;
                assert(start.skip(taken as int).skip(n as int) =~= start.skip((taken + n) as int));
                taken = taken + n;
            }
            buf.push(item);
            assert(buf.deep_view() =~= before.push(item.deep_view()));
            i = i + 1;
        }
        assert(start.skip(taken as int) =~= bytes.skip((bytes.len() - start.len()) + taken));
        Ok(buf)
    }
}

impl<T: RoundTrip> RoundTrip for Vec<T> {
    proof fn lemma_round_trip(v: Seq<T::V>, rest: Seq<u8>) {
        let prefix = varint_bytes(v.len());
        let body = wire_items::<T>(v);
        lemma_radix_values();
        lemma_weight_values();
        lemma_parse_of_varint(v.len(), 4, body + rest);
        lemma_parse_items_of_wire::<T>(v, rest);
        assert(prefix + body + rest =~= prefix + (body + rest));
        assert((prefix + (body + rest)).skip(prefix.len() as int) =~= body + rest);
    }

    proof fn lemma_parsed_encodable(bytes: Seq<u8>) {
        lemma_radix_values();
        if let Ok((count, n)) = varint_parse(bytes, 4) {
            lemma_parse_items_encodable::<T>(bytes.skip(n as int), count);
            lemma_parse_items_within::<T>(bytes.skip(n as int), count);
        }
    }
}

} // verus!
