//! What reading and writing promise together.
use vstd::prelude::*;
use vstd::utf8::encode_utf8;
use vstd::utf8::encode_utf8_decode_utf8;
use vstd::utf8::encode_utf8_valid_utf8;

use crate::deserializer::address_of;
use crate::deserializer::parse_items;
use crate::deserializer::parse_vec;
use crate::deserializer::Deserialize;
use crate::serializer::address_bytes;
use crate::serializer::encode_items;
use crate::serializer::Serialize;
use crate::types::PeerAddress;
use crate::types::Sha256Result;
use crate::types::VarUint;
use crate::wire::be_bytes;
use crate::wire::lemma_be_round_trip;
use crate::wire::lemma_pow256_values;
use crate::wire::lemma_varuint_round_trip;
use crate::wire::pow256;
use crate::wire::varuint_bytes;

verus! {

/// A type whose wire form reads back as the value written.
pub trait RoundTrip: Serialize + Deserialize {
    /// True when every length that the wire form of `v` counts fits in 64 bits,
    /// as it does for any value held in memory.
    spec fn fits(v: <Self as DeepView>::V) -> bool;

    /// Reading the wire form of `x`, followed by any bytes `rest`, gives back `x`
    /// and takes exactly the bytes of its wire form.
    proof fn lemma_round_trip(x: Self, rest: Seq<u8>)
        requires
            Self::fits(x.deep_view()),
        ensures
            Self::parse(Self::encoding(x.deep_view()) + rest) == Some(
                (x.deep_view(), Self::encoding(x.deep_view()).len()),
            ),
    ;
}

/// Writing a `len`-byte big-endian integer and reading it back gives the integer.
proof fn lemma_uint_round_trip(v: nat, len: nat, rest: Seq<u8>)
    requires
        v < pow256(len),
    ensures
        (be_bytes(v, len) + rest).len() >= len,
        crate::wire::be_value((be_bytes(v, len) + rest).subrange(0, len as int)) == v,
        be_bytes(v, len).len() == len,
{
    lemma_be_round_trip(v, len);
    assert((be_bytes(v, len) + rest).subrange(0, len as int) =~= be_bytes(v, len));
}

impl RoundTrip for u8 {
    open spec fn fits(v: <Self as DeepView>::V) -> bool {
        true
    }

    proof fn lemma_round_trip(x: u8, rest: Seq<u8>) {
        lemma_pow256_values();
        lemma_uint_round_trip(x as nat, 1, rest);
    }
}

impl RoundTrip for u16 {
    open spec fn fits(v: <Self as DeepView>::V) -> bool {
        true
    }

    proof fn lemma_round_trip(x: u16, rest: Seq<u8>) {
        lemma_pow256_values();
        lemma_uint_round_trip(x as nat, 2, rest);
    }
}

impl RoundTrip for u32 {
    open spec fn fits(v: <Self as DeepView>::V) -> bool {
        true
    }

    proof fn lemma_round_trip(x: u32, rest: Seq<u8>) {
        lemma_pow256_values();
        lemma_uint_round_trip(x as nat, 4, rest);
    }
}

impl RoundTrip for u64 {
    open spec fn fits(v: <Self as DeepView>::V) -> bool {
        true
    }

    proof fn lemma_round_trip(x: u64, rest: Seq<u8>) {
        lemma_pow256_values();
        lemma_uint_round_trip(x as nat, 8, rest);
    }
}

impl RoundTrip for VarUint {
    open spec fn fits(v: <Self as DeepView>::V) -> bool {
        true
    }

    proof fn lemma_round_trip(x: VarUint, rest: Seq<u8>) {
        lemma_varuint_round_trip(x.value, rest);
    }
}

impl RoundTrip for String {
    open spec fn fits(s: Seq<char>) -> bool {
        encode_utf8(s).len() <= u64::MAX
    }

    proof fn lemma_round_trip(x: String, rest: Seq<u8>) {
        let body = encode_utf8(x@);
        let len = body.len() as u64;
        let all = varuint_bytes(len) + body + rest;
        encode_utf8_valid_utf8(x@);
        encode_utf8_decode_utf8(x@);
        lemma_varuint_round_trip(len, body + rest);
        assert(all =~= varuint_bytes(len) + (body + rest));
        let k = varuint_bytes(len).len();
        assert(all.subrange(k as int, k + len) =~= body);
    }
}

/// The deep views of the values `xs`.
pub open spec fn deep_seq<T: DeepView>(xs: Seq<T>) -> Seq<<T as DeepView>::V> {
    Seq::new(xs.len(), |i: int| xs[i].deep_view())
}

/// Reading `xs.len()` values from their wire forms, one after the other and
/// followed by any bytes `rest`, gives back `xs`.
pub proof fn lemma_items_round_trip<T: RoundTrip>(xs: Seq<T>, rest: Seq<u8>)
    requires
        forall|i: int| 0 <= i < xs.len() ==> #[trigger] T::fits(xs[i].deep_view()),
    ensures
        parse_items::<T>(encode_items::<T>(deep_seq(xs)) + rest, xs.len()) == Some(
            (deep_seq(xs), encode_items::<T>(deep_seq(xs)).len()),
        ),
    decreases xs.len(),
{
    let all = encode_items::<T>(deep_seq(xs)) + rest;
    if xs.len() == 0 {
        assert(deep_seq(xs) =~= seq![]);
    } else {
        let init = xs.drop_last();
        let last = xs.last();
        let tail = T::encoding(last.deep_view());
        assert(deep_seq(xs).drop_last() =~= deep_seq(init));
        let front = encode_items::<T>(deep_seq(init));
        assert(all =~= front + (tail + rest));
        assert(forall|i: int| 0 <= i < init.len() ==> init[i] == xs[i]);
        lemma_items_round_trip::<T>(init, tail + rest);
        assert(T::fits(deep_seq(xs)[xs.len() - 1]));
        T::lemma_round_trip(last, rest);
        assert(all.subrange(front.len() as int, all.len() as int) =~= tail + rest);
        assert(deep_seq(init).push(last.deep_view()) =~= deep_seq(xs));
    }
}

impl<T: RoundTrip> RoundTrip for Vec<T> {
    open spec fn fits(vs: Seq<<T as DeepView>::V>) -> bool {
        vs.len() <= u64::MAX && forall|i: int| 0 <= i < vs.len() ==> #[trigger] T::fits(vs[i])
    }

    proof fn lemma_round_trip(x: Vec<T>, rest: Seq<u8>) {
        let vs = x.deep_view();
        assert(vs =~= deep_seq(x@));
        let items = encode_items::<T>(vs);
        let len = vs.len() as u64;
        let all = varuint_bytes(len) + items + rest;
        lemma_varuint_round_trip(len, items + rest);
        assert(all =~= varuint_bytes(len) + (items + rest));
        let k = varuint_bytes(len).len();
        assert(all.subrange(k as int, all.len() as int) =~= items + rest);
        assert forall|i: int| 0 <= i < x@.len() implies #[trigger] T::fits(x@[i].deep_view()) by {
            assert(vs[i] == x@[i].deep_view());
        }
        lemma_items_round_trip::<T>(x@, rest);
    }
}

impl RoundTrip for Sha256Result {
    open spec fn fits(v: <Self as DeepView>::V) -> bool {
        true
    }

    proof fn lemma_round_trip(x: Sha256Result, rest: Seq<u8>) {
        let all = x.deep_view() + rest;
        assert(all.subrange(0, 32) =~= x.deep_view());
    }
}

impl RoundTrip for PeerAddress {
    open spec fn fits(v: <Self as DeepView>::V) -> bool {
        true
    }

    proof fn lemma_round_trip(x: PeerAddress, rest: Seq<u8>) {
        lemma_pow256_values();
        let high = x.ip as nat / pow256(8);
        let low = x.ip as nat % pow256(8);
        assert(high < pow256(8)) by (nonlinear_arith)
            requires
                x.ip < 0x1_0000_0000_0000_0000_0000_0000_0000_0000,
                pow256(8) == 0x1_0000_0000_0000_0000,
                high == x.ip as nat / pow256(8),
        ;
        lemma_be_round_trip(high, 8);
        lemma_be_round_trip(low, 8);
        lemma_be_round_trip(x.port as nat, 2);
        let all = address_bytes(x) + rest;
        assert(all.subrange(0, 8) =~= be_bytes(high, 8));
        assert(all.subrange(8, 16) =~= be_bytes(low, 8));
        assert(all.subrange(16, 18) =~= be_bytes(x.port as nat, 2));
        assert(high * pow256(8) + low == x.ip) by (nonlinear_arith)
            requires
                pow256(8) > 0,
                high == x.ip as nat / pow256(8),
                low == x.ip as nat % pow256(8),
        ;
        assert(address_of(all) == x);
    }
}

/// A sequence of `n` values, written and read back, gives `n` values equal to the
/// ones written, in the same order; the bytes after it are left unread.
pub proof fn lemma_sequence_law<T: RoundTrip>(xs: Vec<T>, rest: Seq<u8>)
    requires
        <Vec<T> as RoundTrip>::fits(xs.deep_view()),
    ensures
        ({
            let written = <Vec<T> as Serialize>::encoding(xs.deep_view());
            match parse_vec::<T>(written + rest) {
                Some((vs, n)) => vs.len() == xs@.len() && n == written.len() && forall|i: int|
                    0 <= i < xs@.len() ==> vs[i] == #[trigger] xs@[i].deep_view(),
                None => false,
            }
        }),
{
    <Vec<T> as RoundTrip>::lemma_round_trip(xs, rest);
}

} // verus!
