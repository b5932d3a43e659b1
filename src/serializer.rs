//! Writing values in their wire form.
use vstd::prelude::*;
use vstd::slice::slice_to_vec;
use vstd::utf8::encode_utf8;

use crate::types::PeerAddress;
use crate::types::Sha256Result;
use crate::types::VarUint;
use crate::wire::be_bytes;
use crate::wire::lemma_pow256_values;
use crate::wire::pow256;
use crate::wire::varuint_bytes;

verus! {

/// Appends the `n` lowest bytes of `v`, most significant first.
fn push_be(out: &mut Vec<u8>, v: u64, n: usize)
    requires
        n <= 8,
        v < pow256(n as nat),
    ensures
        final(out)@ == old(out)@ + be_bytes(v as nat, n as nat),
    decreases n,
{
    if n > 0 {
        let ghost p = pow256((n - 1) as nat);
        assert(v / 256 < p) by (nonlinear_arith)
            requires
                v < 256 * p,
        ;
        push_be(out, v / 256, n - 1);
        out.push((v % 256) as u8);
        assert(final(out)@ =~= old(out)@ + be_bytes(v as nat, n as nat));
    }
}

/// Appends the variable-length form of `v`.
pub fn write_varuint(out: &mut Vec<u8>, v: u64)
    ensures
        final(out)@ == old(out)@ + varuint_bytes(v),
{
    proof {
        lemma_pow256_values();
    }
    if v <= 252 {
        out.push(v as u8);
        assert(final(out)@ =~= old(out)@ + varuint_bytes(v));
    } else if v <= 0xFFFF {
        out.push(0xFD);
        push_be(out, v, 2);
        assert(final(out)@ =~= old(out)@ + varuint_bytes(v));
    } else if v <= 0xFFFF_FFFF {
        out.push(0xFE);
        push_be(out, v, 4);
        assert(final(out)@ =~= old(out)@ + varuint_bytes(v));
    } else {
        out.push(0xFF);
        push_be(out, v, 8);
        assert(final(out)@ =~= old(out)@ + varuint_bytes(v));
    }
}

/// A type with a wire form.
pub trait Serialize: DeepView {
    /// The wire form of the value whose deep view is `v`.
    spec fn encoding(v: <Self as DeepView>::V) -> Seq<u8>;

    /// The wire form of `self`.
    fn serialize(&self) -> (r: Vec<u8>)
        ensures
            r@ == Self::encoding(self.deep_view()),
    ;
}

/// The wire forms of the values `vs`, one after the other.
pub open spec fn encode_items<T: Serialize>(vs: Seq<<T as DeepView>::V>) -> Seq<u8>
    decreases vs.len(),
{
    if vs.len() == 0 {
        seq![]
    } else {
        encode_items::<T>(vs.drop_last()) + T::encoding(vs.last())
    }
}

impl Serialize for u8 {
    open spec fn encoding(v: u8) -> Seq<u8> {
        be_bytes(v as nat, 1)
    }

    fn serialize(&self) -> (r: Vec<u8>) {
        proof {
            lemma_pow256_values();
        }
        let mut out = Vec::new();
        push_be(&mut out, *self as u64, 1);
        assert(out@ =~= Self::encoding(*self));
        out
    }
}

impl Serialize for u16 {
    open spec fn encoding(v: u16) -> Seq<u8> {
        be_bytes(v as nat, 2)
    }

    fn serialize(&self) -> (r: Vec<u8>) {
        proof {
            lemma_pow256_values();
        }
        let mut out = Vec::new();
        push_be(&mut out, *self as u64, 2);
        assert(out@ =~= Self::encoding(*self));
        out
    }
}

impl Serialize for u32 {
    open spec fn encoding(v: u32) -> Seq<u8> {
        be_bytes(v as nat, 4)
    }

    fn serialize(&self) -> (r: Vec<u8>) {
        proof {
            lemma_pow256_values();
        }
        let mut out = Vec::new();
        push_be(&mut out, *self as u64, 4);
        assert(out@ =~= Self::encoding(*self));
        out
    }
}

impl Serialize for u64 {
    open spec fn encoding(v: u64) -> Seq<u8> {
        be_bytes(v as nat, 8)
    }

    fn serialize(&self) -> (r: Vec<u8>) {
        proof {
            lemma_pow256_values();
        }
        let mut out = Vec::new();
        push_be(&mut out, *self, 8);
        assert(out@ =~= Self::encoding(*self));
        out
    }
}

impl Serialize for VarUint {
    open spec fn encoding(v: u64) -> Seq<u8> {
        varuint_bytes(v)
    }

    fn serialize(&self) -> (r: Vec<u8>) {
        let mut out = Vec::new();
        write_varuint(&mut out, self.value);
        assert(out@ =~= Self::encoding(self.value));
        out
    }
}

impl Serialize for String {
    open spec fn encoding(s: Seq<char>) -> Seq<u8> {
        varuint_bytes(encode_utf8(s).len() as u64) + encode_utf8(s)
    }

    fn serialize(&self) -> (r: Vec<u8>) {
        let bytes = self.as_str().as_bytes();
        let mut out = Vec::new();
        write_varuint(&mut out, bytes.len() as u64);
        let mut body = slice_to_vec(bytes);
        out.append(&mut body);
        assert(out@ =~= Self::encoding(self@));
        out
    }
}

impl<T: Serialize> Serialize for Vec<T> {
    open spec fn encoding(vs: Seq<<T as DeepView>::V>) -> Seq<u8> {
        varuint_bytes(vs.len() as u64) + encode_items::<T>(vs)
    }

    fn serialize(&self) -> (r: Vec<u8>) {
        let mut out = Vec::new();
        write_varuint(&mut out, self.len() as u64);
        let ghost head = out@;
        let mut i: usize = 0;
        while i < self.len()
            invariant
                i <= self@.len(),
                head == varuint_bytes(self@.len() as u64),
                out@ == head + encode_items::<T>(self.deep_view().subrange(0, i as int)),
            decreases self@.len() - i,
        {
            let mut item = self[i].serialize();
            let ghost prev = out@;
            out.append(&mut item);
            assert(self.deep_view().subrange(0, i + 1).drop_last() =~= self.deep_view().subrange(
                0,
                i as int,
            ));
            assert(out@ =~= head + encode_items::<T>(self.deep_view().subrange(0, i + 1)));
            i += 1;
        }
        assert(self.deep_view().subrange(0, i as int) =~= self.deep_view());
        out
    }
}

impl Serialize for Sha256Result {
    open spec fn encoding(v: Seq<u8>) -> Seq<u8> {
        v
    }

    fn serialize(&self) -> (r: Vec<u8>) {
        let out = slice_to_vec(self.as_slice());
        assert(out@ =~= self.deep_view());
        out
    }
}

/// The wire form of an address: the high and the low 64 bits of the IPv6
/// address, then the port, each big-endian.
pub open spec fn address_bytes(a: PeerAddress) -> Seq<u8> {
    be_bytes(a.ip as nat / pow256(8), 8) + be_bytes(a.ip as nat % pow256(8), 8) + be_bytes(
        a.port as nat,
        2,
    )
}

impl Serialize for PeerAddress {
    open spec fn encoding(a: PeerAddress) -> Seq<u8> {
        address_bytes(a)
    }

    fn serialize(&self) -> (r: Vec<u8>) {
        proof {
            lemma_pow256_values();
        }
        let high = (self.ip / 0x1_0000_0000_0000_0000u128) as u64;
        let low = (self.ip % 0x1_0000_0000_0000_0000u128) as u64;
        let mut out = Vec::new();
        push_be(&mut out, high, 8);
        push_be(&mut out, low, 8);
        push_be(&mut out, self.port as u64, 2);
        assert(out@ =~= address_bytes(*self));
        out
    }
}

} // verus!
