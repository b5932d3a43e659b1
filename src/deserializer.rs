//! Reading values off the front of a byte buffer.
use vstd::prelude::*;
use vstd::slice::slice_subrange;
use vstd::slice::slice_to_vec;
use vstd::utf8::decode_utf8;
use vstd::utf8::valid_utf8;

use crate::types::PeerAddress;
use crate::types::Sha256Result;
use crate::types::VarUint;
use crate::wire::be_value;
use crate::wire::lemma_be_value_bound;
use crate::wire::lemma_pow256_mono;
use crate::wire::lemma_pow256_values;
use crate::wire::pow256;
use crate::wire::parse_string;
use crate::wire::parse_uint;
use crate::wire::parse_varuint;
use crate::wire::varuint_width;

verus! {

/// What can go wrong while reading a value.
#[derive(Debug)]
pub enum Error {
    /// A read of a larger value failed at the step that the text names.
    Context(&'static str, Box<Error>),
    /// The type being read, the number of bytes it needed, and the number left.
    BufferTooShort(&'static str, usize, usize),
    /// The bytes of a string, which are not valid UTF-8.
    InvalidString(Vec<u8>),
}

/// True when `e` reports that a read of `name` needed `expected` bytes and found
/// `available`.
pub open spec fn is_short(e: Error, name: &str, expected: nat, available: nat) -> bool {
    match e {
        Error::BufferTooShort(t, x, a) => t@ == name@ && x == expected && a == available,
        _ => false,
    }
}

/// Holds the bytes still to be read. Each read takes bytes from the front; a read
/// that fails leaves the reader as it was.
pub struct Deserializer {
    buffer: Vec<u8>,
    pos: usize,
}

impl View for Deserializer {
    type V = Seq<u8>;

    /// The bytes that have not been read yet.
    closed spec fn view(&self) -> Seq<u8> {
        self.buffer@.subrange(self.pos as int, self.buffer@.len() as int)
    }
}

impl Deserializer {
    pub closed spec fn wf(&self) -> bool {
        self.pos <= self.buffer@.len()
    }

    /// The whole buffer that the reader was made from.
    pub closed spec fn source(&self) -> Seq<u8> {
        self.buffer@
    }

    /// Creates a reader over the bytes `v`.
    pub fn new(v: Vec<u8>) -> (r: Deserializer)
        ensures
            r.wf(),
            r@ == v@,
    {
        let r = Deserializer { buffer: v, pos: 0 };
        assert(r@ =~= v@);
        r
    }

    /// Number of bytes that have not been read yet.
    pub fn remaining(&self) -> (r: usize)
        requires
            self.wf(),
        ensures
            r == self@.len(),
    {
        self.buffer.len() - self.pos
    }

    /// Takes the next `length` bytes.
    pub fn extract_bytes(&mut self, length: usize) -> (r: Result<Vec<u8>, Error>)
        requires
            old(self).wf(),
        ensures
            final(self).wf(),
            final(self).source() == old(self).source(),
            r is Ok <==> length <= old(self)@.len(),
            r is Ok ==> r->Ok_0@ == old(self)@.subrange(0, length as int) && final(self)@
                == old(self)@.subrange(length as int, old(self)@.len() as int),
            r is Err ==> is_short(r->Err_0, "bytes", length as nat, old(self)@.len())
                && final(self)@ == old(self)@,
    {
        let buff_length = self.buffer.len() - self.pos;
        if length > buff_length {
            Err(Error::BufferTooShort("bytes", length, buff_length))
        } else {
            let start = self.pos;
            let v = slice_to_vec(slice_subrange(self.buffer.as_slice(), start, start + length));
            self.pos = start + length;
            assert(v@ =~= old(self)@.subrange(0, length as int));
            assert(self@ =~= old(self)@.subrange(length as int, old(self)@.len() as int));
            Ok(v)
        }
    }

    /// Reads an `n`-byte big-endian integer, where `n` bytes are left.
    fn read_be(&mut self, n: usize) -> (r: u64)
        requires
            old(self).wf(),
            n <= 8,
            n <= old(self)@.len(),
        ensures
            final(self).wf(),
            final(self).source() == old(self).source(),
            r == be_value(old(self)@.subrange(0, n as int)),
            final(self)@ == old(self)@.subrange(n as int, old(self)@.len() as int),
    {
        let start = self.pos;
        let total = self.buffer.len();
        let ghost rest = self@;
        let mut value: u64 = 0;
        let mut i: usize = 0;
        while i < n
            invariant
                self.wf(),
                self.buffer == old(self).buffer,
                self.pos == start,
                rest == self@,
                start + n <= self.buffer@.len(),
                total == self.buffer@.len(),
                i <= n,
                n <= 8,
                value == be_value(rest.subrange(0, i as int)),
            decreases n - i,
        {
            proof {
                lemma_be_value_bound(rest.subrange(0, i as int));
                lemma_pow256_mono(i as nat, 7);
                lemma_pow256_values();
                assert(value * 256 + 255 < 0x1_0000_0000_0000_0000) by (nonlinear_arith)
                    requires
                        value < 0x100_0000_0000_0000,
                ;
            }
            let b = self.buffer[start + i];
            value = value * 256 + b as u64;
            assert(rest.subrange(0, i + 1).drop_last() =~= rest.subrange(0, i as int));
            i += 1;
        }
        self.pos = start + n;
        assert(self@ =~= rest.subrange(n as int, rest.len() as int));
        value
    }

    /// Reads a byte.
    pub fn deserialize_u8(&mut self) -> (r: Result<u8, Error>)
        requires
            old(self).wf(),
        ensures
            final(self).wf(),
            final(self).source() == old(self).source(),
            r is Ok <==> 1 <= old(self)@.len(),
            r is Ok ==> r->Ok_0 == be_value(old(self)@.subrange(0, 1)) && final(self)@
                == old(self)@.subrange(1, old(self)@.len() as int),
            r is Err ==> is_short(r->Err_0, "u8", 1, old(self)@.len()) && final(self)@ == old(
                self,
            )@,
    {
        let length = self.buffer.len() - self.pos;
        if length < 1 {
            Err(Error::BufferTooShort("u8", 1, length))
        } else {
            proof {
                lemma_pow256_values();
                lemma_be_value_bound(self@.subrange(0, 1));
            }
            Ok(self.read_be(1) as u8)
        }
    }

    /// Reads a 2-byte big-endian integer.
    pub fn deserialize_u16(&mut self) -> (r: Result<u16, Error>)
        requires
            old(self).wf(),
        ensures
            final(self).wf(),
            final(self).source() == old(self).source(),
            r is Ok <==> 2 <= old(self)@.len(),
            r is Ok ==> r->Ok_0 == be_value(old(self)@.subrange(0, 2)) && final(self)@
                == old(self)@.subrange(2, old(self)@.len() as int),
            r is Err ==> is_short(r->Err_0, "u16", 2, old(self)@.len()) && final(self)@ == old(
                self,
            )@,
    {
        let length = self.buffer.len() - self.pos;
        if length < 2 {
            Err(Error::BufferTooShort("u16", 2, length))
        } else {
            proof {
                lemma_pow256_values();
                lemma_be_value_bound(self@.subrange(0, 2));
            }
            Ok(self.read_be(2) as u16)
        }
    }

    /// Reads a 4-byte big-endian integer.
    pub fn deserialize_u32(&mut self) -> (r: Result<u32, Error>)
        requires
            old(self).wf(),
        ensures
            final(self).wf(),
            final(self).source() == old(self).source(),
            r is Ok <==> 4 <= old(self)@.len(),
            r is Ok ==> r->Ok_0 == be_value(old(self)@.subrange(0, 4)) && final(self)@
                == old(self)@.subrange(4, old(self)@.len() as int),
            r is Err ==> is_short(r->Err_0, "u32", 4, old(self)@.len()) && final(self)@ == old(
                self,
            )@,
    {
        let length = self.buffer.len() - self.pos;
        if length < 4 {
            Err(Error::BufferTooShort("u32", 4, length))
        } else {
            proof {
                lemma_pow256_values();
                lemma_be_value_bound(self@.subrange(0, 4));
            }
            Ok(self.read_be(4) as u32)
        }
    }

    /// Reads an 8-byte big-endian integer.
    pub fn deserialize_u64(&mut self) -> (r: Result<u64, Error>)
        requires
            old(self).wf(),
        ensures
            final(self).wf(),
            final(self).source() == old(self).source(),
            r is Ok <==> 8 <= old(self)@.len(),
            r is Ok ==> r->Ok_0 == be_value(old(self)@.subrange(0, 8)) && final(self)@
                == old(self)@.subrange(8, old(self)@.len() as int),
            r is Err ==> is_short(r->Err_0, "u64", 8, old(self)@.len()) && final(self)@ == old(
                self,
            )@,
    {
        let length = self.buffer.len() - self.pos;
        if length < 8 {
            Err(Error::BufferTooShort("u64", 8, length))
        } else {
            Ok(self.read_be(8))
        }
    }

    /// Reads a variable-length unsigned integer. Where the buffer ends too soon the
    /// error names `VarUint` and gives the counts of the step that failed: the
    /// marker byte, or the integer after it.
    pub fn deserialize_varuint(&mut self) -> (r: Result<VarUint, Error>)
        requires
            old(self).wf(),
        ensures
            final(self).wf(),
            final(self).source() == old(self).source(),
            match parse_varuint(old(self)@) {
                Some((v, n)) => r is Ok && r->Ok_0.value == v && final(self)@ == old(
                    self,
                )@.subrange(n as int, old(self)@.len() as int),
                None => r is Err && final(self)@ == old(self)@ && if old(self)@.len() == 0 {
                    is_short(r->Err_0, "VarUint", 1, 0)
                } else {
                    is_short(
                        r->Err_0,
                        "VarUint",
                        varuint_width(old(self)@[0]),
                        (old(self)@.len() - 1) as nat,
                    )
                },
            },
    {
        let start = self.pos;
        let first_byte = match self.deserialize_u8() {
            Ok(n) => n,
            Err(Error::BufferTooShort(_, exp, len)) => {
                return Err(Error::BufferTooShort("VarUint", exp, len));
            },
            Err(e) => return Err(e),
        };
        let ghost b = old(self)@;
        let ghost mid = self@;
        assert(first_byte == b[0]) by {
            reveal_with_fuel(be_value, 2);
        }
        assert(mid =~= b.subrange(1, b.len() as int));
        proof {
            assert forall|k: int| 0 <= k && 1 + k <= b.len() implies #[trigger] mid.subrange(0, k)
                =~= b.subrange(1, 1 + k) && mid.subrange(k, mid.len() as int) =~= b.subrange(
                1 + k,
                b.len() as int,
            ) by {}
        }
        let value: u64 = if first_byte == 0xFD {
            match self.deserialize_u16() {
                Ok(n) => n as u64,
                Err(Error::BufferTooShort(_, exp, len)) => {
                    self.pos = start;
                    return Err(Error::BufferTooShort("VarUint", exp, len));
                },
                Err(e) => {
                    self.pos = start;
                    return Err(e);
                },
            }
        } else if first_byte == 0xFE {
            match self.deserialize_u32() {
                Ok(n) => n as u64,
                Err(Error::BufferTooShort(_, exp, len)) => {
                    self.pos = start;
                    return Err(Error::BufferTooShort("VarUint", exp, len));
                },
                Err(e) => {
                    self.pos = start;
                    return Err(e);
                },
            }
        } else if first_byte == 0xFF {
            match self.deserialize_u64() {
                Ok(n) => n,
                Err(Error::BufferTooShort(_, exp, len)) => {
                    self.pos = start;
                    return Err(Error::BufferTooShort("VarUint", exp, len));
                },
                Err(e) => {
                    self.pos = start;
                    return Err(e);
                },
            }
        } else {
            first_byte as u64
        };
        Ok(VarUint { value })
    }
}

/// Relies on `String::from_utf8`: it accepts exactly the valid UTF-8 byte
/// sequences, and on failure hands the bytes back (`FromUtf8Error::into_bytes`).
#[verifier::external_body]
fn string_from_utf8(bytes: Vec<u8>) -> (r: Result<String, Vec<u8>>)
    ensures
        match r {
            Ok(s) => valid_utf8(bytes@) && s@ == decode_utf8(bytes@),
            Err(b) => !valid_utf8(bytes@) && b@ == bytes@,
        },
{
    match String::from_utf8(bytes) {
        Ok(s) => Ok(s),
        Err(e) => Err(e.into_bytes()),
    }
}

impl Deserializer {
    /// Reads a string: a variable-length byte count, then that many bytes, which
    /// must be UTF-8.
    pub fn deserialize_string(&mut self) -> (r: Result<String, Error>)
        requires
            old(self).wf(),
        ensures
            final(self).wf(),
            final(self).source() == old(self).source(),
            match parse_string(old(self)@) {
                Some((s, n)) => r is Ok && r->Ok_0@ == s && final(self)@ == old(self)@.subrange(
                    n as int,
                    old(self)@.len() as int,
                ),
                None => r is Err && final(self)@ == old(self)@,
            },
            match parse_varuint(old(self)@) {
                None => r is Err && r->Err_0 is Context,
                Some((len, k)) => if old(self)@.len() < k + len {
                    is_short(r->Err_0, "String", len as usize as nat, (old(self)@.len() - k) as nat)
                } else {
                    !valid_utf8(old(self)@.subrange(k as int, k + len)) ==> r is Err
                        && r->Err_0 is InvalidString
                },
            },
    {
        let start = self.pos;
        let length = match self.deserialize_varuint() {
            Ok(n) => n.value,
            Err(e) => {
                return Err(Error::Context("string length", Box::new(e)));
            },
        };
        let ghost mid = self@;
        let ghost k = (old(self)@.len() - mid.len()) as nat;
        assert(parse_varuint(old(self)@) == Some((length, k)));
        assert(mid =~= old(self)@.subrange(k as int, old(self)@.len() as int));
        let left = self.buffer.len() - self.pos;
        if (left as u64) < length {
            self.pos = start;
            assert(self@ =~= old(self)@);
            return Err(Error::BufferTooShort("String", length as usize, left));
        }
        let bytes = match self.extract_bytes(length as usize) {
            Ok(v) => v,
            Err(e) => {
                self.pos = start;
                return Err(e);
            },
        };
        assert(bytes@ =~= old(self)@.subrange(old(self)@.len() - mid.len(), old(self)@.len() - mid.len() + length));
        assert(self@ =~= old(self)@.subrange(old(self)@.len() - mid.len() + length, old(self)@.len() as int));
        match string_from_utf8(bytes) {
            Ok(s) => Ok(s),
            Err(b) => {
                self.pos = start;
                assert(self@ =~= old(self)@);
                Err(Error::InvalidString(b))
            },
        }
    }
}

/// A type that can be read from a [`Deserializer`].
pub trait Deserialize: Sized + DeepView {
    /// The value at the front of `b`, as its deep view, with the number of bytes
    /// that it takes; `None` where no value of the type can be read from `b`.
    spec fn parse(b: Seq<u8>) -> Option<(<Self as DeepView>::V, nat)>;

    /// Reads a value; on failure the reader is left as it was.
    fn deserialize(de: &mut Deserializer) -> (r: Result<Self, Error>)
        requires
            old(de).wf(),
        ensures
            final(de).wf(),
            final(de).source() == old(de).source(),
            match Self::parse(old(de)@) {
                Some((v, n)) => r is Ok && r->Ok_0.deep_view() == v && n <= old(de)@.len()
                    && final(de)@ == old(de)@.subrange(n as int, old(de)@.len() as int),
                None => r is Err && final(de)@ == old(de)@,
            },
    ;
}

/// Reads `k` values of `T` one after the other from the front of `b`, with the
/// number of bytes they take.
pub open spec fn parse_items<T: Deserialize>(b: Seq<u8>, k: nat) -> Option<
    (Seq<<T as DeepView>::V>, nat),
>
    decreases k,
{
    if k == 0 {
        Some((seq![], 0))
    } else {
        match parse_items::<T>(b, (k - 1) as nat) {
            None => None,
            Some((vs, m)) => match T::parse(b.subrange(m as int, b.len() as int)) {
                None => None,
                Some((v, n)) => Some((vs.push(v), m + n)),
            },
        }
    }
}

/// Reads a sequence from the front of `b`: a variable-length count, then that many
/// values of `T`.
pub open spec fn parse_vec<T: Deserialize>(b: Seq<u8>) -> Option<(Seq<<T as DeepView>::V>, nat)> {
    match parse_varuint(b) {
        None => None,
        Some((count, k)) => match parse_items::<T>(b.subrange(k as int, b.len() as int), count as nat) {
            None => None,
            Some((vs, m)) => Some((vs, k + m)),
        },
    }
}

proof fn lemma_parse_items_stays_none<T: Deserialize>(b: Seq<u8>, i: nat, k: nat)
    requires
        parse_items::<T>(b, i) is None,
        i <= k,
    ensures
        parse_items::<T>(b, k) is None,
    decreases k - i,
{
    if i < k {
        lemma_parse_items_stays_none::<T>(b, i, (k - 1) as nat);
    }
}

impl Deserializer {
    /// Reads a sequence: a variable-length count, then that many values of `T`.
    pub fn deserialize_vec<T: Deserialize>(&mut self) -> (r: Result<Vec<T>, Error>)
        requires
            old(self).wf(),
        ensures
            final(self).wf(),
            final(self).source() == old(self).source(),
            match parse_vec::<T>(old(self)@) {
                Some((vs, n)) => r is Ok && r->Ok_0.deep_view() == vs && n <= old(self)@.len()
                    && final(self)@ == old(self)@.subrange(n as int, old(self)@.len() as int),
                None => r is Err && final(self)@ == old(self)@,
            },
            r is Err ==> r->Err_0 is Context,
    {
        let start = self.pos;
        let count = match self.deserialize_varuint() {
            Ok(n) => n.value,
            Err(e) => {
                return Err(Error::Context("vec length", Box::new(e)));
            },
        };
        let after = self.pos;
        let ghost body = self@;
        assert(body =~= old(self)@.subrange(after - start, old(self)@.len() as int));
        assert(parse_varuint(old(self)@) == Some((count, (after - start) as nat)));
        let mut v: Vec<T> = Vec::new();
        let mut i: u64 = 0;
        while i < count
            invariant
                self.wf(),
                self.buffer@ == old(self).buffer@,
                start <= after <= self.pos,
                old(self)@ == self.buffer@.subrange(start as int, self.buffer@.len() as int),
                body == self.buffer@.subrange(after as int, self.buffer@.len() as int),
                i <= count,
                parse_varuint(old(self)@) == Some((count, (after - start) as nat)),
                body == old(self)@.subrange(after - start, old(self)@.len() as int),
                parse_items::<T>(body, i as nat) == Some((v.deep_view(), (self.pos - after) as nat)),
            decreases count - i,
        {
            let ghost before = self@;
            let ghost dv = v.deep_view();
            assert(before =~= body.subrange(self.pos - after, body.len() as int));
            match T::deserialize(self) {
                Ok(x) => {
                    assert(self@.len() <= before.len());
                    v.push(x);
                    assert(v.deep_view() =~= dv.push(x.deep_view()));
                },
                Err(e) => {
                    self.pos = start;
                    proof {
                        assert(parse_items::<T>(body, (i + 1) as nat) is None);
                        lemma_parse_items_stays_none::<T>(body, (i + 1) as nat, count as nat);
                    }
                    assert(self@ =~= old(self)@);
                    return Err(Error::Context("vec item", Box::new(e)));
                },
            }
            i += 1;
        }
        assert(self@ =~= old(self)@.subrange((self.pos - start) as int, old(self)@.len() as int));
        Ok(v)
    }
}

impl Deserialize for u8 {
    open spec fn parse(b: Seq<u8>) -> Option<(u8, nat)> {
        match parse_uint(b, 1) {
            Some((v, n)) => Some((v as u8, n)),
            None => None,
        }
    }

    fn deserialize(de: &mut Deserializer) -> (r: Result<u8, Error>) {
        de.deserialize_u8()
    }
}

impl Deserialize for u16 {
    open spec fn parse(b: Seq<u8>) -> Option<(u16, nat)> {
        match parse_uint(b, 2) {
            Some((v, n)) => Some((v as u16, n)),
            None => None,
        }
    }

    fn deserialize(de: &mut Deserializer) -> (r: Result<u16, Error>) {
        de.deserialize_u16()
    }
}

impl Deserialize for u32 {
    open spec fn parse(b: Seq<u8>) -> Option<(u32, nat)> {
        match parse_uint(b, 4) {
            Some((v, n)) => Some((v as u32, n)),
            None => None,
        }
    }

    fn deserialize(de: &mut Deserializer) -> (r: Result<u32, Error>) {
        de.deserialize_u32()
    }
}

impl Deserialize for u64 {
    open spec fn parse(b: Seq<u8>) -> Option<(u64, nat)> {
        match parse_uint(b, 8) {
            Some((v, n)) => Some((v as u64, n)),
            None => None,
        }
    }

    fn deserialize(de: &mut Deserializer) -> (r: Result<u64, Error>) {
        de.deserialize_u64()
    }
}

impl Deserialize for VarUint {
    open spec fn parse(b: Seq<u8>) -> Option<(u64, nat)> {
        parse_varuint(b)
    }

    fn deserialize(de: &mut Deserializer) -> (r: Result<VarUint, Error>) {
        de.deserialize_varuint()
    }
}

impl Deserialize for String {
    open spec fn parse(b: Seq<u8>) -> Option<(Seq<char>, nat)> {
        parse_string(b)
    }

    fn deserialize(de: &mut Deserializer) -> (r: Result<String, Error>) {
        de.deserialize_string()
    }
}

impl<T: Deserialize> Deserialize for Vec<T> {
    open spec fn parse(b: Seq<u8>) -> Option<(Seq<<T as DeepView>::V>, nat)> {
        parse_vec::<T>(b)
    }

    fn deserialize(de: &mut Deserializer) -> (r: Result<Vec<T>, Error>) {
        de.deserialize_vec()
    }
}

impl Deserialize for Sha256Result {
    open spec fn parse(b: Seq<u8>) -> Option<(Seq<u8>, nat)> {
        if b.len() < 32 {
            None
        } else {
            Some((b.subrange(0, 32), 32))
        }
    }

    fn deserialize(de: &mut Deserializer) -> (r: Result<Sha256Result, Error>) {
        let bytes = de.extract_bytes(32)?;
        let mut hash: Sha256Result = [0u8; 32];
        let mut i: usize = 0;
        while i < 32
            invariant
                bytes@.len() == 32,
                i <= 32,
                forall|j: int| 0 <= j < i ==> hash@[j] == bytes@[j],
            decreases 32 - i,
        {
            hash.set(i, bytes[i]);
            i += 1;
        }
        assert(hash.deep_view() =~= bytes@);
        Ok(hash)
    }
}

/// The address at the front of `b`, where at least 18 bytes are there: the high and
/// the low 64 bits of the IPv6 address, then the port, each big-endian.
pub open spec fn address_of(b: Seq<u8>) -> PeerAddress {
    PeerAddress {
        ip: (be_value(b.subrange(0, 8)) * pow256(8) + be_value(b.subrange(8, 16))) as u128,
        port: be_value(b.subrange(16, 18)) as u16,
    }
}

impl Deserialize for PeerAddress {
    open spec fn parse(b: Seq<u8>) -> Option<(PeerAddress, nat)> {
        if b.len() < 18 {
            None
        } else {
            Some((address_of(b), 18))
        }
    }

    fn deserialize(de: &mut Deserializer) -> (r: Result<PeerAddress, Error>) {
        let start = de.pos;
        let ghost b = de@;
        let high = match de.deserialize_u64() {
            Ok(x) => x,
            Err(e) => {
                return Err(Error::Context("address ip high", Box::new(e)));
            },
        };
        let ghost b1 = de@;
        let low = match de.deserialize_u64() {
            Ok(x) => x,
            Err(e) => {
                de.pos = start;
                assert(de@ =~= b);
                return Err(Error::Context("address ip low", Box::new(e)));
            },
        };
        let ghost b2 = de@;
        let port = match de.deserialize_u16() {
            Ok(x) => x,
            Err(e) => {
                de.pos = start;
                assert(de@ =~= b);
                return Err(Error::Context("address port", Box::new(e)));
            },
        };
        proof {
            lemma_pow256_values();
            assert(b1 =~= b.subrange(8, b.len() as int));
            assert(b2 =~= b.subrange(16, b.len() as int));
            assert(b1.subrange(0, 8) =~= b.subrange(8, 16));
            assert(b2.subrange(0, 2) =~= b.subrange(16, 18));
            assert(de@ =~= b.subrange(18, b.len() as int));
            assert(high * 0x1_0000_0000_0000_0000 + low < 0x1_0000_0000_0000_0000_0000_0000_0000_0000)
                by (nonlinear_arith)
                requires
                    high < 0x1_0000_0000_0000_0000,
                    low < 0x1_0000_0000_0000_0000,
            ;
        }
        let ip: u128 = (high as u128) * 0x1_0000_0000_0000_0000u128 + low as u128;
        Ok(PeerAddress { ip, port })
    }
}

} // verus!
