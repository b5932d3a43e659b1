//! Mathematical description of the wire format: big-endian integers and the
//! variable-length unsigned integer.
use vstd::prelude::*;
use vstd::utf8::decode_utf8;
use vstd::utf8::valid_utf8;

verus! {

/// `256` raised to the power `n`.
pub open spec fn pow256(n: nat) -> nat
    decreases n,
{
    if n == 0 {
        1
    } else {
        256 * pow256((n - 1) as nat)
    }
}

/// The number that the bytes `b` denote, most significant byte first.
pub open spec fn be_value(b: Seq<u8>) -> nat
    decreases b.len(),
{
    if b.len() == 0 {
        0
    } else {
        be_value(b.drop_last()) * 256 + b.last() as nat
    }
}

/// The `n` lowest bytes of `v`, most significant byte first.
pub open spec fn be_bytes(v: nat, n: nat) -> Seq<u8>
    decreases n,
{
    if n == 0 {
        seq![]
    } else {
        be_bytes(v / 256, (n - 1) as nat).push((v % 256) as u8)
    }
}

/// The wire form of a variable-length unsigned integer.
pub open spec fn varuint_bytes(v: u64) -> Seq<u8> {
    if v <= 252 {
        seq![v as u8]
    } else if v <= 0xFFFF {
        seq![0xFDu8] + be_bytes(v as nat, 2)
    } else if v <= 0xFFFF_FFFF {
        seq![0xFEu8] + be_bytes(v as nat, 4)
    } else {
        seq![0xFFu8] + be_bytes(v as nat, 8)
    }
}

/// Reads an `n`-byte big-endian integer from the front of `b`, with the number of
/// bytes it takes; `None` where `b` is shorter than `n`.
pub open spec fn parse_uint(b: Seq<u8>, n: nat) -> Option<(nat, nat)> {
    if b.len() < n {
        None
    } else {
        Some((be_value(b.subrange(0, n as int)), n))
    }
}

/// The integer of `n` bytes that follows the marker byte at the front of `b`.
pub open spec fn parse_marked(b: Seq<u8>, n: nat) -> Option<(u64, nat)> {
    if b.len() < 1 + n {
        None
    } else {
        Some((be_value(b.subrange(1, 1 + n as int)) as u64, 1 + n))
    }
}

/// Reads a variable-length unsigned integer from the front of `b`, with the number
/// of bytes it takes; `None` where `b` ends before it does.
pub open spec fn parse_varuint(b: Seq<u8>) -> Option<(u64, nat)> {
    if b.len() == 0 {
        None
    } else if b[0] == 0xFD {
        parse_marked(b, 2)
    } else if b[0] == 0xFE {
        parse_marked(b, 4)
    } else if b[0] == 0xFF {
        parse_marked(b, 8)
    } else {
        Some((b[0] as u64, 1))
    }
}

/// The number of bytes that the first stage of a variable-length integer needs,
/// given the first byte.
pub open spec fn varuint_width(first: u8) -> nat {
    if first == 0xFD {
        2
    } else if first == 0xFE {
        4
    } else if first == 0xFF {
        8
    } else {
        0
    }
}

/// The powers of 256 that the fixed widths use.
pub proof fn lemma_pow256_values()
    ensures
        pow256(0) == 1,
        pow256(1) == 0x100,
        pow256(2) == 0x1_0000,
        pow256(4) == 0x1_0000_0000,
        pow256(7) == 0x100_0000_0000_0000,
        pow256(8) == 0x1_0000_0000_0000_0000,
{
    reveal_with_fuel(pow256, 9);
}

/// Powers of 256 grow with the exponent.
pub proof fn lemma_pow256_mono(i: nat, j: nat)
    requires
        i <= j,
    ensures
        pow256(i) <= pow256(j),
    decreases j,
{
    if i < j {
        lemma_pow256_mono(i, (j - 1) as nat);
    }
}

/// `n` bytes hold a number below `256` to the power `n`.
pub proof fn lemma_be_value_bound(b: Seq<u8>)
    ensures
        be_value(b) < pow256(b.len()),
    decreases b.len(),
{
    if b.len() > 0 {
        let p = pow256((b.len() - 1) as nat);
        let x = be_value(b.drop_last());
        lemma_be_value_bound(b.drop_last());
        assert(x * 256 + 255 < p * 256) by (nonlinear_arith)
            requires
                x < p,
        ;
    }
}

/// Writing `n` bytes gives `n` bytes.
pub proof fn lemma_be_bytes_len(v: nat, n: nat)
    ensures
        be_bytes(v, n).len() == n,
    decreases n,
{
    if n > 0 {
        lemma_be_bytes_len(v / 256, (n - 1) as nat);
    }
}

/// Reading back `n` bytes written from `v` gives `v`, where `v` fits in them.
pub proof fn lemma_be_round_trip(v: nat, n: nat)
    requires
        v < pow256(n),
    ensures
        be_value(be_bytes(v, n)) == v,
        be_bytes(v, n).len() == n,
    decreases n,
{
    lemma_be_bytes_len(v, n);
    if n > 0 {
        let p = pow256((n - 1) as nat);
        assert(v / 256 < p) by (nonlinear_arith)
            requires
                v < 256 * p,
        ;
        lemma_be_round_trip(v / 256, (n - 1) as nat);
        assert(be_bytes(v, n).drop_last() == be_bytes(v / 256, (n - 1) as nat));
    }
}

/// A variable-length integer written in front of `rest` reads back as itself.
pub proof fn lemma_varuint_round_trip(v: u64, rest: Seq<u8>)
    ensures
        parse_varuint(varuint_bytes(v) + rest) == Some((v, varuint_bytes(v).len())),
{
    lemma_pow256_values();
    let b = varuint_bytes(v) + rest;
    if v <= 252 {
    } else {
        let n: nat = if v <= 0xFFFF {
            2
        } else if v <= 0xFFFF_FFFF {
            4
        } else {
            8
        };
        lemma_be_round_trip(v as nat, n);
        assert(b.subrange(1, 1 + n as int) =~= be_bytes(v as nat, n));
    }
}

} // verus!

verus! {

/// Reads a string from the front of `b`: a variable-length byte count, then that
/// many bytes of UTF-8. Gives the characters and the number of bytes taken; `None`
/// where `b` ends too soon or the bytes are not UTF-8.
pub open spec fn parse_string(b: Seq<u8>) -> Option<(Seq<char>, nat)> {
    match parse_varuint(b) {
        None => None,
        Some((len, k)) => if b.len() < k + len {
            None
        } else {
            let body = b.subrange(k as int, k + len);
            if valid_utf8(body) {
                Some((decode_utf8(body), k + len as nat))
            } else {
                None
            }
        },
    }
}

} // verus!
