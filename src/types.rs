//! Values with a wire form of their own.
use vstd::prelude::*;
use vstd::string::StringExecFns;

verus! {

/// An unsigned 64-bit integer that goes on the wire in the variable-length form:
/// one byte below `0xFD`, else a marker byte and a 2, 4 or 8 byte big-endian value.
#[derive(PartialEq, Eq, Structural, Hash, Debug, Clone, Copy)]
pub struct VarUint {
    pub value: u64,
}

impl DeepView for VarUint {
    type V = u64;

    open spec fn deep_view(&self) -> u64 {
        self.value
    }
}

/// A 32-byte digest, carried as its raw bytes.
pub type Sha256Result = [u8; 32];

/// An IPv6 address, or an IPv4 address in its IPv6-mapped form, with a port.
#[derive(PartialEq, Eq, Structural, Hash, Debug, Clone, Copy)]
pub struct PeerAddress {
    pub ip: u128,
    pub port: u16,
}

impl DeepView for PeerAddress {
    type V = PeerAddress;

    open spec fn deep_view(&self) -> PeerAddress {
        *self
    }
}

/// The lower-case hexadecimal digit of `d`, below 16.
pub open spec fn hex_digit(d: nat) -> char {
    seq!['0', '1', '2', '3', '4', '5', '6', '7', '8', '9', 'a', 'b', 'c', 'd', 'e', 'f'][d as int]
}

/// A byte in lower-case hexadecimal, without a leading zero.
pub open spec fn byte_hex(b: u8) -> Seq<char> {
    if b < 16 {
        seq![hex_digit(b as nat)]
    } else {
        seq![hex_digit(b as nat / 16), hex_digit(b as nat % 16)]
    }
}

/// The bytes `s` in lower-case hexadecimal, each without a leading zero.
pub open spec fn bytes_hex(s: Seq<u8>) -> Seq<char>
    decreases s.len(),
{
    if s.len() == 0 {
        seq![]
    } else {
        bytes_hex(s.drop_last()) + byte_hex(s.last())
    }
}

fn hex_digit_str(d: u8) -> (r: &'static str)
    requires
        d < 16,
    ensures
        r@ == seq![hex_digit(d as nat)],
{
    if d == 0 {
        proof {
            reveal_strlit("0");
        }
        "0"
    } else if d == 1 {
        proof {
            reveal_strlit("1");
        }
        "1"
    } else if d == 2 {
        proof {
            reveal_strlit("2");
        }
        "2"
    } else if d == 3 {
        proof {
            reveal_strlit("3");
        }
        "3"
    } else if d == 4 {
        proof {
            reveal_strlit("4");
        }
        "4"
    } else if d == 5 {
        proof {
            reveal_strlit("5");
        }
        "5"
    } else if d == 6 {
        proof {
            reveal_strlit("6");
        }
        "6"
    } else if d == 7 {
        proof {
            reveal_strlit("7");
        }
        "7"
    } else if d == 8 {
        proof {
            reveal_strlit("8");
        }
        "8"
    } else if d == 9 {
        proof {
            reveal_strlit("9");
        }
        "9"
    } else if d == 10 {
        proof {
            reveal_strlit("a");
        }
        "a"
    } else if d == 11 {
        proof {
            reveal_strlit("b");
        }
        "b"
    } else if d == 12 {
        proof {
            reveal_strlit("c");
        }
        "c"
    } else if d == 13 {
        proof {
            reveal_strlit("d");
        }
        "d"
    } else if d == 14 {
        proof {
            reveal_strlit("e");
        }
        "e"
    } else {
        proof {
            reveal_strlit("f");
        }
        "f"
    }
}

/// Writes a digest in lower-case hexadecimal, each byte without a leading zero.
pub fn hash_to_string(hash: &Sha256Result) -> (r: String)
    ensures
        r@ == bytes_hex(hash@),
{
    let mut out = String::new();
    let mut i: usize = 0;
    while i < 32
        invariant
            i <= 32,
            out@ == bytes_hex(hash@.subrange(0, i as int)),
        decreases 32 - i,
    {
        let b = hash[i];
        if b >= 16 {
            out.append(hex_digit_str(b / 16));
        }
        out.append(hex_digit_str(b % 16));
        assert(hash@.subrange(0, i + 1).drop_last() =~= hash@.subrange(0, i as int));
        assert(out@ =~= bytes_hex(hash@.subrange(0, i + 1)));
        i += 1;
    }
    assert(hash@.subrange(0, 32) =~= hash@);
    out
}

} // verus!
