use ensicoin_serializer::serializer::write_varuint;
use ensicoin_serializer::Deserialize;
use ensicoin_serializer::Deserializer;
use ensicoin_serializer::Error;
use ensicoin_serializer::PeerAddress;
use ensicoin_serializer::Serialize;
use ensicoin_serializer::Sha256Result;
use ensicoin_serializer::VarUint;

fn short(e: &Error) -> (&'static str, usize, usize) {
    match e {
        Error::BufferTooShort(t, x, a) => (*t, *x, *a),
        _ => panic!("expected a short-buffer error, got {:?}", e),
    }
}

#[test]
fn varuint_boundaries() {
    let cases: Vec<(u64, usize)> = vec![
        (0, 1),
        (252, 1),
        (253, 3),
        (65535, 3),
        (65536, 5),
        (4294967295, 5),
        (4294967296, 9),
    ];
    for (value, len) in cases {
        let bytes = VarUint { value }.serialize();
        assert_eq!(len, bytes.len());
        let mut de = Deserializer::new(bytes);
        assert_eq!(value, de.deserialize_varuint().unwrap().value);
        assert_eq!(0, de.remaining());
    }
}

#[test]
fn varuint_exact_bytes() {
    assert_eq!(vec![0xFC], VarUint { value: 252 }.serialize());
    assert_eq!(vec![0xFD, 0x00, 0xFD], VarUint { value: 253 }.serialize());
    assert_eq!(vec![0xFE, 0x00, 0x01, 0x00, 0x00], VarUint { value: 65536 }.serialize());
    assert_eq!(
        vec![0xFF, 0, 0, 0, 1, 0, 0, 0, 0],
        VarUint { value: 4294967296 }.serialize()
    );
    let mut out = vec![7];
    write_varuint(&mut out, 0xFFFF);
    assert_eq!(vec![7, 0xFD, 0xFF, 0xFF], out);
}

#[test]
fn fixed_width_big_endian() {
    assert_eq!(vec![0x0A, 0x0F], 2575u16.serialize());
    assert_eq!(vec![42, 43, 44, 45], 707472429u32.serialize());
    assert_eq!(vec![42, 43, 44, 45, 46, 47, 48, 49], 3038570946151526449u64.serialize());
    assert_eq!(vec![125], 125u8.serialize());
}

#[test]
fn round_trip_integers() {
    for v in [0u64, 1, 255, 256, 65535, 1 << 40, u64::MAX] {
        let mut de = Deserializer::new(v.serialize());
        assert_eq!(v, u64::deserialize(&mut de).unwrap());
        let mut de = Deserializer::new(VarUint { value: v }.serialize());
        assert_eq!(v, VarUint::deserialize(&mut de).unwrap().value);
    }
    for v in [0u32, 9, 70000, u32::MAX] {
        let mut de = Deserializer::new(v.serialize());
        assert_eq!(v, u32::deserialize(&mut de).unwrap());
    }
    for v in [0u16, 300, u16::MAX] {
        let mut de = Deserializer::new(v.serialize());
        assert_eq!(v, u16::deserialize(&mut de).unwrap());
    }
}

#[test]
fn round_trip_string() {
    for s in ["", "abc", "héllo wörld ✓", "\u{1F600}"] {
        let text = String::from(s);
        let bytes = text.serialize();
        assert_eq!(s.len() + 1, bytes.len());
        let mut de = Deserializer::new(bytes);
        assert_eq!(text, String::deserialize(&mut de).unwrap());
    }
}

#[test]
fn round_trip_sequence() {
    let words: Vec<String> = vec![String::from("a"), String::new(), String::from("xyz")];
    let bytes = words.serialize();
    assert_eq!(vec![3, 1, 97, 0, 3, 120, 121, 122], bytes);
    let mut de = Deserializer::new(bytes);
    let back: Vec<String> = Vec::deserialize(&mut de).unwrap();
    assert_eq!(words, back);

    let nested: Vec<Vec<u16>> = vec![vec![1, 2], vec![], vec![65535]];
    let mut de = Deserializer::new(nested.serialize());
    let back: Vec<Vec<u16>> = de.deserialize_vec().unwrap();
    assert_eq!(nested, back);
}

#[test]
fn round_trip_hash_and_address() {
    let mut hash: Sha256Result = [0u8; 32];
    for i in 0..32 {
        hash[i] = (i * 7) as u8;
    }
    let bytes = hash.serialize();
    assert_eq!(hash.to_vec(), bytes);
    let mut de = Deserializer::new(bytes);
    assert_eq!(hash, Sha256Result::deserialize(&mut de).unwrap());

    let addr = PeerAddress { ip: 0xFFFF_7F00_0001 | (0x2001u128 << 112), port: 4224 };
    let bytes = addr.serialize();
    assert_eq!(18, bytes.len());
    assert_eq!(vec![0x20, 0x01, 0, 0, 0, 0, 0, 0], bytes[0..8].to_vec());
    assert_eq!(vec![0, 0, 0xFF, 0xFF, 0x7F, 0, 0, 1], bytes[8..16].to_vec());
    assert_eq!(vec![0x10, 0x80], bytes[16..18].to_vec());
    let mut de = Deserializer::new(bytes);
    assert_eq!(addr, PeerAddress::deserialize(&mut de).unwrap());
}

#[test]
fn short_buffer_fixed_width() {
    let mut de = Deserializer::new(vec![]);
    assert_eq!(("u8", 1, 0), short(&de.deserialize_u8().unwrap_err()));
    let mut de = Deserializer::new(vec![1]);
    assert_eq!(("u16", 2, 1), short(&de.deserialize_u16().unwrap_err()));
    assert_eq!(1, de.remaining());
    let mut de = Deserializer::new(vec![1, 2, 3]);
    assert_eq!(("u32", 4, 3), short(&de.deserialize_u32().unwrap_err()));
    let mut de = Deserializer::new(vec![1, 2, 3, 4, 5, 6, 7]);
    assert_eq!(("u64", 8, 7), short(&de.deserialize_u64().unwrap_err()));
    assert_eq!(7, de.remaining());
    assert_eq!(0x01020304, de.deserialize_u32().unwrap());
}

#[test]
fn short_buffer_varuint() {
    let mut de = Deserializer::new(vec![]);
    assert_eq!(("VarUint", 1, 0), short(&de.deserialize_varuint().unwrap_err()));
    let mut de = Deserializer::new(vec![0xFD, 1]);
    assert_eq!(("VarUint", 2, 1), short(&de.deserialize_varuint().unwrap_err()));
    assert_eq!(2, de.remaining());
    let mut de = Deserializer::new(vec![0xFE, 1, 2]);
    assert_eq!(("VarUint", 4, 2), short(&de.deserialize_varuint().unwrap_err()));
    let mut de = Deserializer::new(vec![0xFF]);
    assert_eq!(("VarUint", 8, 0), short(&de.deserialize_varuint().unwrap_err()));
}

#[test]
fn extract_bytes_takes_from_front() {
    let mut de = Deserializer::new(vec![1, 2, 3, 4]);
    assert_eq!(vec![1, 2], de.extract_bytes(2).unwrap());
    assert_eq!(("bytes", 3, 2), short(&de.extract_bytes(3).unwrap_err()));
    assert_eq!(vec![3, 4], de.extract_bytes(2).unwrap());
    assert_eq!(Vec::<u8>::new(), de.extract_bytes(0).unwrap());
}

#[test]
fn string_errors() {
    let mut de = Deserializer::new(vec![2, 0xC3, 0x28]);
    match de.deserialize_string().unwrap_err() {
        Error::InvalidString(bytes) => assert_eq!(vec![0xC3, 0x28], bytes),
        e => panic!("expected an invalid string, got {:?}", e),
    }
    assert_eq!(3, de.remaining());

    let mut de = Deserializer::new(vec![5, 97, 98]);
    assert_eq!(("String", 5, 2), short(&de.deserialize_string().unwrap_err()));

    let mut de = Deserializer::new(vec![0xFD, 1]);
    match de.deserialize_string().unwrap_err() {
        Error::Context(_, inner) => assert_eq!(("VarUint", 2, 1), short(&inner)),
        e => panic!("expected a wrapped error, got {:?}", e),
    }
}

#[test]
fn sequence_errors_are_wrapped() {
    let mut de = Deserializer::new(vec![2, 0, 1, 0]);
    match Vec::<u16>::deserialize(&mut de).unwrap_err() {
        Error::Context(_, inner) => assert_eq!(("u16", 2, 1), short(&inner)),
        e => panic!("expected a wrapped error, got {:?}", e),
    }
    assert_eq!(4, de.remaining());

    let mut de = Deserializer::new(vec![]);
    match Vec::<u8>::deserialize(&mut de).unwrap_err() {
        Error::Context(_, inner) => assert_eq!(("VarUint", 1, 0), short(&inner)),
        e => panic!("expected a wrapped error, got {:?}", e),
    }

    let mut de = Deserializer::new(vec![0; 17]);
    match PeerAddress::deserialize(&mut de).unwrap_err() {
        Error::Context(_, inner) => assert_eq!(("u16", 2, 1), short(&inner)),
        e => panic!("expected a wrapped error, got {:?}", e),
    }
    assert_eq!(17, de.remaining());
}

#[test]
fn reads_in_written_order() {
    let mut bytes = 7u8.serialize();
    bytes.append(&mut String::from("hi").serialize());
    bytes.append(&mut VarUint { value: 300 }.serialize());
    bytes.append(&mut 9u32.serialize());
    let mut de = Deserializer::new(bytes);
    assert_eq!(7, u8::deserialize(&mut de).unwrap());
    assert_eq!("hi", String::deserialize(&mut de).unwrap());
    assert_eq!(300, VarUint::deserialize(&mut de).unwrap().value);
    assert_eq!(9, u32::deserialize(&mut de).unwrap());
    assert_eq!(0, de.remaining());
}

#[test]
fn hash_hex_without_padding() {
    let mut hash: Sha256Result = [0u8; 32];
    hash[0] = 0x0a;
    hash[1] = 0xff;
    hash[2] = 0x10;
    let mut expected = String::from("aff10");
    for _ in 3..32 {
        expected.push('0');
    }
    assert_eq!(expected, ensicoin_serializer::hash_to_string(&hash));
}
