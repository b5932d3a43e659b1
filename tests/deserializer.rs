use ensicoin_serializer::Deserialize;
use ensicoin_serializer::Deserializer;

#[test]
fn deserialize_vec() {
    let mut de = Deserializer::new(vec![2, 2, 42, 43, 1, 44]);
    let decoded: Vec<Vec<u8>> = Vec::deserialize(&mut de).unwrap();
    assert_eq!(vec![vec![42 as u8, 43 as u8], vec![44]], decoded);
}

#[test]
fn deserialize_string() {
    let mut de = Deserializer::new(vec![3, 97, 98, 99]);
    let decoded = String::deserialize(&mut de).unwrap();
    assert_eq!(String::from("abc"), decoded);
}

#[test]
fn deserialize_varuint() {
    let mut de = Deserializer::new(vec![0xFD as u8, 42, 43]);
    let decoded = de.deserialize_varuint().unwrap();
    assert_eq!(10795, decoded.value);
}

#[test]
fn deserialize_u64() {
    let mut de = Deserializer::new(vec![42, 43, 44, 45, 46, 47, 48, 49]);
    let decoded = de.deserialize_u64().unwrap();
    assert_eq!(3038570946151526449, decoded);
}

#[test]
fn deserialize_u32() {
    let mut de = Deserializer::new(vec![42, 43, 44, 45]);
    let decoded = de.deserialize_u32().unwrap();
    assert_eq!(707472429, decoded);
}

#[test]
fn deserialize_u8() {
    let mut de = Deserializer::new(vec![125]);
    let decoded = de.deserialize_u8().unwrap();
    assert_eq!(125, decoded);
}

#[test]
fn deserialize_u16() {
    let mut de = Deserializer::new(vec![10, 15]);
    let decoded = de.deserialize_u16().unwrap();
    assert_eq!(2575, decoded);
}
