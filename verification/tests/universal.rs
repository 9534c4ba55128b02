use asn1::der::{DecodeError, Deserializer, Serializer};
use asn1::info::tag::Class;
use asn1::Tag;
use asn1::{from_asn1, to_asn1, Asn1Deserialize, Asn1Serialize, BitString, ObjectIdentifier, OctetString};
use quickcheck::quickcheck;

fn ser_deser<T: Asn1Serialize + Asn1Deserialize>(v: &T) -> T {
    let buf = to_asn1(v).unwrap();
    from_asn1(&buf[..]).unwrap()
}

fn roundtrips<T: Asn1Serialize + Asn1Deserialize + PartialEq>(v: T) -> bool {
    v == ser_deser(&v)
}

#[test]
fn integers_roundtrip() {
    quickcheck(roundtrips::<i8> as fn(i8) -> bool);
    quickcheck(roundtrips::<i16> as fn(i16) -> bool);
    quickcheck(roundtrips::<i32> as fn(i32) -> bool);
    quickcheck(roundtrips::<i64> as fn(i64) -> bool);
    quickcheck(roundtrips::<isize> as fn(isize) -> bool);
    quickcheck(roundtrips::<u8> as fn(u8) -> bool);
    quickcheck(roundtrips::<u16> as fn(u16) -> bool);
    quickcheck(roundtrips::<u32> as fn(u32) -> bool);
    quickcheck(roundtrips::<u64> as fn(u64) -> bool);
    quickcheck(roundtrips::<usize> as fn(usize) -> bool);
    for v in [i64::MIN, i64::MAX, -1, 0, 127, 128, -128, -129] {
        assert!(roundtrips(v));
    }
    for v in [u64::MAX, 0, 255, 256] {
        assert!(roundtrips(v));
    }
}

#[test]
fn booleans_and_null_roundtrip() {
    assert!(roundtrips(true));
    assert!(roundtrips(false));
    assert!(roundtrips(()));
    assert_eq!(to_asn1(&()).unwrap(), vec![0x05, 0x00]);
}

fn octet_string_prop(v: Vec<u8>) -> bool {
    roundtrips(OctetString::new(v))
}

#[test]
fn octet_string() {
    quickcheck(octet_string_prop as fn(Vec<u8>) -> bool);
}

fn oid_first_arcs_prop(a: u8, b: u8, buf: Vec<u64>) -> bool {
    let mut oid: Vec<u64> = vec![(a % 3) as u64, (b % 40) as u64];
    oid.extend(buf);
    roundtrips(ObjectIdentifier::new(oid))
}

#[test]
fn object_identifier_any_first_arcs() {
    quickcheck(oid_first_arcs_prop as fn(u8, u8, Vec<u64>) -> bool);
}

fn oid_prop(buf: Vec<u64>) -> bool {
    let mut oid: Vec<u64> = vec![1, 3];
    oid.extend(buf);
    roundtrips(ObjectIdentifier::new(oid))
}

#[test]
fn object_identifier() {
    quickcheck(oid_prop as fn(Vec<u64>) -> bool);
    let v = ObjectIdentifier::new(vec![1, 2, 840, 113549, 1, 1, 11]);
    assert_eq!(
        to_asn1(&v).unwrap(),
        vec![0x06, 0x09, 0x2a, 0x86, 0x48, 0x86, 0xf7, 0x0d, 0x01, 0x01, 0x0b]
    );
}

#[test]
fn object_identifier_first_arcs_fold() {
    // 0.40 is written as the first octet 40, which reads back as 1.0
    let v = ObjectIdentifier::new(vec![0, 40]);
    let back = ser_deser(&v);
    assert_eq!(back.as_slice(), &[1, 0]);
}

fn seq_of_prop(v: Vec<i64>) -> bool {
    roundtrips(v)
}

fn seq_of_strings_prop(v: Vec<Vec<u8>>) -> bool {
    let v: Vec<OctetString> = v.into_iter().map(OctetString::new).collect();
    roundtrips(v)
}

#[test]
fn sequence_of() {
    quickcheck(seq_of_prop as fn(Vec<i64>) -> bool);
    quickcheck(seq_of_strings_prop as fn(Vec<Vec<u8>>) -> bool);
    let v: Vec<i32> = vec![1, -1];
    assert_eq!(to_asn1(&v).unwrap(), vec![0x30, 0x06, 0x02, 0x01, 0x01, 0x02, 0x01, 0xff]);
    let empty: Vec<bool> = Vec::new();
    assert_eq!(to_asn1(&empty).unwrap(), vec![0x30, 0x00]);
    assert!(roundtrips(empty));
}

fn bit_string_prop(data: Vec<u8>, unused: u8) -> bool {
    let unused = if data.is_empty() { 0 } else { unused % 8 };
    let mut buf = vec![0x03u8];
    let len = data.len() + 1;
    assert!(len < 128 || data.len() > 0);
    if len < 128 {
        buf.push(len as u8);
    } else {
        buf.push(0x82);
        buf.push((len >> 8) as u8);
        buf.push(len as u8);
    }
    buf.push(unused);
    buf.extend_from_slice(&data);
    let v: BitString = from_asn1(&buf[..]).unwrap();
    to_asn1(&v).unwrap() == buf && roundtrips(v)
}

#[test]
fn bit_string() {
    quickcheck(bit_string_prop as fn(Vec<u8>, u8) -> bool);
}

#[test]
fn bit_string_unused_bits_checked() {
    let r: Result<BitString, DecodeError> = from_asn1(&[0x03u8, 0x02, 0x08, 0xff][..]);
    assert!(r.is_err());
    let r: Result<BitString, DecodeError> = from_asn1(&[0x03u8, 0x01, 0x03][..]);
    assert!(r.is_err());
}

#[test]
fn boolean_content_is_checked() {
    // any non-zero content octet reads as true
    assert_eq!(from_asn1::<bool>(&[0x01u8, 0x01, 0x01][..]).unwrap(), true);
    assert_eq!(from_asn1::<bool>(&[0x01u8, 0x01, 0x00][..]).unwrap(), false);
    let r: Result<bool, DecodeError> = from_asn1(&[0x01u8, 0x02, 0xff, 0xff][..]);
    assert!(r.is_err());
    assert_eq!(from_asn1::<bool>(&[0x01u8, 0x01, 0xff][..]).unwrap(), true);
}

#[test]
fn integer_too_long_for_type() {
    let r: Result<i8, DecodeError> = from_asn1(&[0x02u8, 0x02, 0x01, 0x00][..]);
    assert!(r.is_err());
    assert_eq!(from_asn1::<u8>(&[0x02u8, 0x02, 0x00, 0xff][..]).unwrap(), 255);
    let r: Result<u8, DecodeError> = from_asn1(&[0x02u8, 0x02, 0x01, 0xff][..]);
    assert!(r.is_err());
}

#[test]
fn truncated_input_is_eof() {
    let r: Result<i64, DecodeError> = from_asn1(&[0x02u8, 0x04, 0x01][..]);
    match r {
        Err(DecodeError::IO(e)) => assert_eq!(e.kind(), std::io::ErrorKind::UnexpectedEof),
        other => panic!("expected end of input, got {:?}", other),
    }
}

#[test]
fn implicit_tag_reads_back() {
    let tag = Tag::primitive(Class::ContextSpecific, 3);
    let mut w = Serializer::new(Vec::new()).with_tag(tag);
    5i32.asn1_serialize(&mut w).unwrap();
    let out = w.into_inner();
    assert_eq!(out, vec![0x83, 0x01, 0x05]);
    let mut d = Deserializer::new(&out[..]).with_tag(tag);
    assert_eq!(i32::asn1_deserialize(&mut d).unwrap(), 5);
}

#[test]
fn decode_error_kinds() {
    // a u8 of two content bytes must start with a zero byte
    let r: Result<u8, DecodeError> = from_asn1(&[0x02u8, 0x02, 0x01, 0xff][..]);
    assert!(matches!(r, Err(DecodeError::InvalidValue(_))));
    // a BOOLEAN has exactly one content byte
    let r: Result<bool, DecodeError> = from_asn1(&[0x01u8, 0x02, 0xff, 0xff][..]);
    assert!(matches!(r, Err(DecodeError::InvalidLength(_))));
    // the indefinite length is refused
    let r: Result<Vec<i32>, DecodeError> = from_asn1(&[0x30u8, 0x80, 0x00, 0x00][..]);
    assert!(matches!(r, Err(DecodeError::InvalidLength(_))));
    // NULL has no content
    let r: Result<(), DecodeError> = from_asn1(&[0x05u8, 0x01, 0x00][..]);
    assert!(matches!(r, Err(DecodeError::InvalidLength(_))));
    let r: Result<(), DecodeError> = from_asn1(&[][..]);
    assert!(matches!(r, Err(DecodeError::IO(_))));
}

#[test]
fn encode_error_on_bad_unused_bits() {
    // a refused count leaves what was written
    let mut w = Serializer::new(vec![0xaa]);
    let r = w.serialize_bit_string((8, &[0xff][..]));
    assert!(matches!(r, Err(asn1::der::EncodeError::InvalidValue)));
    assert_eq!(w.as_slice(), &[0xaa]);
    w.serialize_bit_string((7, &[0x80][..])).unwrap();
    assert_eq!(w.into_inner(), vec![0xaa, 0x03, 0x02, 0x07, 0x80]);
}

#[test]
fn serializer_state() {
    let mut s = Serializer::new(vec![1, 2]);
    assert_eq!(s.len(), 2);
    assert!(!s.is_empty());
    assert_eq!(s.as_slice(), &[1, 2]);
    s.clear();
    assert!(s.is_empty());
    assert_eq!(s.into_inner(), Vec::<u8>::new());
}

#[test]
fn sequence_of_each_type() {
    quickcheck(roundtrips::<Vec<bool>> as fn(Vec<bool>) -> bool);
    quickcheck(roundtrips::<Vec<i8>> as fn(Vec<i8>) -> bool);
    quickcheck(roundtrips::<Vec<i16>> as fn(Vec<i16>) -> bool);
    quickcheck(roundtrips::<Vec<i32>> as fn(Vec<i32>) -> bool);
    quickcheck(roundtrips::<Vec<u8>> as fn(Vec<u8>) -> bool);
    quickcheck(roundtrips::<Vec<u16>> as fn(Vec<u16>) -> bool);
    quickcheck(roundtrips::<Vec<u32>> as fn(Vec<u32>) -> bool);
    quickcheck(roundtrips::<Vec<u64>> as fn(Vec<u64>) -> bool);
    quickcheck(roundtrips::<Vec<Vec<i64>>> as fn(Vec<Vec<i64>>) -> bool);
    let oids: Vec<ObjectIdentifier> = vec![
        ObjectIdentifier::new(vec![1, 3, 6, 1]),
        ObjectIdentifier::new(vec![2, 5, 4, 3]),
    ];
    assert!(roundtrips(oids));
}
