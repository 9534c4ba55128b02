use std::str::FromStr;

use asn1::universal::object_identifier::parse_u64;
use asn1::{from_asn1, Asn1DisplayExt, BitString, ObjectIdentifier, OctetString, ParseObjectIdError};

#[test]
fn oid_from_str() {
    let oid = ObjectIdentifier::from_str("1.2.840.113549").unwrap();
    assert_eq!(oid.as_slice(), &[1, 2, 840, 113549]);
    let oid: ObjectIdentifier = "+1.02.18446744073709551615".parse().unwrap();
    assert_eq!(oid.as_slice(), &[1, 2, u64::MAX]);
    let single: ObjectIdentifier = "7".parse().unwrap();
    assert_eq!(single.as_slice(), &[7]);
}

#[test]
fn oid_from_str_refused() {
    for s in ["", ".", "1.", ".1", "1..2", "1.-2", "1.+", "1.2a", "1.18446744073709551616", "1. 2", "١.٢"] {
        let r: Result<ObjectIdentifier, ParseObjectIdError> = s.parse();
        assert!(r.is_err(), "{:?} should not parse", s);
    }
    let e = ParseObjectIdError::new();
    assert_eq!(
        e.description(),
        "provided string is not a valid Object Identifier (dot separated natural numbers)"
    );
    let e: ParseObjectIdError = ().into();
    assert!(format!("{:?}", e).contains("ParseObjectIdError"));
}

#[test]
fn u64_pieces_read_as_std_does() {
    for s in ["0", "+0", "007", "18446744073709551615", "", "+", "-1", "+-1", "18446744073709551616", "99999999999999999999", "1 "] {
        assert_eq!(parse_u64(s.as_bytes()), u64::from_str(s).ok(), "{:?}", s);
    }
}

#[test]
fn oid_to_string() {
    let oid = ObjectIdentifier::new(vec![1, 2, 840, 113549, 1, 1, 11]);
    assert_eq!(oid.to_string(), "1.2.840.113549.1.1.11");
    assert_eq!(ObjectIdentifier::new(vec![]).to_string(), "");
    assert_eq!(ObjectIdentifier::new(vec![u64::MAX, 0]).to_string(), "18446744073709551615.0");
    let back: ObjectIdentifier = oid.to_string().parse().unwrap();
    assert_eq!(back, oid);
    assert_eq!(ObjectIdentifier::default().as_slice(), &[0, 0]);
}

#[test]
fn octet_string_to_string() {
    assert_eq!(OctetString::from_str("héllo").to_string(), "héllo");
    assert_eq!(OctetString::new(vec![0xff, 0x00, 0x1a]).to_string(), "FF 00 1A");
    assert_eq!(OctetString::new(vec![]).to_string(), "");
    assert_eq!(OctetString::new(vec![0xc3]).to_string(), "C3");
}

#[test]
fn bit_string_to_string() {
    let b: BitString = from_asn1(&[0x03u8, 0x03, 0x04, 0x05, 0xf0][..]).unwrap();
    assert_eq!(b.to_string(), "10111110000");
    assert_eq!(b.unused_bits(), 4);
    assert_eq!(b.as_slice(), &[0x05, 0xf0]);
    let z = BitString::from_parts(vec![0], 0).unwrap();
    assert_eq!(z.to_string(), "0");
    assert!(BitString::from_parts(vec![], 1).is_none());
    assert!(BitString::from_parts(vec![1], 8).is_none());
    assert_eq!(BitString::from_parts(vec![], 0).unwrap().to_string(), "");
}

#[test]
fn asn1_fmt_texts() {
    assert_eq!(true.asn1_fmt(), "BOOLEAN: true");
    assert_eq!(false.asn1_fmt(), "BOOLEAN: false");
    assert_eq!((-128i8).asn1_fmt(), "INTEGER: -128");
    assert_eq!(i64::MIN.asn1_fmt(), "INTEGER: -9223372036854775808");
    assert_eq!(u64::MAX.asn1_fmt(), "INTEGER: 18446744073709551615");
    assert_eq!(0usize.asn1_fmt(), "INTEGER: 0");
    assert_eq!(OctetString::from_str("ab").asn1_fmt(), "OCTET STRING: ab");
    assert_eq!(OctetString::new(vec![0xfe]).asn1_fmt(), "OCTET STRING: FE");
    assert_eq!(ObjectIdentifier::new(vec![2, 5]).asn1_fmt(), "OBJECT IDENTIFIER: 2.5");
    let b = BitString::from_parts(vec![2], 1).unwrap();
    assert_eq!(b.asn1_fmt(), "BIT STRING: 10");
}

#[test]
fn mutable_slices() {
    let mut o = OctetString::new(vec![1, 2, 3]);
    o.as_mut_slice()[1] = 9;
    assert_eq!(o.as_slice(), &[1, 9, 3]);
    let mut oid = ObjectIdentifier::new(vec![1, 2, 3]);
    oid.as_mut_slice()[2] = 4;
    assert_eq!(oid.into_inner(), vec![1, 2, 4]);
    let from_slice: OctetString = (&[5u8, 6][..]).into();
    assert_eq!(from_slice.into_inner(), vec![5, 6]);
    let from_vec: OctetString = vec![7u8].into();
    assert_eq!(from_vec.as_slice(), &[7]);
}
