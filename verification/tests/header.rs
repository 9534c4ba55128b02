use std::io::ErrorKind as IoErrorKind;

use asn1::der::read::{
    read_bit_string, read_boolean, read_header, read_i32, read_len_def, read_object_identifier, read_u8,
    ReadError,
};
use asn1::info::tag::Class;
use asn1::ser::write::write_header;
use asn1::{Len, Tag};

#[test]
fn read_tag_simple() {
    let bytes = b"\x02\x00";
    let tag = Tag::primitive(Class::from(0u8), 2);
    let len: Len = Len::new(0);
    assert_eq!(read_header(&mut &bytes[..]).unwrap(), (tag, len));
    let mut buf: Vec<u8> = Vec::new();
    write_header(&mut buf, &tag, &len).unwrap();
    assert_eq!(&buf, bytes);
}

#[test]
fn read_high_tag_class_1() {
    let short_bytes = b"\x41\x10";
    let long_bytes = b"\x5f\x01\x10";
    let tag = Tag::primitive(Class::from(1u8), 1);
    let len: Len = Len::Def(16);

    assert_eq!(read_header(&mut &short_bytes[..]).unwrap(), (tag, len));
    assert_eq!(read_header(&mut &long_bytes[..]).unwrap(), (tag, len));
    let mut buf: Vec<u8> = Vec::new();
    write_header(&mut buf, &tag, &len).unwrap();
    assert_eq!(&buf, short_bytes);
}

#[test]
fn read_high_tag_class_2() {
    let bytes = b"\x5f\x21\x10";
    let tag = Tag::primitive(Class::from(1u8), 33);
    let len: Len = Some(16).into();
    assert_eq!(read_header(&mut &bytes[..]).unwrap(), (tag, len));
    let mut buf: Vec<u8> = Vec::new();
    write_header(&mut buf, &tag, &len).unwrap();
    assert_eq!(&buf, bytes);
}

#[test]
fn read_tag_constructed() {
    let bytes = b"\x30\x12";
    let tag = Tag::constructed(Class::from(0u8), 16);
    let len: Len = Some(18).into();
    assert_eq!(read_header(&mut &bytes[..]).unwrap(), (tag, len));
    let mut buf: Vec<u8> = Vec::new();
    write_header(&mut buf, &tag, &len).unwrap();
    assert_eq!(&buf, bytes);
}

#[test]
fn read_tag_indefinite() {
    let bytes = b"\x30\x80";
    let tag = Tag::constructed(Class::from(0u8), 16);
    let len: Len = None.into();
    assert_eq!(read_header(&mut &bytes[..]).unwrap(), (tag, len));
    let mut buf: Vec<u8> = Vec::new();
    write_header(&mut buf, &tag, &len).unwrap();
    assert_eq!(&buf, bytes);
}

#[test]
fn read_tag_long_len_1() {
    let long_bytes = b"\x30\x81\x11";
    let short_bytes = b"\x30\x11";
    let tag = Tag::constructed(Class::from(0u8), 16);
    let len: Len = Some(17).into();
    assert_eq!(read_header(&mut &short_bytes[..]).unwrap(), (tag, len));
    assert_eq!(read_header(&mut &long_bytes[..]).unwrap(), (tag, len));
    let mut buf: Vec<u8> = Vec::new();
    write_header(&mut buf, &tag, &len).unwrap();
    assert_eq!(&buf, short_bytes);
}

#[test]
fn read_tag_long_len_2() {
    let bytes = b"\x30\x81\x81";
    let tag = Tag::constructed(Class::from(0u8), 16);
    let len: Len = Some(129).into();
    assert_eq!(read_header(&mut &bytes[..]).unwrap(), (tag, len));
    let mut buf: Vec<u8> = Vec::new();
    write_header(&mut buf, &tag, &len).unwrap();
    assert_eq!(&buf, bytes);
}

#[test]
fn read_tag_ridiculous() {
    let bytes = b"\x7f\x81\x80\x01\x85\x80\x00\x00\x00\x01";
    let tag = Tag::constructed(Class::from(1u8), 0x4001);
    let len: Len = Some(549755813889).into();
    assert_eq!(read_header(&mut &bytes[..]).unwrap(), (tag, len));
    let mut buf: Vec<u8> = Vec::new();
    write_header(&mut buf, &tag, &len).unwrap();
    assert_eq!(&buf, bytes);
}

#[test]
fn read_tag_missing_bytes() {
    let bytes = b"";
    let res = read_header(&mut &bytes[..]);
    match res {
        Err(ReadError::IoError(ref err)) if err.kind() == IoErrorKind::UnexpectedEof => {}
        _ => panic!("Expected UnexpectedEOf, got {:?}", res.unwrap_err()),
    }
}

#[test]
fn read_tag_missing_tag_bytes() {
    let res = read_header(&mut &b"\x1f"[..])
        .or(read_header(&mut &b"\x1f\x80"[..]))
        .or(read_header(&mut &b"\x1f\x80\x82"[..]));
    match res {
        Err(ReadError::IoError(ref err)) if err.kind() == IoErrorKind::UnexpectedEof => {}
        _ => panic!("Expected UnexpectedEOf, got {:?}", res.unwrap_err()),
    }
}

#[test]
fn read_tag_missing_len_bytes() {
    let res = read_header(&mut &b"\x30"[..])
        .or(read_header(&mut &b"\x30\x81"[..]))
        .or(read_header(&mut &b"\x30\x83\x01\x03"[..]));
    match res {
        Err(ReadError::IoError(ref err)) if err.kind() == IoErrorKind::UnexpectedEof => {}
        _ => panic!("Expected UnexpectedEOf, got {:?}", res.unwrap_err()),
    }
}

#[test]
fn header_read_leaves_the_rest() {
    let bytes = b"\x02\x01\x05\xff";
    let mut r: &[u8] = &bytes[..];
    let (tag, len) = read_header(&mut r).unwrap();
    assert_eq!(tag, Tag::primitive(Class::Universal, 2));
    assert_eq!(len, Len::Def(1));
    assert_eq!(r, &b"\x05\xff"[..]);
}

#[test]
fn header_long_lengths_past_usize() {
    // nine length bytes fit a usize only behind a zero byte
    let ok = read_header(&mut &b"\x02\x89\x00\x00\x00\x00\x00\x00\x00\x01\x00"[..]).unwrap();
    assert_eq!(ok, (Tag::primitive(Class::Universal, 2), Len::Def(0x100)));
    let res = read_header(&mut &b"\x02\x89\x01\x00\x00\x00\x00\x00\x00\x00\x00"[..]);
    assert!(matches!(res, Err(ReadError::InvalidValue)));
    let res = read_header(&mut &b"\x02\x8a\x00\x00\x00\x00\x00\x00\x00\x00\x00\x01"[..]);
    assert!(matches!(res, Err(ReadError::InvalidLength)));
}

#[test]
fn header_roundtrip_many_lengths() {
    let tag = Tag::constructed(Class::ContextSpecific, 200);
    for n in [0usize, 1, 0x7f, 0x80, 0xff, 0x100, 0xffff, 0x10000, 0x7fff_ffff, usize::MAX] {
        let len = Len::Def(n);
        let mut buf: Vec<u8> = Vec::new();
        write_header(&mut buf, &tag, &len).unwrap();
        let mut r: &[u8] = &buf[..];
        assert_eq!(read_header(&mut r).unwrap(), (tag, len));
        assert!(r.is_empty());
    }
}

#[test]
fn refused_reads_leave_input() {
    let bytes = [0xffu8, 0x01, 0x02];
    let mut r: &[u8] = &bytes[..];
    assert!(matches!(read_boolean(&mut r, 2), Err(ReadError::InvalidLength)));
    assert_eq!(r, &bytes[..]);
    assert!(matches!(read_bit_string(&mut r, 0), Err(ReadError::InvalidLength)));
    assert_eq!(r, &bytes[..]);
    assert!(matches!(read_i32(&mut r, 5), Err(ReadError::InvalidLength)));
    assert_eq!(r, &bytes[..]);
    assert!(read_object_identifier(&mut r, 0).is_err());
    assert_eq!(r, &bytes[..]);
    // a bit string whose unused count is too big takes that one byte
    let mut r: &[u8] = &[0x08u8, 0x01][..];
    assert!(matches!(read_bit_string(&mut r, 2), Err(ReadError::InvalidValue)));
    assert_eq!(r, &[0x01u8][..]);
    // a u8 of two bytes with a non-zero first byte takes that byte
    let mut r: &[u8] = &[0x01u8, 0xff][..];
    assert!(matches!(read_u8(&mut r, 2), Err(ReadError::InvalidValue)));
    assert_eq!(r, &[0xffu8][..]);
    // an indefinite length where a definite one is needed takes the octet
    let mut r: &[u8] = &[0x80u8, 0x05][..];
    assert!(matches!(read_len_def(&mut r), Err(ReadError::InvalidLength)));
    assert_eq!(r, &[0x05u8][..]);
    // running out uses up the input
    let mut r: &[u8] = &[0x01u8][..];
    assert!(matches!(read_i32(&mut r, 2), Err(ReadError::IoError(_))));
    assert!(r.is_empty());
}
