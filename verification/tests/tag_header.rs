use std::io::ErrorKind as IoErrorKind;

use asn1::der::read::{read_header, ReadError};
use asn1::info::tag::Class;
use asn1::ser::write::write_header;
use asn1::{Len, Tag};

#[test]
fn tag_simple() {
    let bytes = b"\x02\x00";
    let tag = Tag::primitive(Class::from(0u8), 2);
    let len: Len = Len::new(0);
    assert_eq!(read_header(&mut &bytes[..]).unwrap(), (tag, len));
    let mut buf: Vec<u8> = Vec::new();
    write_header(&mut buf, &tag, &len).unwrap();
    assert_eq!(&buf, bytes);
}

#[test]
fn high_tag_class_1() {
    let short_bytes = b"\x41\x10";
    let long_bytes = b"\x5f\x01\x10";
    let tag = Tag::primitive(Class::from(1u8), 1);
    let len: Len = Len::Def(16);

    assert_eq!(read_header(&mut &short_bytes[..]).unwrap(), (tag, len));
    assert_eq!(read_header(&mut &long_bytes[..]).unwrap(), (tag, len));
    let mut buf: Vec<u8> = Vec::new();
    write_header(&mut buf, &tag, &len).unwrap();
    assert_eq!(&buf, short_bytes);
}

#[test]
fn high_tag_class_2() {
    let bytes = b"\x5f\x21\x10";
    let tag = Tag::primitive(Class::from(1u8), 33);
    let len: Len = Some(16).into();
    assert_eq!(read_header(&mut &bytes[..]).unwrap(), (tag, len));
    let mut buf: Vec<u8> = Vec::new();
    write_header(&mut buf, &tag, &len).unwrap();
    assert_eq!(&buf, bytes);
}

#[test]
fn tag_constructed() {
    let bytes = b"\x30\x12";
    let tag = Tag::constructed(Class::from(0u8), 16);
    let len: Len = Some(18).into();
    assert_eq!(read_header(&mut &bytes[..]).unwrap(), (tag, len));
    let mut buf: Vec<u8> = Vec::new();
    write_header(&mut buf, &tag, &len).unwrap();
    assert_eq!(&buf, bytes);
}

#[test]
fn tag_indefinite() {
    let bytes = b"\x30\x80";
    let tag = Tag::constructed(Class::from(0u8), 16);
    let len: Len = None.into();
    assert_eq!(read_header(&mut &bytes[..]).unwrap(), (tag, len));
    let mut buf: Vec<u8> = Vec::new();
    write_header(&mut buf, &tag, &len).unwrap();
    assert_eq!(&buf, bytes);
}

#[test]
fn tag_long_len_1() {
    let long_bytes = b"\x30\x81\x11";
    let short_bytes = b"\x30\x11";
    let tag = Tag::constructed(Class::from(0u8), 16);
    let len: Len = Some(17).into();
    assert_eq!(read_header(&mut &short_bytes[..]).unwrap(), (tag, len));
    assert_eq!(read_header(&mut &long_bytes[..]).unwrap(), (tag, len));
    let mut buf: Vec<u8> = Vec::new();
    write_header(&mut buf, &tag, &len).unwrap();
    assert_eq!(&buf, short_bytes);
}

#[test]
fn tag_long_len_2() {
    let bytes = b"\x30\x81\x81";
    let tag = Tag::constructed(Class::from(0u8), 16);
    let len: Len = Some(129).into();
    assert_eq!(read_header(&mut &bytes[..]).unwrap(), (tag, len));
    let mut buf: Vec<u8> = Vec::new();
    write_header(&mut buf, &tag, &len).unwrap();
    assert_eq!(&buf, bytes);
}

#[test]
fn tag_ridiculous() {
    let bytes = b"\x7f\x81\x80\x01\x85\x80\x00\x00\x00\x01";
    let tag = Tag::constructed(Class::from(1u8), 0x4001);
    let len: Len = Some(549755813889).into();
    assert_eq!(read_header(&mut &bytes[..]).unwrap(), (tag, len));
    let mut buf: Vec<u8> = Vec::new();
    write_header(&mut buf, &tag, &len).unwrap();
    assert_eq!(&buf, bytes);
}

#[test]
fn tag_missing_bytes() {
    let bytes = b"";
    let res = read_header(&mut &bytes[..]);
    match res {
        Err(ReadError::IoError(ref err)) if err.kind() == IoErrorKind::UnexpectedEof => {}
        _ => panic!("Expected UnexpectedEOf, got {:?}", res.unwrap_err()),
    }
}

#[test]
fn tag_missing_tag_bytes() {
    let res = read_header(&mut &b"\x1f"[..])
        .or(read_header(&mut &b"\x1f\x80"[..]))
        .or(read_header(&mut &b"\x1f\x80\x82"[..]));
    match res {
        Err(ReadError::IoError(ref err)) if err.kind() == IoErrorKind::UnexpectedEof => {}
        _ => panic!("Expected UnexpectedEOf, got {:?}", res.unwrap_err()),
    }
}

#[test]
fn tag_missing_len_bytes() {
    let res = read_header(&mut &b"\x30"[..])
        .or(read_header(&mut &b"\x30\x81"[..]))
        .or(read_header(&mut &b"\x30\x83\x01\x03"[..]));
    match res {
        Err(ReadError::IoError(ref err)) if err.kind() == IoErrorKind::UnexpectedEof => {}
        _ => panic!("Expected UnexpectedEOf, got {:?}", res.unwrap_err()),
    }
}

