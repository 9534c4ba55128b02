use std::io::Result as IoResult;

use asn1::der::Serializer;
use asn1::info::tag::Class;
use asn1::ser::write::{
    write_bit_string, write_boolean, write_i64, write_i8, write_len_def, write_null,
    write_object_identifier, write_octet_string, write_short_object_identifier, write_tag,
    write_u64, write_u8,
};
use asn1::{Asn1Serialize, Asn1Tagged, ContentType, Tag};

fn buffer_eq_test<T, F>(test_set: &[(T, Vec<u8>)], mut f: F)
where
    F: FnMut(&mut Vec<u8>, &T) -> IoResult<()>,
{
    let mut buf: Vec<u8> = Vec::new();

    for &(ref data, ref expected) in test_set.iter() {
        f(&mut buf, data).unwrap();
        assert_eq!(buf.as_slice(), expected.as_slice());
        buf.clear()
    }
}

#[test]
fn bool_tag() {
    let tag = bool::asn1_tag();
    assert_eq!(tag.class(), Class::Universal, "tag class check failed");
    assert_eq!(tag.tagnum(), 0x01, "tag num check failed");
    assert_eq!(tag.is_constructed(), false, "tag constructed flag check failed");
    assert_eq!(tag.tag_byte(), 0x00, "tag byte check failed");
}

#[test]
fn bool_encode() {
    let test_set = [(true, vec![0x01, 0x01, 0xff]), (false, vec![0x01, 0x01, 0x00])];

    let mut buf = Serializer::new(Vec::new());
    for &(v, ref expect) in &test_set {
        v.asn1_serialize(&mut buf).unwrap();
        assert_eq!(buf.as_slice(), expect.as_slice());
        buf.clear();
    }
}

#[test]
fn length_write() {
    let test_set = [
        (0x00, vec![0x00]),
        (0x7f, vec![0x7f]),
        (0xff, vec![0x81, 0xff]),
        (0x7fff, vec![0x82, 0x7f, 0xff]),
        (0xffff, vec![0x82, 0xff, 0xff]),
        (0x7fffffff, vec![0x84, 0x7f, 0xff, 0xff, 0xff]),
        (0xffffffff, vec![0x84, 0xff, 0xff, 0xff, 0xff]),
        (0x7fffffffffffffff, vec![0x88, 0x7f, 0xff, 0xff, 0xff, 0xff, 0xff, 0xff, 0xff]),
        (0xffffffffffffffff, vec![0x88, 0xff, 0xff, 0xff, 0xff, 0xff, 0xff, 0xff, 0xff]),
    ];

    buffer_eq_test(&test_set[..], |buf, x| write_len_def(buf, *x));
}

#[test]
fn i64_write() {
    let tag = Tag::new(Class::Universal, 0x02, ContentType::Primitive);
    let test_set = [
        (0x00, vec![0x02, 0x01, 0x00]),
        (0x7f, vec![0x02, 0x01, 0x7f]),
        (0xff, vec![0x02, 0x02, 0x00, 0xff]),
        (0x7fff, vec![0x02, 0x02, 0x7f, 0xff]),
        (0xffff, vec![0x02, 0x03, 0x00, 0xff, 0xff]),
        (0x7fffffff, vec![0x02, 0x04, 0x7f, 0xff, 0xff, 0xff]),
        (0xffffffff, vec![0x02, 0x05, 0x00, 0xff, 0xff, 0xff, 0xff]),
        (-0x01, vec![0x02, 0x01, 0xff]),
        (-0x7f, vec![0x02, 0x01, 0x81]),
        (-0xff, vec![0x02, 0x02, 0xff, 0x01]),
        (-0x0100, vec![0x02, 0x02, 0xff, 0x00]),
        (-0x7f00, vec![0x02, 0x02, 0x81, 0x00]),
        (-0xffff, vec![0x02, 0x03, 0xff, 0x00, 0x01]),
        (-0x7fffffffffffffff, vec![0x02, 0x08, 0x80, 0x00, 0x00, 0x00, 0x00, 0x00, 0x00, 0x01]),
    ];

    buffer_eq_test(&test_set[..], |buf, x| write_i64(buf, &tag, *x))
}

#[test]
fn u64_write() {
    let tag = Tag::new(Class::Universal, 0x02, ContentType::Primitive);
    let test_set = [
        (0x00, vec![0x02, 0x01, 0x00]),
        (0x7f, vec![0x02, 0x01, 0x7f]),
        (0xff, vec![0x02, 0x02, 0x00, 0xff]),
        (0x7fff, vec![0x02, 0x02, 0x7f, 0xff]),
        (0xffff, vec![0x02, 0x03, 0x00, 0xff, 0xff]),
        (0x7fffffff, vec![0x02, 0x04, 0x7f, 0xff, 0xff, 0xff]),
        (0xffffffff, vec![0x02, 0x05, 0x00, 0xff, 0xff, 0xff, 0xff]),
        (0x7fffffffffffffff, vec![0x02, 0x08, 0x7f, 0xff, 0xff, 0xff, 0xff, 0xff, 0xff, 0xff]),
        (0xffffffffffffffff, vec![0x02, 0x09, 0x00, 0xff, 0xff, 0xff, 0xff, 0xff, 0xff, 0xff, 0xff]),
    ];

    buffer_eq_test(&test_set[..], |buf, x| write_u64(buf, &tag, *x))
}

#[test]
fn bits_write() {
    let test_set = [
        ((vec![0xff, 0xff, 0xf0], 4), vec![0x03, 0x04, 0x04, 0xff, 0xff, 0xf0]),
        ((vec![0xff, 0xff], 0), vec![0x03, 0x03, 0x00, 0xff, 0xff]),
    ];
    let bit_string_tag = Tag::new(Class::Universal, 0x03, ContentType::Primitive);

    buffer_eq_test(&test_set[..], |buf, &(ref bits, unused)| {
        write_bit_string(buf, &bit_string_tag, unused, bits)
    })
}

#[test]
fn oid_write() {
    let test_set = [
        (vec![0x01, 0x03], vec![0x04, 0x01, 0x2b]),
        (vec![0x00, 0x03, 0x7f, 0x7f], vec![0x04, 0x03, 0x03, 0x7f, 0x7f]),
        (vec![0x01, 0x03, 0x7fff, 0x7fff], vec![0x04, 0x07, 0x2b, 0x81, 0xff, 0x7f, 0x81, 0xff, 0x7f]),
    ];
    let oid_tag = Tag::new(Class::Universal, 0x04, ContentType::Primitive);

    buffer_eq_test(&test_set[..], |buf, x| write_object_identifier(buf, &oid_tag, x))
}

#[test]
fn short_oid_write_matches_long() {
    let tag = Tag::new(Class::Universal, 0x06, ContentType::Primitive);
    let arcs: Vec<u64> = vec![2, 39, u64::MAX, 0, 1, 0x80, 0x3fff, 0x4000];
    let mut a: Vec<u8> = Vec::new();
    let mut b: Vec<u8> = Vec::new();
    write_short_object_identifier(&mut a, &tag, &arcs).unwrap();
    write_object_identifier(&mut b, &tag, &arcs).unwrap();
    assert_eq!(a, b);
    // 2*40+39 = 119; u64::MAX takes ten base-128 bytes
    assert_eq!(&a[..3], &[0x06, 0x14, 119]);
    assert_eq!(&a[3..13], &[0x81, 0xff, 0xff, 0xff, 0xff, 0xff, 0xff, 0xff, 0xff, 0x7f]);
    assert_eq!(&a[13..], &[0x00, 0x01, 0x81, 0x00, 0xff, 0x7f, 0x81, 0x80, 0x00]);
}

#[test]
fn small_writers() {
    let tag_int = Tag::new(Class::Universal, 0x02, ContentType::Primitive);
    let mut buf: Vec<u8> = Vec::new();
    write_i8(&mut buf, &tag_int, -128).unwrap();
    assert_eq!(buf, vec![0x02, 0x01, 0x80]);
    buf.clear();
    write_u8(&mut buf, &tag_int, 0x80).unwrap();
    assert_eq!(buf, vec![0x02, 0x02, 0x00, 0x80]);
    buf.clear();
    write_boolean(&mut buf, &Tag::new(Class::Universal, 1, ContentType::Primitive), true).unwrap();
    assert_eq!(buf, vec![0x01, 0x01, 0xff]);
    buf.clear();
    write_null(&mut buf, &Tag::new(Class::Universal, 5, ContentType::Primitive)).unwrap();
    assert_eq!(buf, vec![0x05, 0x00]);
    buf.clear();
    write_octet_string(&mut buf, &Tag::new(Class::Universal, 4, ContentType::Primitive), b"ab").unwrap();
    assert_eq!(buf, vec![0x04, 0x02, b'a', b'b']);
}

#[test]
fn tags_write() {
    let mut buf: Vec<u8> = Vec::new();
    write_tag(&mut buf, &Tag::new(Class::Private, 30, ContentType::Constructed)).unwrap();
    assert_eq!(buf, vec![0xfe]);
    buf.clear();
    write_tag(&mut buf, &Tag::new(Class::Application, 31, ContentType::Primitive)).unwrap();
    assert_eq!(buf, vec![0x5f, 0x1f]);
    buf.clear();
    write_tag(&mut buf, &Tag::new(Class::ContextSpecific, 0x4001, ContentType::Primitive)).unwrap();
    assert_eq!(buf, vec![0x9f, 0x81, 0x80, 0x01]);
}
