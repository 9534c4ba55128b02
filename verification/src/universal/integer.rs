use vstd::prelude::*;

use crate::de::Asn1Deserialize;
use crate::der::read::{map_value, spec_read_signed, spec_read_unsigned};
use crate::der::reader::{spec_decode_primitive, DecodeError, DecodeKind, Deserializer};
use crate::der::writer::{tag_or, EncodeError, Serializer};
use crate::info::tag::Tag;
use crate::info::universal::{spec_tag_integer, tag_integer, TYPE_INTEGER};
use crate::info::{Asn1DisplayExt, Asn1Tagged, Asn1Typed};
use crate::text::{labeled, lemma_ascii_valid_utf8, signed_text, spec_decimal, spec_signed_decimal, unsigned_text};
use vstd::string::StringSliceAdditionalSpecFns;
use vstd::utf8::encode_utf8;
use crate::ser::write::{spec_int_content, spec_primitive_bytes};
use crate::ser::Asn1Serialize;

verus! {

impl Asn1Tagged for i8 {
    fn asn1_tag() -> (t: Tag)
        ensures
            t == spec_tag_integer(),
    {
        tag_integer()
    }
}

impl Asn1Typed for i8 {
    fn asn1_type() -> (t: &'static str)
        ensures
            t@ == TYPE_INTEGER@,
    {
        TYPE_INTEGER
    }
}

impl Asn1Serialize for i8 {
    open spec fn spec_serializable(&self) -> bool {
        true
    }

    open spec fn spec_der(&self, tag: Option<Tag>) -> Seq<u8> {
        spec_primitive_bytes(tag_or(tag, spec_tag_integer()), spec_int_content(*self as int))
    }

    fn asn1_serialize(&self, serializer: &mut Serializer) -> (r: Result<(), EncodeError>) {
        serializer.serialize_i8(*self)
    }
}

impl Asn1Deserialize for i8 {
    type Model = i8;

    open spec fn obeys_asn1_decode() -> bool {
        true
    }

    open spec fn spec_model(&self) -> i8 {
        *self
    }

    open spec fn spec_asn1_decode(input: Seq<u8>, peeked: Option<Tag>, implicit: Option<Tag>) -> Result<(i8, int), DecodeKind> {
        spec_decode_primitive(input, peeked, tag_or(implicit, spec_tag_integer()), |s: Seq<u8>, l: nat| map_value(spec_read_signed(s, l, 1), |v: int| v as i8))
    }

    fn asn1_deserialize(deserializer: &mut Deserializer) -> (r: Result<Self, DecodeError>) {
        deserializer.deserialize_i8()
    }
}

impl Asn1Tagged for i16 {
    fn asn1_tag() -> (t: Tag)
        ensures
            t == spec_tag_integer(),
    {
        tag_integer()
    }
}

impl Asn1Typed for i16 {
    fn asn1_type() -> (t: &'static str)
        ensures
            t@ == TYPE_INTEGER@,
    {
        TYPE_INTEGER
    }
}

impl Asn1Serialize for i16 {
    open spec fn spec_serializable(&self) -> bool {
        true
    }

    open spec fn spec_der(&self, tag: Option<Tag>) -> Seq<u8> {
        spec_primitive_bytes(tag_or(tag, spec_tag_integer()), spec_int_content(*self as int))
    }

    fn asn1_serialize(&self, serializer: &mut Serializer) -> (r: Result<(), EncodeError>) {
        serializer.serialize_i16(*self)
    }
}

impl Asn1Deserialize for i16 {
    type Model = i16;

    open spec fn obeys_asn1_decode() -> bool {
        true
    }

    open spec fn spec_model(&self) -> i16 {
        *self
    }

    open spec fn spec_asn1_decode(input: Seq<u8>, peeked: Option<Tag>, implicit: Option<Tag>) -> Result<(i16, int), DecodeKind> {
        spec_decode_primitive(input, peeked, tag_or(implicit, spec_tag_integer()), |s: Seq<u8>, l: nat| map_value(spec_read_signed(s, l, 2), |v: int| v as i16))
    }

    fn asn1_deserialize(deserializer: &mut Deserializer) -> (r: Result<Self, DecodeError>) {
        deserializer.deserialize_i16()
    }
}

impl Asn1Tagged for i32 {
    fn asn1_tag() -> (t: Tag)
        ensures
            t == spec_tag_integer(),
    {
        tag_integer()
    }
}

impl Asn1Typed for i32 {
    fn asn1_type() -> (t: &'static str)
        ensures
            t@ == TYPE_INTEGER@,
    {
        TYPE_INTEGER
    }
}

impl Asn1Serialize for i32 {
    open spec fn spec_serializable(&self) -> bool {
        true
    }

    open spec fn spec_der(&self, tag: Option<Tag>) -> Seq<u8> {
        spec_primitive_bytes(tag_or(tag, spec_tag_integer()), spec_int_content(*self as int))
    }

    fn asn1_serialize(&self, serializer: &mut Serializer) -> (r: Result<(), EncodeError>) {
        serializer.serialize_i32(*self)
    }
}

impl Asn1Deserialize for i32 {
    type Model = i32;

    open spec fn obeys_asn1_decode() -> bool {
        true
    }

    open spec fn spec_model(&self) -> i32 {
        *self
    }

    open spec fn spec_asn1_decode(input: Seq<u8>, peeked: Option<Tag>, implicit: Option<Tag>) -> Result<(i32, int), DecodeKind> {
        spec_decode_primitive(input, peeked, tag_or(implicit, spec_tag_integer()), |s: Seq<u8>, l: nat| map_value(spec_read_signed(s, l, 4), |v: int| v as i32))
    }

    fn asn1_deserialize(deserializer: &mut Deserializer) -> (r: Result<Self, DecodeError>) {
        deserializer.deserialize_i32()
    }
}

impl Asn1Tagged for i64 {
    fn asn1_tag() -> (t: Tag)
        ensures
            t == spec_tag_integer(),
    {
        tag_integer()
    }
}

impl Asn1Typed for i64 {
    fn asn1_type() -> (t: &'static str)
        ensures
            t@ == TYPE_INTEGER@,
    {
        TYPE_INTEGER
    }
}

impl Asn1Serialize for i64 {
    open spec fn spec_serializable(&self) -> bool {
        true
    }

    open spec fn spec_der(&self, tag: Option<Tag>) -> Seq<u8> {
        spec_primitive_bytes(tag_or(tag, spec_tag_integer()), spec_int_content(*self as int))
    }

    fn asn1_serialize(&self, serializer: &mut Serializer) -> (r: Result<(), EncodeError>) {
        serializer.serialize_i64(*self)
    }
}

impl Asn1Deserialize for i64 {
    type Model = i64;

    open spec fn obeys_asn1_decode() -> bool {
        true
    }

    open spec fn spec_model(&self) -> i64 {
        *self
    }

    open spec fn spec_asn1_decode(input: Seq<u8>, peeked: Option<Tag>, implicit: Option<Tag>) -> Result<(i64, int), DecodeKind> {
        spec_decode_primitive(input, peeked, tag_or(implicit, spec_tag_integer()), |s: Seq<u8>, l: nat| map_value(spec_read_signed(s, l, 8), |v: int| v as i64))
    }

    fn asn1_deserialize(deserializer: &mut Deserializer) -> (r: Result<Self, DecodeError>) {
        deserializer.deserialize_i64()
    }
}

impl Asn1Tagged for isize {
    fn asn1_tag() -> (t: Tag)
        ensures
            t == spec_tag_integer(),
    {
        tag_integer()
    }
}

impl Asn1Typed for isize {
    fn asn1_type() -> (t: &'static str)
        ensures
            t@ == TYPE_INTEGER@,
    {
        TYPE_INTEGER
    }
}

impl Asn1Serialize for isize {
    open spec fn spec_serializable(&self) -> bool {
        true
    }

    open spec fn spec_der(&self, tag: Option<Tag>) -> Seq<u8> {
        spec_primitive_bytes(tag_or(tag, spec_tag_integer()), spec_int_content(*self as int))
    }

    fn asn1_serialize(&self, serializer: &mut Serializer) -> (r: Result<(), EncodeError>) {
        serializer.serialize_i64(*self as i64)
    }
}

impl Asn1Deserialize for isize {
    type Model = isize;

    open spec fn obeys_asn1_decode() -> bool {
        true
    }

    open spec fn spec_model(&self) -> isize {
        *self
    }

    open spec fn spec_asn1_decode(input: Seq<u8>, peeked: Option<Tag>, implicit: Option<Tag>) -> Result<(isize, int), DecodeKind> {
        spec_decode_primitive(input, peeked, tag_or(implicit, spec_tag_integer()), |s: Seq<u8>, l: nat| map_value(map_value(spec_read_signed(s, l, 8), |v: int| v as i64), |v: i64| v as isize))
    }

    fn asn1_deserialize(deserializer: &mut Deserializer) -> (r: Result<Self, DecodeError>) {
        match deserializer.deserialize_i64() {
            Ok(v) => Ok(v as isize),
            Err(e) => Err(e),
        }
    }
}

impl Asn1Tagged for u8 {
    fn asn1_tag() -> (t: Tag)
        ensures
            t == spec_tag_integer(),
    {
        tag_integer()
    }
}

impl Asn1Typed for u8 {
    fn asn1_type() -> (t: &'static str)
        ensures
            t@ == TYPE_INTEGER@,
    {
        TYPE_INTEGER
    }
}

impl Asn1Serialize for u8 {
    open spec fn spec_serializable(&self) -> bool {
        true
    }

    open spec fn spec_der(&self, tag: Option<Tag>) -> Seq<u8> {
        spec_primitive_bytes(tag_or(tag, spec_tag_integer()), spec_int_content(*self as int))
    }

    fn asn1_serialize(&self, serializer: &mut Serializer) -> (r: Result<(), EncodeError>) {
        serializer.serialize_u8(*self)
    }
}

impl Asn1Deserialize for u8 {
    type Model = u8;

    open spec fn obeys_asn1_decode() -> bool {
        true
    }

    open spec fn spec_model(&self) -> u8 {
        *self
    }

    open spec fn spec_asn1_decode(input: Seq<u8>, peeked: Option<Tag>, implicit: Option<Tag>) -> Result<(u8, int), DecodeKind> {
        spec_decode_primitive(input, peeked, tag_or(implicit, spec_tag_integer()), |s: Seq<u8>, l: nat| map_value(spec_read_unsigned(s, l, 1), |v: nat| v as u8))
    }

    fn asn1_deserialize(deserializer: &mut Deserializer) -> (r: Result<Self, DecodeError>) {
        deserializer.deserialize_u8()
    }
}

impl Asn1Tagged for u16 {
    fn asn1_tag() -> (t: Tag)
        ensures
            t == spec_tag_integer(),
    {
        tag_integer()
    }
}

impl Asn1Typed for u16 {
    fn asn1_type() -> (t: &'static str)
        ensures
            t@ == TYPE_INTEGER@,
    {
        TYPE_INTEGER
    }
}

impl Asn1Serialize for u16 {
    open spec fn spec_serializable(&self) -> bool {
        true
    }

    open spec fn spec_der(&self, tag: Option<Tag>) -> Seq<u8> {
        spec_primitive_bytes(tag_or(tag, spec_tag_integer()), spec_int_content(*self as int))
    }

    fn asn1_serialize(&self, serializer: &mut Serializer) -> (r: Result<(), EncodeError>) {
        serializer.serialize_u16(*self)
    }
}

impl Asn1Deserialize for u16 {
    type Model = u16;

    open spec fn obeys_asn1_decode() -> bool {
        true
    }

    open spec fn spec_model(&self) -> u16 {
        *self
    }

    open spec fn spec_asn1_decode(input: Seq<u8>, peeked: Option<Tag>, implicit: Option<Tag>) -> Result<(u16, int), DecodeKind> {
        spec_decode_primitive(input, peeked, tag_or(implicit, spec_tag_integer()), |s: Seq<u8>, l: nat| map_value(spec_read_unsigned(s, l, 2), |v: nat| v as u16))
    }

    fn asn1_deserialize(deserializer: &mut Deserializer) -> (r: Result<Self, DecodeError>) {
        deserializer.deserialize_u16()
    }
}

impl Asn1Tagged for u32 {
    fn asn1_tag() -> (t: Tag)
        ensures
            t == spec_tag_integer(),
    {
        tag_integer()
    }
}

impl Asn1Typed for u32 {
    fn asn1_type() -> (t: &'static str)
        ensures
            t@ == TYPE_INTEGER@,
    {
        TYPE_INTEGER
    }
}

impl Asn1Serialize for u32 {
    open spec fn spec_serializable(&self) -> bool {
        true
    }

    open spec fn spec_der(&self, tag: Option<Tag>) -> Seq<u8> {
        spec_primitive_bytes(tag_or(tag, spec_tag_integer()), spec_int_content(*self as int))
    }

    fn asn1_serialize(&self, serializer: &mut Serializer) -> (r: Result<(), EncodeError>) {
        serializer.serialize_u32(*self)
    }
}

impl Asn1Deserialize for u32 {
    type Model = u32;

    open spec fn obeys_asn1_decode() -> bool {
        true
    }

    open spec fn spec_model(&self) -> u32 {
        *self
    }

    open spec fn spec_asn1_decode(input: Seq<u8>, peeked: Option<Tag>, implicit: Option<Tag>) -> Result<(u32, int), DecodeKind> {
        spec_decode_primitive(input, peeked, tag_or(implicit, spec_tag_integer()), |s: Seq<u8>, l: nat| map_value(spec_read_unsigned(s, l, 4), |v: nat| v as u32))
    }

    fn asn1_deserialize(deserializer: &mut Deserializer) -> (r: Result<Self, DecodeError>) {
        deserializer.deserialize_u32()
    }
}

impl Asn1Tagged for u64 {
    fn asn1_tag() -> (t: Tag)
        ensures
            t == spec_tag_integer(),
    {
        tag_integer()
    }
}

impl Asn1Typed for u64 {
    fn asn1_type() -> (t: &'static str)
        ensures
            t@ == TYPE_INTEGER@,
    {
        TYPE_INTEGER
    }
}

impl Asn1Serialize for u64 {
    open spec fn spec_serializable(&self) -> bool {
        true
    }

    open spec fn spec_der(&self, tag: Option<Tag>) -> Seq<u8> {
        spec_primitive_bytes(tag_or(tag, spec_tag_integer()), spec_int_content(*self as int))
    }

    fn asn1_serialize(&self, serializer: &mut Serializer) -> (r: Result<(), EncodeError>) {
        serializer.serialize_u64(*self)
    }
}

impl Asn1Deserialize for u64 {
    type Model = u64;

    open spec fn obeys_asn1_decode() -> bool {
        true
    }

    open spec fn spec_model(&self) -> u64 {
        *self
    }

    open spec fn spec_asn1_decode(input: Seq<u8>, peeked: Option<Tag>, implicit: Option<Tag>) -> Result<(u64, int), DecodeKind> {
        spec_decode_primitive(input, peeked, tag_or(implicit, spec_tag_integer()), |s: Seq<u8>, l: nat| map_value(spec_read_unsigned(s, l, 8), |v: nat| v as u64))
    }

    fn asn1_deserialize(deserializer: &mut Deserializer) -> (r: Result<Self, DecodeError>) {
        deserializer.deserialize_u64()
    }
}

impl Asn1Tagged for usize {
    fn asn1_tag() -> (t: Tag)
        ensures
            t == spec_tag_integer(),
    {
        tag_integer()
    }
}

impl Asn1Typed for usize {
    fn asn1_type() -> (t: &'static str)
        ensures
            t@ == TYPE_INTEGER@,
    {
        TYPE_INTEGER
    }
}

impl Asn1Serialize for usize {
    open spec fn spec_serializable(&self) -> bool {
        true
    }

    open spec fn spec_der(&self, tag: Option<Tag>) -> Seq<u8> {
        spec_primitive_bytes(tag_or(tag, spec_tag_integer()), spec_int_content(*self as int))
    }

    fn asn1_serialize(&self, serializer: &mut Serializer) -> (r: Result<(), EncodeError>) {
        serializer.serialize_u64(*self as u64)
    }
}

impl Asn1Deserialize for usize {
    type Model = usize;

    open spec fn obeys_asn1_decode() -> bool {
        true
    }

    open spec fn spec_model(&self) -> usize {
        *self
    }

    open spec fn spec_asn1_decode(input: Seq<u8>, peeked: Option<Tag>, implicit: Option<Tag>) -> Result<(usize, int), DecodeKind> {
        spec_decode_primitive(input, peeked, tag_or(implicit, spec_tag_integer()), |s: Seq<u8>, l: nat| map_value(map_value(spec_read_unsigned(s, l, 8), |v: nat| v as u64), |v: u64| v as usize))
    }

    fn asn1_deserialize(deserializer: &mut Deserializer) -> (r: Result<Self, DecodeError>) {
        match deserializer.deserialize_u64() {
            Ok(v) => Ok(v as usize),
            Err(e) => Err(e),
        }
    }
}

impl Asn1DisplayExt for i8 {
    fn asn1_fmt(&self) -> (s: String)
        ensures
            encode_utf8(s@) == TYPE_INTEGER.spec_bytes() + seq![58u8, 32u8] + spec_signed_decimal(*self as int),
    {
        let text = signed_text(*self as i64);
        proof {
            lemma_ascii_valid_utf8(text@);
        }
        labeled(TYPE_INTEGER, text.as_slice())
    }
}

impl Asn1DisplayExt for i16 {
    fn asn1_fmt(&self) -> (s: String)
        ensures
            encode_utf8(s@) == TYPE_INTEGER.spec_bytes() + seq![58u8, 32u8] + spec_signed_decimal(*self as int),
    {
        let text = signed_text(*self as i64);
        proof {
            lemma_ascii_valid_utf8(text@);
        }
        labeled(TYPE_INTEGER, text.as_slice())
    }
}

impl Asn1DisplayExt for i32 {
    fn asn1_fmt(&self) -> (s: String)
        ensures
            encode_utf8(s@) == TYPE_INTEGER.spec_bytes() + seq![58u8, 32u8] + spec_signed_decimal(*self as int),
    {
        let text = signed_text(*self as i64);
        proof {
            lemma_ascii_valid_utf8(text@);
        }
        labeled(TYPE_INTEGER, text.as_slice())
    }
}

impl Asn1DisplayExt for i64 {
    fn asn1_fmt(&self) -> (s: String)
        ensures
            encode_utf8(s@) == TYPE_INTEGER.spec_bytes() + seq![58u8, 32u8] + spec_signed_decimal(*self as int),
    {
        let text = signed_text(*self as i64);
        proof {
            lemma_ascii_valid_utf8(text@);
        }
        labeled(TYPE_INTEGER, text.as_slice())
    }
}

impl Asn1DisplayExt for isize {
    fn asn1_fmt(&self) -> (s: String)
        ensures
            encode_utf8(s@) == TYPE_INTEGER.spec_bytes() + seq![58u8, 32u8] + spec_signed_decimal(*self as int),
    {
        let text = signed_text(*self as i64);
        proof {
            lemma_ascii_valid_utf8(text@);
        }
        labeled(TYPE_INTEGER, text.as_slice())
    }
}

impl Asn1DisplayExt for u8 {
    fn asn1_fmt(&self) -> (s: String)
        ensures
            encode_utf8(s@) == TYPE_INTEGER.spec_bytes() + seq![58u8, 32u8] + spec_decimal(*self as nat),
    {
        let text = unsigned_text(*self as u64);
        proof {
            lemma_ascii_valid_utf8(text@);
        }
        labeled(TYPE_INTEGER, text.as_slice())
    }
}

impl Asn1DisplayExt for u16 {
    fn asn1_fmt(&self) -> (s: String)
        ensures
            encode_utf8(s@) == TYPE_INTEGER.spec_bytes() + seq![58u8, 32u8] + spec_decimal(*self as nat),
    {
        let text = unsigned_text(*self as u64);
        proof {
            lemma_ascii_valid_utf8(text@);
        }
        labeled(TYPE_INTEGER, text.as_slice())
    }
}

impl Asn1DisplayExt for u32 {
    fn asn1_fmt(&self) -> (s: String)
        ensures
            encode_utf8(s@) == TYPE_INTEGER.spec_bytes() + seq![58u8, 32u8] + spec_decimal(*self as nat),
    {
        let text = unsigned_text(*self as u64);
        proof {
            lemma_ascii_valid_utf8(text@);
        }
        labeled(TYPE_INTEGER, text.as_slice())
    }
}

impl Asn1DisplayExt for u64 {
    fn asn1_fmt(&self) -> (s: String)
        ensures
            encode_utf8(s@) == TYPE_INTEGER.spec_bytes() + seq![58u8, 32u8] + spec_decimal(*self as nat),
    {
        let text = unsigned_text(*self as u64);
        proof {
            lemma_ascii_valid_utf8(text@);
        }
        labeled(TYPE_INTEGER, text.as_slice())
    }
}

impl Asn1DisplayExt for usize {
    fn asn1_fmt(&self) -> (s: String)
        ensures
            encode_utf8(s@) == TYPE_INTEGER.spec_bytes() + seq![58u8, 32u8] + spec_decimal(*self as nat),
    {
        let text = unsigned_text(*self as u64);
        proof {
            lemma_ascii_valid_utf8(text@);
        }
        labeled(TYPE_INTEGER, text.as_slice())
    }
}

} // verus!
