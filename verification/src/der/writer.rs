use vstd::prelude::*;

use crate::info::tag::{Len, Tag};
use crate::info::universal::{
    spec_tag_bit_string, spec_tag_boolean, spec_tag_integer, spec_tag_null,
    spec_tag_object_identifier, spec_tag_octet_string, spec_tag_sequence, tag_bit_string,
    tag_boolean, tag_integer, tag_null, tag_object_identifier, tag_octet_string, tag_sequence,
};
use crate::ser::write::{
    oid_writable, spec_bool_content, spec_header_bytes, spec_int_content, spec_oid_content,
    spec_primitive_bytes, write_bit_string, write_boolean, write_header, write_i16, write_i32,
    write_i64, write_i8, write_isize, write_null, write_object_identifier, write_octet_string,
    write_short_object_identifier, write_u16, write_u32, write_u64, write_u8, write_usize,
};
use crate::ser::{Asn1Serialize, Error};

verus! {

#[derive(Debug)]
pub enum EncodeError {
    InvalidTag,
    InvalidLength,
    InvalidValue,
    PrimUntagged,
    Custom(String),
    GeneralIO(std::io::Error),
}

impl From<std::io::Error> for EncodeError {
    fn from(e: std::io::Error) -> (r: Self) {
        EncodeError::GeneralIO(e)
    }
}

impl vstd::std_specs::convert::FromSpecImpl<std::io::Error> for EncodeError {
    open spec fn obeys_from_spec() -> bool {
        true
    }

    open spec fn from_spec(e: std::io::Error) -> EncodeError {
        EncodeError::GeneralIO(e)
    }
}

impl Error for EncodeError {
    fn invalid_tag() -> (e: Self)
        ensures
            e is InvalidTag,
    {
        EncodeError::InvalidTag
    }

    fn invalid_value() -> (e: Self)
        ensures
            e is InvalidValue,
    {
        EncodeError::InvalidValue
    }

    fn prim_untagged() -> (e: Self)
        ensures
            e is PrimUntagged,
    {
        EncodeError::PrimUntagged
    }

    fn custom(message: &str) -> (e: Self)
        ensures
            e matches EncodeError::Custom(m) && m@ == message@,
    {
        EncodeError::Custom(message.to_owned())
    }
}

/// The implicit tag when there is one, otherwise the default.
pub open spec fn tag_or(implicit: Option<Tag>, default: Tag) -> Tag {
    match implicit {
        Some(t) => t,
        None => default,
    }
}

/// A DER writer: the octets written so far, and the tag that the next value is
/// written under in place of its own, if any. Each value written uses up the
/// implicit tag.
#[derive(Debug)]
pub struct Serializer {
    writer: Vec<u8>,
    implicit_tag: Option<Tag>,
}

/// The fields of a SEQUENCE, gathered before the sequence's header can be
/// written, and the tag that the header takes.
pub struct StructSerializer {
    serializer: Vec<u8>,
    tag: Tag,
}

impl Serializer {
    /// The octets written so far.
    pub closed spec fn written(&self) -> Seq<u8> {
        self.writer@
    }

    /// The tag that the next value is written under, in place of its own.
    pub closed spec fn implicit(&self) -> Option<Tag> {
        self.implicit_tag
    }

    /// What this serializer holds after it writes a primitive value of the given
    /// content whose own tag is `default`.
    pub open spec fn spec_after_primitive(&self, default: Tag, content: Seq<u8>) -> Seq<u8> {
        self.written() + spec_primitive_bytes(tag_or(self.implicit(), default), content)
    }

    /// A primitive value was written after what `old` held, and the implicit tag
    /// is used up.
    pub open spec fn wrote_primitive(old: Self, new: Self, default: Tag, content: Seq<u8>) -> bool {
        &&& new.written() == old.spec_after_primitive(default, content)
        &&& new.implicit() is None
    }

    pub fn new(inner: Vec<u8>) -> (s: Self)
        ensures
            s.written() == inner@,
            s.implicit() is None,
    {
        Serializer { writer: inner, implicit_tag: None }
    }

    pub fn with_tag(self, tag: Tag) -> (s: Self)
        ensures
            s.written() == self.written(),
            s.implicit() == Some(tag),
    {
        Serializer { writer: self.writer, implicit_tag: Some(tag) }
    }

    /// The tag to write under, in place of `tag`; the implicit tag is used up.
    fn take_tag(&mut self, tag: &Tag) -> (t: Tag)
        ensures
            t == tag_or(old(self).implicit(), *tag),
            final(self).written() == old(self).written(),
            final(self).implicit() is None,
    {
        let t = match self.implicit_tag {
            Some(t) => t,
            None => *tag,
        };
        self.implicit_tag = None;
        t
    }

    pub fn into_inner(self) -> (w: Vec<u8>)
        ensures
            w@ == self.written(),
    {
        self.writer
    }

    pub fn len(&self) -> (n: usize)
        ensures
            n == self.written().len(),
    {
        self.writer.len()
    }

    pub fn is_empty(&self) -> (b: bool)
        ensures
            b == (self.written().len() == 0),
    {
        self.writer.len() == 0
    }

    pub fn clear(&mut self)
        ensures
            final(self).written() == Seq::<u8>::empty(),
            final(self).implicit() == old(self).implicit(),
    {
        self.writer.clear()
    }

    pub fn as_slice(&self) -> (s: &[u8])
        ensures
            s@ == self.written(),
    {
        self.writer.as_slice()
    }

    pub fn serialize_bool(&mut self, value: bool) -> (r: Result<(), EncodeError>)
        ensures
            r is Ok,
            Self::wrote_primitive(*old(self), *final(self), spec_tag_boolean(), spec_bool_content(value)),
    {
        let tag = self.take_tag(&tag_boolean());
        let _ = write_boolean(&mut self.writer, &tag, value);
        Ok(())
    }

    pub fn serialize_i8(&mut self, value: i8) -> (r: Result<(), EncodeError>)
        ensures
            r is Ok,
            Self::wrote_primitive(*old(self), *final(self), spec_tag_integer(), spec_int_content(value as int)),
    {
        let tag = self.take_tag(&tag_integer());
        let _ = write_i8(&mut self.writer, &tag, value);
        Ok(())
    }

    pub fn serialize_i16(&mut self, value: i16) -> (r: Result<(), EncodeError>)
        ensures
            r is Ok,
            Self::wrote_primitive(*old(self), *final(self), spec_tag_integer(), spec_int_content(value as int)),
    {
        let tag = self.take_tag(&tag_integer());
        let _ = write_i16(&mut self.writer, &tag, value);
        Ok(())
    }

    pub fn serialize_i32(&mut self, value: i32) -> (r: Result<(), EncodeError>)
        ensures
            r is Ok,
            Self::wrote_primitive(*old(self), *final(self), spec_tag_integer(), spec_int_content(value as int)),
    {
        let tag = self.take_tag(&tag_integer());
        let _ = write_i32(&mut self.writer, &tag, value);
        Ok(())
    }

    pub fn serialize_i64(&mut self, value: i64) -> (r: Result<(), EncodeError>)
        ensures
            r is Ok,
            Self::wrote_primitive(*old(self), *final(self), spec_tag_integer(), spec_int_content(value as int)),
    {
        let tag = self.take_tag(&tag_integer());
        let _ = write_i64(&mut self.writer, &tag, value);
        Ok(())
    }

    pub fn serialize_isize(&mut self, value: isize) -> (r: Result<(), EncodeError>)
        ensures
            r is Ok,
            Self::wrote_primitive(*old(self), *final(self), spec_tag_integer(), spec_int_content(value as int)),
    {
        let tag = self.take_tag(&tag_integer());
        let _ = write_isize(&mut self.writer, &tag, value);
        Ok(())
    }

    pub fn serialize_u8(&mut self, value: u8) -> (r: Result<(), EncodeError>)
        ensures
            r is Ok,
            Self::wrote_primitive(*old(self), *final(self), spec_tag_integer(), spec_int_content(value as int)),
    {
        let tag = self.take_tag(&tag_integer());
        let _ = write_u8(&mut self.writer, &tag, value);
        Ok(())
    }

    pub fn serialize_u16(&mut self, value: u16) -> (r: Result<(), EncodeError>)
        ensures
            r is Ok,
            Self::wrote_primitive(*old(self), *final(self), spec_tag_integer(), spec_int_content(value as int)),
    {
        let tag = self.take_tag(&tag_integer());
        let _ = write_u16(&mut self.writer, &tag, value);
        Ok(())
    }

    pub fn serialize_u32(&mut self, value: u32) -> (r: Result<(), EncodeError>)
        ensures
            r is Ok,
            Self::wrote_primitive(*old(self), *final(self), spec_tag_integer(), spec_int_content(value as int)),
    {
        let tag = self.take_tag(&tag_integer());
        let _ = write_u32(&mut self.writer, &tag, value);
        Ok(())
    }

    pub fn serialize_u64(&mut self, value: u64) -> (r: Result<(), EncodeError>)
        ensures
            r is Ok,
            Self::wrote_primitive(*old(self), *final(self), spec_tag_integer(), spec_int_content(value as int)),
    {
        let tag = self.take_tag(&tag_integer());
        let _ = write_u64(&mut self.writer, &tag, value);
        Ok(())
    }

    pub fn serialize_usize(&mut self, value: usize) -> (r: Result<(), EncodeError>)
        ensures
            r is Ok,
            Self::wrote_primitive(*old(self), *final(self), spec_tag_integer(), spec_int_content(value as int)),
    {
        let tag = self.take_tag(&tag_integer());
        let _ = write_usize(&mut self.writer, &tag, value);
        Ok(())
    }

    /// Writes a BIT STRING from its unused-bit count and bytes; a count of 8 or
    /// more is refused, and then nothing changes.
    pub fn serialize_bit_string(&mut self, value: (u8, &[u8])) -> (r: Result<(), EncodeError>)
        requires
            value.1@.len() < usize::MAX,
        ensures
            value.0 < 8 ==> (r is Ok && Self::wrote_primitive(
                *old(self),
                *final(self),
                spec_tag_bit_string(),
                seq![value.0] + value.1@,
            )),
            value.0 >= 8 ==> (r matches Err(EncodeError::InvalidValue) && final(self).written() == old(self).written()
                && final(self).implicit() == old(self).implicit()),
    {
        let (unused, bytes) = value;
        if unused < 8 {
            let tag = self.take_tag(&tag_bit_string());
            let _ = write_bit_string(&mut self.writer, &tag, unused, bytes);
            Ok(())
        } else {
            Err(EncodeError::InvalidValue)
        }
    }

    pub fn serialize_bytes(&mut self, value: &[u8]) -> (r: Result<(), EncodeError>)
        ensures
            r is Ok,
            Self::wrote_primitive(*old(self), *final(self), spec_tag_octet_string(), value@),
    {
        let tag = self.take_tag(&tag_octet_string());
        let _ = write_octet_string(&mut self.writer, &tag, value);
        Ok(())
    }

    pub fn serialize_null(&mut self) -> (r: Result<(), EncodeError>)
        ensures
            r is Ok,
            Self::wrote_primitive(*old(self), *final(self), spec_tag_null(), Seq::<u8>::empty()),
    {
        let tag = self.take_tag(&tag_null());
        let _ = write_null(&mut self.writer, &tag);
        Ok(())
    }

    pub fn serialize_object_identifier(&mut self, value: &[u64]) -> (r: Result<(), EncodeError>)
        requires
            oid_writable(value@),
            10 * value@.len() < usize::MAX,
        ensures
            r is Ok,
            Self::wrote_primitive(*old(self), *final(self), spec_tag_object_identifier(), spec_oid_content(value@)),
    {
        let tag = self.take_tag(&tag_object_identifier());
        if value.len() < 128 {
            let _ = write_short_object_identifier(&mut self.writer, &tag, value);
        } else {
            let _ = write_object_identifier(&mut self.writer, &tag, value);
        }
        Ok(())
    }

    /// Explicit tagging: DER writes it as implicit tagging.
    pub fn serialize_tagged(&mut self, tag: Tag) -> (r: Result<(), EncodeError>)
        ensures
            r is Ok,
            final(self).written() == old(self).written(),
            final(self).implicit() == Some(tag),
    {
        self.serialize_implicit(tag)
    }

    /// The next value is written under `tag` in place of its own.
    pub fn serialize_implicit(&mut self, tag: Tag) -> (r: Result<(), EncodeError>)
        ensures
            r is Ok,
            final(self).written() == old(self).written(),
            final(self).implicit() == Some(tag),
    {
        self.implicit_tag = Some(tag);
        Ok(())
    }

    /// Starts a SEQUENCE, under the implicit tag if there is one (which is used
    /// up); its fields are gathered apart until `finish` writes them here.
    pub fn serialize_sequence(&mut self) -> (r: Result<StructSerializer, EncodeError>)
        ensures
            r matches Ok(s) && s.content() == Seq::<u8>::empty() && s.tag() == tag_or(
                old(self).implicit(),
                spec_tag_sequence(),
            ),
            final(self).written() == old(self).written(),
            final(self).implicit() is None,
    {
        let tag = self.take_tag(&tag_sequence());
        Ok(StructSerializer { serializer: Vec::with_capacity(128), tag: tag })
    }
}

impl StructSerializer {
    /// The fields written so far.
    pub closed spec fn content(&self) -> Seq<u8> {
        self.serializer@
    }

    /// The tag of the sequence's header.
    pub closed spec fn tag(&self) -> Tag {
        self.tag
    }

    /// A serializer for the next field: it holds the fields written so far, which
    /// this sequence gives up to it.
    pub fn next(&mut self) -> (s: Serializer)
        ensures
            s.written() == old(self).content(),
            s.implicit() is None,
            final(self).content() == Seq::<u8>::empty(),
            final(self).tag() == old(self).tag(),
    {
        let mut fields: Vec<u8> = Vec::new();
        std::mem::swap(&mut fields, &mut self.serializer);
        Serializer::new(fields)
    }

    /// Writes the next field of the sequence.
    pub fn serialize_field<V: Asn1Serialize>(&mut self, value: &V) -> (r: Result<(), EncodeError>)
        requires
            value.spec_serializable(),
        ensures
            r is Ok,
            final(self).content() == old(self).content() + value.spec_der(None),
            final(self).tag() == old(self).tag(),
    {
        let mut s = self.next();
        let r = value.asn1_serialize(&mut s);
        self.serializer = s.into_inner();
        r
    }

    /// Writes the sequence into `serializer`: its header under the sequence's
    /// tag, then the fields.
    pub fn finish(self, serializer: &mut Serializer) -> (r: Result<(), EncodeError>)
        ensures
            r is Ok,
            final(serializer).written() == old(serializer).written() + spec_header_bytes(
                self.tag(),
                Len::Def(self.content().len() as usize),
            ) + self.content(),
            final(serializer).implicit() == old(serializer).implicit(),
    {
        let len = self.serializer.len();
        let _ = write_header(&mut serializer.writer, &self.tag, &Len::Def(len));
        serializer.writer.extend_from_slice(self.serializer.as_slice());
        assert(final(serializer).written() =~= old(serializer).written() + spec_header_bytes(
            self.tag,
            Len::Def(self.serializer@.len() as usize),
        ) + self.serializer@);
        Ok(())
    }
}

} // verus!
