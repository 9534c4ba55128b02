use vstd::prelude::*;

use crate::de::{refused, Asn1Deserialize, Asn1Error, Asn1Visitor};
use crate::der::read::{
    min, read_bit_string, read_boolean, read_i16, read_i32, read_i64, read_i8, read_len_def,
    read_object_identifier, read_octet_string, read_tag, read_u16, read_u32, read_u64, read_u8,
    ReadError, ReadFailure, map_value, lemma_base128_from_len, spec_read_bit_string, spec_read_boolean, spec_read_len_def,
    spec_read_object_identifier, spec_read_octet_string, spec_read_signed, spec_read_tag,
    spec_read_unsigned, is_suffix, lemma_suffix_refl, lemma_skip_suffix, lemma_suffix_trans,
};
use crate::der::writer::tag_or;
use crate::info::tag::{Len, Tag};
use crate::info::universal::{
    spec_tag_bit_string, spec_tag_boolean, spec_tag_integer, spec_tag_null,
    spec_tag_object_identifier, spec_tag_octet_string, spec_tag_sequence, tag_bit_string, tag_boolean, tag_integer, tag_null, tag_object_identifier, tag_octet_string,
    tag_sequence,
};

verus! {

#[derive(Debug)]
pub enum DecodeError {
    InvalidType(&'static str),
    InvalidTag(&'static str),
    TagMismatch(Tag, Tag),
    InvalidLength(&'static str),
    LengthMismatch(Len, Len),
    InvalidValue(&'static str),
    ConstructedNotConsumed,
    Custom(String),
    IO(std::io::Error),
}

/// The kinds of decoding failure that the contracts tell apart.
pub enum DecodeKind {
    InvalidType,
    InvalidTag,
    TagMismatch(Tag, Tag),
    InvalidLength,
    LengthMismatch(Len, Len),
    InvalidValue,
    ConstructedNotConsumed,
    Custom,
    Io,
}

impl DecodeError {
    pub open spec fn kind(&self) -> DecodeKind {
        match self {
            DecodeError::InvalidType(_) => DecodeKind::InvalidType,
            DecodeError::InvalidTag(_) => DecodeKind::InvalidTag,
            DecodeError::TagMismatch(e, g) => DecodeKind::TagMismatch(*e, *g),
            DecodeError::InvalidLength(_) => DecodeKind::InvalidLength,
            DecodeError::LengthMismatch(e, g) => DecodeKind::LengthMismatch(*e, *g),
            DecodeError::InvalidValue(_) => DecodeKind::InvalidValue,
            DecodeError::ConstructedNotConsumed => DecodeKind::ConstructedNotConsumed,
            DecodeError::Custom(_) => DecodeKind::Custom,
            DecodeError::IO(_) => DecodeKind::Io,
        }
    }
}

/// The decoding failure that a reading failure becomes.
pub open spec fn kind_of_read(f: ReadFailure) -> DecodeKind {
    match f {
        ReadFailure::Eof => DecodeKind::Io,
        ReadFailure::Tag => DecodeKind::InvalidTag,
        ReadFailure::Length => DecodeKind::InvalidLength,
        ReadFailure::Value => DecodeKind::InvalidValue,
    }
}

fn decode_error_of(e: ReadError) -> (d: DecodeError)
    ensures
        d.kind() == kind_of_read(e.failure()),
{
    match e {
        ReadError::InvalidTag => DecodeError::InvalidTag("bad tag encoding"),
        ReadError::InvalidLength => DecodeError::InvalidLength("bad length encoding"),
        ReadError::InvalidValue => DecodeError::InvalidValue("bad value encoding"),
        ReadError::IoError(err) => DecodeError::IO(err),
    }
}

impl From<std::io::Error> for DecodeError {
    fn from(e: std::io::Error) -> (r: Self) {
        DecodeError::IO(e)
    }
}

impl vstd::std_specs::convert::FromSpecImpl<std::io::Error> for DecodeError {
    open spec fn obeys_from_spec() -> bool {
        true
    }

    open spec fn from_spec(e: std::io::Error) -> DecodeError {
        DecodeError::IO(e)
    }
}

impl Asn1Error for DecodeError {
    fn custom(msg: &str) -> (e: Self)
        ensures
            e matches DecodeError::Custom(m) && m@ == msg@,
    {
        DecodeError::Custom(msg.to_owned())
    }

    fn invalid_type(msg: &'static str) -> (e: Self)
        ensures
            e == DecodeError::InvalidType(msg),
    {
        DecodeError::InvalidType(msg)
    }

    fn invalid_tag(msg: &'static str) -> (e: Self)
        ensures
            e == DecodeError::InvalidTag(msg),
    {
        DecodeError::InvalidTag(msg)
    }

    fn invalid_length(msg: &'static str) -> (e: Self)
        ensures
            e == DecodeError::InvalidLength(msg),
    {
        DecodeError::InvalidLength(msg)
    }

    fn invalid_value(msg: &'static str) -> (e: Self)
        ensures
            e == DecodeError::InvalidValue(msg),
    {
        DecodeError::InvalidValue(msg)
    }

    fn tag_mismatch(expected: Tag, got: Tag) -> (e: Self)
        ensures
            e == DecodeError::TagMismatch(expected, got),
    {
        DecodeError::TagMismatch(expected, got)
    }

    fn length_mismatch(expected: Len, got: Len) -> (e: Self)
        ensures
            e == DecodeError::LengthMismatch(expected, got),
    {
        DecodeError::LengthMismatch(expected, got)
    }
}

/// The tag in front: the one already peeked, or one read from the input.
pub open spec fn spec_next_tag(input: Seq<u8>, peeked: Option<Tag>) -> Result<(Tag, int), ReadFailure> {
    match peeked {
        Some(t) => Ok((t, 0)),
        None => spec_read_tag(input),
    }
}

/// The header of a value whose tag must be `expected`: its content length and the
/// input bytes that the header takes. The tag and the length are both read before
/// the tag is compared.
pub open spec fn spec_decode_header(input: Seq<u8>, peeked: Option<Tag>, expected: Tag) -> Result<(usize, int), DecodeKind> {
    match spec_next_tag(input, peeked) {
        Err(f) => Err(kind_of_read(f)),
        Ok((tag, n)) => match spec_read_len_def(input.skip(n)) {
            Err(f) => Err(kind_of_read(f)),
            Ok((len, m)) => if tag == expected {
                Ok((len, n + m))
            } else {
                Err(DecodeKind::TagMismatch(expected, tag))
            },
        },
    }
}

/// A primitive value: its header, then the content read by `content` from the
/// input that follows the header.
pub open spec fn spec_decode_primitive<T>(
    input: Seq<u8>,
    peeked: Option<Tag>,
    expected: Tag,
    content: spec_fn(Seq<u8>, nat) -> Result<(T, int), ReadFailure>,
) -> Result<(T, int), DecodeKind> {
    match spec_decode_header(input, peeked, expected) {
        Err(k) => Err(k),
        Ok((len, n)) => match content(input.skip(n), len as nat) {
            Ok((v, m)) => Ok((v, n + m)),
            Err(f) => Err(kind_of_read(f)),
        },
    }
}

/// A DER reader over a byte slice: the input left, the tag already read ahead (if
/// any), and the tag that the next value is read under in place of its own (if any).
#[derive(Debug)]
pub struct Deserializer<'a> {
    inner: &'a [u8],
    peeked_tag: Option<Tag>,
    implicit_tag: Option<Tag>,
}

/// The content of a SEQUENCE, read field by field.
#[derive(Debug)]
pub struct SeqAccessor<'a> {
    data: &'a [u8],
    pos: usize,
    end: usize,
    limit: u64,
}

impl<'a> Deserializer<'a> {
    /// The input not yet read.
    pub closed spec fn input(&self) -> Seq<u8> {
        self.inner@
    }

    /// The tag already read ahead of its value.
    pub closed spec fn peeked(&self) -> Option<Tag> {
        self.peeked_tag
    }

    /// The tag that the next value is read under in place of its own.
    pub closed spec fn implicit(&self) -> Option<Tag> {
        self.implicit_tag
    }

    /// A read from `self` that left `after`: on success it yields the value of
    /// `outcome`, takes exactly the input that `outcome` names and uses up the
    /// peeked and implicit tags; on failure it reports the kind of `outcome` and
    /// leaves what is left of the input after what was read.
    pub open spec fn decodes<T>(self, after: Self, res: Result<T, DecodeError>, outcome: Result<(T, int), DecodeKind>) -> bool {
        match outcome {
            Ok((v, n)) => {
                &&& res matches Ok(x) && x == v
                &&& 0 <= n <= self.input().len()
                &&& after.input() == self.input().skip(n)
                &&& after.peeked() is None
                &&& after.implicit() is None
            },
            Err(k) => res matches Err(e) && e.kind() == k && is_suffix(after.input(), self.input()),
        }
    }

    /// `decodes` for values that are compared by their view.
    pub open spec fn decodes_view<T: View>(self, after: Self, res: Result<T, DecodeError>, outcome: Result<(T::V, int), DecodeKind>) -> bool {
        match outcome {
            Ok((v, n)) => {
                &&& res matches Ok(x) && x@ == v
                &&& 0 <= n <= self.input().len()
                &&& after.input() == self.input().skip(n)
                &&& after.peeked() is None
                &&& after.implicit() is None
            },
            Err(k) => res matches Err(e) && e.kind() == k && is_suffix(after.input(), self.input()),
        }
    }

    /// `decodes` for values that are compared by their `model`.
    pub open spec fn decodes_model<T, M>(self, after: Self, res: Result<T, DecodeError>, outcome: Result<(M, int), DecodeKind>, model: spec_fn(T) -> M) -> bool {
        match outcome {
            Ok((v, n)) => {
                &&& res matches Ok(x) && model(x) == v
                &&& 0 <= n <= self.input().len()
                &&& after.input() == self.input().skip(n)
                &&& after.peeked() is None
                &&& after.implicit() is None
            },
            Err(k) => res matches Err(e) && e.kind() == k && is_suffix(after.input(), self.input()),
        }
    }

    /// The tag that the next value is read under when its own is `default`.
    pub open spec fn spec_expected(&self, default: Tag) -> Tag {
        tag_or(self.implicit(), default)
    }

    pub fn new(reader: &'a [u8]) -> (d: Self)
        ensures
            d.input() == reader@,
            d.peeked() is None,
            d.implicit() is None,
    {
        Deserializer { inner: reader, peeked_tag: None, implicit_tag: None }
    }

    pub fn with_tag(self, tag: Tag) -> (d: Self)
        ensures
            d.input() == self.input(),
            d.peeked() == self.peeked(),
            d.implicit() == Some(tag),
    {
        Deserializer { inner: self.inner, peeked_tag: self.peeked_tag, implicit_tag: Some(tag) }
    }

    /// The tag that the next value is read under when its own is `default_tag`.
    pub fn override_tag(&self, default_tag: Tag) -> (t: Tag)
        ensures
            t == self.spec_expected(default_tag),
    {
        match self.implicit_tag {
            Some(tag) => tag,
            None => default_tag,
        }
    }

    fn read_tag(&mut self) -> (r: Result<Tag, DecodeError>)
        ensures
            match spec_next_tag(old(self).input(), old(self).peeked()) {
                Ok((t, n)) => r == Ok::<Tag, DecodeError>(t) && final(self).input() == old(self).input().skip(n)
                    && 0 <= n <= old(self).input().len(),
                Err(f) => r matches Err(e) && e.kind() == kind_of_read(f),
            },
            is_suffix(final(self).input(), old(self).input()),
            final(self).peeked() is None,
            final(self).implicit() == old(self).implicit(),
    {
        proof {
            lemma_suffix_refl(old(self).input());
            lemma_read_tag_consumes(old(self).input());
            if old(self).peeked() is None {
                if spec_read_tag(old(self).input()) is Ok {
                    lemma_skip_suffix(old(self).input(), spec_read_tag(old(self).input())->Ok_0.1);
                }
            }
        }
        match self.peeked_tag.take() {
            Some(tag) => {
                assert(self.inner@ == old(self).input().skip(0));
                Ok(tag)
            },
            None => match read_tag(&mut self.inner) {
                Ok(tag) => Ok(tag),
                Err(e) => Err(decode_error_of(e)),
            },
        }
    }

    fn peek_tag(&mut self) -> (r: Result<Tag, DecodeError>)
        ensures
            match spec_next_tag(old(self).input(), old(self).peeked()) {
                Ok((t, n)) => r == Ok::<Tag, DecodeError>(t) && final(self).input() == old(self).input().skip(n)
                    && final(self).peeked() == Some(t),
                Err(f) => r matches Err(e) && e.kind() == kind_of_read(f),
            },
            is_suffix(final(self).input(), old(self).input()),
            final(self).implicit() == old(self).implicit(),
    {
        proof {
            lemma_suffix_refl(old(self).input());
            lemma_read_tag_consumes(old(self).input());
            if old(self).peeked() is None {
                if spec_read_tag(old(self).input()) is Ok {
                    lemma_skip_suffix(old(self).input(), spec_read_tag(old(self).input())->Ok_0.1);
                }
            }
        }
        match self.peeked_tag {
            Some(tag) => {
                assert(self.inner@ == old(self).input().skip(0));
                Ok(tag)
            },
            None => match read_tag(&mut self.inner) {
                Ok(tag) => {
                    self.peeked_tag = Some(tag);
                    Ok(tag)
                },
                Err(e) => Err(decode_error_of(e)),
            },
        }
    }

    fn read_length_def(&mut self) -> (r: Result<usize, DecodeError>)
        ensures
            match spec_read_len_def(old(self).input()) {
                Ok((l, n)) => r == Ok::<usize, DecodeError>(l) && final(self).input() == old(self).input().skip(n)
                    && 0 <= n <= old(self).input().len(),
                Err(f) => r matches Err(e) && e.kind() == kind_of_read(f),
            },
            is_suffix(final(self).input(), old(self).input()),
            final(self).peeked() == old(self).peeked(),
            final(self).implicit() == old(self).implicit(),
    {
        proof {
            lemma_read_len_def_consumes(old(self).input());
            if spec_read_len_def(old(self).input()) is Ok {
                lemma_skip_suffix(old(self).input(), spec_read_len_def(old(self).input())->Ok_0.1);
            }
        }
        match read_len_def(&mut self.inner) {
            Ok(l) => Ok(l),
            Err(e) => Err(decode_error_of(e)),
        }
    }

    /// Reads the header of a primitive value whose tag must be `expected_tag`, and
    /// returns the length of its content. The peeked and implicit tags are used up.
    #[inline]
    pub fn decode_primitive(&mut self, expected_tag: Tag) -> (r: Result<usize, DecodeError>)
        ensures
            old(self).decodes(*final(self), r, spec_decode_header(old(self).input(), old(self).peeked(), expected_tag)),
    {
        let ghost orig = self.input();
        let tag = match self.read_tag() {
            Ok(t) => t,
            Err(e) => {
                return Err(e);
            },
        };
        let ghost mid = self.input();
        let len = match self.read_length_def() {
            Ok(l) => l,
            Err(e) => {
                proof {
                    lemma_suffix_trans(self.input(), mid, orig);
                }
                return Err(e);
            },
        };
        proof {
            lemma_suffix_trans(self.input(), mid, orig);
        }
        self.implicit_tag = None;
        if tag == expected_tag {
            proof {
                let n1 = spec_next_tag(orig, old(self).peeked())->Ok_0.1;
                let n2 = spec_read_len_def(mid)->Ok_0.1;
                assert(orig.skip(n1).skip(n2) =~= orig.skip(n1 + n2));
            }
            Ok(len)
        } else {
            Err(DecodeError::TagMismatch(expected_tag, tag))
        }
    }
}

proof fn lemma_skip_skip(s: Seq<u8>, a: int, b: int)
    requires
        0 <= a <= s.len(),
        0 <= b <= s.len() - a,
    ensures
        s.skip(a).skip(b) == s.skip(a + b),
{
    assert(s.skip(a).skip(b) =~= s.skip(a + b));
}

impl<'a> Deserializer<'a> {
    pub fn deserialize_bool(&mut self) -> (r: Result<bool, DecodeError>)
        ensures
            old(self).decodes(*final(self), r, spec_decode_primitive(old(self).input(), old(self).peeked(),
                old(self).spec_expected(spec_tag_boolean()), |s: Seq<u8>, l: nat| spec_read_boolean(s, l))),
    {
        let ghost orig = self.input();
        let tag = self.override_tag(tag_boolean());
        let len = match self.decode_primitive(tag) {
            Ok(l) => l,
            Err(e) => {
                return Err(e);
            },
        };
        let ghost mid = self.input();
        proof {
            lemma_skip_suffix(orig, orig.len() - mid.len());
        }
        match read_boolean(&mut self.inner, len) {
            Ok(v) => {
                proof {
                    lemma_skip_skip(orig, orig.len() - mid.len(), mid.len() - self.inner@.len());
                }
                Ok(v)
            },
            Err(e) => {
                proof {
                    lemma_suffix_trans(self.input(), mid, orig);
                }
                Err(decode_error_of(e))
            },
        }
    }

    pub fn deserialize_i8(&mut self) -> (r: Result<i8, DecodeError>)
        ensures
            old(self).decodes(*final(self), r, spec_decode_primitive(old(self).input(), old(self).peeked(),
                old(self).spec_expected(spec_tag_integer()), |s: Seq<u8>, l: nat| map_value(spec_read_signed(s, l, 1), |v: int| v as i8))),
    {
        let ghost orig = self.input();
        let tag = self.override_tag(tag_integer());
        let len = match self.decode_primitive(tag) {
            Ok(l) => l,
            Err(e) => {
                return Err(e);
            },
        };
        let ghost mid = self.input();
        proof {
            lemma_skip_suffix(orig, orig.len() - mid.len());
        }
        match read_i8(&mut self.inner, len) {
            Ok(v) => {
                proof {
                    lemma_skip_skip(orig, orig.len() - mid.len(), mid.len() - self.inner@.len());
                }
                Ok(v)
            },
            Err(e) => {
                proof {
                    lemma_suffix_trans(self.input(), mid, orig);
                }
                Err(decode_error_of(e))
            },
        }
    }

    pub fn deserialize_i16(&mut self) -> (r: Result<i16, DecodeError>)
        ensures
            old(self).decodes(*final(self), r, spec_decode_primitive(old(self).input(), old(self).peeked(),
                old(self).spec_expected(spec_tag_integer()), |s: Seq<u8>, l: nat| map_value(spec_read_signed(s, l, 2), |v: int| v as i16))),
    {
        let ghost orig = self.input();
        let tag = self.override_tag(tag_integer());
        let len = match self.decode_primitive(tag) {
            Ok(l) => l,
            Err(e) => {
                return Err(e);
            },
        };
        let ghost mid = self.input();
        proof {
            lemma_skip_suffix(orig, orig.len() - mid.len());
        }
        match read_i16(&mut self.inner, len) {
            Ok(v) => {
                proof {
                    lemma_skip_skip(orig, orig.len() - mid.len(), mid.len() - self.inner@.len());
                }
                Ok(v)
            },
            Err(e) => {
                proof {
                    lemma_suffix_trans(self.input(), mid, orig);
                }
                Err(decode_error_of(e))
            },
        }
    }

    pub fn deserialize_i32(&mut self) -> (r: Result<i32, DecodeError>)
        ensures
            old(self).decodes(*final(self), r, spec_decode_primitive(old(self).input(), old(self).peeked(),
                old(self).spec_expected(spec_tag_integer()), |s: Seq<u8>, l: nat| map_value(spec_read_signed(s, l, 4), |v: int| v as i32))),
    {
        let ghost orig = self.input();
        let tag = self.override_tag(tag_integer());
        let len = match self.decode_primitive(tag) {
            Ok(l) => l,
            Err(e) => {
                return Err(e);
            },
        };
        let ghost mid = self.input();
        proof {
            lemma_skip_suffix(orig, orig.len() - mid.len());
        }
        match read_i32(&mut self.inner, len) {
            Ok(v) => {
                proof {
                    lemma_skip_skip(orig, orig.len() - mid.len(), mid.len() - self.inner@.len());
                }
                Ok(v)
            },
            Err(e) => {
                proof {
                    lemma_suffix_trans(self.input(), mid, orig);
                }
                Err(decode_error_of(e))
            },
        }
    }

    pub fn deserialize_i64(&mut self) -> (r: Result<i64, DecodeError>)
        ensures
            old(self).decodes(*final(self), r, spec_decode_primitive(old(self).input(), old(self).peeked(),
                old(self).spec_expected(spec_tag_integer()), |s: Seq<u8>, l: nat| map_value(spec_read_signed(s, l, 8), |v: int| v as i64))),
    {
        let ghost orig = self.input();
        let tag = self.override_tag(tag_integer());
        let len = match self.decode_primitive(tag) {
            Ok(l) => l,
            Err(e) => {
                return Err(e);
            },
        };
        let ghost mid = self.input();
        proof {
            lemma_skip_suffix(orig, orig.len() - mid.len());
        }
        match read_i64(&mut self.inner, len) {
            Ok(v) => {
                proof {
                    lemma_skip_skip(orig, orig.len() - mid.len(), mid.len() - self.inner@.len());
                }
                Ok(v)
            },
            Err(e) => {
                proof {
                    lemma_suffix_trans(self.input(), mid, orig);
                }
                Err(decode_error_of(e))
            },
        }
    }

    pub fn deserialize_u8(&mut self) -> (r: Result<u8, DecodeError>)
        ensures
            old(self).decodes(*final(self), r, spec_decode_primitive(old(self).input(), old(self).peeked(),
                old(self).spec_expected(spec_tag_integer()), |s: Seq<u8>, l: nat| map_value(spec_read_unsigned(s, l, 1), |v: nat| v as u8))),
    {
        let ghost orig = self.input();
        let tag = self.override_tag(tag_integer());
        let len = match self.decode_primitive(tag) {
            Ok(l) => l,
            Err(e) => {
                return Err(e);
            },
        };
        let ghost mid = self.input();
        proof {
            lemma_skip_suffix(orig, orig.len() - mid.len());
        }
        match read_u8(&mut self.inner, len) {
            Ok(v) => {
                proof {
                    lemma_skip_skip(orig, orig.len() - mid.len(), mid.len() - self.inner@.len());
                }
                Ok(v)
            },
            Err(e) => {
                proof {
                    lemma_suffix_trans(self.input(), mid, orig);
                }
                Err(decode_error_of(e))
            },
        }
    }

    pub fn deserialize_u16(&mut self) -> (r: Result<u16, DecodeError>)
        ensures
            old(self).decodes(*final(self), r, spec_decode_primitive(old(self).input(), old(self).peeked(),
                old(self).spec_expected(spec_tag_integer()), |s: Seq<u8>, l: nat| map_value(spec_read_unsigned(s, l, 2), |v: nat| v as u16))),
    {
        let ghost orig = self.input();
        let tag = self.override_tag(tag_integer());
        let len = match self.decode_primitive(tag) {
            Ok(l) => l,
            Err(e) => {
                return Err(e);
            },
        };
        let ghost mid = self.input();
        proof {
            lemma_skip_suffix(orig, orig.len() - mid.len());
        }
        match read_u16(&mut self.inner, len) {
            Ok(v) => {
                proof {
                    lemma_skip_skip(orig, orig.len() - mid.len(), mid.len() - self.inner@.len());
                }
                Ok(v)
            },
            Err(e) => {
                proof {
                    lemma_suffix_trans(self.input(), mid, orig);
                }
                Err(decode_error_of(e))
            },
        }
    }

    pub fn deserialize_u32(&mut self) -> (r: Result<u32, DecodeError>)
        ensures
            old(self).decodes(*final(self), r, spec_decode_primitive(old(self).input(), old(self).peeked(),
                old(self).spec_expected(spec_tag_integer()), |s: Seq<u8>, l: nat| map_value(spec_read_unsigned(s, l, 4), |v: nat| v as u32))),
    {
        let ghost orig = self.input();
        let tag = self.override_tag(tag_integer());
        let len = match self.decode_primitive(tag) {
            Ok(l) => l,
            Err(e) => {
                return Err(e);
            },
        };
        let ghost mid = self.input();
        proof {
            lemma_skip_suffix(orig, orig.len() - mid.len());
        }
        match read_u32(&mut self.inner, len) {
            Ok(v) => {
                proof {
                    lemma_skip_skip(orig, orig.len() - mid.len(), mid.len() - self.inner@.len());
                }
                Ok(v)
            },
            Err(e) => {
                proof {
                    lemma_suffix_trans(self.input(), mid, orig);
                }
                Err(decode_error_of(e))
            },
        }
    }

    pub fn deserialize_u64(&mut self) -> (r: Result<u64, DecodeError>)
        ensures
            old(self).decodes(*final(self), r, spec_decode_primitive(old(self).input(), old(self).peeked(),
                old(self).spec_expected(spec_tag_integer()), |s: Seq<u8>, l: nat| map_value(spec_read_unsigned(s, l, 8), |v: nat| v as u64))),
    {
        let ghost orig = self.input();
        let tag = self.override_tag(tag_integer());
        let len = match self.decode_primitive(tag) {
            Ok(l) => l,
            Err(e) => {
                return Err(e);
            },
        };
        let ghost mid = self.input();
        proof {
            lemma_skip_suffix(orig, orig.len() - mid.len());
        }
        match read_u64(&mut self.inner, len) {
            Ok(v) => {
                proof {
                    lemma_skip_skip(orig, orig.len() - mid.len(), mid.len() - self.inner@.len());
                }
                Ok(v)
            },
            Err(e) => {
                proof {
                    lemma_suffix_trans(self.input(), mid, orig);
                }
                Err(decode_error_of(e))
            },
        }
    }

    pub fn deserialize_bit_string(&mut self) -> (r: Result<(u8, Vec<u8>), DecodeError>)
        ensures
            old(self).decodes_view(*final(self), r, spec_decode_primitive(old(self).input(), old(self).peeked(),
                old(self).spec_expected(spec_tag_bit_string()), |s: Seq<u8>, l: nat| spec_read_bit_string(s, l))),
    {
        let ghost orig = self.input();
        let tag = self.override_tag(tag_bit_string());
        let len = match self.decode_primitive(tag) {
            Ok(l) => l,
            Err(e) => {
                return Err(e);
            },
        };
        let ghost mid = self.input();
        proof {
            lemma_skip_suffix(orig, orig.len() - mid.len());
        }
        match read_bit_string(&mut self.inner, len) {
            Ok(v) => {
                proof {
                    lemma_skip_skip(orig, orig.len() - mid.len(), mid.len() - self.inner@.len());
                }
                Ok(v)
            },
            Err(e) => {
                proof {
                    lemma_suffix_trans(self.input(), mid, orig);
                }
                Err(decode_error_of(e))
            },
        }
    }

    pub fn deserialize_bytes(&mut self) -> (r: Result<Vec<u8>, DecodeError>)
        ensures
            old(self).decodes_view(*final(self), r, spec_decode_primitive(old(self).input(), old(self).peeked(),
                old(self).spec_expected(spec_tag_octet_string()), |s: Seq<u8>, l: nat| spec_read_octet_string(s, l))),
    {
        let ghost orig = self.input();
        let tag = self.override_tag(tag_octet_string());
        let len = match self.decode_primitive(tag) {
            Ok(l) => l,
            Err(e) => {
                return Err(e);
            },
        };
        let ghost mid = self.input();
        proof {
            lemma_skip_suffix(orig, orig.len() - mid.len());
        }
        match read_octet_string(&mut self.inner, len) {
            Ok(v) => {
                proof {
                    lemma_skip_skip(orig, orig.len() - mid.len(), mid.len() - self.inner@.len());
                }
                Ok(v)
            },
            Err(e) => {
                proof {
                    lemma_suffix_trans(self.input(), mid, orig);
                }
                Err(decode_error_of(e))
            },
        }
    }

    pub fn deserialize_object_identifier(&mut self) -> (r: Result<Vec<u64>, DecodeError>)
        ensures
            old(self).decodes_view(*final(self), r, spec_decode_primitive(old(self).input(), old(self).peeked(),
                old(self).spec_expected(spec_tag_object_identifier()), |s: Seq<u8>, l: nat| spec_read_object_identifier(s, l))),
    {
        let ghost orig = self.input();
        let tag = self.override_tag(tag_object_identifier());
        let len = match self.decode_primitive(tag) {
            Ok(l) => l,
            Err(e) => {
                return Err(e);
            },
        };
        let ghost mid = self.input();
        proof {
            lemma_skip_suffix(orig, orig.len() - mid.len());
        }
        match read_object_identifier(&mut self.inner, len) {
            Ok(v) => {
                proof {
                    lemma_skip_skip(orig, orig.len() - mid.len(), mid.len() - self.inner@.len());
                }
                Ok(v)
            },
            Err(e) => {
                proof {
                    lemma_suffix_trans(self.input(), mid, orig);
                }
                Err(decode_error_of(e))
            },
        }
    }

    pub fn deserialize_null(&mut self) -> (r: Result<(), DecodeError>)
        ensures
            old(self).decodes(*final(self), r, match spec_decode_header(old(self).input(), old(self).peeked(),
                old(self).spec_expected(spec_tag_null())) {
                Ok((len, n)) => if len == 0 {
                    Ok(((), n))
                } else {
                    Err(DecodeKind::InvalidLength)
                },
                Err(k) => Err(k),
            }),
    {
        let tag = self.override_tag(tag_null());
        let len = match self.decode_primitive(tag) {
            Ok(l) => l,
            Err(e) => {
                return Err(e);
            },
        };
        if len == 0 {
            Ok(())
        } else {
            Err(DecodeError::InvalidLength("non-zero length"))
        }
    }

    /// Explicit tagging: DER reads it as implicit tagging.
    pub fn deserialize_tagged(&mut self, tag: Tag) -> (r: Result<(), DecodeError>)
        ensures
            r is Ok,
            final(self).input() == old(self).input(),
            final(self).peeked() == old(self).peeked(),
            final(self).implicit() == Some(tag),
    {
        self.deserialize_tagged_implicit(tag)
    }

    /// The next value is read under `tag` in place of its own.
    pub fn deserialize_tagged_implicit(&mut self, tag: Tag) -> (r: Result<(), DecodeError>)
        ensures
            r is Ok,
            final(self).input() == old(self).input(),
            final(self).peeked() == old(self).peeked(),
            final(self).implicit() == Some(tag),
    {
        self.implicit_tag = Some(tag);
        Ok(())
    }
}

impl<'a> SeqAccessor<'a> {
    #[verifier::type_invariant]
    spec fn inv(self) -> bool {
        self.pos <= self.end <= self.data@.len() && self.end <= self.limit
    }

    /// The input that the sequence's content was cut from.
    pub closed spec fn base(&self) -> Seq<u8> {
        self.data@
    }

    /// How much of the content has been read.
    pub closed spec fn consumed(&self) -> nat {
        self.pos as nat
    }

    /// The content not yet read that the input holds.
    pub closed spec fn rest(&self) -> Seq<u8> {
        self.data@.subrange(self.pos as int, self.end as int)
    }

    /// The declared content length not yet read.
    pub closed spec fn left(&self) -> nat {
        (self.limit - self.pos) as nat
    }

    /// The declared content length not yet read.
    pub fn remaining(&self) -> (n: u64)
        ensures
            n == self.left(),
    {
        proof {
            use_type_invariant(self);
        }
        self.limit - self.pos as u64
    }

    /// Reads the next field of the sequence from what is left of its content.
    pub fn next_field<V: Asn1Deserialize>(&mut self) -> (r: Result<V, DecodeError>)
        requires
            V::obeys_asn1_decode() ==> V::spec_asn1_readable(old(self).rest(), None, None),
        ensures
            final(self).base() == old(self).base(),
            old(self).consumed() <= final(self).consumed() <= old(self).consumed() + old(self).rest().len(),
            final(self).consumed() + final(self).left() == old(self).consumed() + old(self).left(),
            final(self).rest() == old(self).rest().skip(final(self).consumed() - old(self).consumed()),
            V::obeys_asn1_decode() ==> match V::spec_asn1_decode(old(self).rest(), None, None) {
                Ok((v, n)) => {
                    &&& r matches Ok(x) && x.spec_model() == v
                    &&& final(self).consumed() == old(self).consumed() + n
                },
                Err(k) => r matches Err(e) && e.kind() == k,
            },
    {
        proof {
            use_type_invariant(&*self);
        }
        let rest: &[u8] = &self.data[self.pos..self.end];
        let mut d = Deserializer::new(rest);
        let r = V::asn1_deserialize(&mut d);
        let used: usize = if d.inner.len() <= rest.len() {
            rest.len() - d.inner.len()
        } else {
            0
        };
        let ghost old_self = *self;
        self.pos = self.pos + used;
        proof {
            if V::obeys_asn1_decode() && r is Ok {
                let n = V::spec_asn1_decode(rest@, None, None)->Ok_0.1;
                assert(used == n);
            }
            assert(self.rest() =~= old_self.rest().skip(used as int));
        }
        r
    }
}

impl<'a> Deserializer<'a> {
    /// Reads the header of a SEQUENCE (under the implicit tag, if any) and returns
    /// its content to be read; the input is left just after the header.
    pub(crate) fn begin_seq(&mut self) -> (r: Result<SeqAccessor<'a>, DecodeError>)
        ensures
            match spec_decode_header(old(self).input(), old(self).peeked(), old(self).spec_expected(spec_tag_sequence())) {
                Ok((len, n)) => {
                    &&& r matches Ok(acc) && {
                        &&& acc.base() == old(self).input().skip(n)
                        &&& acc.consumed() == 0
                        &&& acc.rest() == old(self).input().skip(n).take(min(len as int, old(self).input().len() - n))
                        &&& acc.left() == len
                    }
                    &&& 0 <= n <= old(self).input().len()
                    &&& final(self).input() == old(self).input().skip(n)
                    &&& final(self).peeked() is None
                    &&& final(self).implicit() is None
                },
                Err(k) => r matches Err(e) && e.kind() == k,
            },
            is_suffix(final(self).input(), old(self).input()),
    {
        let tag = self.override_tag(tag_sequence());
        let len = match self.decode_primitive(tag) {
            Ok(l) => l,
            Err(e) => {
                return Err(e);
            },
        };
        proof {
            let n = spec_decode_header(old(self).input(), old(self).peeked(), tag)->Ok_0.1;
            lemma_skip_suffix(old(self).input(), n);
        }
        let end = if len < self.inner.len() { len } else { self.inner.len() };
        let acc = SeqAccessor { data: self.inner, pos: 0, end: end, limit: len as u64 };
        assert(acc.rest() =~= self.inner@.take(end as int));
        Ok(acc)
    }

    /// Moves the input past what `acc` has read of the sequence's content.
    pub(crate) fn end_seq(&mut self, acc: SeqAccessor<'a>)
        ensures
            old(self).input() == acc.base() ==> final(self).input() == old(self).input().skip(acc.consumed() as int),
            is_suffix(final(self).input(), old(self).input()),
            final(self).peeked() == old(self).peeked(),
            final(self).implicit() == old(self).implicit(),
    {
        proof {
            use_type_invariant(&acc);
        }
        let used: usize = if acc.pos <= self.inner.len() {
            acc.pos
        } else {
            self.inner.len()
        };
        self.inner = &self.inner[used..self.inner.len()];
        assert(self.inner@ =~= old(self).input().skip(old(self).input().len() - self.inner@.len()));
    }

    /// Reads a SEQUENCE (under the implicit tag, if any): its header, then
    /// `visitor` reads the fields from the content, whatever its declared length,
    /// and its result is returned. The input moves past what the visitor read.
    pub fn deserialize_seq<V: Asn1Visitor>(&mut self, visitor: V) -> (r: Result<V::Value, DecodeError>)
        ensures
            match spec_decode_header(old(self).input(), old(self).peeked(), old(self).spec_expected(spec_tag_sequence())) {
                Ok((len, n)) => {
                    &&& is_suffix(final(self).input(), old(self).input().skip(n))
                    &&& final(self).peeked() is None
                    &&& final(self).implicit() is None
                    &&& refused(r, "SEQUENCE or SEQUENCE OF") || visitor.spec_visit_seq(
                        old(self).input().skip(n).take(min(len as int, old(self).input().len() - n)),
                        len as nat,
                        r,
                    )
                },
                Err(k) => r matches Err(e) && e.kind() == k,
            },
    {
        let mut acc = match self.begin_seq() {
            Ok(a) => a,
            Err(e) => {
                return Err(e);
            },
        };
        let r = visitor.visit_seq(&mut acc);
        self.end_seq(acc);
        r
    }

    /// Reads a CHOICE: the tag in front is read ahead, and `visitor` reads the
    /// value under that tag from this deserializer, and its result is returned.
    pub fn deserialize_choice<V: Asn1Visitor>(&mut self, visitor: V) -> (r: Result<V::Value, DecodeError>)
        ensures
            match spec_next_tag(old(self).input(), old(self).peeked()) {
                Ok((t, n)) => (refused(r, "CHOICE") && final(self).input() == old(self).input().skip(n))
                    || visitor.spec_visit_choice(t, old(self).input().skip(n), final(self).input(), r),
                Err(f) => r matches Err(e) && e.kind() == kind_of_read(f),
            },
    {
        let tag = match self.peek_tag() {
            Ok(t) => t,
            Err(e) => {
                return Err(e);
            },
        };
        self.implicit_tag = Some(tag);
        visitor.visit_choice(&tag, self)
    }
}

pub proof fn lemma_read_tag_consumes(s: Seq<u8>)
    ensures
        spec_read_tag(s) matches Ok((t, n)) ==> 1 <= n <= s.len(),
{
    if s.len() > 0 {
        lemma_base128_from_len(s.drop_first(), 0);
    }
}

pub proof fn lemma_read_len_def_consumes(s: Seq<u8>)
    ensures
        spec_read_len_def(s) matches Ok((l, n)) ==> 1 <= n <= s.len(),
{
}

/// A header read takes at least one byte (the length), and no more than there is.
pub proof fn lemma_decode_header_consumes(input: Seq<u8>, peeked: Option<Tag>, expected: Tag)
    ensures
        spec_decode_header(input, peeked, expected) matches Ok((len, n)) ==> 1 <= n <= input.len(),
{
    if peeked is None {
        lemma_read_tag_consumes(input);
    }
    match spec_next_tag(input, peeked) {
        Ok((t, n)) => {
            if peeked is Some {
                assert(n == 0);
            }
            lemma_read_len_def_consumes(input.skip(n));
        },
        Err(_) => {},
    }
}

} // verus!
