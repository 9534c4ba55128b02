use vstd::prelude::*;

use crate::de::Asn1Deserialize;
use crate::der::read::spec_read_bit_string;
use crate::der::reader::{spec_decode_primitive, DecodeError, DecodeKind, Deserializer};
use crate::der::writer::{tag_or, EncodeError, Serializer};
use crate::info::tag::Tag;
use crate::info::universal::{spec_tag_bit_string, tag_bit_string, TYPE_BIT_STRING};
use crate::info::{Asn1DisplayExt, Asn1Tagged, Asn1Typed};
use crate::ser::write::spec_primitive_bytes;
use crate::ser::Asn1Serialize;
use crate::text::{ascii_string, binary_text, labeled, lemma_ascii_valid_utf8, spec_binary_text};
use vstd::string::StringSliceAdditionalSpecFns;
use vstd::utf8::encode_utf8;

verus! {

/// ASN.1 BIT STRING: the bytes that hold the bits, and how many bits of the last
/// byte are unused.
#[derive(Debug, PartialEq, Eq, PartialOrd, Ord)]
pub struct BitString {
    unused: usize,
    data: Vec<u8>,
}

impl View for BitString {
    type V = (usize, Seq<u8>);

    closed spec fn view(&self) -> (usize, Seq<u8>) {
        (self.unused, self.data@)
    }
}

/// A bit string is well formed when fewer than 8 bits are unused, and none when
/// there are no bytes.
pub open spec fn bit_string_wf(unused: usize, data: Seq<u8>) -> bool {
    unused < 8 && (data.len() > 0 || unused == 0)
}

impl Clone for BitString {
    fn clone(&self) -> (b: Self)
        ensures
            b@ == self@,
    {
        proof {
            use_type_invariant(self);
        }
        let data = self.data.clone();
        assert(data@ =~= self.data@);
        BitString { unused: self.unused, data: data }
    }
}

impl BitString {
    #[verifier::type_invariant]
    spec fn inv(self) -> bool {
        bit_string_wf(self.unused, self.data@)
    }

    /// How many bits of the last byte are unused.
    pub fn unused_bits(&self) -> (u: usize)
        ensures
            u == self@.0,
    {
        self.unused
    }

    /// The bytes that hold the bits.
    pub fn as_slice(&self) -> (s: &[u8])
        ensures
            s@ == self@.1,
    {
        self.data.as_slice()
    }

    /// A bit string from its bytes and its unused bits, when they make a well
    /// formed one.
    pub fn from_parts(data: Vec<u8>, unused: usize) -> (b: Option<Self>)
        ensures
            b is Some <==> bit_string_wf(unused, data@),
            b matches Some(v) ==> v@ == (unused, data@),
    {
        if unused < 8 && (data.len() > 0 || unused == 0) {
            Some(BitString::from_vec(data, unused))
        } else {
            None
        }
    }

    /// The bytes in binary, one after another.
    pub fn to_string(&self) -> (s: String)
        ensures
            encode_utf8(s@) == spec_binary_text(self@.1),
    {
        ascii_string(binary_text(self.data.as_slice()))
    }

    fn from_vec(data: Vec<u8>, unused: usize) -> (b: Self)
        requires
            bit_string_wf(unused, data@),
        ensures
            b@ == (unused, data@),
    {
        BitString { unused: unused, data: data }
    }
}

impl Asn1Tagged for BitString {
    fn asn1_tag() -> (t: Tag)
        ensures
            t == spec_tag_bit_string(),
    {
        tag_bit_string()
    }
}

impl Asn1Typed for BitString {
    fn asn1_type() -> (t: &'static str)
        ensures
            t@ == TYPE_BIT_STRING@,
    {
        TYPE_BIT_STRING
    }
}

impl Asn1Serialize for BitString {
    open spec fn spec_serializable(&self) -> bool {
        self@.1.len() < usize::MAX
    }

    open spec fn spec_der(&self, tag: Option<Tag>) -> Seq<u8> {
        spec_primitive_bytes(tag_or(tag, spec_tag_bit_string()), seq![self@.0 as u8] + self@.1)
    }

    fn asn1_serialize(&self, serializer: &mut Serializer) -> (r: Result<(), EncodeError>) {
        proof {
            use_type_invariant(self);
        }
        serializer.serialize_bit_string((self.unused as u8, self.data.as_slice()))
    }
}

/// What reading a BIT STRING gives: the unused-bit count and the bytes.
pub open spec fn spec_decode_bit_string(input: Seq<u8>, peeked: Option<Tag>, implicit: Option<Tag>) -> Result<((usize, Seq<u8>), int), DecodeKind> {
    match spec_decode_primitive(input, peeked, tag_or(implicit, spec_tag_bit_string()), |s: Seq<u8>, l: nat| spec_read_bit_string(s, l)) {
        Ok(((u, bytes), n)) => Ok(((u as usize, bytes), n)),
        Err(k) => Err(k),
    }
}

/// A BIT STRING can be read unless its content has unused bits and no byte
/// for them (the input ends right after the count): no bit string has that
/// form.
pub open spec fn spec_bit_string_readable(input: Seq<u8>, peeked: Option<Tag>, implicit: Option<Tag>) -> bool {
    !(spec_decode_primitive(input, peeked, tag_or(implicit, spec_tag_bit_string()), |s: Seq<u8>, l: nat| spec_read_bit_string(s, l))
        matches Ok(((u, bytes), _)) && u > 0 && bytes.len() == 0)
}

impl Asn1Deserialize for BitString {
    type Model = (usize, Seq<u8>);

    open spec fn obeys_asn1_decode() -> bool {
        true
    }

    open spec fn spec_model(&self) -> (usize, Seq<u8>) {
        self@
    }

    open spec fn spec_asn1_decode(input: Seq<u8>, peeked: Option<Tag>, implicit: Option<Tag>) -> Result<((usize, Seq<u8>), int), DecodeKind> {
        spec_decode_bit_string(input, peeked, implicit)
    }

    open spec fn spec_asn1_readable(input: Seq<u8>, peeked: Option<Tag>, implicit: Option<Tag>) -> bool {
        spec_bit_string_readable(input, peeked, implicit)
    }

    fn asn1_deserialize(deserializer: &mut Deserializer) -> (r: Result<Self, DecodeError>) {
        match deserializer.deserialize_bit_string() {
            Ok((unused, bytes)) => Ok(BitString::from_vec(bytes, unused as usize)),
            Err(e) => Err(e),
        }
    }
}

impl Asn1DisplayExt for BitString {
    fn asn1_fmt(&self) -> (s: String)
        ensures
            encode_utf8(s@) == TYPE_BIT_STRING.spec_bytes() + seq![58u8, 32u8] + spec_binary_text(self@.1),
    {
        let text = binary_text(self.data.as_slice());
        proof {
            lemma_ascii_valid_utf8(text@);
        }
        labeled(TYPE_BIT_STRING, text.as_slice())
    }
}

} // verus!
