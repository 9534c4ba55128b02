use vstd::prelude::*;

use crate::de::Asn1Deserialize;
use crate::der::read::spec_read_octet_string;
use crate::der::reader::{spec_decode_primitive, DecodeError, DecodeKind, Deserializer};
use crate::der::writer::{tag_or, EncodeError, Serializer};
use crate::info::tag::Tag;
use crate::info::universal::{spec_tag_octet_string, tag_octet_string, TYPE_OCTET_STRING};
use crate::info::{Asn1DisplayExt, Asn1Tagged, Asn1Typed};
use crate::ser::write::spec_primitive_bytes;
use crate::ser::Asn1Serialize;
use crate::text::{ascii_string, hex_text, labeled, lemma_ascii_valid_utf8, spec_hex_text, string_from_utf8};
use vstd::pervasive::arbitrary;
use vstd::string::StringSliceAdditionalSpecFns;
use vstd::utf8::{encode_utf8, valid_utf8};

verus! {

/// ASN.1 OCTET STRING.
#[derive(Debug, PartialEq, Eq, PartialOrd, Ord)]
pub struct OctetString(Vec<u8>);

impl View for OctetString {
    type V = Seq<u8>;

    closed spec fn view(&self) -> Seq<u8> {
        self.0@
    }
}

impl Clone for OctetString {
    fn clone(&self) -> (o: Self)
        ensures
            o@ == self@,
    {
        let data = self.0.clone();
        assert(data@ =~= self.0@);
        OctetString(data)
    }
}

impl OctetString {
    pub fn new(data: Vec<u8>) -> (s: Self)
        ensures
            s@ == data@,
    {
        OctetString(data)
    }

    pub fn into_inner(self) -> (v: Vec<u8>)
        ensures
            v@ == self@,
    {
        self.0
    }

    pub fn as_slice(&self) -> (s: &[u8])
        ensures
            s@ == self@,
    {
        self.0.as_slice()
    }

    /// The octets, to be changed in place.
    pub fn as_mut_slice(&mut self) -> (s: &mut [u8])
        ensures
            s@ == old(self)@,
            final(self)@ == final(s)@,
    {
        self.0.as_mut_slice()
    }

    pub fn from_slice(v: &[u8]) -> (s: Self)
        ensures
            s@ == v@,
    {
        OctetString(vstd::slice::slice_to_vec(v))
    }

    /// The octets as text: themselves when they are valid UTF-8, else each
    /// octet in upper-case hexadecimal, separated by spaces.
    pub fn to_string(&self) -> (s: String)
        ensures
            encode_utf8(s@) == spec_octet_string_text(self@),
    {
        let bytes = self.0.clone();
        assert(bytes@ =~= self@);
        match string_from_utf8(bytes) {
            Some(s) => s,
            None => ascii_string(hex_text(self.0.as_slice())),
        }
    }

    /// The octets of a string's UTF-8 encoding.
    pub fn from_str(v: &str) -> (s: Self)
        ensures
            s@ == v.spec_bytes(),
    {
        OctetString(vstd::slice::slice_to_vec(v.as_bytes()))
    }
}

/// The text of an OCTET STRING: its octets when they are valid UTF-8, else each
/// octet in upper-case hexadecimal, separated by spaces.
pub open spec fn spec_octet_string_text(data: Seq<u8>) -> Seq<u8> {
    if valid_utf8(data) {
        data
    } else {
        spec_hex_text(data)
    }
}

impl From<&[u8]> for OctetString {
    fn from(v: &[u8]) -> (s: OctetString)
        ensures
            s@ == v@,
    {
        OctetString::from_slice(v)
    }
}

/// What `from` gives is stated on the impl itself: the octets of the slice.
impl vstd::std_specs::convert::FromSpecImpl<&[u8]> for OctetString {
    open spec fn obeys_from_spec() -> bool {
        false
    }

    closed spec fn from_spec(v: &[u8]) -> OctetString {
        arbitrary()
    }
}

impl From<Vec<u8>> for OctetString {
    fn from(v: Vec<u8>) -> (s: OctetString) {
        OctetString(v)
    }
}

impl vstd::std_specs::convert::FromSpecImpl<Vec<u8>> for OctetString {
    open spec fn obeys_from_spec() -> bool {
        true
    }

    closed spec fn from_spec(v: Vec<u8>) -> OctetString {
        OctetString(v)
    }
}

impl Asn1Tagged for OctetString {
    fn asn1_tag() -> (t: Tag)
        ensures
            t == spec_tag_octet_string(),
    {
        tag_octet_string()
    }
}

impl Asn1Typed for OctetString {
    fn asn1_type() -> (t: &'static str)
        ensures
            t@ == TYPE_OCTET_STRING@,
    {
        TYPE_OCTET_STRING
    }
}

impl Asn1Serialize for OctetString {
    open spec fn spec_serializable(&self) -> bool {
        true
    }

    open spec fn spec_der(&self, tag: Option<Tag>) -> Seq<u8> {
        spec_primitive_bytes(tag_or(tag, spec_tag_octet_string()), self@)
    }

    fn asn1_serialize(&self, serializer: &mut Serializer) -> (r: Result<(), EncodeError>) {
        serializer.serialize_bytes(self.as_slice())
    }
}

impl Asn1Deserialize for OctetString {
    type Model = Seq<u8>;

    open spec fn obeys_asn1_decode() -> bool {
        true
    }

    open spec fn spec_model(&self) -> Seq<u8> {
        self@
    }

    open spec fn spec_asn1_decode(input: Seq<u8>, peeked: Option<Tag>, implicit: Option<Tag>) -> Result<(Seq<u8>, int), DecodeKind> {
        spec_decode_primitive(input, peeked, tag_or(implicit, spec_tag_octet_string()), |s: Seq<u8>, l: nat| spec_read_octet_string(s, l))
    }

    fn asn1_deserialize(deserializer: &mut Deserializer) -> (r: Result<Self, DecodeError>) {
        match deserializer.deserialize_bytes() {
            Ok(v) => Ok(OctetString::new(v)),
            Err(e) => Err(e),
        }
    }
}

impl Asn1DisplayExt for OctetString {
    fn asn1_fmt(&self) -> (s: String)
        ensures
            encode_utf8(s@) == TYPE_OCTET_STRING.spec_bytes() + seq![58u8, 32u8] + spec_octet_string_text(self@),
    {
        let bytes = self.0.clone();
        assert(bytes@ =~= self@);
        match string_from_utf8(bytes) {
            Some(_) => labeled(TYPE_OCTET_STRING, self.0.as_slice()),
            None => {
                let hex = hex_text(self.0.as_slice());
                proof {
                    lemma_ascii_valid_utf8(hex@);
                }
                labeled(TYPE_OCTET_STRING, hex.as_slice())
            },
        }
    }
}

} // verus!
