use vstd::prelude::*;

use crate::de::Asn1Deserialize;
use crate::der::read::spec_read_boolean;
use crate::der::reader::{spec_decode_primitive, DecodeError, DecodeKind, Deserializer};
use crate::der::writer::{tag_or, EncodeError, Serializer};
use crate::info::tag::Tag;
use crate::info::universal::{spec_tag_boolean, tag_boolean, TYPE_BOOLEAN};
use crate::info::{Asn1DisplayExt, Asn1Tagged, Asn1Typed};
use crate::text::labeled;
use vstd::string::StringSliceAdditionalSpecFns;
use vstd::utf8::{encode_utf8, encode_utf8_valid_utf8};
use crate::ser::write::{spec_bool_content, spec_primitive_bytes};
use crate::ser::Asn1Serialize;

verus! {

impl Asn1Tagged for bool {
    fn asn1_tag() -> (t: Tag)
        ensures
            t == spec_tag_boolean(),
    {
        tag_boolean()
    }
}

impl Asn1Typed for bool {
    fn asn1_type() -> (t: &'static str)
        ensures
            t@ == TYPE_BOOLEAN@,
    {
        TYPE_BOOLEAN
    }
}

impl Asn1Serialize for bool {
    open spec fn spec_serializable(&self) -> bool {
        true
    }

    open spec fn spec_der(&self, tag: Option<Tag>) -> Seq<u8> {
        spec_primitive_bytes(tag_or(tag, spec_tag_boolean()), spec_bool_content(*self))
    }

    fn asn1_serialize(&self, serializer: &mut Serializer) -> (r: Result<(), EncodeError>) {
        serializer.serialize_bool(*self)
    }
}

impl Asn1Deserialize for bool {
    type Model = bool;

    open spec fn obeys_asn1_decode() -> bool {
        true
    }

    open spec fn spec_model(&self) -> bool {
        *self
    }

    open spec fn spec_asn1_decode(input: Seq<u8>, peeked: Option<Tag>, implicit: Option<Tag>) -> Result<(bool, int), DecodeKind> {
        spec_decode_primitive(input, peeked, tag_or(implicit, spec_tag_boolean()), |s: Seq<u8>, l: nat| spec_read_boolean(s, l))
    }

    fn asn1_deserialize(deserializer: &mut Deserializer) -> (r: Result<Self, DecodeError>) {
        deserializer.deserialize_bool()
    }
}

impl Asn1DisplayExt for bool {
    fn asn1_fmt(&self) -> (s: String)
        ensures
            encode_utf8(s@) == TYPE_BOOLEAN.spec_bytes() + seq![58u8, 32u8] + (if *self {
                "true".spec_bytes()
            } else {
                "false".spec_bytes()
            }),
    {
        let text: &str = if *self {
            "true"
        } else {
            "false"
        };
        proof {
            encode_utf8_valid_utf8(text@);
        }
        labeled(TYPE_BOOLEAN, text.as_bytes())
    }
}

} // verus!
