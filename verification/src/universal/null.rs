use vstd::prelude::*;

use crate::de::Asn1Deserialize;
use crate::der::reader::{spec_decode_header, DecodeError, DecodeKind, Deserializer};
use crate::der::writer::{tag_or, EncodeError, Serializer};
use crate::info::tag::Tag;
use crate::info::universal::{spec_tag_null, tag_null, TYPE_NULL};
use crate::info::{Asn1Tagged, Asn1Typed};
use crate::ser::write::spec_primitive_bytes;
use crate::ser::Asn1Serialize;

verus! {

impl Asn1Tagged for () {
    fn asn1_tag() -> (t: Tag)
        ensures
            t == spec_tag_null(),
    {
        tag_null()
    }
}

impl Asn1Typed for () {
    fn asn1_type() -> (t: &'static str)
        ensures
            t@ == TYPE_NULL@,
    {
        TYPE_NULL
    }
}

impl Asn1Serialize for () {
    open spec fn spec_serializable(&self) -> bool {
        true
    }

    open spec fn spec_der(&self, tag: Option<Tag>) -> Seq<u8> {
        spec_primitive_bytes(tag_or(tag, spec_tag_null()), Seq::<u8>::empty())
    }

    fn asn1_serialize(&self, serializer: &mut Serializer) -> (r: Result<(), EncodeError>) {
        serializer.serialize_null()
    }
}

impl Asn1Deserialize for () {
    type Model = ();

    open spec fn obeys_asn1_decode() -> bool {
        true
    }

    open spec fn spec_model(&self) -> () {
        ()
    }

    open spec fn spec_asn1_decode(input: Seq<u8>, peeked: Option<Tag>, implicit: Option<Tag>) -> Result<((), int), DecodeKind> {
        match spec_decode_header(input, peeked, tag_or(implicit, spec_tag_null())) {
            Ok((len, n)) => if len == 0 {
                Ok(((), n))
            } else {
                Err(DecodeKind::InvalidLength)
            },
            Err(k) => Err(k),
        }
    }

    fn asn1_deserialize(deserializer: &mut Deserializer) -> (r: Result<Self, DecodeError>) {
        deserializer.deserialize_null()
    }
}

} // verus!
