pub mod tag;
pub mod universal;

use vstd::prelude::*;

pub use self::tag::{Class, ContentType, Len, LenNum, Tag, TagNum};
pub use self::universal::{
    tag_bit_string, tag_boolean, tag_integer, tag_null, tag_object_identifier, tag_octet_string,
    tag_real, tag_sequence, tag_set, TYPE_BIT_STRING, TYPE_BOOLEAN, TYPE_INTEGER, TYPE_NULL,
    TYPE_OBJECT_IDENTIFIER, TYPE_OCTET_STRING, TYPE_REAL, TYPE_SEQUENCE, TYPE_SEQUENCE_OF,
    TYPE_SET, TYPE_SET_OF,
};

verus! {

/// Types with an ASN.1 tag of their own.
pub trait Asn1Tagged {
    fn asn1_tag() -> Tag;
}

/// Types with an ASN.1 type name.
pub trait Asn1Typed {
    fn asn1_type() -> &'static str;
}

/// Types with both a tag and a type name.
pub trait Asn1Info: Asn1Tagged + Asn1Typed {}

/// Values written as their ASN.1 type name, a colon and a space, then their
/// text.
pub trait Asn1DisplayExt: Asn1Typed {
    fn asn1_fmt(&self) -> String;
}

} // verus!
