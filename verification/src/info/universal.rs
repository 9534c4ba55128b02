use vstd::prelude::*;

use super::tag::{Class, ContentType, Tag};

verus! {

pub open spec fn universal(tagnum: u64, content_type: ContentType) -> Tag {
    Tag { class: Class::Universal, tagnum, content_type }
}

pub open spec fn spec_tag_boolean() -> Tag {
    universal(0x01, ContentType::Primitive)
}

pub open spec fn spec_tag_integer() -> Tag {
    universal(0x02, ContentType::Primitive)
}

pub open spec fn spec_tag_bit_string() -> Tag {
    universal(0x03, ContentType::Primitive)
}

pub open spec fn spec_tag_octet_string() -> Tag {
    universal(0x04, ContentType::Primitive)
}

pub open spec fn spec_tag_null() -> Tag {
    universal(0x05, ContentType::Primitive)
}

pub open spec fn spec_tag_object_identifier() -> Tag {
    universal(0x06, ContentType::Primitive)
}

pub open spec fn spec_tag_real() -> Tag {
    universal(0x09, ContentType::Primitive)
}

pub open spec fn spec_tag_sequence() -> Tag {
    universal(0x10, ContentType::Constructed)
}

pub open spec fn spec_tag_set() -> Tag {
    universal(0x11, ContentType::Constructed)
}

/// The UNIVERSAL tag of BOOLEAN.
pub fn tag_boolean() -> (t: Tag)
    ensures
        t == spec_tag_boolean(),
{
    Tag { class: Class::Universal, tagnum: 0x01, content_type: ContentType::Primitive }
}

/// The UNIVERSAL tag of INTEGER.
pub fn tag_integer() -> (t: Tag)
    ensures
        t == spec_tag_integer(),
{
    Tag { class: Class::Universal, tagnum: 0x02, content_type: ContentType::Primitive }
}

/// The UNIVERSAL tag of BIT STRING.
pub fn tag_bit_string() -> (t: Tag)
    ensures
        t == spec_tag_bit_string(),
{
    Tag { class: Class::Universal, tagnum: 0x03, content_type: ContentType::Primitive }
}

/// The UNIVERSAL tag of OCTET STRING.
pub fn tag_octet_string() -> (t: Tag)
    ensures
        t == spec_tag_octet_string(),
{
    Tag { class: Class::Universal, tagnum: 0x04, content_type: ContentType::Primitive }
}

/// The UNIVERSAL tag of NULL.
pub fn tag_null() -> (t: Tag)
    ensures
        t == spec_tag_null(),
{
    Tag { class: Class::Universal, tagnum: 0x05, content_type: ContentType::Primitive }
}

/// The UNIVERSAL tag of OBJECT IDENTIFIER.
pub fn tag_object_identifier() -> (t: Tag)
    ensures
        t == spec_tag_object_identifier(),
{
    Tag { class: Class::Universal, tagnum: 0x06, content_type: ContentType::Primitive }
}

/// The UNIVERSAL tag of REAL.
pub fn tag_real() -> (t: Tag)
    ensures
        t == spec_tag_real(),
{
    Tag { class: Class::Universal, tagnum: 0x09, content_type: ContentType::Primitive }
}

/// The UNIVERSAL tag of SEQUENCE and SEQUENCE OF.
pub fn tag_sequence() -> (t: Tag)
    ensures
        t == spec_tag_sequence(),
{
    Tag { class: Class::Universal, tagnum: 0x10, content_type: ContentType::Constructed }
}

/// The UNIVERSAL tag of SET and SET OF.
pub fn tag_set() -> (t: Tag)
    ensures
        t == spec_tag_set(),
{
    Tag { class: Class::Universal, tagnum: 0x11, content_type: ContentType::Constructed }
}

pub const TYPE_BOOLEAN: &'static str = "BOOLEAN";
pub const TYPE_INTEGER: &'static str = "INTEGER";
pub const TYPE_BIT_STRING: &'static str = "BIT STRING";
pub const TYPE_OCTET_STRING: &'static str = "OCTET STRING";
pub const TYPE_NULL: &'static str = "NULL";
pub const TYPE_OBJECT_IDENTIFIER: &'static str = "OBJECT IDENTIFIER";
pub const TYPE_REAL: &'static str = "REAL";
pub const TYPE_SEQUENCE: &'static str = "SEQUENCE";
pub const TYPE_SEQUENCE_OF: &'static str = "SEQUENCE OF";
pub const TYPE_SET: &'static str = "SET";
pub const TYPE_SET_OF: &'static str = "SET OF";

} // verus!
