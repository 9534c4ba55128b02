use vstd::prelude::*;
use vstd::pervasive::arbitrary;

use crate::der::reader::{DecodeKind, Deserializer, DecodeError, SeqAccessor};
use crate::info::tag::{Len, Tag};

verus! {

/// Constructors of the errors that decoding reports.
pub trait Asn1Error: Sized {
    fn custom(msg: &str) -> Self;
    fn invalid_type(descr: &'static str) -> Self;
    fn invalid_tag(descr: &'static str) -> Self;
    fn invalid_length(descr: &'static str) -> Self;
    fn invalid_value(descr: &'static str) -> Self;
    fn tag_mismatch(expected: Tag, got: Tag) -> Self;
    fn length_mismatch(expected: Len, got: Len) -> Self;
}

/// Values that can be read from ASN.1 DER.
///
/// A type states what reading it gives through `spec_asn1_decode`, and says so
/// with `obeys_asn1_decode`; a type that states nothing promises nothing.
pub trait Asn1Deserialize: Sized {
    /// What a value of the type is compared by in the contracts.
    type Model;

    /// Whether `asn1_deserialize` reads as `spec_asn1_decode` says.
    open spec fn obeys_asn1_decode() -> bool {
        false
    }

    /// The model of a value.
    open spec fn spec_model(&self) -> Self::Model {
        arbitrary()
    }

    /// What reading a value from `input` gives, with the peeked and implicit
    /// tags given: the value's model and the input it takes.
    open spec fn spec_asn1_decode(input: Seq<u8>, peeked: Option<Tag>, implicit: Option<Tag>) -> Result<(Self::Model, int), DecodeKind> {
        Err(DecodeKind::InvalidType)
    }

    /// The inputs that a value can be read from. A type that states what
    /// reading gives leaves out the inputs on which neither a value nor an error
    /// can be given.
    open spec fn spec_asn1_readable(input: Seq<u8>, peeked: Option<Tag>, implicit: Option<Tag>) -> bool {
        true
    }

    /// Reads a value.
    fn asn1_deserialize(deserializer: &mut Deserializer) -> (r: Result<Self, DecodeError>)
        requires
            Self::obeys_asn1_decode() ==> Self::spec_asn1_readable(
                old(deserializer).input(),
                old(deserializer).peeked(),
                old(deserializer).implicit(),
            ),
        ensures
            Self::obeys_asn1_decode() ==> old(deserializer).decodes_model(
                *final(deserializer),
                r,
                Self::spec_asn1_decode(old(deserializer).input(), old(deserializer).peeked(), old(deserializer).implicit()),
                |x: Self| x.spec_model(),
            ),
    ;
}

/// A refusal of the type named `what`: the error that a visitor gives for what
/// it does not read.
pub open spec fn refused<T>(r: Result<T, DecodeError>, what: &str) -> bool {
    r matches Err(DecodeError::InvalidType(m)) && m@ == what@
}

/// What a user supplies to read a SEQUENCE or a CHOICE.
pub trait Asn1Visitor: Sized {
    type Value;

    /// What the visitor gives for a SEQUENCE whose content (as far as the input
    /// holds it) is `content` and whose declared length is `len`. A visitor that
    /// does not say promises nothing.
    open spec fn spec_visit_seq(&self, content: Seq<u8>, len: nat, r: Result<Self::Value, DecodeError>) -> bool {
        true
    }

    /// What the visitor gives for a CHOICE whose tag is `tag`, read from `input`
    /// (which follows the tag) and leaving `left`. A visitor that does not say
    /// promises nothing.
    open spec fn spec_visit_choice(&self, tag: Tag, input: Seq<u8>, left: Seq<u8>, r: Result<Self::Value, DecodeError>) -> bool {
        true
    }

    /// Reads the fields of a SEQUENCE from `seq`, which has read nothing yet. A
    /// visitor that does not read sequences refuses the type and reads nothing;
    /// any other gives what `spec_visit_seq` says.
    fn visit_seq(self, seq: &mut SeqAccessor) -> (r: Result<Self::Value, DecodeError>)
        requires
            old(seq).consumed() == 0,
        ensures
            (refused(r, "SEQUENCE or SEQUENCE OF") && *final(seq) == *old(seq)) || self.spec_visit_seq(
                old(seq).rest(),
                old(seq).left(),
                r,
            ),
        default_ensures
            refused(r, "SEQUENCE or SEQUENCE OF"),
            *final(seq) == *old(seq),
    {
        Err(DecodeError::InvalidType("SEQUENCE or SEQUENCE OF"))
    }

    /// Reads the value of a CHOICE whose tag is `tag`: `deserializer` holds that
    /// tag as read ahead and as the implicit tag, so that it reads the value
    /// under it. A visitor that does not read choices refuses the type and reads
    /// nothing.
    fn visit_choice(self, tag: &Tag, deserializer: &mut Deserializer) -> (r: Result<Self::Value, DecodeError>)
        requires
            old(deserializer).peeked() == Some(*tag),
            old(deserializer).implicit() == Some(*tag),
        ensures
            (refused(r, "CHOICE") && *final(deserializer) == *old(deserializer)) || self.spec_visit_choice(
                *tag,
                old(deserializer).input(),
                final(deserializer).input(),
                r,
            ),
        default_ensures
            refused(r, "CHOICE"),
            *final(deserializer) == *old(deserializer),
    {
        Err(DecodeError::InvalidType("CHOICE"))
    }
}

} // verus!
