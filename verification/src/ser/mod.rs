pub mod write;

use vstd::prelude::*;

use crate::der::writer::{EncodeError, Serializer};
use crate::info::tag::Tag;

verus! {

/// Constructors of the errors that encoding reports.
pub trait Error: Sized {
    fn invalid_tag() -> Self;
    fn invalid_value() -> Self;
    fn prim_untagged() -> Self;
    fn custom(message: &str) -> Self;
}

/// Values that can be written in ASN.1 DER.
pub trait Asn1Serialize {
    /// Whether this value can be written. A type that does not say is taken to
    /// promise nothing.
    open spec fn spec_serializable(&self) -> bool {
        false
    }

    /// The DER octets of this value, under the implicit tag `tag` if one is given.
    open spec fn spec_der(&self, tag: Option<Tag>) -> Seq<u8> {
        Seq::empty()
    }

    /// Writes this value after what `serializer` holds, under its implicit tag
    /// (which is used up). A value that `spec_serializable` admits is always
    /// written.
    fn asn1_serialize(&self, serializer: &mut Serializer) -> (r: Result<(), EncodeError>)
        requires
            self.spec_serializable(),
        ensures
            r is Ok,
            final(serializer).written() == old(serializer).written() + self.spec_der(old(serializer).implicit()),
            final(serializer).implicit() is None,
    ;
}

} // verus!
