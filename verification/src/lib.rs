//! ASN.1 values and their DER encoding: tags and lengths, the universal types,
//! a serializer and a deserializer, with what each writes and reads stated and
//! proved.
pub mod io;
pub mod info;
pub mod ser;
pub mod de;
pub mod der;
pub mod universal;
pub mod laws;
pub mod text;

use vstd::prelude::*;

pub use crate::de::{Asn1Deserialize, Asn1Visitor};
pub use crate::info::{Asn1DisplayExt, Asn1Tagged, Asn1Typed, ContentType, Len, Tag};
pub use crate::ser::Asn1Serialize;
pub use crate::universal::object_identifier::ParseObjectIdError;
pub use crate::universal::{BitString, ObjectIdentifier, OctetString};

use crate::der::reader::DecodeKind;
use crate::laws::Asn1Roundtrip;

verus! {

/// What `from_asn1` gives of `input`: the model of the value read from its
/// start, or the kind of the error. Bytes after the value are not looked at.
pub open spec fn spec_from_asn1<T: Asn1Deserialize>(input: Seq<u8>) -> Result<T::Model, DecodeKind> {
    match T::spec_asn1_decode(input, None, None) {
        Ok((v, _)) => Ok(v),
        Err(k) => Err(k),
    }
}

/// The DER encoding of `value`.
pub fn to_asn1<T: Asn1Serialize>(value: &T) -> (r: Result<Vec<u8>, der::EncodeError>)
    requires
        value.spec_serializable(),
    ensures
        r matches Ok(out) && out@ == value.spec_der(None),
{
    let buf: Vec<u8> = Vec::with_capacity(128);
    let mut serializer = der::Serializer::new(buf);
    match value.asn1_serialize(&mut serializer) {
        Ok(()) => Ok(serializer.into_inner()),
        Err(e) => Err(e),
    }
}

/// Reads a value from the start of `buf`.
pub fn from_asn1<T: Asn1Deserialize>(buf: &[u8]) -> (r: Result<T, der::DecodeError>)
    requires
        T::obeys_asn1_decode() ==> T::spec_asn1_readable(buf@, None, None),
    ensures
        T::obeys_asn1_decode() ==> match spec_from_asn1::<T>(buf@) {
            Ok(v) => r matches Ok(x) && x.spec_model() == v,
            Err(k) => r matches Err(e) && e.kind() == k,
        },
{
    let mut deserializer = der::Deserializer::new(buf);
    T::asn1_deserialize(&mut deserializer)
}

/// Writes `v` and reads it back.
pub fn ser_deser<T: Asn1Roundtrip>(v: &T) -> (r: T)
    requires
        v.spec_serializable(),
        v.spec_roundtrips(),
    ensures
        r.spec_model() == v.spec_model(),
{
    let buf = to_asn1(v).unwrap();
    proof {
        lemma_from_asn1_to_asn1(*v);
        T::lemma_obeys();
    }
    from_asn1::<T>(buf.as_slice()).unwrap()
}

/// What `to_asn1` writes of a value, `from_asn1` reads back as that value.
pub proof fn lemma_from_asn1_to_asn1<T: Asn1Roundtrip>(value: T)
    requires
        value.spec_serializable(),
        value.spec_roundtrips(),
    ensures
        spec_from_asn1::<T>(value.spec_der(None)) == Ok::<T::Model, DecodeKind>(value.spec_model()),
        T::spec_asn1_readable(value.spec_der(None), None, None),
{
    value.lemma_roundtrip(None, Seq::empty());
    assert(value.spec_der(None) + Seq::<u8>::empty() == value.spec_der(None));
}

} // verus!
