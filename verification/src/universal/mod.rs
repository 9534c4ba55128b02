pub mod bitstring;
pub mod boolean;
pub mod integer;
pub mod null;
pub mod object_identifier;
pub mod octet_string;
pub mod sequence_of;

pub use self::bitstring::BitString;
pub use self::object_identifier::ObjectIdentifier;
pub use self::octet_string::OctetString;
