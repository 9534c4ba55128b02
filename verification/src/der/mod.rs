pub mod read;
pub mod laws;
pub mod reader;
pub mod writer;

pub use self::reader::{DecodeError, Deserializer, SeqAccessor};
pub use self::writer::{EncodeError, Serializer, StructSerializer};
