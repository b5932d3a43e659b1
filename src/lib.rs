use vstd::prelude::*;

pub mod deserializer;
pub mod laws;
pub mod serializer;
pub mod types;
pub mod wire;

pub use deserializer::Deserialize;
pub use deserializer::Deserializer;
pub use deserializer::Error;
pub use serializer::Serialize;
pub use types::PeerAddress;
pub use types::Sha256Result;
pub use types::hash_to_string;
pub use types::VarUint;

verus! {

/// The result of a read.
pub type Result<T> = core::result::Result<T, Error>;

} // verus!
