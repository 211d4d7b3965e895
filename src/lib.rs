//! A sequential byte cursor over an in-memory buffer, and a decode contract
//! through which types reconstruct themselves from such a cursor.

pub mod decode;
pub mod source;
pub mod wire;

pub use decode::{Cursor, Decode, Error};
pub use source::ByteSource;
pub use wire::InvalidTag;
