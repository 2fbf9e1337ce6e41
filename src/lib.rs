//! Reader for the save files of a factory-building game: a header of
//! little-endian fields and length-prefixed strings, followed by a body of
//! zlib-compressed chunks that holds the world objects.

pub mod error;
pub mod reader;
pub mod strings;
pub mod zlib_reader;
pub mod properties;
pub mod objects;
pub mod save;

pub use error::ParseError;
pub use objects::{SaveObject, Vector2, Vector3, Vector4};
pub use properties::{SessionVisiblity, WorldProperties};
pub use reader::{ByteReader, ByteSource};
pub use save::{SaveDate, SaveFile};
pub use strings::read_string;
pub use zlib_reader::ChunkedZLibReader;
