//! Fixed-width integers in big-endian and little-endian byte order, read from
//! and written to byte streams.
//!
//! `order` and `model` say what the bytes of an integer are, `codec` computes
//! them, `reader` and `writer` do so on a stream, `cursor` is a stream in
//! memory, and `laws` holds what is proved of them together.

pub mod order;
pub mod model;
pub mod error;
pub mod codec;
pub mod reader;
pub mod writer;
pub mod cursor;
pub mod laws;

pub use crate::cursor::Cursor;
pub use crate::error::ReadError;
pub use crate::order::ByteOrder;
pub use crate::reader::Reader;
pub use crate::writer::Writer;
