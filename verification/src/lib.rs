//! Checked reinterpretation of plain-old-data values as raw bytes.
//!
//! A flat (plain-old-data) value is one whose meaning is exactly its byte
//! image: a fixed number of bytes, every bit pattern legal, no indirection.
//! This crate models such values explicitly by their images and verifies the
//! whole reinterpretation algebra over them: viewing a value as another type
//! of the same size, splitting it into slices of a smaller type, merging a
//! slice back into one value, and encoding or decoding values at a byte
//! stream boundary — each operation guarded by explicit size and alignment
//! checks instead of undefined behaviour.

pub mod buffer;
pub mod codec;
pub mod endian;
pub mod io;
pub mod pod;
pub mod records;

pub use buffer::Arr;
pub use buffer::Buf;
pub use codec::Codable;
pub use endian::Be16;
pub use endian::Be32;
pub use endian::Endian;
pub use endian::Le16;
pub use endian::Le32;
pub use endian::Native16;
pub use endian::Native32;
pub use pod::Pod;
