//! LAZ decoding and LAS framing.
//!
//! This crate is a codec and a frame reader, not a format driver. It answers two
//! questions, where the compressed points are and what the bytes behind them are,
//! and stops there. Which of those bytes is an intensity and which is a
//! classification is the driver's business.
//!
//! There are two ways to decode:
//!
//! - [`LazChunkDecoder`] decompresses one laszip chunk standing on its own, with no
//!   chunk table and no LAS header; the caller supplies the point count. Build it
//!   once per file and reuse it across nodes.
//! - [`decode_laz_file`] takes a whole `.laz` and hands back its header and every
//!   point record.
//!
//! Both return raw LAS point records, little-endian, exactly as an uncompressed
//! `.las` would store them.
pub mod budget;
pub mod bytes;
pub mod chunk;
pub mod error;
pub mod field;
pub mod file;
pub mod las;
pub mod laszip;
pub mod soundness;
pub mod text;

pub use chunk::LazChunkDecoder;
pub use error::Error;
pub use field::LazField;
pub use file::{decode_laz_file, DecodedLas};
pub use las::{read_las_evlrs, read_las_header, LasHeader, Vlr};
