//! Building blocks of a PNG codec: the chunk layer (chunk types, CRC, chunk
//! reading from a byte stream), pixel format helpers (color types, bit depths,
//! palettes, filter predictors) and conversions between image types.
pub mod chunk;
pub mod color;
pub mod crc;
pub mod filter;
pub mod image;
pub mod stream;

pub use chunk::{Chunk, ChunkType, Error, get_chunk_type, parse_chunk};
pub use color::{ColorType, Pallete, TrnsPallete, to_color_type, to_u16, validate_bit_depth};
pub use crc::compute_crc;
pub use filter::Filtered;
pub use image::{Image, ImageType};
pub use stream::{Stream, read_n, read_n_const};
