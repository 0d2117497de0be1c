//! A verified decoder for the binary (`P6`) variant of the Portable Pixel Map
//! image format.
//!
//! The decoder owns the raw byte stream for its whole life.  Its header
//! scanner strips `#`-to-line-end comments, skips whitespace and yields
//! ASCII tokens; a strict base-ten parser turns the first three tokens into
//! width, height and maxval; the pixel reader computes the payload size with
//! overflow checking and materializes the samples as one 8-bit or 16-bit
//! big-endian buffer.

pub mod decoder;
pub mod error;
pub mod header;
pub mod laws;
pub mod numeric;
pub mod pixels;
pub mod tokenizer;
