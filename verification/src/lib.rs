//! A minimal codec for the binary PPM (PNM "P6") raster image format.
//!
//! The decoder turns a byte buffer into a [`Pimage`] pixel grid; the encoder
//! turns a pixel grid back into the exact byte layout
//! `"P6\n{width} {height}\n255\n"` followed by the row-major red, green and
//! blue channel bytes of every pixel. Reading a file into bytes and writing
//! bytes back out is left to the caller.

pub mod codec;
pub mod cursor;
pub mod err;
pub mod image;

pub use codec::decode;
pub use codec::encode;
pub use codec::error;
pub use codec::push_decimal;
pub use codec::read_header;
pub use codec::read_next_color;
pub use codec::read_number;
pub use codec::to_digit;
pub use cursor::Cursor;
pub use err::EofField;
pub use err::PpmError;
pub use image::Color;
pub use image::Pimage;
