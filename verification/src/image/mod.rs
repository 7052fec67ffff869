//! Decoding images.

pub mod alpha;
pub mod alpha_laws;
pub mod color_laws;
pub mod decoder;
pub mod decoder_laws;
pub mod dictionary;
pub mod embedded;
pub mod icc;
pub mod image_laws;
pub mod matte;
pub mod output;
pub mod palette;
pub mod rgb;
pub mod samples;
pub mod sampling;
pub mod tint;
