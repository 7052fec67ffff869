//! Verified decision logic of a PDF interpreter and of the image codecs it embeds.

pub mod bits;
pub mod bits_laws;
pub mod function;
pub mod image;
pub mod interpret;
pub mod jbig2;
pub mod jpeg2000;
pub mod list;
pub mod object;
pub mod object_laws;
pub mod ocg;
pub mod polled;
pub mod sample_reader;
pub mod small_list;
pub mod types;
pub mod x_object;
