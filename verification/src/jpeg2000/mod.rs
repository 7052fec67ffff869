//! The JP2 container around a JPEG 2000 codestream (Annex I).

pub mod cdef;
pub mod channel_laws;
pub mod channels;
pub mod container;
pub mod error;
