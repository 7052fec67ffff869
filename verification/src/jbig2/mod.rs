//! JBIG2 (ITU-T T.88) decoding.

pub mod arithmetic_decoder;
pub mod bitmap;
pub mod error;
pub mod generic_extended;
pub mod generic_refinement;
pub mod huffman_codes;
pub mod huffman_laws;
pub mod huffman_table;
pub mod pdf;
pub mod region;
pub mod region_laws;
pub mod segment;
pub mod segment_laws;
pub mod standard_tables;
pub mod table_laws;
