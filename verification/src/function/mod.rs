//! PDF functions.
//!
//! PDF has the concept of functions, representing objects that take a certain number of values
//! as input, do some processing on them and then return some output.

pub mod argument;
pub mod bounds;
pub mod calculator_laws;
pub mod definition;
pub mod definition_laws;
pub mod double;
pub mod eval;
pub mod eval_laws;
pub mod evaluate;
pub mod flatten;
pub mod inspection;
pub mod instruction;
pub mod numeric;
pub mod program;
pub mod reading_laws;
pub mod sampling;
pub mod single;
pub mod stack;
pub mod tokens;
pub mod transfer;
pub mod type0;
pub mod type2;
pub mod value_laws;
