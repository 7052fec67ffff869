//! Interpreting content.

pub mod begin_content;
pub mod content_laws;
pub mod instruction;
pub mod key_order;
pub mod marked_content;
pub mod page;
pub mod page_laws;
pub mod property_laws;
pub mod property_value;
pub mod scope;
pub mod scope_laws;
pub mod stroke;
pub mod warning;
