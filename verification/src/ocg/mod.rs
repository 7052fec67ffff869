//! Optional content.

pub mod expression;
pub mod membership_laws;
pub mod resolve;
pub mod resolve_laws;
pub mod state;
pub mod state_laws;
