//! The forwarding rule and what identifies its runtime shape.

pub mod digest;
pub mod rule;
