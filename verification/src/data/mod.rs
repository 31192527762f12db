//! Plain values that rules are made of.

pub mod bytes;
pub mod generic;
pub mod net;
pub mod rule;
pub mod text;
