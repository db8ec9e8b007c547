//! The family of fixed-width integer types.

pub mod generate;
pub mod kind;
pub mod laws;
pub mod number;
pub mod primitive;
pub mod value;
