//! Byte buffers as hexadecimal text.

pub mod convert;
pub mod error;
pub mod laws;
pub mod visitor;
