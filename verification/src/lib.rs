//! Fixed-width integers for ABI encoding, the table that relates them to the
//! machine's own integers, and a hexadecimal codec for their byte buffers.

pub mod hex;
pub mod numeric;
pub mod text;
