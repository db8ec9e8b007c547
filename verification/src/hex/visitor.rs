//! The three ways to receive a decoded text, and the functions that a
//! serialization layer hands its strings to.

use crate::hex::convert::{
    decode_exact, decode_expanded, decode_unbounded, encode, exact, expanded, hex_text, unbounded,
};
use crate::hex::error::HexError;
use crate::text::{decimal, push_decimal};
use vstd::prelude::*;
use vstd::string::StringExecFns;

verus! {

/// Where the bytes of a text go.
pub enum HexVisitor<'a> {
    /// Into a buffer that the text may fill from the low end only.
    Expanded(&'a mut [u8]),
    /// Into a buffer that the text must fill.
    Exact(&'a mut [u8]),
    /// Into a new buffer of the length that the text stands for.
    Unbounded(&'a mut Option<Vec<u8>>),
}

impl<'a> HexVisitor<'a> {
    /// What kind of text this visitor accepts, in words.
    pub open spec fn expecting_text(self) -> Seq<char> {
        "a 0x-prefixed hexadecimal string"@ + match self {
            HexVisitor::Expanded(bytes) => " with a length of at most "@ + decimal(
                2 * bytes@.len(),
            ),
            HexVisitor::Exact(bytes) => " with an exact length of "@ + decimal(2 * bytes@.len()),
            HexVisitor::Unbounded(_) => " with an even length"@,
        }
    }

    /// What kind of text this visitor accepts, in words; lengths count digits.
    pub fn expecting(&self) -> (r: String)
        ensures
            r@ == self.expecting_text(),
    {
        let mut out = String::new();
        out.append("a 0x-prefixed hexadecimal string");
        match self {
            HexVisitor::Expanded(bytes) => {
                out.append(" with a length of at most ");
                let n: usize = bytes.len();
                push_decimal(&mut out, 2 * (n as u128));
            },
            HexVisitor::Exact(bytes) => {
                out.append(" with an exact length of ");
                let n: usize = bytes.len();
                push_decimal(&mut out, 2 * (n as u128));
            },
            HexVisitor::Unbounded(_) => {
                out.append(" with an even length");
            },
        }
        assert(out@ =~= self.expecting_text());
        out
    }

    /// Decodes `v` into this visitor's target. A target that is a buffer is
    /// written only where the text is accepted; the slot of an unbounded
    /// visitor is filled only then.
    pub fn visit_str(self, v: &str) -> (r: Result<(), HexError>)
        ensures
            match self {
                HexVisitor::Expanded(bytes) => match expanded(v@, bytes@.len()) {
                    Ok(decoded) => r is Ok && final(bytes)@ == decoded,
                    Err(e) => r == Err::<(), HexError>(e) && final(bytes)@ == bytes@,
                },
                HexVisitor::Exact(bytes) => match exact(v@, bytes@.len()) {
                    Ok(decoded) => r is Ok && final(bytes)@ == decoded,
                    Err(e) => r == Err::<(), HexError>(e) && final(bytes)@ == bytes@,
                },
                HexVisitor::Unbounded(slot) => match unbounded(v@) {
                    Ok(decoded) => r is Ok && (*final(slot) matches Some(out) && out@ == decoded),
                    Err(e) => r == Err::<(), HexError>(e) && *final(slot) == *slot,
                },
            },
    {
        match self {
            HexVisitor::Expanded(bytes) => decode_expanded(v, bytes),
            HexVisitor::Exact(bytes) => decode_exact(v, bytes),
            HexVisitor::Unbounded(slot) => match decode_unbounded(v) {
                Ok(out) => {
                    *slot = Some(out);
                    Ok(())
                },
                Err(e) => Err(e),
            },
        }
    }
}

/// The text that `bytes` are written as.
pub fn serialize(bytes: &[u8]) -> (r: String)
    ensures
        r@ == hex_text(bytes@),
{
    encode(bytes)
}

/// The text that a buffer of fixed length is written as: every byte keeps
/// its two digits.
pub fn serialize_exact(bytes: &[u8]) -> (r: String)
    ensures
        r@ == hex_text(bytes@),
        r@.len() == 2 + 2 * bytes@.len(),
{
    encode(bytes)
}

/// Reads `text` into `bytes`, which it may fill from the low end only.
pub fn deserialize_expanded(bytes: &mut [u8], text: &str) -> (r: Result<(), HexError>)
    ensures
        match expanded(text@, old(bytes)@.len()) {
            Ok(decoded) => r is Ok && final(bytes)@ == decoded,
            Err(e) => r == Err::<(), HexError>(e) && final(bytes)@ == old(bytes)@,
        },
{
    HexVisitor::Expanded(bytes).visit_str(text)
}

/// Reads `text` into `bytes`, which it must fill.
pub fn deserialize_exact(bytes: &mut [u8], text: &str) -> (r: Result<(), HexError>)
    ensures
        match exact(text@, old(bytes)@.len()) {
            Ok(decoded) => r is Ok && final(bytes)@ == decoded,
            Err(e) => r == Err::<(), HexError>(e) && final(bytes)@ == old(bytes)@,
        },
{
    HexVisitor::Exact(bytes).visit_str(text)
}

/// Reads `text` into as many bytes as it stands for.
pub fn deserialize_unbounded(text: &str) -> (r: Result<Vec<u8>, HexError>)
    ensures
        match unbounded(text@) {
            Ok(decoded) => r is Ok && r->Ok_0@ == decoded,
            Err(e) => r == Err::<Vec<u8>, HexError>(e),
        },
{
    let mut maybe_bytes: Option<Vec<u8>> = None;
    match HexVisitor::Unbounded(&mut maybe_bytes).visit_str(text) {
        Err(e) => Err(e),
        Ok(()) => Ok(maybe_bytes.unwrap()),
    }
}

} // verus!
