//! What holds of encoding and decoding together.

use crate::hex::convert::{
    bytes_of, digit_value, digits_start, exact, expanded, first_invalid, has_prefix, hex_char,
    hex_digits, hex_text, is_hex_digit, lemma_first_invalid, lemma_first_invalid_at,
    lemma_first_invalid_none, nibble, scanned, unbounded,
};
use crate::hex::error::HexError;
use vstd::prelude::*;

verus! {

/// A lower-case digit stands for the number it was chosen for.
pub proof fn lemma_hex_char_value(n: int)
    requires
        0 <= n < 16,
    ensures
        is_hex_digit(hex_char(n)),
        digit_value(hex_char(n)) == n,
{
}

/// The digits written for some bytes are read back as those bytes.
pub proof fn lemma_digits_round_trip(bytes: Seq<u8>)
    ensures
        hex_digits(bytes).len() == 2 * bytes.len(),
        forall|i: int| 0 <= i < hex_digits(bytes).len() ==> is_hex_digit(#[trigger] hex_digits(bytes)[i]),
        bytes_of(hex_digits(bytes)) == bytes,
{
    let digits = hex_digits(bytes);
    assert forall|i: int| 0 <= i < digits.len() implies is_hex_digit(#[trigger] digits[i]) by {
        let b = bytes[i / 2] as int;
        lemma_hex_char_value(b / 16);
        lemma_hex_char_value(b % 16);
    }
    assert forall|k: int| 0 <= k < bytes.len() implies #[trigger] bytes_of(digits)[k]
        == bytes[k] by {
        let b = bytes[k] as int;
        lemma_hex_char_value(b / 16);
        lemma_hex_char_value(b % 16);
        assert((2 * k) / 2 == k && (2 * k) % 2 == 0);
        assert((2 * k + 1) / 2 == k && (2 * k + 1) % 2 == 1);
        assert(nibble(digits, 2 * k) == b / 16);
        assert(nibble(digits, 2 * k + 1) == b % 16);
    }
    assert(bytes_of(digits) =~= bytes);
}

/// The text written for some bytes scans to the digits written for them.
pub proof fn lemma_text_scans(bytes: Seq<u8>)
    ensures
        scanned(hex_text(bytes)) == Ok::<Seq<char>, HexError>(hex_digits(bytes)),
{
    let t = hex_text(bytes);
    lemma_digits_round_trip(bytes);
    assert(has_prefix(t));
    assert forall|j: int| 2 <= j < t.len() implies is_hex_digit(#[trigger] t[j]) by {
        assert(t[j] == hex_digits(bytes)[j - 2]);
    }
    lemma_first_invalid_none(t, 2);
    assert(t.skip(2) =~= hex_digits(bytes));
}

/// Decoding the text of some bytes without a bound on the length gives the
/// bytes back.
pub proof fn lemma_encode_decode_unbounded(bytes: Seq<u8>)
    ensures
        unbounded(hex_text(bytes)) == Ok::<Seq<u8>, HexError>(bytes),
{
    lemma_text_scans(bytes);
    lemma_digits_round_trip(bytes);
}

/// Decoding the text of some bytes into a buffer of their length gives the
/// bytes back.
pub proof fn lemma_encode_decode_exact(bytes: Seq<u8>)
    ensures
        exact(hex_text(bytes), bytes.len()) == Ok::<Seq<u8>, HexError>(bytes),
{
    lemma_text_scans(bytes);
    lemma_digits_round_trip(bytes);
}

/// Decoding the text of some bytes into a longer buffer gives zeros, then
/// the bytes.
pub proof fn lemma_encode_decode_expanded(bytes: Seq<u8>, size: nat)
    requires
        bytes.len() <= size,
    ensures
        expanded(hex_text(bytes), size) == Ok::<Seq<u8>, HexError>(
            Seq::new((size - bytes.len()) as nat, |i: int| 0u8) + bytes,
        ),
{
    lemma_text_scans(bytes);
    lemma_digits_round_trip(bytes);
}

/// A text of digits only is decoded into a buffer that it must fill exactly
/// when it stands for as many bytes as the buffer has; otherwise the length
/// is reported, and nothing else.
pub proof fn lemma_exact_length(t: Seq<char>, size: nat)
    requires
        scanned(t) is Ok,
    ensures
        exact(t, size) is Ok <==> bytes_of(scanned(t)->Ok_0).len() == size,
        exact(t, size) is Ok ==> exact(t, size)->Ok_0.len() == size && exact(t, size)->Ok_0
            == bytes_of(scanned(t)->Ok_0),
        exact(t, size) is Err ==> exact(t, size)->Err_0 == (HexError::IncorrectLen {
            expected: size as usize,
            len: scanned(t)->Ok_0.len() as usize,
        }),
        bytes_of(scanned(t)->Ok_0).len() == (scanned(t)->Ok_0.len() + 1) / 2,
{
}

/// A text of digits only is decoded into a buffer that it may fill from the
/// low end exactly when it stands for no more bytes than the buffer has;
/// otherwise the length is reported, and nothing else. The bytes that the
/// text stands for end the buffer, and zeros stand before them.
pub proof fn lemma_expanded_length(t: Seq<char>, size: nat)
    requires
        scanned(t) is Ok,
    ensures
        expanded(t, size) is Ok <==> bytes_of(scanned(t)->Ok_0).len() <= size,
        expanded(t, size) is Err ==> expanded(t, size)->Err_0 == (HexError::LenTooLong {
            max: size as usize,
            len: scanned(t)->Ok_0.len() as usize,
        }),
        expanded(t, size) is Ok ==> ({
            let out = expanded(t, size)->Ok_0;
            let decoded = bytes_of(scanned(t)->Ok_0);
            &&& out.len() == size
            &&& forall|i: int| 0 <= i < size - decoded.len() ==> out[i] == 0
            &&& forall|k: int|
                0 <= k < decoded.len() ==> out[size - decoded.len() + k] == decoded[k]
        }),
{
}

/// A character that is no digit, with digits only between it and the start
/// of the digits, is reported with its place in the text, whatever the way
/// of decoding.
pub proof fn lemma_invalid_char(t: Seq<char>, p: int, size: nat)
    requires
        digits_start(t) <= p < t.len(),
        !is_hex_digit(t[p]),
        forall|j: int| digits_start(t) <= j < p ==> is_hex_digit(#[trigger] t[j]),
    ensures
        unbounded(t) == Err::<Seq<u8>, HexError>(
            HexError::InvalidChar { position: p as usize, char: t[p] },
        ),
        exact(t, size) == unbounded(t),
        expanded(t, size) == unbounded(t),
{
    lemma_first_invalid_at(t, digits_start(t), p);
}

/// Without a bound on the length, a text of digits only is decoded exactly
/// when the number of its digits is even.
pub proof fn lemma_unbounded_length(t: Seq<char>)
    requires
        scanned(t) is Ok,
    ensures
        unbounded(t) is Ok <==> scanned(t)->Ok_0.len() % 2 == 0,
        unbounded(t) is Ok ==> unbounded(t)->Ok_0 == bytes_of(scanned(t)->Ok_0)
            && 2 * unbounded(t)->Ok_0.len() == scanned(t)->Ok_0.len(),
        unbounded(t) is Err ==> unbounded(t)->Err_0 == (HexError::OddLen {
            len: scanned(t)->Ok_0.len() as usize,
        }),
{
}

/// A text scans to its digits exactly when every character after the
/// prefix is a digit.
pub proof fn lemma_scanned_digits(t: Seq<char>)
    ensures
        scanned(t) is Ok <==> forall|j: int|
            digits_start(t) <= j < t.len() ==> is_hex_digit(#[trigger] t[j]),
        scanned(t) is Ok ==> scanned(t)->Ok_0 == t.skip(digits_start(t)),
        scanned(t) is Err ==> scanned(t)->Err_0 is InvalidChar,
{
    lemma_first_invalid(t, digits_start(t));
    if first_invalid(t, digits_start(t)) is Some {
        let p = first_invalid(t, digits_start(t))->Some_0;
        assert(!is_hex_digit(t[p]));
    }
}

} // verus!
