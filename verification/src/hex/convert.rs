//! Encoding bytes as text and decoding text into bytes.
//!
//! A text is written as `0x` and two lower-case digits for each byte. A text
//! that is read may begin with `0x` or `0X` or with neither, and its digits
//! may be of either case. Every character after the prefix must be a digit:
//! the first that is none is reported before anything is said of the length,
//! and nothing is written before the whole text has been accepted.

use crate::hex::error::HexError;
use vstd::prelude::*;
use vstd::string::StringExecFns;
use vstd::string::is_ascii;
use vstd::string::StrSliceExecFns;
use vstd::string::StringSliceAdditionalSpecFns;

verus! {

broadcast use vstd::string::is_ascii_spec_bytes;

/// A digit of base sixteen, in either case.
pub open spec fn is_hex_digit(c: char) -> bool {
    ('0' <= c <= '9') || ('a' <= c <= 'f') || ('A' <= c <= 'F')
}

/// The number that a digit stands for.
pub open spec fn digit_value(c: char) -> int {
    if '0' <= c <= '9' {
        c as int - '0' as int
    } else if 'a' <= c <= 'f' {
        c as int - 'a' as int + 10
    } else {
        c as int - 'A' as int + 10
    }
}

/// The lower-case digit that stands for `n`.
pub open spec fn hex_char(n: int) -> char {
    if n < 10 {
        ('0' as int + n) as char
    } else {
        ('a' as int + n - 10) as char
    }
}

/// The text begins with `0x` or `0X`.
pub open spec fn has_prefix(t: Seq<char>) -> bool {
    t.len() >= 2 && t[0] == '0' && (t[1] == 'x' || t[1] == 'X')
}

/// Where the digits begin.
pub open spec fn digits_start(t: Seq<char>) -> int {
    if has_prefix(t) {
        2
    } else {
        0
    }
}

/// The place of the first character at or after `from` that is no digit.
pub open spec fn first_invalid(t: Seq<char>, from: int) -> Option<int>
    decreases t.len() - from,
{
    if from < 0 || from >= t.len() {
        None
    } else if !is_hex_digit(t[from]) {
        Some(from)
    } else {
        first_invalid(t, from + 1)
    }
}

/// The `i`-th half byte that `digits` stand for, where an odd number of
/// digits is read as if a zero stood before them.
pub open spec fn nibble(digits: Seq<char>, i: int) -> int {
    let pad = digits.len() % 2;
    if i < pad {
        0
    } else {
        digit_value(digits[i - pad])
    }
}

/// The bytes that `digits` stand for, most significant first.
pub open spec fn bytes_of(digits: Seq<char>) -> Seq<u8> {
    Seq::new(
        (digits.len() + 1) / 2,
        |k: int| (16 * nibble(digits, 2 * k) + nibble(digits, 2 * k + 1)) as u8,
    )
}

/// Two lower-case digits for each byte, in order.
pub open spec fn hex_digits(bytes: Seq<u8>) -> Seq<char> {
    Seq::new(
        2 * bytes.len(),
        |i: int|
            if i % 2 == 0 {
                hex_char(bytes[i / 2] as int / 16)
            } else {
                hex_char(bytes[i / 2] as int % 16)
            },
    )
}

/// The text of `bytes`: the prefix `0x`, then the digits.
pub open spec fn hex_text(bytes: Seq<u8>) -> Seq<char> {
    seq!['0', 'x'] + hex_digits(bytes)
}

/// The digits of a text, or its first character that is none.
pub open spec fn scanned(t: Seq<char>) -> Result<Seq<char>, HexError> {
    match first_invalid(t, digits_start(t)) {
        Some(p) => Err(HexError::InvalidChar { position: p as usize, char: t[p] }),
        None => Ok(t.skip(digits_start(t))),
    }
}

/// What a text decodes to where any whole number of bytes is welcome.
pub open spec fn unbounded(t: Seq<char>) -> Result<Seq<u8>, HexError> {
    match scanned(t) {
        Err(e) => Err(e),
        Ok(d) => if d.len() % 2 == 1 {
            Err(HexError::OddLen { len: d.len() as usize })
        } else {
            Ok(bytes_of(d))
        },
    }
}

/// What a text decodes to in a buffer of `size` bytes that it must fill.
pub open spec fn exact(t: Seq<char>, size: nat) -> Result<Seq<u8>, HexError> {
    match scanned(t) {
        Err(e) => Err(e),
        Ok(d) => if bytes_of(d).len() != size {
            Err(HexError::IncorrectLen { expected: size as usize, len: d.len() as usize })
        } else {
            Ok(bytes_of(d))
        },
    }
}

/// What a text decodes to in a buffer of `size` bytes: the bytes at the low
/// end, zeros before them.
pub open spec fn expanded(t: Seq<char>, size: nat) -> Result<Seq<u8>, HexError> {
    match scanned(t) {
        Err(e) => Err(e),
        Ok(d) => if bytes_of(d).len() > size {
            Err(HexError::LenTooLong { max: size as usize, len: d.len() as usize })
        } else {
            Ok(Seq::new((size - bytes_of(d).len()) as nat, |i: int| 0u8) + bytes_of(d))
        },
    }
}

/// From `from` on, a text without an invalid character holds digits only,
/// and one with an invalid character holds digits up to the first such.
pub proof fn lemma_first_invalid(t: Seq<char>, from: int)
    requires
        0 <= from <= t.len(),
    ensures
        match first_invalid(t, from) {
            None => forall|j: int| from <= j < t.len() ==> is_hex_digit(#[trigger] t[j]),
            Some(p) => from <= p < t.len() && !is_hex_digit(t[p]) && forall|j: int|
                from <= j < p ==> is_hex_digit(#[trigger] t[j]),
        },
    decreases t.len() - from,
{
    if from < t.len() && is_hex_digit(t[from]) {
        lemma_first_invalid(t, from + 1);
    }
}

/// The first character that is no digit is found wherever the scan starts
/// among the digits before it.
pub proof fn lemma_first_invalid_at(t: Seq<char>, from: int, p: int)
    requires
        0 <= from <= p < t.len(),
        !is_hex_digit(t[p]),
        forall|j: int| from <= j < p ==> is_hex_digit(#[trigger] t[j]),
    ensures
        first_invalid(t, from) == Some(p),
    decreases p - from,
{
    if from < p {
        lemma_first_invalid_at(t, from + 1, p);
    }
}

/// A scan that meets digits only finds nothing.
pub proof fn lemma_first_invalid_none(t: Seq<char>, from: int)
    requires
        0 <= from <= t.len(),
        forall|j: int| from <= j < t.len() ==> is_hex_digit(#[trigger] t[j]),
    ensures
        first_invalid(t, from) is None,
    decreases t.len() - from,
{
    if from < t.len() {
        lemma_first_invalid_none(t, from + 1);
    }
}

fn is_hex_byte(b: u8) -> (r: bool)
    ensures
        r == is_hex_digit(b as char),
{
    (48 <= b && b <= 57) || (97 <= b && b <= 102) || (65 <= b && b <= 70)
}

fn hex_byte_value(b: u8) -> (r: u8)
    requires
        is_hex_digit(b as char),
    ensures
        r == digit_value(b as char),
        r < 16,
{
    if 48 <= b && b <= 57 {
        b - 48
    } else if 97 <= b && b <= 102 {
        b - 97 + 10
    } else {
        b - 65 + 10
    }
}

/// The one-character text of the lower-case digit for `n`.
fn hex_digit_str(n: u8) -> (r: &'static str)
    requires
        n < 16,
    ensures
        r@ == seq![hex_char(n as int)],
{
    proof {
        reveal_strlit("0");
        reveal_strlit("1");
        reveal_strlit("2");
        reveal_strlit("3");
        reveal_strlit("4");
        reveal_strlit("5");
        reveal_strlit("6");
        reveal_strlit("7");
        reveal_strlit("8");
        reveal_strlit("9");
        reveal_strlit("a");
        reveal_strlit("b");
        reveal_strlit("c");
        reveal_strlit("d");
        reveal_strlit("e");
        reveal_strlit("f");
    }
    let r = match n {
        0 => "0",
        1 => "1",
        2 => "2",
        3 => "3",
        4 => "4",
        5 => "5",
        6 => "6",
        7 => "7",
        8 => "8",
        9 => "9",
        10 => "a",
        11 => "b",
        12 => "c",
        13 => "d",
        14 => "e",
        _ => "f",
    };
    assert(r@ =~= seq![hex_char(n as int)]);
    r
}

/// The text of `bytes`: `0x`, then two lower-case digits for each byte.
pub fn encode(bytes: &[u8]) -> (r: String)
    ensures
        r@ == hex_text(bytes@),
        r@.len() == 2 + 2 * bytes@.len(),
{
    let mut out = String::new();
    out.append("0x");
    proof {
        reveal_strlit("0x");
        assert(out@ =~= hex_text(bytes@.take(0)));
    }
    let n: usize = bytes.len();
    let mut i: usize = 0;
    while i < n
        invariant
            i <= n,
            n == bytes@.len(),
            out@ == hex_text(bytes@.take(i as int)),
        decreases n - i,
    {
        let b: u8 = bytes[i];
        out.append(hex_digit_str(b / 16));
        out.append(hex_digit_str(b % 16));
        assert(out@ =~= hex_text(bytes@.take(i + 1)));
        i += 1;
    }
    assert(bytes@.take(n as int) =~= bytes@);
    out
}

/// The error of a text that holds a character beyond ASCII.
fn scan_chars(text: &str) -> (e: HexError)
    requires
        !is_ascii(text),
    ensures
        scanned(text@) == Err::<Seq<char>, HexError>(e),
{
    let n: usize = text.unicode_len();
    let mut start: usize = 0;
    if n >= 2 {
        let c0 = text.get_char(0);
        let c1 = text.get_char(1);
        if c0 == '0' && (c1 == 'x' || c1 == 'X') {
            start = 2;
        }
    }
    let mut i: usize = start;
    loop
        invariant
            start <= i <= n,
            n == text@.len(),
            !is_ascii(text),
            start == digits_start(text@),
            forall|j: int| start <= j < i ==> is_hex_digit(#[trigger] text@[j]),
        decreases n - i,
    {
        proof {
            if i == n {
                assert forall|j: int| 0 <= j < text@.len() implies '\0' <= #[trigger] text@[j]
                    <= '\u{7f}' by {
                    if j >= start {
                        assert(is_hex_digit(text@[j]));
                    }
                }
                assert(false);
            }
        }
        let c = text.get_char(i);
        if !(('0' <= c && c <= '9') || ('a' <= c && c <= 'f') || ('A' <= c && c <= 'F')) {
            proof {
                lemma_first_invalid_at(text@, start as int, i as int);
            }
            return HexError::InvalidChar { position: i, char: c };
        }
        i += 1;
    }
}

/// Where the digits of `text` begin and end, or its first character that is
/// no digit.
fn scan(text: &str) -> (r: Result<(usize, usize), HexError>)
    ensures
        match r {
            Ok((start, end)) => {
                &&& is_ascii(text)
                &&& start == digits_start(text@)
                &&& end == text@.len()
                &&& first_invalid(text@, start as int) is None
                &&& forall|j: int| start <= j < end ==> is_hex_digit(#[trigger] text@[j])
            },
            Err(e) => scanned(text@) == Err::<Seq<char>, HexError>(e),
        },
{
    if !text.is_ascii() {
        return Err(scan_chars(text));
    }
    let raw = text.as_bytes();
    let n: usize = raw.len();
    let mut start: usize = 0;
    if n >= 2 && raw[0] == 48 && (raw[1] == 120 || raw[1] == 88) {
        start = 2;
    }
    let mut i: usize = start;
    while i < n
        invariant
            start <= i <= n,
            n == text@.len(),
            is_ascii(text),
            raw@ == text.spec_bytes(),
            start == digits_start(text@),
            forall|j: int| start <= j < i ==> is_hex_digit(#[trigger] text@[j]),
        decreases n - i,
    {
        if !is_hex_byte(raw[i]) {
            proof {
                lemma_first_invalid_at(text@, start as int, i as int);
            }
            return Err(HexError::InvalidChar { position: i, char: text.get_char(i) });
        }
        i += 1;
    }
    proof {
        lemma_first_invalid_none(text@, start as int);
    }
    Ok((start, n))
}

/// The `k`-th byte that the digits of `text` stand for.
fn decoded_byte(text: &str, start: usize, k: usize) -> (b: u8)
    requires
        is_ascii(text),
        start <= text@.len(),
        forall|j: int| start <= j < text@.len() ==> is_hex_digit(#[trigger] text@[j]),
        k < bytes_of(text@.skip(start as int)).len(),
    ensures
        b == bytes_of(text@.skip(start as int))[k as int],
{
    let raw = text.as_bytes();
    let d: usize = raw.len() - start;
    let pad: usize = d % 2;
    let ghost digits = text@.skip(start as int);
    let low: usize = start + (2 * k + 1 - pad);
    assert(is_hex_digit(text@[low as int]));
    assert(digits[2 * k + 1 - pad] == text@[low as int]);
    let lo: u8 = hex_byte_value(raw[low]);
    let hi: u8 = if 2 * k < pad {
        0
    } else {
        let high: usize = start + (2 * k - pad);
        assert(is_hex_digit(text@[high as int]));
        assert(digits[2 * k - pad] == text@[high as int]);
        hex_byte_value(raw[high])
    };
    hi * 16 + lo
}

/// Fills `bytes`: the bytes that the digits of `text` stand for at the low
/// end, zeros before them.
fn write_digits(text: &str, start: usize, bytes: &mut [u8])
    requires
        is_ascii(text),
        start <= text@.len(),
        forall|j: int| start <= j < text@.len() ==> is_hex_digit(#[trigger] text@[j]),
        bytes_of(text@.skip(start as int)).len() <= old(bytes)@.len(),
    ensures
        final(bytes)@ == Seq::new(
            (old(bytes)@.len() - bytes_of(text@.skip(start as int)).len()) as nat,
            |i: int| 0u8,
        ) + bytes_of(text@.skip(start as int)),
{
    let d: usize = text.as_bytes().len() - start;
    let n: usize = d / 2 + d % 2;
    let size: usize = bytes.len();
    let offset: usize = size - n;
    let ghost decoded = bytes_of(text@.skip(start as int));
    let mut i: usize = 0;
    while i < offset
        invariant
            i <= offset <= size,
            bytes@.len() == size,
            forall|j: int| 0 <= j < i ==> bytes@[j] == 0,
        decreases offset - i,
    {
        bytes[i] = 0;
        i += 1;
    }
    let mut k: usize = 0;
    while k < n
        invariant
            k <= n,
            offset + n == size,
            bytes@.len() == size,
            is_ascii(text),
            start <= text@.len(),
            forall|j: int| start <= j < text@.len() ==> is_hex_digit(#[trigger] text@[j]),
            decoded == bytes_of(text@.skip(start as int)),
            decoded.len() == n,
            forall|j: int| 0 <= j < offset ==> bytes@[j] == 0,
            forall|j: int| 0 <= j < k ==> bytes@[offset + j] == decoded[j],
        decreases n - k,
    {
        let b: u8 = decoded_byte(text, start, k);
        bytes[offset + k] = b;
        k += 1;
    }
    assert(bytes@ =~= Seq::new(offset as nat, |i: int| 0u8) + decoded);
}

/// Decodes `text` into `bytes`, which it may fill from the low end only:
/// the bytes before those that the text stands for become zero. An odd
/// number of digits is read as if a zero stood before them. Where the text
/// is refused, `bytes` is left as it was.
pub fn decode_expanded(text: &str, bytes: &mut [u8]) -> (r: Result<(), HexError>)
    ensures
        match expanded(text@, old(bytes)@.len()) {
            Ok(decoded) => r is Ok && final(bytes)@ == decoded,
            Err(e) => r == Err::<(), HexError>(e) && final(bytes)@ == old(bytes)@,
        },
{
    match scan(text) {
        Err(e) => Err(e),
        Ok((start, end)) => {
            let d: usize = end - start;
            let n: usize = d / 2 + d % 2;
            let size: usize = bytes.len();
            if n > size {
                Err(HexError::LenTooLong { max: size, len: d })
            } else {
                write_digits(text, start, bytes);
                Ok(())
            }
        },
    }
}

/// Decodes `text` into `bytes`, which it must fill. An odd number of digits
/// is read as if a zero stood before them. Where the text is refused,
/// `bytes` is left as it was.
pub fn decode_exact(text: &str, bytes: &mut [u8]) -> (r: Result<(), HexError>)
    ensures
        match exact(text@, old(bytes)@.len()) {
            Ok(decoded) => r is Ok && final(bytes)@ == decoded,
            Err(e) => r == Err::<(), HexError>(e) && final(bytes)@ == old(bytes)@,
        },
{
    match scan(text) {
        Err(e) => Err(e),
        Ok((start, end)) => {
            let d: usize = end - start;
            let n: usize = d / 2 + d % 2;
            let size: usize = bytes.len();
            if n != size {
                Err(HexError::IncorrectLen { expected: size, len: d })
            } else {
                write_digits(text, start, bytes);
                assert(bytes@ =~= bytes_of(text@.skip(start as int)));
                Ok(())
            }
        },
    }
}

/// Decodes `text` into as many bytes as it stands for. The number of digits
/// must be even.
pub fn decode_unbounded(text: &str) -> (r: Result<Vec<u8>, HexError>)
    ensures
        match unbounded(text@) {
            Ok(decoded) => r is Ok && r->Ok_0@ == decoded,
            Err(e) => r == Err::<Vec<u8>, HexError>(e),
        },
{
    match scan(text) {
        Err(e) => Err(e),
        Ok((start, end)) => {
            let d: usize = end - start;
            if d % 2 == 1 {
                Err(HexError::OddLen { len: d })
            } else {
                let n: usize = d / 2;
                let ghost decoded = bytes_of(text@.skip(start as int));
                let mut out: Vec<u8> = Vec::with_capacity(n);
                let mut k: usize = 0;
                while k < n
                    invariant
                        k <= n,
                        is_ascii(text),
                        start <= text@.len(),
                        forall|j: int|
                            start <= j < text@.len() ==> is_hex_digit(#[trigger] text@[j]),
                        decoded == bytes_of(text@.skip(start as int)),
                        decoded.len() == n,
                        out@.len() == k,
                        forall|j: int| 0 <= j < k ==> out@[j] == decoded[j],
                    decreases n - k,
                {
                    let b: u8 = decoded_byte(text, start, k);
                    out.push(b);
                    k += 1;
                }
                assert(out@ =~= decoded);
                Ok(out)
            }
        },
    }
}

} // verus!
