//! The integer that a buffer of bytes stands for, and what extending the
//! buffer does to it.

use crate::numeric::kind::Kind;
use vstd::prelude::*;

verus! {

/// The number of values that `len` bytes can tell apart: 256 to the `len`.
pub open spec fn span(len: nat) -> nat
    decreases len,
{
    if len == 0 {
        1
    } else {
        256 * span((len - 1) as nat)
    }
}

/// The unsigned integer that `bytes` stand for, most significant byte first.
pub open spec fn be_value(bytes: Seq<u8>) -> nat
    decreases bytes.len(),
{
    if bytes.len() == 0 {
        0
    } else {
        be_value(bytes.drop_last()) * 256 + bytes.last() as nat
    }
}

/// The first byte has its highest bit set.
pub open spec fn negative(bytes: Seq<u8>) -> bool {
    bytes.len() > 0 && bytes[0] >= 128
}

/// The integer that `bytes` stand for in two's complement.
pub open spec fn signed_value(bytes: Seq<u8>) -> int {
    if negative(bytes) {
        be_value(bytes) - span(bytes.len())
    } else {
        be_value(bytes) as int
    }
}

/// The integer that `bytes` stand for as a value of kind `kind`.
pub open spec fn integer(kind: Kind, bytes: Seq<u8>) -> int {
    match kind {
        Kind::Int => signed_value(bytes),
        Kind::Uint => be_value(bytes) as int,
    }
}

/// `count` bytes, each of them `byte`.
pub open spec fn filled(byte: u8, count: nat) -> Seq<u8> {
    Seq::new(count, |i: int| byte)
}

/// The byte that extends a value of kind `kind`: all ones before a negative
/// signed value, zero before every other.
pub open spec fn filler(kind: Kind, bytes: Seq<u8>) -> u8 {
    if kind == Kind::Int && negative(bytes) {
        255
    } else {
        0
    }
}

/// `bytes` extended at the high end to `size` bytes.
pub open spec fn extended(kind: Kind, bytes: Seq<u8>, size: nat) -> Seq<u8> {
    filled(filler(kind, bytes), (size - bytes.len()) as nat) + bytes
}

/// The least integer of kind `kind` in `len` bytes.
pub open spec fn least(kind: Kind, len: nat) -> int {
    match kind {
        Kind::Int => -(span(len) as int / 2),
        Kind::Uint => 0,
    }
}

/// The integer just above the greatest of kind `kind` in `len` bytes.
pub open spec fn bound(kind: Kind, len: nat) -> int {
    match kind {
        Kind::Int => span(len) as int / 2,
        Kind::Uint => span(len) as int,
    }
}

pub proof fn lemma_span_positive(len: nat)
    ensures
        span(len) > 0,
        len > 0 ==> span(len) % 256 == 0 && span(len) >= 256,
    decreases len,
{
    if len > 0 {
        lemma_span_positive((len - 1) as nat);
    }
}

pub proof fn lemma_span_add(a: nat, b: nat)
    ensures
        span(a + b) == span(a) * span(b),
    decreases a,
{
    if a == 0 {
        assert(span(a) == 1);
        assert(a + b == b);
    } else {
        let a1 = (a - 1) as nat;
        lemma_span_add(a1, b);
        let x = span(a1) as int;
        let y = span(b) as int;
        assert((a + b - 1) as nat == a1 + b);
        assert(span(a + b) == 256 * span(a1 + b));
        assert(span(a) == 256 * x);
        assert(256 * (x * y) == (256 * x) * y) by (nonlinear_arith);
    }
}

pub proof fn lemma_span_increases(a: nat, b: nat)
    requires
        a <= b,
    ensures
        span(a) <= span(b),
        a < b ==> 256 * span(a) <= span(b),
    decreases b - a,
{
    if a < b {
        lemma_span_increases(a, (b - 1) as nat);
        lemma_span_positive(a);
    }
}

/// `len` bytes stand for a number below `span(len)`.
pub proof fn lemma_be_value_bound(bytes: Seq<u8>)
    ensures
        be_value(bytes) < span(bytes.len()),
    decreases bytes.len(),
{
    if bytes.len() > 0 {
        lemma_be_value_bound(bytes.drop_last());
    }
}

/// The bytes of `a` count for `span(b.len())` each when `b` follows them.
pub proof fn lemma_be_value_concat(a: Seq<u8>, b: Seq<u8>)
    ensures
        be_value(a + b) == be_value(a) * span(b.len()) + be_value(b),
    decreases b.len(),
{
    if b.len() == 0 {
        assert(a + b =~= a);
        assert(span(b.len()) == 1);
        assert(be_value(b) == 0);
    } else {
        let front = b.drop_last();
        assert((a + b).drop_last() =~= a + front);
        assert((a + b).last() == b.last());
        lemma_be_value_concat(a, front);
        let x = be_value(a) as int;
        let s = span(front.len()) as int;
        assert(span(b.len()) == 256 * s);
        assert(be_value(a + b) == be_value(a + front) * 256 + b.last() as nat);
        assert(be_value(b) == be_value(front) * 256 + b.last() as nat);
        assert((x * s + be_value(front)) * 256 == x * (256 * s) + be_value(front) * 256)
            by (nonlinear_arith);
    }
}

/// Bytes of zeros stand for zero, bytes of ones for the greatest number.
pub proof fn lemma_be_value_filled(count: nat)
    ensures
        be_value(filled(0, count)) == 0,
        be_value(filled(255, count)) == span(count) - 1,
    decreases count,
{
    if count > 0 {
        lemma_be_value_filled((count - 1) as nat);
        assert(filled(0, count).drop_last() =~= filled(0, (count - 1) as nat));
        assert(filled(255, count).drop_last() =~= filled(255, (count - 1) as nat));
    }
}

/// The highest bit is set exactly in the upper half of the numbers.
pub proof fn lemma_negative(bytes: Seq<u8>)
    requires
        bytes.len() > 0,
    ensures
        negative(bytes) <==> 2 * be_value(bytes) >= span(bytes.len()),
{
    let head = seq![bytes[0]];
    let rest = bytes.skip(1);
    assert(head + rest =~= bytes);
    lemma_be_value_concat(head, rest);
    lemma_be_value_bound(rest);
    assert(head.drop_last() =~= Seq::<u8>::empty());
    assert(be_value(head.drop_last()) == 0);
    assert(be_value(head) == bytes[0]);
    let s = span(rest.len()) as int;
    let h = bytes[0] as int;
    assert(span(bytes.len()) == 256 * s);
    if h >= 128 {
        assert(h * s >= 128 * s) by (nonlinear_arith)
            requires
                h >= 128,
                s >= 0,
        ;
    } else {
        assert(h * s <= 127 * s) by (nonlinear_arith)
            requires
                h <= 127,
                s >= 0,
        ;
    }
}

/// Every buffer stands for an integer of its kind's range.
pub proof fn lemma_integer_range(kind: Kind, bytes: Seq<u8>)
    requires
        bytes.len() > 0,
    ensures
        least(kind, bytes.len()) <= integer(kind, bytes) < bound(kind, bytes.len()),
{
    lemma_be_value_bound(bytes);
    lemma_negative(bytes);
    lemma_span_positive(bytes.len());
}

/// Extending a buffer in the way of its kind keeps the integer.
pub proof fn lemma_extended_value(kind: Kind, bytes: Seq<u8>, size: nat)
    requires
        0 < bytes.len() <= size,
    ensures
        extended(kind, bytes, size).len() == size,
        integer(kind, extended(kind, bytes, size)) == integer(kind, bytes),
{
    let count = (size - bytes.len()) as nat;
    let fill = filled(filler(kind, bytes), count);
    let out = extended(kind, bytes, size);
    lemma_be_value_concat(fill, bytes);
    lemma_be_value_filled(count);
    lemma_span_add(count, bytes.len());
    if count == 0 {
        assert(out =~= bytes);
    } else {
        assert(out[0] == filler(kind, bytes));
        if kind == Kind::Int && negative(bytes) {
            let c = span(count) as int;
            let s = span(bytes.len()) as int;
            assert((c - 1) * s == c * s - s) by (nonlinear_arith);
        } else {
            assert(be_value(fill) * span(bytes.len()) == 0) by (nonlinear_arith)
                requires
                    be_value(fill) == 0,
            ;
        }
    }
}

/// An unsigned buffer extended by at least one byte stands for the same
/// integer when read as signed.
pub proof fn lemma_unsigned_as_signed(bytes: Seq<u8>, size: nat)
    requires
        bytes.len() < size,
    ensures
        integer(Kind::Int, extended(Kind::Uint, bytes, size)) == integer(Kind::Uint, bytes),
{
    let count = (size - bytes.len()) as nat;
    let fill = filled(0, count);
    lemma_be_value_concat(fill, bytes);
    lemma_be_value_filled(count);
    assert(extended(Kind::Uint, bytes, size)[0] == 0);
    assert(be_value(fill) * span(bytes.len()) == 0) by (nonlinear_arith)
        requires
            be_value(fill) == 0,
    ;
}

} // verus!
