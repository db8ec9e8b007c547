//! The machine's own integers, and their bytes.

use crate::numeric::kind::{Kind, Numeric};
use crate::numeric::value::{
    be_value, lemma_be_value_bound, lemma_be_value_concat, lemma_negative, lemma_span_increases,
    lemma_span_positive, signed_value, span,
};
use vstd::prelude::*;

verus! {

/// A value of one of the machine's integer types.
#[derive(Clone, Copy, Debug, PartialEq, Eq, Structural)]
pub enum Primitive {
    I8(i8),
    I16(i16),
    I32(i32),
    I64(i64),
    I128(i128),
    U8(u8),
    U16(u16),
    U32(u32),
    U64(u64),
    U128(u128),
}

impl Primitive {
    /// The type of the value.
    pub open spec fn numeric(self) -> Numeric {
        match self {
            Primitive::I8(_) => Numeric(Kind::Int, 8),
            Primitive::I16(_) => Numeric(Kind::Int, 16),
            Primitive::I32(_) => Numeric(Kind::Int, 32),
            Primitive::I64(_) => Numeric(Kind::Int, 64),
            Primitive::I128(_) => Numeric(Kind::Int, 128),
            Primitive::U8(_) => Numeric(Kind::Uint, 8),
            Primitive::U16(_) => Numeric(Kind::Uint, 16),
            Primitive::U32(_) => Numeric(Kind::Uint, 32),
            Primitive::U64(_) => Numeric(Kind::Uint, 64),
            Primitive::U128(_) => Numeric(Kind::Uint, 128),
        }
    }

    /// The integer that the value is.
    pub open spec fn value(self) -> int {
        match self {
            Primitive::I8(v) => v as int,
            Primitive::I16(v) => v as int,
            Primitive::I32(v) => v as int,
            Primitive::I64(v) => v as int,
            Primitive::I128(v) => v as int,
            Primitive::U8(v) => v as int,
            Primitive::U16(v) => v as int,
            Primitive::U32(v) => v as int,
            Primitive::U64(v) => v as int,
            Primitive::U128(v) => v as int,
        }
    }

    /// The type of the value.
    pub fn ty(&self) -> (r: Numeric)
        ensures
            r == self.numeric(),
            r.native(),
    {
        match self {
            Primitive::I8(_) => Numeric(Kind::Int, 8),
            Primitive::I16(_) => Numeric(Kind::Int, 16),
            Primitive::I32(_) => Numeric(Kind::Int, 32),
            Primitive::I64(_) => Numeric(Kind::Int, 64),
            Primitive::I128(_) => Numeric(Kind::Int, 128),
            Primitive::U8(_) => Numeric(Kind::Uint, 8),
            Primitive::U16(_) => Numeric(Kind::Uint, 16),
            Primitive::U32(_) => Numeric(Kind::Uint, 32),
            Primitive::U64(_) => Numeric(Kind::Uint, 64),
            Primitive::U128(_) => Numeric(Kind::Uint, 128),
        }
    }
}

/// How many values the machine's integers of 1, 2, 4, 8 and 16 bytes have.
pub proof fn lemma_span_values()
    ensures
        span(1) == 0x100,
        span(2) == 0x1_0000,
        span(4) == 0x1_0000_0000,
        span(8) == 0x1_0000_0000_0000_0000,
        span(16) == 0x1_0000_0000_0000_0000_0000_0000_0000_0000,
{
    reveal_with_fuel(span, 5);
    assert(span(4) == 0x1_0000_0000);
    assert(span(8) == 256 * (256 * (256 * (256 * span(4)))));
    assert(span(12) == 256 * (256 * (256 * (256 * span(8)))));
    assert(span(16) == 256 * (256 * (256 * (256 * span(12)))));
}

/// The greatest unsigned integer of `size` bytes.
pub(crate) fn max_value(size: usize) -> (m: u128)
    requires
        size <= 16,
    ensures
        m == span(size as nat) - 1,
{
    let mut m: u128 = 0;
    let mut i: usize = 0;
    while i < size
        invariant
            i <= size <= 16,
            m == span(i as nat) - 1,
        decreases size - i,
    {
        proof {
            lemma_span_increases((i + 1) as nat, 16);
            lemma_span_values();
        }
        m = m * 256 + 255;
        i += 1;
    }
    m
}

/// The `size` bytes that stand for `u`, most significant first.
pub(crate) fn encode_unsigned(u: u128, size: usize) -> (r: Vec<u8>)
    requires
        size <= 16,
        u < span(size as nat),
    ensures
        r@.len() == size,
        be_value(r@) == u,
{
    let mut out: Vec<u8> = Vec::with_capacity(size);
    let mut n: usize = 0;
    while n < size
        invariant
            n <= size,
            out@.len() == n,
        decreases size - n,
    {
        out.push(0);
        n += 1;
    }
    let mut rest: u128 = u;
    let mut i: usize = size;
    assert(out@.skip(size as int) =~= Seq::<u8>::empty());
    assert(be_value(out@.skip(i as int)) == 0);
    assert((size - i) as nat == 0);
    assert(span((size - i) as nat) == 1);
    assert(rest * span((size - i) as nat) == u);
    while i > 0
        invariant
            i <= size,
            out@.len() == size,
            u == rest * span((size - i) as nat) + be_value(out@.skip(i as int)),
        decreases i,
    {
        let ghost before = out@.skip(i as int);
        let ghost scale = span((size - i) as nat) as int;
        let low: u8 = (rest % 256) as u8;
        i -= 1;
        out[i] = low;
        let ghost head = seq![low];
        proof {
            assert(out@.skip(i as int) =~= head + before);
            lemma_be_value_concat(head, before);
            assert(head.drop_last() =~= Seq::<u8>::empty());
            assert(be_value(head.drop_last()) == 0);
            assert(be_value(head) == low);
            assert(span((size - i) as nat) == 256 * scale);
            let q = (rest / 256) as int;
            assert((q * 256 + low) * scale == q * (256 * scale) + low * scale)
                by (nonlinear_arith);
        }
        rest = rest / 256;
    }
    proof {
        assert(out@.skip(0) =~= out@);
        lemma_be_value_bound(out@);
        let s = span(size as nat) as int;
        assert(rest == 0) by (nonlinear_arith)
            requires
                u == rest * s + be_value(out@),
                u < s,
                rest >= 0,
                s > 0,
        ;
    }
    out
}

/// The `size` bytes that stand for `v` in two's complement.
pub(crate) fn encode_signed(v: i128, size: usize) -> (r: Vec<u8>)
    requires
        0 < size <= 16,
        -(span(size as nat) as int) <= 2 * v < span(size as nat),
    ensures
        r@.len() == size,
        signed_value(r@) == v,
{
    proof {
        lemma_span_positive(size as nat);
    }
    if v >= 0 {
        let r = encode_unsigned(v as u128, size);
        proof {
            lemma_negative(r@);
        }
        r
    } else {
        let below: u128 = (-(v + 1)) as u128;
        let r = encode_unsigned(max_value(size) - below, size);
        proof {
            lemma_negative(r@);
        }
        r
    }
}

/// The unsigned integer that `bytes` stand for.
pub(crate) fn decode_unsigned(bytes: &[u8]) -> (u: u128)
    requires
        bytes@.len() <= 16,
    ensures
        u == be_value(bytes@),
{
    let n: usize = bytes.len();
    let mut u: u128 = 0;
    let mut i: usize = 0;
    assert(bytes@.take(0) =~= Seq::<u8>::empty());
    while i < n
        invariant
            i <= n <= 16,
            n == bytes@.len(),
            u == be_value(bytes@.take(i as int)),
        decreases n - i,
    {
        proof {
            let next = bytes@.take(i + 1);
            assert(next.drop_last() =~= bytes@.take(i as int));
            lemma_be_value_bound(next);
            lemma_span_increases((i + 1) as nat, 16);
            lemma_span_values();
        }
        u = u * 256 + bytes[i] as u128;
        i += 1;
    }
    assert(bytes@.take(n as int) =~= bytes@);
    u
}

/// The integer that `bytes` stand for in two's complement.
pub(crate) fn decode_signed(bytes: &[u8]) -> (v: i128)
    requires
        0 < bytes@.len() <= 16,
    ensures
        v == signed_value(bytes@),
{
    let u: u128 = decode_unsigned(bytes);
    proof {
        lemma_negative(bytes@);
        lemma_be_value_bound(bytes@);
        lemma_span_increases(bytes@.len(), 16);
        lemma_span_values();
    }
    if bytes[0] >= 128 {
        let below: u128 = max_value(bytes.len()) - u;
        -(below as i128) - 1
    } else {
        u as i128
    }
}

} // verus!
