//! Values of the family's types: a kind, a width, and a buffer of exactly
//! as many bytes as the width asks for, most significant byte first.

use crate::numeric::kind::{Kind, Numeric};
use crate::numeric::primitive::{
    decode_signed, decode_unsigned, encode_signed, encode_unsigned, lemma_span_values, Primitive,
};
use crate::numeric::value::{
    extended, filled, filler, integer, lemma_extended_value, lemma_integer_range,
    lemma_unsigned_as_signed,
};
use vstd::prelude::*;
use vstd::slice::slice_to_vec;

verus! {

/// A buffer had another length than its type asks for.
#[derive(Clone, Copy, Debug, PartialEq, Eq, Structural)]
pub struct LengthError {
    pub expected: usize,
    pub len: usize,
}

/// What a value is: its type and its bytes.
pub struct NumberView {
    pub ty: Numeric,
    pub bytes: Seq<u8>,
}

impl NumberView {
    /// The type is one of the family, and the buffer has its length.
    pub open spec fn wf(self) -> bool {
        self.ty.supported() && self.bytes.len() == self.ty.size()
    }

    /// The integer that the value stands for.
    pub open spec fn integer(self) -> int {
        integer(self.ty.0, self.bytes)
    }

    /// The value of type `ty` with the bytes `bytes`, where there is one.
    pub open spec fn from_bytes(ty: Numeric, bytes: Seq<u8>) -> Result<NumberView, LengthError> {
        if bytes.len() == ty.size() {
            Ok(NumberView { ty, bytes })
        } else {
            Err(LengthError { expected: ty.size() as usize, len: bytes.len() as usize })
        }
    }

    /// The value of type `target` that stands for the same integer, where
    /// `target` holds every value of this type: the bytes are extended with
    /// the sign of a signed value, with zeros for an unsigned one.
    pub open spec fn widened(self, target: Numeric) -> Option<NumberView> {
        if target.supported() && target.holds(self.ty) {
            Some(
                NumberView {
                    ty: target,
                    bytes: extended(self.ty.0, self.bytes, target.size()),
                },
            )
        } else {
            None
        }
    }
}

/// A value of one of the family's types.
#[derive(Debug, PartialEq, Eq)]
pub struct Number {
    ty: Numeric,
    bytes: Vec<u8>,
}

impl View for Number {
    type V = NumberView;

    closed spec fn view(&self) -> NumberView {
        NumberView { ty: self.ty, bytes: self.bytes@ }
    }
}

impl Clone for Number {
    fn clone(&self) -> (r: Self)
        ensures
            r@ == self@,
    {
        proof {
            use_type_invariant(self);
        }
        Number { ty: self.ty, bytes: self.bytes.clone() }
    }
}

impl Number {
    #[verifier::type_invariant]
    spec fn well_formed(&self) -> bool {
        self@.wf()
    }

    /// The value of type `ty` whose buffer holds `bytes`, copied as they are.
    pub fn from_bytes(ty: Numeric, bytes: &[u8]) -> (r: Result<Number, LengthError>)
        requires
            ty.supported(),
        ensures
            match NumberView::from_bytes(ty, bytes@) {
                Ok(v) => r is Ok && r->Ok_0@ == v,
                Err(e) => r == Err::<Number, LengthError>(e),
            },
    {
        let expected: usize = (ty.1 / 8) as usize;
        if bytes.len() == expected {
            Ok(Number { ty, bytes: slice_to_vec(bytes) })
        } else {
            Err(LengthError { expected, len: bytes.len() })
        }
    }

    /// The buffer.
    pub fn as_bytes(&self) -> (r: &[u8])
        ensures
            r@ == self@.bytes,
            self@.wf(),
    {
        proof {
            use_type_invariant(self);
        }
        self.bytes.as_slice()
    }

    /// The type.
    pub fn ty(&self) -> (r: Numeric)
        ensures
            r == self@.ty,
            self@.wf(),
    {
        proof {
            use_type_invariant(self);
        }
        self.ty
    }

    /// The value of type `target` that stands for the same integer, where
    /// `target` holds every value of this type.
    pub fn widen(&self, target: Numeric) -> (r: Option<Number>)
        ensures
            self@.wf(),
            match self@.widened(target) {
                Some(v) => r is Some && r->Some_0@ == v && v.wf() && v.integer()
                    == self@.integer(),
                None => r is None,
            },
    {
        proof {
            use_type_invariant(self);
        }
        if !target.is_supported() || !target.can_hold(&self.ty) {
            return None;
        }
        let size: usize = (target.1 / 8) as usize;
        let len: usize = self.bytes.len();
        let fill: u8 = match self.ty.0 {
            Kind::Int => if self.bytes[0] >= 128 {
                255
            } else {
                0
            },
            Kind::Uint => 0,
        };
        let count: usize = size - len;
        let mut out: Vec<u8> = Vec::with_capacity(size);
        let mut i: usize = 0;
        while i < count
            invariant
                i <= count,
                out@ == filled(fill, i as nat),
            decreases count - i,
        {
            out.push(fill);
            assert(out@ =~= filled(fill, (i + 1) as nat));
            i += 1;
        }
        let mut k: usize = 0;
        while k < len
            invariant
                k <= len,
                len == self.bytes@.len(),
                out@ == filled(fill, count as nat) + self.bytes@.take(k as int),
            decreases len - k,
        {
            out.push(self.bytes[k]);
            assert(out@ =~= filled(fill, count as nat) + self.bytes@.take(k + 1));
            k += 1;
        }
        proof {
            assert(self.bytes@.take(len as int) =~= self.bytes@);
            assert(fill == filler(self.ty.0, self.bytes@));
            if self.ty.0 == target.0 {
                lemma_extended_value(self.ty.0, self.bytes@, size as nat);
            } else {
                lemma_unsigned_as_signed(self.bytes@, size as nat);
            }
        }
        Some(Number { ty: target, bytes: out })
    }

    /// The value of the widest type of this kind that stands for the same
    /// integer.
    pub fn to_canonical(&self) -> (r: Number)
        ensures
            r@.wf(),
            r@.ty == Numeric(self@.ty.0, 256),
            r@.bytes == extended(self@.ty.0, self@.bytes, 32),
            r@.integer() == self@.integer(),
    {
        proof {
            use_type_invariant(self);
        }
        self.widen(Numeric(self.ty.0, 256)).unwrap()
    }

    /// The value of `p`'s own type that stands for the integer that `p` is.
    fn of_primitive(p: Primitive) -> (r: Number)
        ensures
            r@.wf(),
            r@.ty == p.numeric(),
            r@.integer() == p.value(),
    {
        proof {
            lemma_span_values();
        }
        match p {
            Primitive::I8(v) => Number { ty: p.ty(), bytes: encode_signed(v as i128, 1) },
            Primitive::I16(v) => Number { ty: p.ty(), bytes: encode_signed(v as i128, 2) },
            Primitive::I32(v) => Number { ty: p.ty(), bytes: encode_signed(v as i128, 4) },
            Primitive::I64(v) => Number { ty: p.ty(), bytes: encode_signed(v as i128, 8) },
            Primitive::I128(v) => Number { ty: p.ty(), bytes: encode_signed(v, 16) },
            Primitive::U8(v) => Number { ty: p.ty(), bytes: encode_unsigned(v as u128, 1) },
            Primitive::U16(v) => Number { ty: p.ty(), bytes: encode_unsigned(v as u128, 2) },
            Primitive::U32(v) => Number { ty: p.ty(), bytes: encode_unsigned(v as u128, 4) },
            Primitive::U64(v) => Number { ty: p.ty(), bytes: encode_unsigned(v as u128, 8) },
            Primitive::U128(v) => Number { ty: p.ty(), bytes: encode_unsigned(v, 16) },
        }
    }

    /// The value of type `target` that stands for the integer that `p` is,
    /// where `target` holds every value of `p`'s type.
    pub fn from_primitive(target: Numeric, p: Primitive) -> (r: Option<Number>)
        ensures
            r is Some <==> target.supported() && target.holds(p.numeric()),
            r matches Some(n) ==> n@.wf() && n@.ty == target && n@.integer() == p.value(),
    {
        Number::of_primitive(p).widen(target)
    }

    /// The value of the machine's type `target` that is the integer that
    /// this value stands for, where `target` holds every value of this type.
    pub fn to_primitive(&self, target: Numeric) -> (r: Option<Primitive>)
        ensures
            r is Some <==> target.native() && target.holds(self@.ty),
            r matches Some(p) ==> p.numeric() == target && p.value() == self@.integer(),
    {
        if !target.is_native() {
            return None;
        }
        match self.widen(target) {
            None => None,
            Some(wide) => {
                proof {
                    use_type_invariant(&wide);
                    lemma_span_values();
                    lemma_integer_range(target.0, wide.bytes@);
                }
                match target.0 {
                    Kind::Int => {
                        let v: i128 = decode_signed(wide.bytes.as_slice());
                        if target.1 == 8 {
                            Some(Primitive::I8(v as i8))
                        } else if target.1 == 16 {
                            Some(Primitive::I16(v as i16))
                        } else if target.1 == 32 {
                            Some(Primitive::I32(v as i32))
                        } else if target.1 == 64 {
                            Some(Primitive::I64(v as i64))
                        } else {
                            Some(Primitive::I128(v))
                        }
                    },
                    Kind::Uint => {
                        let u: u128 = decode_unsigned(wide.bytes.as_slice());
                        if target.1 == 8 {
                            Some(Primitive::U8(u as u8))
                        } else if target.1 == 16 {
                            Some(Primitive::U16(u as u16))
                        } else if target.1 == 32 {
                            Some(Primitive::U32(u as u32))
                        } else if target.1 == 64 {
                            Some(Primitive::U64(u as u64))
                        } else {
                            Some(Primitive::U128(u))
                        }
                    },
                }
            },
        }
    }
}

} // verus!
