//! Kinds, widths, and the relation that says which type holds which.

use std::cmp::Ordering;
use vstd::prelude::*;

verus! {

/// Signed or unsigned.
#[derive(Clone, Copy, Debug, PartialEq, Eq, Structural)]
pub enum Kind {
    Int,
    Uint,
}

/// How one type stands to another: narrower, the same, or wider.
#[derive(Clone, Copy, Debug, PartialEq, Eq, Structural)]
pub enum FitsRelation {
    Less,
    Equal,
    Greater,
}

/// An integer type, named by its kind and its width in bits.
#[derive(Clone, Copy, Debug, PartialEq, Eq, Structural)]
pub struct Numeric(pub Kind, pub u16);

impl Kind {
    pub open spec fn ty_text(self) -> Seq<char> {
        match self {
            Kind::Int => "Int"@,
            Kind::Uint => "Uint"@,
        }
    }

    pub open spec fn primitive_text(self) -> Seq<char> {
        match self {
            Kind::Int => "i"@,
            Kind::Uint => "u"@,
        }
    }

    pub open spec fn directive_text(self) -> Seq<char> {
        match self {
            Kind::Int => "@int"@,
            Kind::Uint => "@uint"@,
        }
    }

    /// The stem of the names of this kind's fixed-width types.
    pub fn ty(&self) -> (r: &'static str)
        ensures
            r@ == self.ty_text(),
    {
        match self {
            Kind::Int => "Int",
            Kind::Uint => "Uint",
        }
    }

    /// The stem of the names of this kind's machine integers.
    pub fn primitive(&self) -> (r: &'static str)
        ensures
            r@ == self.primitive_text(),
    {
        match self {
            Kind::Int => "i",
            Kind::Uint => "u",
        }
    }

    /// The marker that introduces this kind in a generated block.
    pub fn directive(&self) -> (r: &'static str)
        ensures
            r@ == self.directive_text(),
    {
        match self {
            Kind::Int => "@int",
            Kind::Uint => "@uint",
        }
    }
}

impl FitsRelation {
    /// The relation that an `Ordering` stands for.
    pub open spec fn of_ordering(o: Ordering) -> FitsRelation {
        match o {
            Ordering::Less => FitsRelation::Less,
            Ordering::Equal => FitsRelation::Equal,
            Ordering::Greater => FitsRelation::Greater,
        }
    }

    pub fn from_ordering(o: Ordering) -> (r: FitsRelation)
        ensures
            r == Self::of_ordering(o),
    {
        match o {
            Ordering::Less => FitsRelation::Less,
            Ordering::Equal => FitsRelation::Equal,
            Ordering::Greater => FitsRelation::Greater,
        }
    }

    pub fn to_ordering(self) -> (r: Ordering)
        ensures
            Self::of_ordering(r) == self,
    {
        match self {
            FitsRelation::Less => Ordering::Less,
            FitsRelation::Equal => Ordering::Equal,
            FitsRelation::Greater => Ordering::Greater,
        }
    }
}

impl Numeric {
    /// The narrowest and the widest supported width, in bits.
    pub open spec fn supported(self) -> bool {
        8 <= self.1 <= 256 && self.1 % 8 == 0
    }

    /// The length in bytes of a value of a supported type.
    pub open spec fn size(self) -> nat {
        (self.1 / 8) as nat
    }

    /// One of the machine's own integer types.
    pub open spec fn native(self) -> bool {
        self.1 == 8 || self.1 == 16 || self.1 == 32 || self.1 == 64 || self.1 == 128
    }

    /// The relation of `self` to `other`. Within one kind the widths decide.
    /// Across kinds a signed type is `Greater` than a narrower unsigned one,
    /// and every other pair is `Less`.
    pub open spec fn relation(self, other: Numeric) -> FitsRelation {
        if self.0 == other.0 {
            if self.1 < other.1 {
                FitsRelation::Less
            } else if self.1 == other.1 {
                FitsRelation::Equal
            } else {
                FitsRelation::Greater
            }
        } else if self.0 == Kind::Int && self.1 > other.1 {
            FitsRelation::Greater
        } else {
            FitsRelation::Less
        }
    }

    /// Every value of `source` is a value of `self`.
    pub open spec fn holds(self, source: Numeric) -> bool {
        self.relation(source) != FitsRelation::Less
    }

    pub fn is_supported(&self) -> (r: bool)
        ensures
            r == self.supported(),
    {
        8 <= self.1 && self.1 <= 256 && self.1 % 8 == 0
    }

    pub fn is_native(&self) -> (r: bool)
        ensures
            r == self.native(),
    {
        self.1 == 8 || self.1 == 16 || self.1 == 32 || self.1 == 64 || self.1 == 128
    }

    pub fn fits(&self, other: &Self) -> (r: FitsRelation)
        ensures
            r == self.relation(*other),
    {
        if self.0 == other.0 {
            if self.1 < other.1 {
                FitsRelation::Less
            } else if self.1 == other.1 {
                FitsRelation::Equal
            } else {
                FitsRelation::Greater
            }
        } else {
            match self.0 {
                Kind::Int => {
                    if self.1 > other.1 {
                        FitsRelation::Greater
                    } else {
                        FitsRelation::Less
                    }
                },
                Kind::Uint => FitsRelation::Less,
            }
        }
    }

    /// The relation of `self` to `other`, as an `Ordering`.
    pub fn fits_in(&self, other: &Self) -> (r: Ordering)
        ensures
            FitsRelation::of_ordering(r) == self.relation(*other),
    {
        self.fits(other).to_ordering()
    }

    pub fn can_hold(&self, source: &Self) -> (r: bool)
        ensures
            r == self.holds(*source),
    {
        match self.fits(source) {
            FitsRelation::Less => false,
            _ => true,
        }
    }
}

} // verus!
