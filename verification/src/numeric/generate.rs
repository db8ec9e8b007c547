//! The text of the blocks that declare each type of the family and list, for
//! each relation, the machine integers that stand in it.

use crate::numeric::kind::{FitsRelation, Kind, Numeric};
use crate::text::{decimal, lemma_decimal_nonempty, push_decimal};
use std::cmp::Ordering;
use vstd::prelude::*;
use vstd::string::StringExecFns;

verus! {

/// The machine integers of up to 64 bits, signed ones first.
pub open spec fn primitive_types() -> Seq<Numeric> {
    seq![
        Numeric(Kind::Int, 8),
        Numeric(Kind::Int, 16),
        Numeric(Kind::Int, 32),
        Numeric(Kind::Int, 64),
        Numeric(Kind::Uint, 8),
        Numeric(Kind::Uint, 16),
        Numeric(Kind::Uint, 32),
        Numeric(Kind::Uint, 64),
    ]
}

/// The two machine integers of 128 bits.
pub open spec fn primitive_types_128() -> Seq<Numeric> {
    seq![Numeric(Kind::Int, 128), Numeric(Kind::Uint, 128)]
}

/// The types of one kind, from 8 to 256 bits in steps of 8.
pub open spec fn family_of(kind: Kind) -> Seq<Numeric> {
    Seq::new(32, |i: int| Numeric(kind, (8 * (i + 1)) as u16))
}

/// The family: the signed types, then the unsigned ones.
pub open spec fn family_types() -> Seq<Numeric> {
    family_of(Kind::Int) + family_of(Kind::Uint)
}

/// The blocks of `types` in order, an empty line before each.
pub open spec fn blocks_text(types: Seq<Numeric>) -> Seq<char>
    decreases types.len(),
{
    if types.len() == 0 {
        Seq::empty()
    } else {
        blocks_text(types.drop_last()) + "\n"@ + types.last().block()
    }
}

/// The 128-bit lines of `types` in order.
pub open spec fn lines_128_text(types: Seq<Numeric>) -> Seq<char>
    decreases types.len(),
{
    if types.len() == 0 {
        Seq::empty()
    } else {
        lines_128_text(types.drop_last()) + types.last().line_128()
    }
}

/// The names of `types`, separated by a comma and a space.
pub open spec fn joined_names(types: Seq<Numeric>) -> Seq<char>
    decreases types.len(),
{
    if types.len() == 0 {
        Seq::empty()
    } else if types.len() == 1 {
        types[0].primitive_name()
    } else {
        joined_names(types.drop_last()) + ", "@ + types.last().primitive_name()
    }
}

/// A list of names is empty only if it names nothing.
pub proof fn lemma_joined_names_len(types: Seq<Numeric>)
    ensures
        joined_names(types).len() == 0 <==> types.len() == 0,
    decreases types.len(),
{
    if types.len() > 0 {
        let last = types.last();
        lemma_decimal_nonempty(last.1 as nat);
        assert(last.primitive_name().len() > 0);
    }
}

pub fn primitives() -> (r: Vec<Numeric>)
    ensures
        r@ == primitive_types(),
{
    let r = vec![
        Numeric(Kind::Int, 8),
        Numeric(Kind::Int, 16),
        Numeric(Kind::Int, 32),
        Numeric(Kind::Int, 64),
        Numeric(Kind::Uint, 8),
        Numeric(Kind::Uint, 16),
        Numeric(Kind::Uint, 32),
        Numeric(Kind::Uint, 64),
    ];
    assert(r@ =~= primitive_types());
    r
}

pub fn primitives_128() -> (r: Vec<Numeric>)
    ensures
        r@ == primitive_types_128(),
{
    let r = vec![Numeric(Kind::Int, 128), Numeric(Kind::Uint, 128)];
    assert(r@ =~= primitive_types_128());
    r
}

/// The types of `kind`, narrowest first.
pub fn types_of(kind: Kind) -> (r: Vec<Numeric>)
    ensures
        r@ == family_of(kind),
        forall|i: int| 0 <= i < r@.len() ==> (#[trigger] r@[i]).supported(),
{
    let mut r: Vec<Numeric> = Vec::new();
    let mut k: u16 = 0;
    while k < 32
        invariant
            k <= 32,
            r@.len() == k,
            forall|i: int| 0 <= i < r@.len() ==> r@[i] == family_of(kind)[i],
        decreases 32 - k,
    {
        r.push(Numeric(kind, 8 * (k + 1)));
        k += 1;
    }
    assert(r@ =~= family_of(kind));
    r
}

/// Every type of the family, in the order in which its blocks are written.
pub fn family() -> (r: Vec<Numeric>)
    ensures
        r@ == family_types(),
        r@.len() == 64,
        forall|i: int| 0 <= i < r@.len() ==> (#[trigger] r@[i]).supported(),
{
    let mut r = types_of(Kind::Int);
    let mut unsigned = types_of(Kind::Uint);
    r.append(&mut unsigned);
    r
}

/// The blocks of `types` in order, an empty line before each.
pub fn blocks(types: &[Numeric]) -> (r: String)
    ensures
        r@ == blocks_text(types@),
{
    let mut out = String::new();
    let n: usize = types.len();
    let mut i: usize = 0;
    assert(types@.take(0) =~= Seq::<Numeric>::empty());
    while i < n
        invariant
            i <= n,
            n == types@.len(),
            out@ == blocks_text(types@.take(i as int)),
        decreases n - i,
    {
        let block = types[i].impl_();
        out.append("\n");
        out.append(block.as_str());
        proof {
            assert(types@.take(i + 1).drop_last() =~= types@.take(i as int));
            assert(out@ =~= blocks_text(types@.take(i + 1)));
        }
        i += 1;
    }
    assert(types@.take(n as int) =~= types@);
    out
}

/// The 128-bit lines of `types` in order.
pub fn lines_128(types: &[Numeric]) -> (r: String)
    ensures
        r@ == lines_128_text(types@),
{
    let mut out = String::new();
    let n: usize = types.len();
    let mut i: usize = 0;
    assert(types@.take(0) =~= Seq::<Numeric>::empty());
    while i < n
        invariant
            i <= n,
            n == types@.len(),
            out@ == lines_128_text(types@.take(i as int)),
        decreases n - i,
    {
        let line = types[i].impl_128();
        out.append(line.as_str());
        proof {
            assert(types@.take(i + 1).drop_last() =~= types@.take(i as int));
            assert(out@ =~= lines_128_text(types@.take(i + 1)));
        }
        i += 1;
    }
    assert(types@.take(n as int) =~= types@);
    out
}

impl Numeric {
    /// The name of the machine integer of this kind and width.
    pub open spec fn primitive_name(self) -> Seq<char> {
        self.0.primitive_text() + decimal(self.1 as nat)
    }

    /// The name of the fixed-width type of this kind and width.
    pub open spec fn ty_name(self) -> Seq<char> {
        self.0.ty_text() + decimal(self.1 as nat)
    }

    /// Those of `types` to which `self` stands in relation `rel`, in order.
    pub open spec fn selected(self, rel: FitsRelation, types: Seq<Numeric>) -> Seq<Numeric>
        decreases types.len(),
    {
        if types.len() == 0 {
            Seq::empty()
        } else {
            let rest = self.selected(rel, types.drop_last());
            if self.relation(types.last()) == rel {
                rest.push(types.last())
            } else {
                rest
            }
        }
    }

    /// The names of those of `types` to which `self` stands in relation `rel`.
    pub open spec fn listing(self, rel: FitsRelation, types: Seq<Numeric>) -> Seq<char> {
        joined_names(self.selected(rel, types))
    }

    /// The line of a block that lists `types` under `rel`; nothing where the
    /// list is empty.
    pub open spec fn clause(self, rel: FitsRelation, types: Seq<Numeric>) -> Seq<char> {
        let names = self.listing(rel, types);
        if names.len() == 0 {
            Seq::empty()
        } else {
            match rel {
                FitsRelation::Greater => "    @gt "@ + names + ";\n"@,
                FitsRelation::Equal => "    @eq "@ + names + ";\n"@,
                FitsRelation::Less => "    @lt "@ + names + ";\n"@,
            }
        }
    }

    /// The part of a 128-bit line that lists `types` under `rel`; nothing
    /// where the list is empty.
    pub open spec fn clause_128(self, rel: FitsRelation, types: Seq<Numeric>) -> Seq<char> {
        let names = self.listing(rel, types);
        if names.len() == 0 {
            Seq::empty()
        } else {
            match rel {
                FitsRelation::Greater => "; @gt "@ + names,
                FitsRelation::Equal => "; @eq "@ + names,
                FitsRelation::Less => "; @lt "@ + names,
            }
        }
    }

    /// The block that declares this type: its name, its kind and size in
    /// bytes, and the 64-bit machine integers that it is wider than, equal to
    /// and narrower than. The widest type opens its block differently.
    pub open spec fn block(self) -> Seq<char> {
        (if self.1 != 256 {
            "impl_num_ext! {\n"@
        } else {
            "impl_num! {\n"@
        }) + "    "@ + self.ty_name() + ";\n"@ + "    "@ + self.0.directive_text() + ", size = "@
            + decimal((self.1 / 8) as nat) + ";\n"@ + self.clause(
            FitsRelation::Greater,
            primitive_types(),
        ) + self.clause(FitsRelation::Equal, primitive_types()) + self.clause(
            FitsRelation::Less,
            primitive_types(),
        ) + "}\n"@
    }

    /// The line that relates this type to the 128-bit machine integers.
    pub open spec fn line_128(self) -> Seq<char> {
        "    impl_num!("@ + self.ty_name() + self.clause_128(
            FitsRelation::Greater,
            primitive_types_128(),
        ) + self.clause_128(FitsRelation::Equal, primitive_types_128()) + self.clause_128(
            FitsRelation::Less,
            primitive_types_128(),
        ) + ");\n"@
    }

    /// The names of those of `types` to which `self` stands in relation `rel`.
    pub fn query(&self, rel: FitsRelation, types: &[Numeric]) -> (r: String)
        ensures
            r@ == self.listing(rel, types@),
    {
        let mut out = String::new();
        let mut any = false;
        let n: usize = types.len();
        let mut i: usize = 0;
        assert(types@.take(0) =~= Seq::<Numeric>::empty());
        while i < n
            invariant
                i <= n,
                n == types@.len(),
                out@ == self.listing(rel, types@.take(i as int)),
                any == (self.selected(rel, types@.take(i as int)).len() > 0),
            decreases n - i,
        {
            let p = types[i];
            let ghost before = self.selected(rel, types@.take(i as int));
            proof {
                assert(types@.take(i + 1).drop_last() =~= types@.take(i as int));
                assert(types@.take(i + 1).last() == p);
            }
            if self.fits(&p) == rel {
                if any {
                    out.append(", ");
                }
                out.append(p.0.primitive());
                push_decimal(&mut out, p.1 as u128);
                proof {
                    let after = before.push(p);
                    assert(after.drop_last() =~= before);
                    assert(after.last() == p);
                    if before.len() > 0 {
                        assert(out@ =~= joined_names(before) + ", "@ + p.primitive_name());
                    } else {
                        assert(out@ =~= p.primitive_name());
                    }
                }
                any = true;
            }
            i += 1;
        }
        assert(types@.take(n as int) =~= types@);
        out
    }

    /// The names of those of `types` to which `self` stands in the relation
    /// that `ord` names.
    pub fn query_types(&self, ord: Ordering, types: &[Numeric]) -> (r: String)
        ensures
            r@ == self.listing(FitsRelation::of_ordering(ord), types@),
    {
        self.query(FitsRelation::from_ordering(ord), types)
    }

    /// Appends the line of a block that lists `types` under `rel`.
    fn push_clause(&self, out: &mut String, rel: FitsRelation, types: &[Numeric])
        ensures
            final(out)@ == old(out)@ + self.clause(rel, types@),
    {
        let names = self.query(rel, types);
        if !names.as_str().is_empty() {
            match rel {
                FitsRelation::Greater => out.append("    @gt "),
                FitsRelation::Equal => out.append("    @eq "),
                FitsRelation::Less => out.append("    @lt "),
            }
            out.append(names.as_str());
            out.append(";\n");
        }
        assert(out@ =~= old(out)@ + self.clause(rel, types@));
    }

    /// Appends the part of a 128-bit line that lists `types` under `rel`.
    fn push_clause_128(&self, out: &mut String, rel: FitsRelation, types: &[Numeric])
        ensures
            final(out)@ == old(out)@ + self.clause_128(rel, types@),
    {
        let names = self.query(rel, types);
        if !names.as_str().is_empty() {
            match rel {
                FitsRelation::Greater => out.append("; @gt "),
                FitsRelation::Equal => out.append("; @eq "),
                FitsRelation::Less => out.append("; @lt "),
            }
            out.append(names.as_str());
        }
        assert(out@ =~= old(out)@ + self.clause_128(rel, types@));
    }

    /// The block that declares this type and relates it to the machine
    /// integers of up to 64 bits.
    pub fn impl_(&self) -> (r: String)
        ensures
            r@ == self.block(),
    {
        let mut out = String::new();
        if self.1 != 256 {
            out.append("impl_num_ext! {\n");
        } else {
            out.append("impl_num! {\n");
        }
        out.append("    ");
        out.append(self.0.ty());
        push_decimal(&mut out, self.1 as u128);
        out.append(";\n");
        out.append("    ");
        out.append(self.0.directive());
        out.append(", size = ");
        push_decimal(&mut out, (self.1 / 8) as u128);
        out.append(";\n");
        let table = primitives();
        self.push_clause(&mut out, FitsRelation::Greater, table.as_slice());
        self.push_clause(&mut out, FitsRelation::Equal, table.as_slice());
        self.push_clause(&mut out, FitsRelation::Less, table.as_slice());
        out.append("}\n");
        assert(out@ =~= self.block());
        out
    }

    /// The line that relates this type to the machine integers of 128 bits.
    pub fn impl_128(&self) -> (r: String)
        ensures
            r@ == self.line_128(),
    {
        let mut out = String::new();
        out.append("    impl_num!(");
        out.append(self.0.ty());
        push_decimal(&mut out, self.1 as u128);
        let table = primitives_128();
        self.push_clause_128(&mut out, FitsRelation::Greater, table.as_slice());
        self.push_clause_128(&mut out, FitsRelation::Equal, table.as_slice());
        self.push_clause_128(&mut out, FitsRelation::Less, table.as_slice());
        out.append(");\n");
        assert(out@ =~= self.line_128());
        out
    }
}

} // verus!
