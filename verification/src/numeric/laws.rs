//! What holds of the relation between types and of the values of the family.

use crate::numeric::generate::lemma_joined_names_len;
use crate::numeric::kind::{FitsRelation, Kind, Numeric};
use crate::numeric::number::{LengthError, NumberView};
use crate::numeric::primitive::Primitive;
use crate::numeric::value::{
    be_value, bound, least, lemma_be_value_bound, lemma_extended_value, lemma_negative,
    lemma_span_increases, lemma_span_positive, lemma_unsigned_as_signed,
};
use vstd::prelude::*;

verus! {

/// A buffer makes a value of a type exactly when it has the type's length.
pub proof fn lemma_from_bytes_length(ty: Numeric, bytes: Seq<u8>)
    ensures
        NumberView::from_bytes(ty, bytes) is Ok <==> bytes.len() == ty.size(),
        NumberView::from_bytes(ty, bytes) is Ok ==> NumberView::from_bytes(ty, bytes)->Ok_0.bytes
            == bytes,
{
}

/// The value made of a value's type and bytes is that value.
pub proof fn lemma_bytes_round_trip(x: NumberView)
    requires
        x.wf(),
    ensures
        NumberView::from_bytes(x.ty, x.bytes) == Ok::<NumberView, LengthError>(x),
{
}

/// Two buffers of one length that stand for the same unsigned integer are
/// the same.
pub proof fn lemma_be_value_injective(a: Seq<u8>, b: Seq<u8>)
    requires
        a.len() == b.len(),
        be_value(a) == be_value(b),
    ensures
        a == b,
    decreases a.len(),
{
    if a.len() > 0 {
        lemma_be_value_injective(a.drop_last(), b.drop_last());
        assert(a =~= a.drop_last().push(a.last()));
        assert(b =~= b.drop_last().push(b.last()));
    }
    assert(a =~= b);
}

/// Two values of one type that stand for the same integer are the same.
pub proof fn lemma_integer_injective(x: NumberView, y: NumberView)
    requires
        x.wf(),
        y.wf(),
        x.ty == y.ty,
        x.integer() == y.integer(),
    ensures
        x == y,
{
    lemma_negative(x.bytes);
    lemma_negative(y.bytes);
    lemma_be_value_bound(x.bytes);
    lemma_be_value_bound(y.bytes);
    lemma_be_value_injective(x.bytes, y.bytes);
}

/// Within one kind, a type that is narrower than another or equal to it is
/// held by it.
pub proof fn lemma_same_kind_fits(source: Numeric, target: Numeric)
    requires
        source.0 == target.0,
        source.relation(target) != FitsRelation::Greater,
    ensures
        target.holds(source),
{
}

/// The relation is an order within one kind: a type is equal to itself, and
/// is less than another exactly when the other is greater than it.
pub proof fn lemma_relation_same_kind(a: Numeric, b: Numeric)
    requires
        a.0 == b.0,
    ensures
        a.relation(a) == FitsRelation::Equal,
        a.relation(b) == FitsRelation::Less <==> b.relation(a) == FitsRelation::Greater,
        a.relation(b) == FitsRelation::Equal <==> a == b,
{
}

/// One type holds another exactly when every integer of the other's range
/// lies in its own.
pub proof fn lemma_holds_is_containment(source: Numeric, target: Numeric)
    requires
        source.1 >= 8,
        target.1 >= 8,
        source.1 % 8 == 0,
        target.1 % 8 == 0,
    ensures
        target.holds(source) <==> (least(target.0, target.size()) <= least(
            source.0,
            source.size(),
        ) && bound(source.0, source.size()) <= bound(target.0, target.size())),
{
    let s = source.size();
    let t = target.size();
    lemma_span_positive(s);
    lemma_span_positive(t);
    if s <= t {
        lemma_span_increases(s, t);
    } else {
        lemma_span_increases(t, s);
    }
}

/// A value widened to a type that holds its own stands for the same integer,
/// and is a value of that type.
pub proof fn lemma_widened_value(x: NumberView, target: Numeric)
    requires
        x.wf(),
        target.supported(),
        target.holds(x.ty),
    ensures
        x.widened(target) is Some,
        x.widened(target)->Some_0.wf(),
        x.widened(target)->Some_0.ty == target,
        x.widened(target)->Some_0.integer() == x.integer(),
{
    if x.ty.0 == target.0 {
        lemma_extended_value(x.ty.0, x.bytes, target.size());
    } else {
        lemma_unsigned_as_signed(x.bytes, target.size());
    }
}

/// Every value is held by the widest type of its kind.
pub proof fn lemma_canonical_holds(ty: Numeric)
    requires
        ty.supported(),
    ensures
        Numeric(ty.0, 256).supported(),
        Numeric(ty.0, 256).holds(ty),
{
}

/// A machine integer's type is held by a type of the same kind that is no
/// narrower, and by a signed type that is wider than an unsigned one.
pub proof fn lemma_primitive_fits(p: Primitive, target: Numeric)
    ensures
        p.numeric().0 == target.0 && p.numeric().relation(target) != FitsRelation::Greater
            ==> target.holds(p.numeric()),
        p.numeric().0 == Kind::Uint && target.0 == Kind::Int && p.numeric().1 < target.1
            ==> target.holds(p.numeric()),
        target.holds(p.numeric()) ==> p.numeric().relation(target) != FitsRelation::Greater,
{
}

/// Two machine integers of one type that are the same integer are the same.
pub proof fn lemma_primitive_determined(p: Primitive, q: Primitive)
    requires
        p.numeric() == q.numeric(),
        p.value() == q.value(),
    ensures
        p == q,
{
}

/// A type is listed under a relation exactly when it is in the table and
/// stands in that relation.
pub proof fn lemma_selected_members(me: Numeric, rel: FitsRelation, types: Seq<Numeric>, p: Numeric)
    ensures
        me.selected(rel, types).contains(p) <==> types.contains(p) && me.relation(p) == rel,
    decreases types.len(),
{
    if types.len() > 0 {
        let front = types.drop_last();
        let last = types.last();
        let rest = me.selected(rel, front);
        lemma_selected_members(me, rel, front, p);
        assert(types =~= front.push(last));
        if types.contains(p) {
            let i = choose|i: int| 0 <= i < types.len() && types[i] == p;
            if i < front.len() {
                assert(front[i] == p);
            }
        }
        if front.contains(p) {
            let i = choose|i: int| 0 <= i < front.len() && front[i] == p;
            assert(types[i] == p);
        }
        assert(types[types.len() - 1] == last);
        if me.relation(last) == rel {
            let out = rest.push(last);
            assert(out[rest.len() as int] == last);
            if rest.contains(p) {
                let i = choose|i: int| 0 <= i < rest.len() && rest[i] == p;
                assert(out[i] == p);
            }
            if out.contains(p) {
                let i = choose|i: int| 0 <= i < out.len() && out[i] == p;
                if i < rest.len() {
                    assert(rest[i] == p);
                }
            }
        }
    }
}

/// Every type of a table is listed under one relation, and under one only:
/// the three lists together are as long as the table.
pub proof fn lemma_selected_counts(me: Numeric, types: Seq<Numeric>)
    ensures
        me.selected(FitsRelation::Greater, types).len() + me.selected(
            FitsRelation::Equal,
            types,
        ).len() + me.selected(FitsRelation::Less, types).len() == types.len(),
    decreases types.len(),
{
    if types.len() > 0 {
        lemma_selected_counts(me, types.drop_last());
    }
}

/// The line of a relation is written exactly when a type of the table
/// stands in it.
pub proof fn lemma_clause_written(me: Numeric, rel: FitsRelation, types: Seq<Numeric>)
    ensures
        me.clause(rel, types).len() > 0 <==> me.selected(rel, types).len() > 0,
        me.clause_128(rel, types).len() > 0 <==> me.selected(rel, types).len() > 0,
{
    lemma_joined_names_len(me.selected(rel, types));
}

} // verus!
