use vstd::prelude::*;

use crate::model::ValueModel;

verus! {

/// A value has exactly one of the six shapes.
pub proof fn lemma_exactly_one_variant(m: ValueModel)
    ensures
        (if m is Str { 1int } else { 0 }) + (if m is Num { 1int } else { 0 }) + (if m is Bool {
            1int
        } else {
            0
        }) + (if m is Null { 1int } else { 0 }) + (if m is Obj { 1int } else { 0 }) + (if m
            is Arr {
            1int
        } else {
            0
        }) == 1,
{
}

/// Putting a value behind a key and then reading that key yields the value
/// just put, whatever the object held before.
pub proof fn lemma_put_then_get(m: Map<Seq<char>, ValueModel>, k: Seq<char>, v: ValueModel)
    ensures
        ValueModel::Obj(m.insert(k, v)).obj().contains_key(k),
        ValueModel::Obj(m.insert(k, v)).obj()[k] == v,
{
}

/// Putting the same key twice keeps a single entry, holding the second
/// value: the first insertion leaves no trace.
pub proof fn lemma_put_overwrite(
    m: Map<Seq<char>, ValueModel>,
    k: Seq<char>,
    v1: ValueModel,
    v2: ValueModel,
)
    ensures
        m.insert(k, v1).insert(k, v2) == m.insert(k, v2),
        m.dom().finite() ==> m.insert(k, v1).insert(k, v2).dom().len() == m.insert(
            k,
            v2,
        ).dom().len(),
{
    assert(m.insert(k, v1).insert(k, v2) =~= m.insert(k, v2));
}

/// Pushing onto an array appends at the end and moves no earlier element:
/// order is preserved.
pub proof fn lemma_push_preserves_order(s: Seq<ValueModel>, v: ValueModel)
    ensures
        s.push(v).len() == s.len() + 1,
        s.push(v)[s.len() as int] == v,
        forall|i: int| 0 <= i < s.len() ==> s.push(v)[i] == s[i],
{
}

/// Re-inserting the value a key already holds changes nothing: reading a
/// key through `with` and leaving it alone keeps the object as it was.
pub proof fn lemma_insert_same_value(m: Map<Seq<char>, ValueModel>, k: Seq<char>)
    requires
        m.contains_key(k),
    ensures
        m.insert(k, m[k]) == m,
{
    assert(m.insert(k, m[k]) =~= m);
}

/// Insertions behind distinct keys commute: the order in which an object
/// is built does not matter.
pub proof fn lemma_insert_commutes(
    m: Map<Seq<char>, ValueModel>,
    k1: Seq<char>,
    v1: ValueModel,
    k2: Seq<char>,
    v2: ValueModel,
)
    requires
        k1 != k2,
    ensures
        m.insert(k1, v1).insert(k2, v2) == m.insert(k2, v2).insert(k1, v1),
{
    assert(m.insert(k1, v1).insert(k2, v2) =~= m.insert(k2, v2).insert(k1, v1));
}

} // verus!
