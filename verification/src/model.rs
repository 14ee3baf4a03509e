use vstd::prelude::*;

verus! {

/// The mathematical picture of a JSON value: the same six shapes as
/// [`crate::value::JsonValue`], with text as character sequences, object
/// contents as a finite map (so key order disappears and uniqueness is
/// built in) and array contents as a sequence.
#[verifier::ext_equal]
pub enum ValueModel {
    Str(Seq<char>),
    Num(u64),
    Bool(bool),
    Null,
    Obj(Map<Seq<char>, ValueModel>),
    Arr(Seq<ValueModel>),
}

impl ValueModel {
    /// The object contents of a model known to be `Obj`.
    pub open spec fn obj(self) -> Map<Seq<char>, ValueModel>
        recommends
            self is Obj,
    {
        self->Obj_0
    }

    /// The array contents of a model known to be `Arr`.
    pub open spec fn arr(self) -> Seq<ValueModel>
        recommends
            self is Arr,
    {
        self->Arr_0
    }
}

/// The finite map described by a sequence of key-value pairs, later
/// pairs overriding earlier ones.  This is how an object's stored entry
/// list is read as a map.
pub open spec fn map_of(pairs: Seq<(Seq<char>, ValueModel)>) -> Map<Seq<char>, ValueModel>
    decreases pairs.len(),
{
    if pairs.len() == 0 {
        Map::empty()
    } else {
        map_of(pairs.drop_last()).insert(pairs.last().0, pairs.last().1)
    }
}

/// No two pairs carry the same key.
pub open spec fn distinct_keys(pairs: Seq<(Seq<char>, ValueModel)>) -> bool {
    forall|i: int, j: int| 0 <= i < j < pairs.len() ==> pairs[i].0 != pairs[j].0
}

/// The domain of `map_of(pairs)` is exactly the set of keys that occur in
/// `pairs`.
pub proof fn lemma_map_of_contains(pairs: Seq<(Seq<char>, ValueModel)>, k: Seq<char>)
    ensures
        map_of(pairs).contains_key(k) <==> exists|i: int| 0 <= i < pairs.len() && pairs[i].0 == k,
    decreases pairs.len(),
{
    if pairs.len() > 0 {
        lemma_map_of_contains(pairs.drop_last(), k);
        if pairs.last().0 == k {
            assert(pairs[pairs.len() - 1].0 == k);
        } else if map_of(pairs).contains_key(k) {
            let i = choose|i: int| 0 <= i < pairs.drop_last().len() && pairs.drop_last()[i].0 == k;
            assert(pairs[i].0 == k);
        } else {
            assert forall|i: int| 0 <= i < pairs.len() implies pairs[i].0 != k by {
                if i < pairs.len() - 1 {
                    assert(pairs.drop_last()[i].0 == pairs[i].0);
                }
            }
        }
    }
}

/// Distinctness of keys survives dropping the last pair.
pub proof fn lemma_distinct_drop_last(pairs: Seq<(Seq<char>, ValueModel)>)
    requires
        distinct_keys(pairs),
        pairs.len() > 0,
    ensures
        distinct_keys(pairs.drop_last()),
{
    assert forall|i: int, j: int|
        0 <= i < j < pairs.drop_last().len() implies pairs.drop_last()[i].0
        != pairs.drop_last()[j].0 by {
        assert(pairs.drop_last()[i] == pairs[i]);
        assert(pairs.drop_last()[j] == pairs[j]);
    }
}

/// When keys are distinct, the pair that carries key `k` decides the map's
/// value at `k`.
pub proof fn lemma_map_of_index(pairs: Seq<(Seq<char>, ValueModel)>, i: int)
    requires
        distinct_keys(pairs),
        0 <= i < pairs.len(),
    ensures
        map_of(pairs).contains_key(pairs[i].0),
        map_of(pairs)[pairs[i].0] == pairs[i].1,
    decreases pairs.len(),
{
    lemma_map_of_contains(pairs, pairs[i].0);
    if i < pairs.len() - 1 {
        assert(pairs.drop_last()[i] == pairs[i]);
        lemma_distinct_drop_last(pairs);
        lemma_map_of_index(pairs.drop_last(), i);
        assert(pairs[i].0 != pairs.last().0);
    }
}

/// When keys are distinct, the map holds exactly as many entries as the
/// pair sequence.
pub proof fn lemma_map_of_len(pairs: Seq<(Seq<char>, ValueModel)>)
    requires
        distinct_keys(pairs),
    ensures
        map_of(pairs).dom().finite(),
        map_of(pairs).dom().len() == pairs.len(),
    decreases pairs.len(),
{
    if pairs.len() > 0 {
        lemma_distinct_drop_last(pairs);
        lemma_map_of_len(pairs.drop_last());
        lemma_map_of_contains(pairs.drop_last(), pairs.last().0);
        assert forall|i: int| 0 <= i < pairs.drop_last().len() implies pairs.drop_last()[i].0
            != pairs.last().0 by {
            assert(pairs[i] == pairs.drop_last()[i]);
        }
        assert(!map_of(pairs.drop_last()).contains_key(pairs.last().0));
    }
}

/// Appending a fresh pair acts as a map insertion.
pub proof fn lemma_map_of_push(pairs: Seq<(Seq<char>, ValueModel)>, k: Seq<char>, v: ValueModel)
    ensures
        map_of(pairs.push((k, v))) == map_of(pairs).insert(k, v),
{
    assert(pairs.push((k, v)).drop_last() =~= pairs);
    assert(pairs.push((k, v)).last() == (k, v));
}

/// Overwriting the pair that carries key `k` acts as a map insertion, when
/// keys are distinct.
pub proof fn lemma_map_of_update(pairs: Seq<(Seq<char>, ValueModel)>, i: int, v: ValueModel)
    requires
        distinct_keys(pairs),
        0 <= i < pairs.len(),
    ensures
        map_of(pairs.update(i, (pairs[i].0, v))) == map_of(pairs).insert(pairs[i].0, v),
    decreases pairs.len(),
{
    let k = pairs[i].0;
    let updated = pairs.update(i, (k, v));
    if i == pairs.len() - 1 {
        assert(updated.drop_last() =~= pairs.drop_last());
        assert(updated.last() == (k, v));
        assert(map_of(updated) == map_of(pairs.drop_last()).insert(k, v));
        assert(map_of(pairs).insert(k, v) =~= map_of(pairs.drop_last()).insert(k, v));
    } else {
        assert(updated.drop_last() =~= pairs.drop_last().update(i, (k, v)));
        assert(updated.last() == pairs.last());
        assert(pairs.drop_last()[i] == pairs[i]);
        lemma_distinct_drop_last(pairs);
        lemma_map_of_update(pairs.drop_last(), i, v);
        assert(k != pairs.last().0);
        assert(map_of(pairs.drop_last()).insert(k, v).insert(pairs.last().0, pairs.last().1)
            =~= map_of(pairs.drop_last()).insert(pairs.last().0, pairs.last().1).insert(k, v));
    }
}

} // verus!
