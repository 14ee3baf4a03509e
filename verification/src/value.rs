use vstd::prelude::*;

use crate::error::{ErrorModel, JsonError, JsonResult};
use crate::model::{
    lemma_map_of_contains, lemma_map_of_index, lemma_map_of_len, lemma_map_of_push,
    lemma_map_of_update, map_of, ValueModel,
};

verus! {

/// A JSON-like value: a closed sum of exactly six shapes.
///
/// A number is carried as the 64 bits of its binary64 representation, so
/// that the payload is a plain value; an object is carried as a list of
/// key-value entries whose keys are unique (see [`JsonValue::wf`]), read
/// through [`JsonValue::view`] as a finite map with no key order.
#[derive(Debug, PartialEq)]
pub enum JsonValue {
    String(String),
    Number(u64),
    Boolean(bool),
    Null,
    Object(Vec<(String, JsonValue)>),
    Array(Vec<JsonValue>),
}

impl View for JsonValue {
    type V = ValueModel;

    open spec fn view(&self) -> ValueModel
        decreases self,
    {
        match self {
            JsonValue::String(s) => ValueModel::Str(s@),
            JsonValue::Number(n) => ValueModel::Num(*n),
            JsonValue::Boolean(b) => ValueModel::Bool(*b),
            JsonValue::Null => ValueModel::Null,
            JsonValue::Object(entries) => ValueModel::Obj(map_of(entry_views(entries@))),
            JsonValue::Array(elems) => ValueModel::Arr(elem_views(elems@)),
        }
    }
}

/// The entry list of an object, read as key views paired with value models.
pub open spec fn entry_views(entries: Seq<(String, JsonValue)>) -> Seq<(Seq<char>, ValueModel)>
    decreases entries,
{
    Seq::new(
        entries.len(),
        |i: int|
            if 0 <= i < entries.len() {
                (entries[i].0@, entries[i].1@)
            } else {
                (Seq::empty(), ValueModel::Null)
            },
    )
}

/// The element list of an array, read as value models.
pub open spec fn elem_views(elems: Seq<JsonValue>) -> Seq<ValueModel>
    decreases elems,
{
    Seq::new(
        elems.len(),
        |i: int|
            if 0 <= i < elems.len() {
                elems[i]@
            } else {
                ValueModel::Null
            },
    )
}

impl JsonValue {
    /// Well-formedness: every object in the tree keeps its keys unique.
    /// Operations require it of their inputs and preserve it.
    pub open spec fn wf(&self) -> bool
        decreases self,
    {
        match self {
            JsonValue::String(_) => true,
            JsonValue::Number(_) => true,
            JsonValue::Boolean(_) => true,
            JsonValue::Null => true,
            JsonValue::Object(entries) => {
                &&& forall|i: int, j: int|
                    0 <= i < j < entries.len() ==> entries[i].0@ != entries[j].0@
                &&& forall|i: int| 0 <= i < entries.len() ==> entries[i].1.wf()
            },
            JsonValue::Array(elems) => forall|i: int| 0 <= i < elems.len() ==> elems[i].wf(),
        }
    }

    /// Create an empty `JsonValue::Object` instance.
    pub fn new_object() -> (v: JsonValue)
        ensures
            v@ == ValueModel::Obj(Map::<Seq<char>, ValueModel>::empty()),
            v.wf(),
    {
        JsonValue::Object(Vec::new())
    }

    /// Create an empty `JsonValue::Array` instance.
    pub fn new_array() -> (v: JsonValue)
        ensures
            v@ == ValueModel::Arr(Seq::<ValueModel>::empty()),
            v.wf(),
    {
        let v = JsonValue::Array(Vec::new());
        proof {
            assert(v@->Arr_0 =~= Seq::<ValueModel>::empty());
        }
        v
    }

    pub fn is_string(&self) -> (r: bool)
        ensures
            r == (self@ is Str),
    {
        match *self {
            JsonValue::String(_) => true,
            _ => false,
        }
    }

    pub fn is_number(&self) -> (r: bool)
        ensures
            r == (self@ is Num),
    {
        match *self {
            JsonValue::Number(_) => true,
            _ => false,
        }
    }

    pub fn is_boolean(&self) -> (r: bool)
        ensures
            r == (self@ is Bool),
    {
        match *self {
            JsonValue::Boolean(_) => true,
            _ => false,
        }
    }

    pub fn is_null(&self) -> (r: bool)
        ensures
            r == (self@ is Null),
    {
        match *self {
            JsonValue::Null => true,
            _ => false,
        }
    }

    pub fn is_object(&self) -> (r: bool)
        ensures
            r == (self@ is Obj),
    {
        match *self {
            JsonValue::Object(_) => true,
            _ => false,
        }
    }

    pub fn is_array(&self) -> (r: bool)
        ensures
            r == (self@ is Arr),
    {
        match *self {
            JsonValue::Array(_) => true,
            _ => false,
        }
    }

    /// The text payload, when the value is a string; `WrongType("String")`
    /// otherwise.
    pub fn as_string(&self) -> (r: JsonResult<&String>)
        ensures
            self@ is Str ==> (r matches Ok(s) && s@ == self@->Str_0),
            self@ !is Str ==> (r matches Err(e) && e@ == ErrorModel::WrongType("String"@)),
    {
        match *self {
            JsonValue::String(ref value) => Ok(value),
            _ => Err(JsonError::wrong_type("String")),
        }
    }

    /// The numeric payload (the 64 bits of the number's representation),
    /// when the value is a number; `WrongType("Number")` otherwise.
    pub fn as_number(&self) -> (r: JsonResult<&u64>)
        ensures
            self@ is Num ==> (r matches Ok(n) && *n == self@->Num_0),
            self@ !is Num ==> (r matches Err(e) && e@ == ErrorModel::WrongType("Number"@)),
    {
        match *self {
            JsonValue::Number(ref value) => Ok(value),
            _ => Err(JsonError::wrong_type("Number")),
        }
    }

    /// The boolean payload, when the value is a boolean;
    /// `WrongType("Boolean")` otherwise.
    pub fn as_boolean(&self) -> (r: JsonResult<&bool>)
        ensures
            self@ is Bool ==> (r matches Ok(b) && *b == self@->Bool_0),
            self@ !is Bool ==> (r matches Err(e) && e@ == ErrorModel::WrongType("Boolean"@)),
    {
        match *self {
            JsonValue::Boolean(ref value) => Ok(value),
            _ => Err(JsonError::wrong_type("Boolean")),
        }
    }

    /// The position of the entry carrying `key`, if the entry list has one.
    fn find_key(entries: &Vec<(String, JsonValue)>, key: &String) -> (r: Option<usize>)
        ensures
            match r {
                Some(i) => i < entries.len() && entries[i as int].0@ == key@,
                None => forall|j: int| 0 <= j < entries.len() ==> entries[j].0@ != key@,
            },
    {
        let n = entries.len();
        let mut i: usize = 0;
        while i < n
            invariant
                n == entries.len(),
                i <= n,
                forall|j: int| 0 <= j < i ==> entries[j].0@ != key@,
            decreases n - i,
        {
            if entries[i].0 == *key {
                return Some(i);
            }
            i += 1;
        }
        None
    }

    /// Works on `JsonValue::Object` - get a reference to a value behind key.
    pub fn get(&self, key: &str) -> (r: JsonResult<&JsonValue>)
        requires
            self.wf(),
        ensures
            self@ is Obj && self@.obj().contains_key(key@) ==> (r matches Ok(v) && v@ == self@.obj()[key@] && v.wf()),
            self@ is Obj && !self@.obj().contains_key(key@) ==> (r matches Err(e) && e@ == ErrorModel::Undefined(key@)),
            self@ !is Obj ==> (r matches Err(e) && e@ == ErrorModel::WrongType("Object"@)),
    {
        match *self {
            JsonValue::Object(ref entries) => {
                let owned: String = key.to_owned();
                match Self::find_key(entries, &owned) {
                    Some(i) => {
                        proof {
                            let pairs = entry_views(entries@);
                            assert forall|a: int, b: int|
                                0 <= a < b < pairs.len() implies pairs[a].0 != pairs[b].0 by {
                                assert(pairs[a].0 == entries@[a].0@);
                                assert(pairs[b].0 == entries@[b].0@);
                            }
                            assert(pairs[i as int] == (entries@[i as int].0@, entries@[i as int].1@));
                            lemma_map_of_index(pairs, i as int);
                        }
                        Ok(&entries[i].1)
                    },
                    None => {
                        proof {
                            let pairs = entry_views(entries@);
                            lemma_map_of_contains(pairs, key@);
                            assert forall|j: int| 0 <= j < pairs.len() implies pairs[j].0 != key@ by {
                                assert(pairs[j].0 == entries@[j].0@);
                            }
                        }
                        Err(JsonError::undefined(key))
                    },
                }
            },
            _ => Err(JsonError::wrong_type("Object")),
        }
    }

    /// Works on `JsonValue::Array` - gets a reference to a value at index.
    pub fn at(&self, index: usize) -> (r: JsonResult<&JsonValue>)
        requires
            self.wf(),
        ensures
            self@ is Arr && index < self@.arr().len() ==> (r matches Ok(v) && v@ == self@.arr()[index as int] && v.wf()),
            self@ is Arr && index >= self@.arr().len() ==> (r matches Err(e) && e@ == ErrorModel::ArrayIndexOutOfBounds),
            self@ !is Arr ==> (r matches Err(e) && e@ == ErrorModel::WrongType("Array"@)),
    {
        match *self {
            JsonValue::Array(ref vec) => {
                if index < vec.len() {
                    proof {
                        assert(elem_views(vec@)[index as int] == vec@[index as int]@);
                        assert(vec@[index as int].wf());
                    }
                    Ok(&vec[index])
                } else {
                    proof {
                        assert(elem_views(vec@).len() == vec@.len());
                    }
                    Err(JsonError::ArrayIndexOutOfBounds)
                }
            },
            _ => Err(JsonError::wrong_type("Array")),
        }
    }

    /// Works on `JsonValue::Object` - create or override key with value.
    /// On any other variant the value is left untouched and the error
    /// reports that an object was expected.
    #[must_use]
    pub fn put(&mut self, key: &str, value: JsonValue) -> (r: JsonResult<()>)
        requires
            old(self).wf(),
            value.wf(),
        ensures
            old(self)@ is Obj ==> (r is Ok && final(self)@ == ValueModel::Obj(
                old(self)@.obj().insert(key@, value@),
            ) && final(self).wf()),
            old(self)@ !is Obj ==> (r matches Err(e) && e@ == ErrorModel::WrongType("Object"@)
                && *final(self) == *old(self)),
    {
        match *self {
            JsonValue::Object(ref mut entries) => {
                let owned: String = key.to_owned();
                let ghost orig = entries@;
                match Self::find_key(entries, &owned) {
                    Some(i) => {
                        let slot = &mut entries[i];
                        slot.1 = value;
                        proof {
                            let updated = entries@;
                            assert(updated[i as int].1@ == value@);
                            let pairs = entry_views(orig);
                            assert forall|a: int, b: int|
                                0 <= a < b < pairs.len() implies pairs[a].0 != pairs[b].0 by {
                                assert(pairs[a].0 == orig[a].0@);
                                assert(pairs[b].0 == orig[b].0@);
                            }
                            assert(pairs[i as int].0 == orig[i as int].0@);
                            lemma_map_of_update(pairs, i as int, value@);
                            assert(entry_views(updated) =~= pairs.update(i as int, (pairs[i as int].0, value@)));
                            assert forall|a: int, b: int|
                                0 <= a < b < updated.len() implies updated[a].0@ != updated[b].0@ by {
                                assert(orig[a].0@ != orig[b].0@);
                            }
                            assert forall|a: int| 0 <= a < updated.len() implies updated[a].1.wf() by {
                                if a != i as int {
                                    assert(updated[a] == orig[a]);
                                }
                            }
                        }
                        Ok(())
                    },
                    None => {
                        entries.push((owned, value));
                        proof {
                            let updated = entries@;
                            let pairs = entry_views(orig);
                            lemma_map_of_push(pairs, key@, value@);
                            assert(entry_views(updated) =~= pairs.push((key@, value@)));
                            assert forall|a: int, b: int|
                                0 <= a < b < updated.len() implies updated[a].0@ != updated[b].0@ by {
                                if b < orig.len() {
                                    assert(orig[a].0@ != orig[b].0@);
                                } else {
                                    assert(updated[b].0@ == key@);
                                    assert(orig[a].0@ != key@);
                                }
                            }
                            assert forall|a: int| 0 <= a < updated.len() implies updated[a].1.wf() by {
                                if a < orig.len() {
                                    assert(updated[a] == orig[a]);
                                }
                            }
                        }
                        Ok(())
                    },
                }
            },
            _ => Err(JsonError::wrong_type("Object")),
        }
    }

    /// Works on `JsonValue::Array` - pushes a new value to the end of the
    /// array.  On any other variant the value is left untouched and the
    /// error reports that an array was expected.
    #[must_use]
    pub fn push(&mut self, value: JsonValue) -> (r: JsonResult<()>)
        requires
            old(self).wf(),
            value.wf(),
        ensures
            old(self)@ is Arr ==> (r is Ok && final(self)@ == ValueModel::Arr(
                old(self)@.arr().push(value@),
            ) && final(self).wf()),
            old(self)@ !is Arr ==> (r matches Err(e) && e@ == ErrorModel::WrongType("Array"@)
                && *final(self) == *old(self)),
    {
        match *self {
            JsonValue::Array(ref mut vec) => {
                let ghost orig = vec@;
                vec.push(value);
                proof {
                    assert(elem_views(vec@) =~= elem_views(orig).push(value@));
                    assert forall|a: int| 0 <= a < vec@.len() implies vec@[a].wf() by {
                        if a < orig.len() {
                            assert(vec@[a] == orig[a]);
                        }
                    }
                }
                Ok(())
            },
            _ => Err(JsonError::wrong_type("Array")),
        }
    }

    /// Works on `JsonValue::Object` - get a mutable reference to a value
    /// behind the key.  Whatever the caller later stores through the
    /// reference becomes the entry's value.
    pub fn get_mut(&mut self, key: &str) -> (r: JsonResult<&mut JsonValue>)
        requires
            old(self).wf(),
        ensures
            old(self)@ is Obj && old(self)@.obj().contains_key(key@) ==> (r matches Ok(v) && (*v)@
                == old(self)@.obj()[key@] && (*v).wf() && final(self)@ == ValueModel::Obj(
                old(self)@.obj().insert(key@, (*final(v))@),
            ) && ((*final(v)).wf() ==> final(self).wf())),
            old(self)@ is Obj && !old(self)@.obj().contains_key(key@) ==> (r matches Err(e) && e@
                == ErrorModel::Undefined(key@) && *final(self) == *old(self)),
            old(self)@ !is Obj ==> (r matches Err(e) && e@ == ErrorModel::WrongType("Object"@)
                && *final(self) == *old(self)),
    {
        match *self {
            JsonValue::Object(ref mut entries) => {
                let owned: String = key.to_owned();
                let ghost orig = entries@;
                match Self::find_key(entries, &owned) {
                    Some(i) => {
                        let slot = &mut entries[i];
                        let elem = &mut slot.1;
                        proof {
                            let pairs = entry_views(orig);
                            assert forall|a: int, b: int|
                                0 <= a < b < pairs.len() implies pairs[a].0 != pairs[b].0 by {
                                assert(pairs[a].0 == orig[a].0@);
                                assert(pairs[b].0 == orig[b].0@);
                            }
                            assert(pairs[i as int].0 == orig[i as int].0@);
                            lemma_map_of_index(pairs, i as int);
                            assert forall|m: ValueModel|
                                #[trigger] map_of(pairs.update(i as int, (pairs[i as int].0, m)))
                                == map_of(pairs).insert(pairs[i as int].0, m) by {
                                lemma_map_of_update(pairs, i as int, m);
                            }
                        }
                        proof {
                            let fv = *final(elem);
                            let pairs = entry_views(orig);
                            let updated = orig.update(i as int, (orig[i as int].0, fv));
                            assert(entry_views(updated) =~= pairs.update(
                                i as int,
                                (pairs[i as int].0, fv@),
                            ));
                            assert(map_of(entry_views(updated)) == map_of(pairs).insert(
                                pairs[i as int].0,
                                fv@,
                            ));
                        }
                        Ok(elem)
                    },
                    None => {
                        proof {
                            let pairs = entry_views(orig);
                            lemma_map_of_contains(pairs, key@);
                            assert forall|j: int| 0 <= j < pairs.len() implies pairs[j].0 != key@ by {
                                assert(pairs[j].0 == orig[j].0@);
                            }
                        }
                        Err(JsonError::undefined(key))
                    },
                }
            },
            _ => Err(JsonError::wrong_type("Object")),
        }
    }

    /// Works on `JsonValue::Array` - gets a mutable reference to a value at
    /// index.  Whatever the caller later stores through the reference
    /// becomes the element at that position.
    pub fn at_mut(&mut self, index: usize) -> (r: JsonResult<&mut JsonValue>)
        requires
            old(self).wf(),
        ensures
            old(self)@ is Arr && index < old(self)@.arr().len() ==> (r matches Ok(v) && (*v)@
                == old(self)@.arr()[index as int] && (*v).wf() && final(self)@ == ValueModel::Arr(
                old(self)@.arr().update(index as int, (*final(v))@),
            ) && ((*final(v)).wf() ==> final(self).wf())),
            old(self)@ is Arr && index >= old(self)@.arr().len() ==> (r matches Err(e) && e@
                == ErrorModel::ArrayIndexOutOfBounds && *final(self) == *old(self)),
            old(self)@ !is Arr ==> (r matches Err(e) && e@ == ErrorModel::WrongType("Array"@)
                && *final(self) == *old(self)),
    {
        match *self {
            JsonValue::Array(ref mut vec) => {
                if index < vec.len() {
                    let ghost orig = vec@;
                    let elem = &mut vec[index];
                    proof {
                        let fv = *final(elem);
                        let updated = orig.update(index as int, fv);
                        assert(elem_views(updated) =~= elem_views(orig).update(index as int, fv@));
                        if fv.wf() {
                            assert forall|a: int| 0 <= a < updated.len() implies updated[a].wf() by {
                                if a != index as int {
                                    assert(updated[a] == orig[a]);
                                }
                            }
                        }
                        assert(elem_views(orig)[index as int] == orig[index as int]@);
                    }
                    Ok(elem)
                } else {
                    proof {
                        assert(elem_views(vec@).len() == vec@.len());
                    }
                    Err(JsonError::ArrayIndexOutOfBounds)
                }
            },
            _ => Err(JsonError::wrong_type("Array")),
        }
    }

    /// Get-or-create: a mutable reference to the value behind `key`,
    /// inserting `key -> Null` first when the object lacks it.  On a value
    /// that is not an object this is a data-loss operation: the whole value
    /// is replaced by a fresh object holding only `key -> Null`.
    pub fn with(&mut self, key: &str) -> (r: &mut JsonValue)
        requires
            old(self).wf(),
        ensures
            (*r)@ == (if old(self)@ is Obj && old(self)@.obj().contains_key(key@) {
                old(self)@.obj()[key@]
            } else {
                ValueModel::Null
            }),
            (*r).wf(),
            final(self)@ == ValueModel::Obj(
                (if old(self)@ is Obj {
                    old(self)@.obj()
                } else {
                    Map::<Seq<char>, ValueModel>::empty()
                }).insert(key@, (*final(r))@),
            ),
            (*final(r)).wf() ==> final(self).wf(),
    {
        if !self.is_object() {
            *self = JsonValue::new_object();
        }
        match *self {
            JsonValue::Object(ref mut entries) => {
                let owned: String = key.to_owned();
                let ghost orig = entries@;
                match Self::find_key(entries, &owned) {
                    Some(i) => {
                        let slot = &mut entries[i];
                        let elem = &mut slot.1;
                        proof {
                            let pairs = entry_views(orig);
                            assert forall|a: int, b: int|
                                0 <= a < b < pairs.len() implies pairs[a].0 != pairs[b].0 by {
                                assert(pairs[a].0 == orig[a].0@);
                                assert(pairs[b].0 == orig[b].0@);
                            }
                            assert(pairs[i as int].0 == orig[i as int].0@);
                            lemma_map_of_index(pairs, i as int);
                            assert forall|m: ValueModel|
                                #[trigger] map_of(pairs.update(i as int, (pairs[i as int].0, m)))
                                == map_of(pairs).insert(pairs[i as int].0, m) by {
                                lemma_map_of_update(pairs, i as int, m);
                            }
                        }
                        proof {
                            let fv = *final(elem);
                            let pairs = entry_views(orig);
                            let updated = orig.update(i as int, (orig[i as int].0, fv));
                            assert(entry_views(updated) =~= pairs.update(
                                i as int,
                                (pairs[i as int].0, fv@),
                            ));
                            assert(map_of(entry_views(updated)) == map_of(pairs).insert(
                                pairs[i as int].0,
                                fv@,
                            ));
                        }
                        elem
                    },
                    None => {
                        entries.push((owned, JsonValue::Null));
                        let i = entries.len() - 1;
                        let ghost mid = entries@;
                        let slot = &mut entries[i];
                        let elem = &mut slot.1;
                        proof {
                            let pairs = entry_views(orig);
                            lemma_map_of_contains(pairs, key@);
                            assert forall|j: int| 0 <= j < pairs.len() implies pairs[j].0 != key@ by {
                                assert(pairs[j].0 == orig[j].0@);
                            }
                            assert(entry_views(mid) =~= pairs.push((key@, ValueModel::Null)));
                            assert forall|m: ValueModel|
                                #[trigger] map_of(pairs.push((key@, m))) == map_of(pairs).insert(
                                    key@,
                                    m,
                                ) by {
                                lemma_map_of_push(pairs, key@, m);
                            }
                        }
                        proof {
                            let fv = *final(elem);
                            let pairs = entry_views(orig);
                            let updated = mid.update(i as int, (mid[i as int].0, fv));
                            assert(updated =~= orig.push((mid[i as int].0, fv)));
                            assert(entry_views(updated) =~= pairs.push((key@, fv@)));
                            assert(map_of(entry_views(updated)) == map_of(pairs).insert(key@, fv@));
                        }
                        elem
                    },
                }
            },
            _ => {
                proof {
                    assert(false);
                }
                vstd::pervasive::unreached()
            },
        }
    }

    /// Each shape of the model corresponds to exactly one variant of the
    /// stored value.
    proof fn lemma_view_variant(v: &JsonValue)
        ensures
            (v@ is Str) == (v matches JsonValue::String(_)),
            (v@ is Num) == (v matches JsonValue::Number(_)),
            (v@ is Bool) == (v matches JsonValue::Boolean(_)),
            (v@ is Null) == (v matches JsonValue::Null),
            (v@ is Obj) == (v matches JsonValue::Object(_)),
            (v@ is Arr) == (v matches JsonValue::Array(_)),
    {
        match v {
            JsonValue::String(_) => assert(v@ is Str),
            JsonValue::Number(_) => assert(v@ is Num),
            JsonValue::Boolean(_) => assert(v@ is Bool),
            JsonValue::Null => assert(v@ is Null),
            JsonValue::Object(_) => assert(v@ is Obj),
            JsonValue::Array(_) => assert(v@ is Arr),
        }
    }

    /// Full structural equality of two well-formed values: same variant and
    /// same payload, recursively, with object key order irrelevant.
    fn value_eq(a: &JsonValue, b: &JsonValue) -> (r: bool)
        requires
            a.wf(),
            b.wf(),
        ensures
            r == (a@ == b@),
        decreases a,
    {
        proof {
            Self::lemma_view_variant(a);
            Self::lemma_view_variant(b);
        }
        match *a {
            JsonValue::String(ref x) => {
                match *b {
                    JsonValue::String(ref y) => *x == *y,
                    _ => false,
                }
            },
            JsonValue::Number(ref x) => {
                match *b {
                    JsonValue::Number(ref y) => *x == *y,
                    _ => false,
                }
            },
            JsonValue::Boolean(ref x) => {
                match *b {
                    JsonValue::Boolean(ref y) => *x == *y,
                    _ => false,
                }
            },
            JsonValue::Null => {
                match *b {
                    JsonValue::Null => true,
                    _ => false,
                }
            },
            JsonValue::Array(ref xs) => {
                match *b {
                    JsonValue::Array(ref ys) => {
                        if xs.len() != ys.len() {
                            proof {
                                assert(elem_views(xs@).len() != elem_views(ys@).len());
                            }
                            return false;
                        }
                        let n = xs.len();
                        let mut i: usize = 0;
                        while i < n
                            invariant
                                *a == JsonValue::Array(*xs),
                                a@ == ValueModel::Arr(elem_views(xs@)),
                                b@ == ValueModel::Arr(elem_views(ys@)),
                                n == xs.len(),
                                n == ys.len(),
                                i <= n,
                                forall|j: int| 0 <= j < n ==> xs[j].wf(),
                                forall|j: int| 0 <= j < n ==> ys[j].wf(),
                                forall|j: int| 0 <= j < i ==> xs[j]@ == ys[j]@,
                            decreases n - i,
                        {
                            if !JsonValue::value_eq(&xs[i], &ys[i]) {
                                proof {
                                    assert(elem_views(xs@)[i as int] == xs@[i as int]@);
                                    assert(elem_views(ys@)[i as int] == ys@[i as int]@);
                                }
                                return false;
                            }
                            i += 1;
                        }
                        proof {
                            assert(elem_views(xs@) =~= elem_views(ys@));
                        }
                        true
                    },
                    _ => false,
                }
            },
            JsonValue::Object(ref xs) => {
                match *b {
                    JsonValue::Object(ref ys) => {
                        proof {
                            let px = entry_views(xs@);
                            let py = entry_views(ys@);
                            assert forall|c: int, d: int|
                                0 <= c < d < px.len() implies px[c].0 != px[d].0 by {
                                assert(px[c].0 == xs@[c].0@);
                                assert(px[d].0 == xs@[d].0@);
                            }
                            assert forall|c: int, d: int|
                                0 <= c < d < py.len() implies py[c].0 != py[d].0 by {
                                assert(py[c].0 == ys@[c].0@);
                                assert(py[d].0 == ys@[d].0@);
                            }
                            lemma_map_of_len(px);
                            lemma_map_of_len(py);
                        }
                        if xs.len() != ys.len() {
                            return false;
                        }
                        let n = xs.len();
                        let mut i: usize = 0;
                        while i < n
                            invariant
                                *a == JsonValue::Object(*xs),
                                a@ == ValueModel::Obj(map_of(entry_views(xs@))),
                                b@ == ValueModel::Obj(map_of(entry_views(ys@))),
                                n == xs.len(),
                                n == ys.len(),
                                i <= n,
                                forall|c: int, d: int|
                                    0 <= c < d < n ==> xs[c].0@ != xs[d].0@,
                                forall|c: int, d: int|
                                    0 <= c < d < n ==> ys[c].0@ != ys[d].0@,
                                forall|j: int| 0 <= j < n ==> xs[j].1.wf(),
                                forall|j: int| 0 <= j < n ==> ys[j].1.wf(),
                                forall|j: int|
                                    0 <= j < i ==> map_of(entry_views(ys@)).contains_key(xs[j].0@)
                                        && map_of(entry_views(ys@))[xs[j].0@] == xs[j].1@,
                            decreases n - i,
                        {
                            match Self::find_key(ys, &xs[i].0) {
                                Some(j) => {
                                    if JsonValue::value_eq(&xs[i].1, &ys[j].1) {
                                        proof {
                                            let py = entry_views(ys@);
                                            assert forall|c: int, d: int|
                                                0 <= c < d < py.len() implies py[c].0
                                                != py[d].0 by {
                                                assert(py[c].0 == ys@[c].0@);
                                                assert(py[d].0 == ys@[d].0@);
                                            }
                                            assert(py[j as int].0 == ys@[j as int].0@);
                                            lemma_map_of_index(py, j as int);
                                        }
                                    } else {
                                        proof {
                                            let px = entry_views(xs@);
                                            let py = entry_views(ys@);
                                            assert forall|c: int, d: int|
                                                0 <= c < d < px.len() implies px[c].0
                                                != px[d].0 by {
                                                assert(px[c].0 == xs@[c].0@);
                                                assert(px[d].0 == xs@[d].0@);
                                            }
                                            assert forall|c: int, d: int|
                                                0 <= c < d < py.len() implies py[c].0
                                                != py[d].0 by {
                                                assert(py[c].0 == ys@[c].0@);
                                                assert(py[d].0 == ys@[d].0@);
                                            }
                                            assert(px[i as int].0 == xs@[i as int].0@);
                                            assert(py[j as int].0 == ys@[j as int].0@);
                                            lemma_map_of_index(px, i as int);
                                            lemma_map_of_index(py, j as int);
                                        }
                                        return false;
                                    }
                                },
                                None => {
                                    proof {
                                        let px = entry_views(xs@);
                                        let py = entry_views(ys@);
                                        assert forall|c: int, d: int|
                                            0 <= c < d < px.len() implies px[c].0 != px[d].0 by {
                                            assert(px[c].0 == xs@[c].0@);
                                            assert(px[d].0 == xs@[d].0@);
                                        }
                                        assert(px[i as int].0 == xs@[i as int].0@);
                                        lemma_map_of_index(px, i as int);
                                        lemma_map_of_contains(py, xs@[i as int].0@);
                                        assert forall|j: int|
                                            0 <= j < py.len() implies py[j].0
                                            != xs@[i as int].0@ by {
                                            assert(py[j].0 == ys@[j].0@);
                                        }
                                    }
                                    return false;
                                },
                            }
                            i += 1;
                        }
                        proof {
                            let px = entry_views(xs@);
                            let py = entry_views(ys@);
                            assert forall|c: int, d: int|
                                0 <= c < d < px.len() implies px[c].0 != px[d].0 by {
                                assert(px[c].0 == xs@[c].0@);
                                assert(px[d].0 == xs@[d].0@);
                            }
                            assert forall|c: int, d: int|
                                0 <= c < d < py.len() implies py[c].0 != py[d].0 by {
                                assert(py[c].0 == ys@[c].0@);
                                assert(py[d].0 == ys@[d].0@);
                            }
                            lemma_map_of_len(px);
                            lemma_map_of_len(py);
                            assert forall|k: Seq<char>|
                                #[trigger] map_of(px).contains_key(k) implies map_of(
                                py,
                            ).contains_key(k) && map_of(py)[k] == map_of(px)[k] by {
                                lemma_map_of_contains(px, k);
                                let j = choose|j: int| 0 <= j < px.len() && px[j].0 == k;
                                assert(px[j] == (xs@[j].0@, xs@[j].1@));
                                lemma_map_of_index(px, j);
                            }
                            assert forall|k: Seq<char>|
                                #[trigger] map_of(px).dom().contains(k) implies map_of(
                                py,
                            ).dom().contains(k) by {
                                assert(map_of(px).contains_key(k));
                                assert(map_of(py).contains_key(k));
                            }
                            assert(map_of(px).dom().subset_of(map_of(py).dom()));
                            assert forall|k: Seq<char>|
                                map_of(py).contains_key(k) implies map_of(px).contains_key(k) by {
                                if !map_of(px).contains_key(k) {
                                    map_of(px).dom().lemma_subset_not_in_lt(map_of(py).dom(), k);
                                }
                            }
                            assert(map_of(px) =~= map_of(py));
                        }
                        true
                    },
                    _ => false,
                }
            },
        }
    }

    /// Checks if the value stored matches `other`: the two describe the
    /// same model, so object key order never matters.
    pub fn is(&self, other: &JsonValue) -> (r: bool)
        requires
            self.wf(),
            other.wf(),
        ensures
            r == (self@ == other@),
    {
        JsonValue::value_eq(self, other)
    }

    /// A structurally identical, independently owned copy of the value.
    pub fn deep_clone(&self) -> (r: JsonValue)
        ensures
            r@ == self@,
            self.wf() ==> r.wf(),
    {
        JsonValue::clone_value(self)
    }

    /// Recursive worker behind [`JsonValue::deep_clone`].
    fn clone_value(v: &JsonValue) -> (r: JsonValue)
        ensures
            r@ == v@,
            v.wf() ==> r.wf(),
        decreases v,
    {
        match *v {
            JsonValue::String(ref s) => JsonValue::String(s.clone()),
            JsonValue::Number(n) => JsonValue::Number(n),
            JsonValue::Boolean(b) => JsonValue::Boolean(b),
            JsonValue::Null => JsonValue::Null,
            JsonValue::Object(ref entries) => {
                let mut out: Vec<(String, JsonValue)> = Vec::new();
                let n = entries.len();
                let mut i: usize = 0;
                while i < n
                    invariant
                        *v == JsonValue::Object(*entries),
                        v@ == ValueModel::Obj(map_of(entry_views(entries@))),
                        n == entries.len(),
                        i <= n,
                        out.len() == i,
                        forall|j: int|
                            0 <= j < i ==> out[j].0@ == entries[j].0@ && out[j].1@
                                == entries[j].1@,
                        forall|j: int| 0 <= j < i ==> (entries[j].1.wf() ==> out[j].1.wf()),
                    decreases n - i,
                {
                    let k = entries[i].0.clone();
                    let c = JsonValue::clone_value(&entries[i].1);
                    out.push((k, c));
                    i += 1;
                }
                let r = JsonValue::Object(out);
                proof {
                    assert(entry_views(r->Object_0@) =~= entry_views(entries@));
                }
                r
            },
            JsonValue::Array(ref elems) => {
                let mut out: Vec<JsonValue> = Vec::new();
                let n = elems.len();
                let mut i: usize = 0;
                while i < n
                    invariant
                        *v == JsonValue::Array(*elems),
                        v@ == ValueModel::Arr(elem_views(elems@)),
                        n == elems.len(),
                        i <= n,
                        out.len() == i,
                        forall|j: int| 0 <= j < i ==> out[j]@ == elems[j]@,
                        forall|j: int| 0 <= j < i ==> (elems[j].wf() ==> out[j].wf()),
                    decreases n - i,
                {
                    let c = JsonValue::clone_value(&elems[i]);
                    out.push(c);
                    i += 1;
                }
                let r = JsonValue::Array(out);
                proof {
                    assert(elem_views(r->Array_0@) =~= elem_views(elems@));
                }
                r
            },
        }
    }

    /// Non-failing indexed read by position: a copy of the element at
    /// `index` when the value is an array that long, and a Null value for
    /// every failure (wrong variant or index out of range).
    pub fn index(&self, index: usize) -> (r: JsonValue)
        requires
            self.wf(),
        ensures
            r@ == (if self@ is Arr && index < self@.arr().len() {
                self@.arr()[index as int]
            } else {
                ValueModel::Null
            }),
            r.wf(),
    {
        match self.at(index) {
            Ok(v) => v.deep_clone(),
            Err(_) => JsonValue::Null,
        }
    }

    /// Non-failing indexed read by key: a copy of the value behind `key`
    /// when the value is an object carrying it, and a Null value for every
    /// failure (wrong variant or missing key).
    pub fn index_str(&self, key: &str) -> (r: JsonValue)
        requires
            self.wf(),
        ensures
            r@ == (if self@ is Obj && self@.obj().contains_key(key@) {
                self@.obj()[key@]
            } else {
                ValueModel::Null
            }),
            r.wf(),
    {
        match self.get(key) {
            Ok(v) => v.deep_clone(),
            Err(_) => JsonValue::Null,
        }
    }

    /// Whether the value is the boolean `true`.
    pub fn is_true(&self) -> (r: bool)
        ensures
            r == (self@ == ValueModel::Bool(true)),
    {
        match *self {
            JsonValue::Boolean(true) => true,
            _ => false,
        }
    }

    /// Whether the value is the boolean `false`.
    pub fn is_false(&self) -> (r: bool)
        ensures
            r == (self@ == ValueModel::Bool(false)),
    {
        match *self {
            JsonValue::Boolean(false) => true,
            _ => false,
        }
    }
}

impl From<bool> for JsonValue {
    fn from(b: bool) -> (r: JsonValue) {
        JsonValue::Boolean(b)
    }
}

impl vstd::std_specs::convert::FromSpecImpl<bool> for JsonValue {
    open spec fn obeys_from_spec() -> bool {
        true
    }

    open spec fn from_spec(b: bool) -> JsonValue {
        JsonValue::Boolean(b)
    }
}

impl From<String> for JsonValue {
    fn from(s: String) -> (r: JsonValue) {
        JsonValue::String(s)
    }
}

impl vstd::std_specs::convert::FromSpecImpl<String> for JsonValue {
    open spec fn obeys_from_spec() -> bool {
        true
    }

    open spec fn from_spec(s: String) -> JsonValue {
        JsonValue::String(s)
    }
}

} // verus!
