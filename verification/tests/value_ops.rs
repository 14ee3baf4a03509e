use json::error::JsonError;
use json::value::JsonValue;

fn text(t: &str) -> JsonValue {
    JsonValue::String(t.to_string())
}

fn num(x: f64) -> JsonValue {
    JsonValue::Number(x.to_bits())
}

#[test]
fn predicates_hold_only_for_own_variant() {
    let values = [
        text("x"),
        num(1.5),
        JsonValue::Boolean(true),
        JsonValue::Null,
        JsonValue::new_object(),
        JsonValue::new_array(),
    ];
    for (i, v) in values.iter().enumerate() {
        assert_eq!(v.is_string(), i == 0);
        assert_eq!(v.is_number(), i == 1);
        assert_eq!(v.is_boolean(), i == 2);
        assert_eq!(v.is_null(), i == 3);
        assert_eq!(v.is_object(), i == 4);
        assert_eq!(v.is_array(), i == 5);
    }
}

#[test]
fn is_true_and_is_false() {
    assert!(JsonValue::Boolean(true).is_true());
    assert!(!JsonValue::Boolean(true).is_false());
    assert!(JsonValue::Boolean(false).is_false());
    assert!(!JsonValue::Boolean(false).is_true());
    assert!(!JsonValue::Null.is_true());
    assert!(!JsonValue::Null.is_false());
}

#[test]
fn as_accessors_succeed_iff_predicate_holds() {
    let s = text("hello");
    assert_eq!(s.as_string(), Ok(&"hello".to_string()));
    assert_eq!(s.as_number(), Err(JsonError::WrongType("Number".to_string())));
    assert_eq!(s.as_boolean(), Err(JsonError::WrongType("Boolean".to_string())));

    let n = num(2.5);
    assert_eq!(n.as_number(), Ok(&(2.5f64).to_bits()));
    assert_eq!(n.as_string(), Err(JsonError::WrongType("String".to_string())));

    let b = JsonValue::Boolean(true);
    assert_eq!(b.as_boolean(), Ok(&true));
    assert_eq!(b.as_number(), Err(JsonError::WrongType("Number".to_string())));
}

#[test]
fn put_then_get_roundtrip() {
    let mut o = JsonValue::new_object();
    o.put("greeting", text("hi")).unwrap();
    assert_eq!(o.get("greeting"), Ok(&text("hi")));
}

#[test]
fn put_overwrites_existing_key() {
    let mut o = JsonValue::new_object();
    o.put("k", num(1.0)).unwrap();
    o.put("k", num(2.0)).unwrap();
    assert_eq!(o.get("k"), Ok(&num(2.0)));
    let mut single = JsonValue::new_object();
    single.put("k", num(2.0)).unwrap();
    assert!(o.is(&single));
}

#[test]
fn put_on_non_object_fails_and_leaves_value() {
    let mut v = num(3.0);
    assert_eq!(
        v.put("k", JsonValue::Null),
        Err(JsonError::WrongType("Object".to_string()))
    );
    assert_eq!(v, num(3.0));
}

#[test]
fn push_preserves_order() {
    let mut a = JsonValue::new_array();
    a.push(text("v1")).unwrap();
    a.push(text("v2")).unwrap();
    a.push(text("v3")).unwrap();
    assert_eq!(a.at(0), Ok(&text("v1")));
    assert_eq!(a.at(1), Ok(&text("v2")));
    assert_eq!(a.at(2), Ok(&text("v3")));
    assert_eq!(a.at(3), Err(JsonError::ArrayIndexOutOfBounds));
}

#[test]
fn push_on_non_array_fails_and_leaves_value() {
    let mut v = JsonValue::Boolean(false);
    assert_eq!(
        v.push(JsonValue::Null),
        Err(JsonError::WrongType("Array".to_string()))
    );
    assert_eq!(v, JsonValue::Boolean(false));
}

#[test]
fn at_out_of_bounds_fails() {
    let mut a = JsonValue::new_array();
    a.push(num(0.0)).unwrap();
    a.push(num(1.0)).unwrap();
    assert_eq!(a.at(1), Ok(&num(1.0)));
    assert_eq!(a.at(2), Err(JsonError::ArrayIndexOutOfBounds));
    assert_eq!(a.at(100), Err(JsonError::ArrayIndexOutOfBounds));
    let empty = JsonValue::new_array();
    assert_eq!(empty.at(0), Err(JsonError::ArrayIndexOutOfBounds));
}

#[test]
fn get_missing_key_fails_undefined() {
    let mut o = JsonValue::new_object();
    o.put("present", JsonValue::Null).unwrap();
    assert_eq!(o.get("x"), Err(JsonError::Undefined("x".to_string())));
    let fresh = JsonValue::new_object();
    assert_eq!(fresh.get("x"), Err(JsonError::Undefined("x".to_string())));
}

#[test]
fn wrong_variant_object_and_array_operations() {
    let a = JsonValue::new_array();
    assert_eq!(a.get("k"), Err(JsonError::WrongType("Object".to_string())));
    let mut a = JsonValue::new_array();
    assert_eq!(
        a.get_mut("k").map(|_| ()),
        Err(JsonError::WrongType("Object".to_string()))
    );
    let o = JsonValue::new_object();
    assert_eq!(o.at(0), Err(JsonError::WrongType("Array".to_string())));
    let mut o = JsonValue::new_object();
    assert_eq!(
        o.at_mut(0).map(|_| ()),
        Err(JsonError::WrongType("Array".to_string()))
    );
}

#[test]
fn get_mut_changes_entry_in_place() {
    let mut o = JsonValue::new_object();
    o.put("k", num(1.0)).unwrap();
    *o.get_mut("k").unwrap() = text("replaced");
    assert_eq!(o.get("k"), Ok(&text("replaced")));
    assert_eq!(
        o.get_mut("absent").map(|_| ()),
        Err(JsonError::Undefined("absent".to_string()))
    );
}

#[test]
fn at_mut_changes_element_in_place() {
    let mut a = JsonValue::new_array();
    a.push(num(1.0)).unwrap();
    a.push(num(2.0)).unwrap();
    *a.at_mut(1).unwrap() = JsonValue::Boolean(true);
    assert_eq!(a.at(1), Ok(&JsonValue::Boolean(true)));
    assert_eq!(a.at(0), Ok(&num(1.0)));
    assert_eq!(a.at_mut(2).map(|_| ()), Err(JsonError::ArrayIndexOutOfBounds));
}

#[test]
fn indexed_read_never_fails() {
    let scalars = [text("x"), num(1.0), JsonValue::Boolean(true), JsonValue::Null];
    for v in scalars.iter() {
        assert_eq!(v.index(0), JsonValue::Null);
        assert_eq!(v.index(7), JsonValue::Null);
        assert_eq!(v.index_str("anything"), JsonValue::Null);
    }
    let mut a = JsonValue::new_array();
    a.push(text("foo")).unwrap();
    assert_eq!(a.index(0), text("foo"));
    assert_eq!(a.index(1), JsonValue::Null);
    assert_eq!(a.index_str("k"), JsonValue::Null);
    let mut o = JsonValue::new_object();
    o.put("foo", text("bar")).unwrap();
    assert_eq!(o.index_str("foo"), text("bar"));
    assert_eq!(o.index_str("other"), JsonValue::Null);
    assert_eq!(o.index(0), JsonValue::Null);
}

#[test]
fn with_replaces_non_object_entirely() {
    let mut v = num(5.0);
    {
        let handle = v.with("k");
        assert_eq!(*handle, JsonValue::Null);
    }
    let mut expected = JsonValue::new_object();
    expected.put("k", JsonValue::Null).unwrap();
    assert_eq!(v, expected);
}

#[test]
fn with_twice_keeps_existing_entry() {
    let mut o = JsonValue::new_object();
    o.put("k", text("v")).unwrap();
    {
        let first = o.with("k");
        assert_eq!(*first, text("v"));
    }
    {
        let second = o.with("k");
        assert_eq!(*second, text("v"));
        *second = text("w");
    }
    assert_eq!(o.get("k"), Ok(&text("w")));
}

#[test]
fn with_inserts_null_for_missing_key() {
    let mut o = JsonValue::new_object();
    o.put("other", num(1.0)).unwrap();
    {
        let handle = o.with("fresh");
        assert_eq!(*handle, JsonValue::Null);
    }
    assert_eq!(o.get("fresh"), Ok(&JsonValue::Null));
    assert_eq!(o.get("other"), Ok(&num(1.0)));
}

#[test]
fn structural_equality_ignores_key_order() {
    let mut o1 = JsonValue::new_object();
    o1.put("a", num(1.0)).unwrap();
    o1.put("b", num(2.0)).unwrap();
    let mut o2 = JsonValue::new_object();
    o2.put("b", num(2.0)).unwrap();
    o2.put("a", num(1.0)).unwrap();
    assert!(o1.is(&o2));
    assert!(o2.is(&o1));
    let mut o3 = JsonValue::new_object();
    o3.put("a", num(1.0)).unwrap();
    o3.put("b", num(3.0)).unwrap();
    assert!(!o1.is(&o3));
}

#[test]
fn structural_equality_recurses_into_composites() {
    let mut inner1 = JsonValue::new_array();
    inner1.push(text("x")).unwrap();
    inner1.push(num(2.0)).unwrap();
    let mut o1 = JsonValue::new_object();
    o1.put("list", inner1).unwrap();

    let mut inner2 = JsonValue::new_array();
    inner2.push(text("x")).unwrap();
    inner2.push(num(2.0)).unwrap();
    let mut o2 = JsonValue::new_object();
    o2.put("list", inner2).unwrap();
    assert!(o1.is(&o2));

    let mut inner3 = JsonValue::new_array();
    inner3.push(num(2.0)).unwrap();
    inner3.push(text("x")).unwrap();
    let mut o3 = JsonValue::new_object();
    o3.put("list", inner3).unwrap();
    assert!(!o1.is(&o3));
}

#[test]
fn conversions_build_the_expected_variants() {
    assert!(JsonValue::from(true).is(&JsonValue::Boolean(true)));
    assert!(JsonValue::from("word".to_string()).is(&text("word")));
    let mut a = JsonValue::new_array();
    a.push(JsonValue::from("foo".to_string())).unwrap();
    assert!(a.index(0).is(&text("foo")));
}

#[test]
fn deep_clone_copies_the_whole_tree() {
    let mut tags = JsonValue::new_array();
    tags.push(text("x")).unwrap();
    let mut o = JsonValue::new_object();
    o.put("tags", tags).unwrap();
    let copy = o.deep_clone();
    assert!(copy.is(&o));
    o.get_mut("tags").unwrap().push(text("y")).unwrap();
    assert!(!copy.is(&o));
    assert_eq!(copy.index_str("tags").index(0), text("x"));
}

#[test]
fn scenario_object_with_nested_tags() {
    let mut tags = JsonValue::new_array();
    tags.push(text("x")).unwrap();
    tags.push(text("y")).unwrap();
    let mut o = JsonValue::new_object();
    o.put("name", text("Ada")).unwrap();
    o.put("tags", tags).unwrap();
    assert_eq!(o.get("name"), Ok(&text("Ada")));
    assert_eq!(o.get("tags").unwrap().at(1), Ok(&text("y")));
    assert_eq!(o.get("missing"), Err(JsonError::Undefined("missing".to_string())));
}

#[test]
fn error_constructors_carry_their_text() {
    assert_eq!(
        JsonError::wrong_type("Object"),
        JsonError::WrongType("Object".to_string())
    );
    assert_eq!(
        JsonError::undefined("key"),
        JsonError::Undefined("key".to_string())
    );
}
