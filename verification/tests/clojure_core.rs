use std::sync::Arc;

use litki::clojure::{
    add, assoc, assoc_in, count, dissoc, first, get, get_in, get_in_or, get_or, keys, last, list, second, subtract,
    symbol, vals,
};
use litki::{PtrValue, Value};

fn num(i: i64) -> Value {
    Value::Integer(i)
}

fn kw(name: &str) -> Value {
    Value::Keyword(None, name.to_string())
}

fn s(text: &str) -> Value {
    Value::String(text.to_string())
}

fn vector(items: Vec<Value>) -> Value {
    Value::Vector(items, None)
}

fn hmap(entries: Vec<(Value, Value)>) -> Value {
    Value::HashMap(entries, None)
}

fn ptrs(values: Vec<Value>) -> Vec<PtrValue> {
    values.into_iter().map(Arc::new).collect()
}

#[test]
fn get_reads_maps_and_vectors() {
    let m = hmap(vec![(kw("a"), num(1)), (kw("b"), num(2))]);
    assert!(get(&m, &kw("b")).equals(&num(2)));
    assert!(matches!(get(&m, &kw("c")), Value::Nil(_)));
    assert!(get_or(&m, &kw("c"), num(9)).equals(&num(9)));
    let v = vector(vec![num(10), num(20)]);
    assert!(get(&v, &num(1)).equals(&num(20)));
    assert!(matches!(get(&v, &num(2)), Value::Nil(_)));
    assert!(get_or(&v, &num(-1), s("d")).equals(&s("d")));
    assert!(matches!(get(&Value::Nil(None), &kw("a")), Value::Nil(_)));
    assert!(matches!(get(&num(3), &kw("a")), Value::Nil(_)));
}

#[test]
fn get_in_follows_the_path_and_stops_at_nil() {
    let m = hmap(vec![(kw("a"), hmap(vec![(kw("b"), vector(vec![num(5), num(6)]))]))]);
    let path = vector(vec![kw("a"), kw("b"), num(1)]);
    assert!(get_in(&m, &path).equals(&num(6)));
    let missing = vector(vec![kw("x"), kw("b")]);
    assert!(matches!(get_in(&m, &missing), Value::Nil(_)));
    assert!(get_in(&m, &vector(vec![])).equals(&m));
    assert!(matches!(get_in(&Value::Nil(None), &num(1)), Value::Nil(_)));
}

#[test]
fn get_in_with_a_default_for_missing_paths() {
    let m = hmap(vec![(kw("a"), hmap(vec![(kw("b"), num(1))]))]);
    assert!(get_in_or(&m, &vector(vec![kw("a"), kw("x")]), num(0)).equals(&num(0)));
    assert!(get_in_or(&m, &vector(vec![kw("a"), kw("b")]), num(0)).equals(&num(1)));
    let with_nil = hmap(vec![(kw("k"), Value::Nil(None))]);
    assert!(matches!(get_in_or(&with_nil, &vector(vec![kw("k")]), num(0)), Value::Nil(_)));
    assert!(get_in_or(&Value::Nil(None), &vector(vec![kw("k")]), num(3)).equals(&num(3)));
    let v = vector(vec![num(7)]);
    assert!(get_in_or(&v, &vector(vec![num(1)]), num(2)).equals(&num(2)));
}

#[test]
fn assoc_adds_and_replaces_entries() {
    let m = hmap(vec![(kw("a"), num(1))]);
    let args = ptrs(vec![m, kw("a"), num(2), kw("b"), num(3)]);
    let r = assoc(&args);
    let expected = hmap(vec![(kw("a"), num(2)), (kw("b"), num(3))]);
    assert!(r.equals(&expected));
    let from_nil = assoc(&ptrs(vec![Value::Nil(None), kw("k"), s("v")]));
    assert!(from_nil.equals(&hmap(vec![(kw("k"), s("v"))])));
    let v = vector(vec![num(1), num(2)]);
    assert!(assoc(&ptrs(vec![v.deep_clone(), num(0), num(9)])).equals(&vector(vec![num(9), num(2)])));
    assert!(assoc(&ptrs(vec![v, num(1), num(5), num(0), num(4)])).equals(&vector(vec![num(4), num(5)])));
}

#[test]
fn updates_keep_metadata() {
    let meta = || vec![(kw("tag"), s("deer"))];
    let m = Value::HashMap(vec![(kw("a"), num(1))], Some(meta()));
    let assoced = assoc(&ptrs(vec![m.deep_clone(), kw("b"), num(2)]));
    assert!(assoced.equals(&Value::HashMap(vec![(kw("a"), num(1)), (kw("b"), num(2))], Some(meta()))));
    let dissoced = dissoc(&ptrs(vec![m.deep_clone(), kw("a")]));
    assert!(dissoced.equals(&Value::HashMap(vec![], Some(meta()))));
    let from_nil = assoc(&ptrs(vec![Value::Nil(Some(meta())), kw("k"), num(3)]));
    assert!(from_nil.equals(&Value::HashMap(vec![(kw("k"), num(3))], Some(meta()))));
    let v = Value::Vector(vec![num(1)], Some(meta()));
    let replaced = assoc(&ptrs(vec![v, num(0), num(8)]));
    assert!(replaced.equals(&Value::Vector(vec![num(8)], Some(meta()))));
    let nested = assoc_in(&m, &vector(vec![kw("c"), kw("d")]), num(5));
    let inner = hmap(vec![(kw("d"), num(5))]);
    assert!(nested.equals(&Value::HashMap(vec![(kw("a"), num(1)), (kw("c"), inner)], Some(meta()))));
    assert!(!assoced.equals(&hmap(vec![(kw("a"), num(1)), (kw("b"), num(2))])));
    let nil_with_meta = Value::Nil(Some(meta()));
    assert!(get(&nil_with_meta, &kw("a")).equals(&nil_with_meta));
}

#[test]
fn dissoc_removes_keys() {
    let m = hmap(vec![(kw("a"), num(1)), (kw("b"), num(2)), (kw("c"), num(3))]);
    let r = dissoc(&ptrs(vec![m, kw("a"), kw("c"), kw("zz")]));
    assert!(r.equals(&hmap(vec![(kw("b"), num(2))])));
    let v = vector(vec![num(1)]);
    assert!(dissoc(&ptrs(vec![v.deep_clone(), num(0)])).equals(&v));
}

#[test]
fn assoc_in_builds_nested_maps() {
    let r = assoc_in(&Value::Nil(None), &vector(vec![kw("a"), kw("b")]), num(1));
    assert!(r.equals(&hmap(vec![(kw("a"), hmap(vec![(kw("b"), num(1))]))])));
    let r2 = assoc_in(&r, &vector(vec![kw("a"), kw("c")]), num(2));
    assert!(r2.equals(&hmap(vec![(kw("a"), hmap(vec![(kw("b"), num(1)), (kw("c"), num(2))]))])));
    let v = vector(vec![hmap(vec![]), num(7)]);
    let r3 = assoc_in(&v, &vector(vec![num(0), kw("x")]), num(3));
    assert!(r3.equals(&vector(vec![hmap(vec![(kw("x"), num(3))]), num(7)])));
    let empty_path = assoc_in(&Value::Nil(None), &vector(vec![]), num(4));
    assert!(empty_path.equals(&hmap(vec![(Value::Nil(None), num(4))])));
    assert!(assoc_in(&num(5), &vector(vec![kw("a")]), num(4)).equals(&num(5)));
}

#[test]
fn get_in_reads_what_assoc_in_wrote() {
    let base = hmap(vec![(kw("a"), vector(vec![num(1), hmap(vec![])]))]);
    let path = vector(vec![kw("a"), num(1), kw("z")]);
    let written = assoc_in(&base, &path, s("deep"));
    assert!(get_in(&written, &path).equals(&s("deep")));
}

#[test]
fn count_and_positions() {
    let l = Value::List(vec![num(1), num(2), num(3)]);
    assert!(count(&l).equals(&num(3)));
    assert!(count(&hmap(vec![(kw("a"), num(1))])).equals(&num(1)));
    assert!(count(&Value::HashSet(vec![])).equals(&num(0)));
    assert!(first(&l).equals(&num(1)));
    assert!(second(&l).equals(&num(2)));
    assert!(last(&l).equals(&num(3)));
    assert!(matches!(first(&vector(vec![])), Value::Nil(_)));
    assert!(matches!(second(&vector(vec![num(1)])), Value::Nil(_)));
    assert!(matches!(last(&num(4)), Value::Nil(_)));
}

#[test]
fn keys_and_vals_in_entry_order() {
    let m = hmap(vec![(kw("a"), num(1)), (kw("b"), num(2))]);
    assert!(keys(&m).equals(&Value::List(vec![kw("a"), kw("b")])));
    assert!(vals(&m).equals(&Value::List(vec![num(1), num(2)])));
}

#[test]
fn list_and_symbol() {
    let l = list(&ptrs(vec![num(1), s("x")]));
    assert!(l.equals(&Value::List(vec![num(1), s("x")])));
    let sym = symbol(&ptrs(vec![s("foo")]));
    assert!(sym.equals(&Value::Symbol(None, "foo".to_string())));
    let qualified = symbol(&ptrs(vec![s("my.ns"), s("bar")]));
    assert!(qualified.equals(&Value::Symbol(Some("my.ns".to_string()), "bar".to_string())));
}

#[test]
fn integer_arithmetic() {
    assert!(add(&ptrs(vec![])).equals(&num(0)));
    assert!(add(&ptrs(vec![num(1), num(2), num(3)])).equals(&num(6)));
    assert!(subtract(&ptrs(vec![num(5)])).equals(&num(-5)));
    assert!(subtract(&ptrs(vec![num(10), num(3), num(2)])).equals(&num(5)));
}

#[test]
fn map_keeps_the_collection_kind() {
    let inc = |x: PtrValue| -> PtrValue {
        match x.as_ref() {
            Value::Integer(i) => Arc::new(Value::Integer(i + 1)),
            _ => x,
        }
    };
    let l = Value::List(vec![num(1), num(2)]);
    assert!(litki::clojure::map(inc, &l).equals(&Value::List(vec![num(2), num(3)])));
    let v = vector(vec![num(5)]);
    assert!(litki::clojure::map(inc, &v).equals(&vector(vec![num(6)])));
    let m = hmap(vec![(kw("a"), num(1))]);
    let swapped = litki::clojure::map(
        |x: PtrValue| -> PtrValue {
            match x.as_ref() {
                Value::Vector(kv, _) => Arc::new(Value::Vector(vec![kv[1].deep_clone(), kv[0].deep_clone()], None)),
                _ => x,
            }
        },
        &m,
    );
    assert!(swapped.equals(&vector(vec![vector(vec![num(1), kw("a")])])));
    let set = Value::HashSet(vec![num(1), num(2), num(3)]);
    let parity = litki::clojure::map(
        |x: PtrValue| -> PtrValue {
            match x.as_ref() {
                Value::Integer(i) => Arc::new(Value::Integer(i % 2)),
                _ => x,
            }
        },
        &set,
    );
    assert!(parity.equals(&Value::HashSet(vec![num(1), num(0)])));
}

#[test]
fn equality_is_structural() {
    let a = hmap(vec![(kw("a"), Value::List(vec![s("x"), Value::Opaque(3)]))]);
    let b = a.deep_clone();
    assert!(a.equals(&b));
    assert!(!a.equals(&hmap(vec![(kw("a"), Value::List(vec![s("x"), Value::Opaque(4)]))])));
    assert!(!kw("a").equals(&Value::Symbol(None, "a".to_string())));
    assert!(!Value::Keyword(Some("n".to_string()), "a".to_string()).equals(&kw("a")));
}
