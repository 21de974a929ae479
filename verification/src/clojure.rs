//! The data functions of the `clojure.core` namespace that the engine's
//! environment provides: lookup (`get`, `get-in`), update (`assoc`,
//! `assoc-in`, `dissoc`), inspection (`count`, `first`, `second`, `last`,
//! `keys`, `vals`), construction (`list`, `symbol`) and integer arithmetic
//! (`+`, `-`).
//!
//! Each function takes the argument list that the environment hands to the
//! native function and returns the resulting value. Its contract states the
//! result over the values' views.
mod execute_command;

pub use execute_command::{
    call_options, call_value, call_value_spec, deref_result, deref_timeout_ms, deref_with_timeout,
    lemma_delivered_value_is_returned, lemma_plain_arguments_pass_through, parse_command_call, CommandCall,
};

use crate::value::{entries_clone, meta_clone, values_clone, data_of, datum_of, entries_of, lemma_data_of, lemma_entries_of, Datum, PtrValue, Value};
use std::sync::Arc;
use vstd::prelude::*;

verus! {

// ---------------------------------------------------------------------------
// Maps as entry sequences
// ---------------------------------------------------------------------------

/// The index of the first entry whose key is `k`, or -1.
pub open spec fn first_key_index(e: Seq<(Datum, Datum)>, k: Datum) -> int
    decreases e.len(),
{
    if e.len() == 0 {
        -1
    } else {
        let r = first_key_index(e.drop_last(), k);
        if r >= 0 {
            r
        } else if e.last().0 == k {
            e.len() - 1
        } else {
            -1
        }
    }
}

/// The value stored under `k`.
pub open spec fn lookup(e: Seq<(Datum, Datum)>, k: Datum) -> Option<Datum> {
    let i = first_key_index(e, k);
    if i >= 0 {
        Some(e[i].1)
    } else {
        None
    }
}

/// `e` with `k` mapped to `v`: the entry of `k` is replaced in place, or a new
/// entry is added at the end.
pub open spec fn assoc_entry(e: Seq<(Datum, Datum)>, k: Datum, v: Datum) -> Seq<(Datum, Datum)> {
    let i = first_key_index(e, k);
    if i >= 0 {
        e.update(i, (k, v))
    } else {
        e.push((k, v))
    }
}

/// `e` without the entry of `k`.
pub open spec fn dissoc_entry(e: Seq<(Datum, Datum)>, k: Datum) -> Seq<(Datum, Datum)> {
    let i = first_key_index(e, k);
    if i >= 0 {
        e.remove(i)
    } else {
        e
    }
}

/// No key occurs twice.
pub open spec fn keys_unique(e: Seq<(Datum, Datum)>) -> bool {
    forall|i: int, j: int| 0 <= i < j < e.len() ==> e[i].0 != e[j].0
}

/// `first_key_index` is -1 or the position of the first entry with key `k`.
pub proof fn lemma_first_key_index(e: Seq<(Datum, Datum)>, k: Datum)
    ensures
        -1 <= first_key_index(e, k) < e.len(),
        first_key_index(e, k) >= 0 ==> e[first_key_index(e, k)].0 == k,
        forall|j: int| 0 <= j < e.len() && (first_key_index(e, k) < 0 || j < first_key_index(e, k)) ==> e[j].0 != k,
    decreases e.len(),
{
    if e.len() > 0 {
        lemma_first_key_index(e.drop_last(), k);
        assert(forall|j: int| 0 <= j < e.len() - 1 ==> e.drop_last()[j] == #[trigger] e[j]);
    }
}

/// A position that satisfies the characterisation is the first index.
pub proof fn lemma_first_key_index_is(e: Seq<(Datum, Datum)>, k: Datum, i: int)
    requires
        -1 <= i < e.len(),
        i >= 0 ==> e[i].0 == k,
        forall|j: int| 0 <= j < e.len() && (i < 0 || j < i) ==> e[j].0 != k,
    ensures
        first_key_index(e, k) == i,
{
    lemma_first_key_index(e, k);
    let f = first_key_index(e, k);
    if f >= 0 && i >= 0 {
        if f < i {
            assert(e[f].0 != k);
        } else if i < f {
            assert(e[i].0 != k);
        }
    } else if f >= 0 {
        assert(e[f].0 != k);
    } else if i >= 0 {
        assert(e[i].0 != k);
    }
}

/// Finds the first entry of `entries` whose key is `k`.
fn position_of_key(entries: &Vec<(Value, Value)>, k: &Value) -> (r: Option<usize>)
    ensures
        first_key_index(entries_of(entries@), k@) == match r {
            Some(i) => i as int,
            None => -1,
        },
        r matches Some(i) ==> i < entries.len(),
{
    proof {
        lemma_entries_of(entries@);
    }
    let ghost e = entries_of(entries@);
    let mut i: usize = 0;
    while i < entries.len()
        invariant
            0 <= i <= entries.len(),
            e == entries_of(entries@),
            e.len() == entries.len(),
            forall|j: int|
                0 <= j < entries.len() ==> #[trigger] e[j] == (
                    datum_of(entries@[j].0),
                    datum_of(entries@[j].1),
                ),
            forall|j: int| 0 <= j < i ==> e[j].0 != k@,
        decreases entries.len() - i,
    {
        if entries[i].0.equals(k) {
            proof {
                lemma_first_key_index_is(e, k@, i as int);
            }
            return Some(i);
        }
        i += 1;
    }
    proof {
        lemma_first_key_index_is(e, k@, -1);
    }
    None
}

/// The spec of `get` with a default: a map gives the value of the key, a
/// vector the element at the integer index, `nil` gives itself, and anything
/// else `nil`; a missing key or an index out of range gives the default.
pub open spec fn get_spec(m: Datum, k: Datum, d: Datum) -> Datum {
    match m {
        Datum::Nil(_) => m,
        Datum::Vector(s, _) => match k {
            Datum::Integer(i) => if 0 <= i < s.len() {
                s[i as int]
            } else {
                d
            },
            _ => d,
        },
        Datum::HashMap(e, _) => match lookup(e, k) {
            Some(v) => v,
            None => d,
        },
        _ => Datum::Nil(None),
    }
}

/// `get` on a vector needs an integer key.
pub open spec fn get_ok(m: Datum, k: Datum) -> bool {
    m is Vector ==> k is Integer
}

/// `(get m k d)`.
pub fn get_or(m: &Value, k: &Value, d: Value) -> (r: Value)
    requires
        get_ok(m@, k@),
    ensures
        r@ == get_spec(m@, k@, d@),
{
    match m {
        Value::Nil(_) => m.deep_clone(),
        Value::Vector(items, _) => {
            proof {
                lemma_data_of(items@);
            }
            match k {
                Value::Integer(i) => {
                    if *i < 0 || *i as u64 >= items.len() as u64 {
                        d
                    } else {
                        items[*i as usize].deep_clone()
                    }
                },
                _ => d,
            }
        },
        Value::HashMap(entries, _) => {
            proof {
                lemma_entries_of(entries@);
            }
            match position_of_key(entries, k) {
                Some(i) => entries[i].1.deep_clone(),
                None => d,
            }
        },
        _ => Value::Nil(None),
    }
}

/// `(get m k)`: `get` with `nil` as the default.
pub fn get(m: &Value, k: &Value) -> (r: Value)
    requires
        get_ok(m@, k@),
    ensures
        r@ == get_spec(m@, k@, Datum::Nil(None)),
{
    get_or(m, k, Value::Nil(None))
}

/// The spec of `get-in`: follows the keys one after the other, stopping at
/// the first `nil`.
pub open spec fn get_in_spec(m: Datum, ks: Seq<Datum>) -> Datum
    decreases ks.len(),
{
    if m is Nil {
        m
    } else if ks.len() == 0 {
        m
    } else {
        get_in_spec(get_spec(m, ks[0], Datum::Nil(None)), ks.subrange(1, ks.len() as int))
    }
}

/// Every step of `get-in` is a `get` that is defined.
pub open spec fn get_in_ok(m: Datum, ks: Seq<Datum>) -> bool
    decreases ks.len(),
{
    if m is Nil || ks.len() == 0 {
        true
    } else {
        get_ok(m, ks[0]) && get_in_ok(get_spec(m, ks[0], Datum::Nil(None)), ks.subrange(1, ks.len() as int))
    }
}

/// `(get-in m ks)`, where `ks` is a vector of keys.
pub fn get_in(m: &Value, ks: &Value) -> (r: Value)
    requires
        !(m@ is Nil) ==> ks@ is Vector,
        ks@ matches Datum::Vector(keys, _) ==> get_in_ok(m@, keys),
    ensures
        r@ == match ks@ {
            Datum::Vector(keys, _) => get_in_spec(m@, keys),
            _ => m@,
        },
{
    if let Value::Nil(_) = m {
        return m.deep_clone();
    }
    let keys = match ks {
        Value::Vector(keys, _) => keys,
        _ => { return m.deep_clone(); },
    };
    proof {
        lemma_data_of(keys@);
    }
    let ghost kd = data_of(keys@);
    let mut cur = m.deep_clone();
    let mut i: usize = 0;
    assert(kd.subrange(0, kd.len() as int) =~= kd);
    while i < keys.len()
        invariant
            0 <= i <= keys.len(),
            kd == data_of(keys@),
            ks@ is Vector && ks@->Vector_0 == kd,
            kd.len() == keys.len(),
            forall|j: int| 0 <= j < keys.len() ==> #[trigger] kd[j] == datum_of(keys@[j]),
            !(cur@ is Nil),
            get_in_spec(m@, kd) == get_in_spec(cur@, kd.subrange(i as int, kd.len() as int)),
            get_in_ok(cur@, kd.subrange(i as int, kd.len() as int)),
        decreases keys.len() - i,
    {
        let ghost rest = kd.subrange(i as int, kd.len() as int);
        assert(rest[0] == kd[i as int]);
        assert(rest.subrange(1, rest.len() as int) =~= kd.subrange(i + 1, kd.len() as int));
        let next = get(&cur, &keys[i]);
        if let Value::Nil(_) = next {
            assert(next@ is Nil);
            assert(get_in_spec(cur@, rest) == get_in_spec(next@, rest.subrange(1, rest.len() as int)));
            assert(get_in_spec(next@, rest.subrange(1, rest.len() as int)) == next@);
            return next;
        }
        cur = next;
        i += 1;
    }
    assert(kd.subrange(i as int, kd.len() as int).len() == 0);
    cur
}

/// The value found under `k` in `m`: the value of a key of a map, or the
/// element at an integer index in range of a vector; nothing otherwise.
pub open spec fn found_under(m: Datum, k: Datum) -> Option<Datum> {
    match m {
        Datum::Vector(s, _) => match k {
            Datum::Integer(i) => if 0 <= i < s.len() {
                Some(s[i as int])
            } else {
                None
            },
            _ => None,
        },
        Datum::HashMap(e, _) => lookup(e, k),
        _ => None,
    }
}

/// The spec of `(get-in m ks d)`: follows the keys one after the other, and
/// gives `d` as soon as a key is not found.
pub open spec fn get_in_or_spec(m: Datum, ks: Seq<Datum>, d: Datum) -> Datum
    decreases ks.len(),
{
    if ks.len() == 0 {
        m
    } else {
        match found_under(m, ks[0]) {
            Some(v) => get_in_or_spec(v, ks.subrange(1, ks.len() as int), d),
            None => d,
        }
    }
}

fn find_under(m: &Value, k: &Value) -> (r: Option<Value>)
    ensures
        match r {
            Some(v) => found_under(m@, k@) == Some(v@),
            None => found_under(m@, k@) is None,
        },
{
    match m {
        Value::Vector(items, _) => {
            proof {
                lemma_data_of(items@);
            }
            match k {
                Value::Integer(i) => {
                    if *i < 0 || *i as u64 >= items.len() as u64 {
                        None
                    } else {
                        Some(items[*i as usize].deep_clone())
                    }
                },
                _ => None,
            }
        },
        Value::HashMap(entries, _) => {
            proof {
                lemma_entries_of(entries@);
            }
            match position_of_key(entries, k) {
                Some(i) => Some(entries[i].1.deep_clone()),
                None => None,
            }
        },
        _ => None,
    }
}

/// `(get-in m ks d)`, where `ks` is a vector of keys: `d` when the path is
/// missing.
pub fn get_in_or(m: &Value, ks: &Value, d: Value) -> (r: Value)
    requires
        ks@ is Vector,
    ensures
        r@ == get_in_or_spec(m@, ks@->Vector_0, d@),
{
    let keys = match ks {
        Value::Vector(keys, _) => keys,
        _ => { return d; },
    };
    proof {
        lemma_data_of(keys@);
    }
    let ghost kd = data_of(keys@);
    let mut cur = m.deep_clone();
    let mut i: usize = 0;
    assert(kd.subrange(0, kd.len() as int) =~= kd);
    while i < keys.len()
        invariant
            0 <= i <= keys.len(),
            kd == data_of(keys@),
            ks@ is Vector && ks@->Vector_0 == kd,
            kd.len() == keys.len(),
            forall|j: int| 0 <= j < keys.len() ==> #[trigger] kd[j] == datum_of(keys@[j]),
            get_in_or_spec(m@, kd, d@) == get_in_or_spec(cur@, kd.subrange(i as int, kd.len() as int), d@),
        decreases keys.len() - i,
    {
        let ghost rest = kd.subrange(i as int, kd.len() as int);
        assert(rest[0] == kd[i as int]);
        assert(rest.subrange(1, rest.len() as int) =~= kd.subrange(i + 1, kd.len() as int));
        match find_under(&cur, &keys[i]) {
            Some(next) => {
                cur = next;
            },
            None => {
                return d;
            },
        }
        i += 1;
    }
    assert(kd.subrange(i as int, kd.len() as int).len() == 0);
    cur
}


// ---------------------------------------------------------------------------
// Updating maps
// ---------------------------------------------------------------------------

/// The views of an argument list.
pub open spec fn arg_data(args: Seq<PtrValue>) -> Seq<Datum> {
    args.map_values(|a: PtrValue| a@)
}

proof fn lemma_entries_update(s: Seq<(Value, Value)>, i: int, x: (Value, Value))
    requires
        0 <= i < s.len(),
    ensures
        entries_of(s.update(i, x)) == entries_of(s).update(i, (datum_of(x.0), datum_of(x.1))),
{
    lemma_entries_of(s);
    lemma_entries_of(s.update(i, x));
    assert(entries_of(s.update(i, x)) =~= entries_of(s).update(i, (datum_of(x.0), datum_of(x.1))));
}

proof fn lemma_entries_push(s: Seq<(Value, Value)>, x: (Value, Value))
    ensures
        entries_of(s.push(x)) == entries_of(s).push((datum_of(x.0), datum_of(x.1))),
{
    lemma_entries_of(s);
    lemma_entries_of(s.push(x));
    assert(entries_of(s.push(x)) =~= entries_of(s).push((datum_of(x.0), datum_of(x.1))));
}

proof fn lemma_entries_remove(s: Seq<(Value, Value)>, i: int)
    requires
        0 <= i < s.len(),
    ensures
        entries_of(s.remove(i)) == entries_of(s).remove(i),
{
    lemma_entries_of(s);
    lemma_entries_of(s.remove(i));
    assert(entries_of(s.remove(i)) =~= entries_of(s).remove(i));
}

/// Maps `k` to `v` in `entries`.
fn put_entry(entries: &mut Vec<(Value, Value)>, k: Value, v: Value)
    ensures
        entries_of(final(entries)@) == assoc_entry(entries_of(old(entries)@), k@, v@),
{
    match position_of_key(entries, &k) {
        Some(i) => {
            proof {
                lemma_entries_update(entries@, i as int, (k, v));
            }
            entries.set(i, (k, v));
        },
        None => {
            proof {
                lemma_entries_push(entries@, (k, v));
            }
            entries.push((k, v));
        },
    }
}

/// Removes the entry of `k` from `entries`.
fn remove_entry(entries: &mut Vec<(Value, Value)>, k: &Value)
    ensures
        entries_of(final(entries)@) == dissoc_entry(entries_of(old(entries)@), k@),
{
    match position_of_key(entries, k) {
        Some(i) => {
            proof {
                lemma_entries_remove(entries@, i as int);
            }
            let _ = entries.remove(i);
        },
        None => {},
    }
}

/// `e` with each key/value pair of `kvs` associated in turn.
pub open spec fn assoc_pairs(e: Seq<(Datum, Datum)>, kvs: Seq<Datum>) -> Seq<(Datum, Datum)>
    decreases kvs.len(),
{
    if kvs.len() < 2 {
        e
    } else {
        assoc_pairs(assoc_entry(e, kvs[0], kvs[1]), kvs.subrange(2, kvs.len() as int))
    }
}

/// `s` with the element at each index of `kvs` replaced in turn by the value
/// that follows the index.
pub open spec fn assoc_indexes(s: Seq<Datum>, kvs: Seq<Datum>) -> Seq<Datum>
    decreases kvs.len(),
{
    if kvs.len() < 2 {
        s
    } else {
        assoc_indexes(s.update(int_of(kvs[0]), kvs[1]), kvs.subrange(2, kvs.len() as int))
    }
}

/// Every key of the keys and values `kvs` is an integer index below `len`.
pub open spec fn indexes_in_bounds(len: int, kvs: Seq<Datum>) -> bool {
    forall|j: int| 0 <= j < kvs.len() && j % 2 == 0 ==> (#[trigger] kvs[j]) is Integer && 0 <= int_of(kvs[j]) < len
}

/// The spec of `(assoc m k v & kvs)`: `nil` counts as the empty map; in a
/// vector, each key is an index whose element is replaced by its value; the
/// result keeps the metadata of `m`.
pub open spec fn assoc_spec(m: Datum, kvs: Seq<Datum>) -> Datum {
    match m {
        Datum::Nil(meta) => Datum::HashMap(assoc_pairs(Seq::empty(), kvs), meta),
        Datum::HashMap(e, meta) => Datum::HashMap(assoc_pairs(e, kvs), meta),
        Datum::Vector(s, meta) => Datum::Vector(assoc_indexes(s, kvs), meta),
        _ => m,
    }
}

/// The arguments that `assoc` accepts: a `nil`, map or vector followed by an
/// even, nonzero number of keys and values; the keys of a vector are indexes
/// of its elements.
pub open spec fn assoc_ok(args: Seq<Datum>) -> bool {
    &&& args.len() >= 3
    &&& (args.len() - 1) % 2 == 0
    &&& (args[0] is Nil || args[0] is HashMap || args[0] is Vector)
    &&& (args[0] matches Datum::Vector(s, _) ==> indexes_in_bounds(s.len() as int, args.subrange(1, args.len() as int)))
}

/// `items` with the element at each index among the arguments from
/// position 1 on replaced by the argument that follows the index.
fn assoc_vector(items: &Vec<Value>, args: &Vec<PtrValue>) -> (r: Vec<Value>)
    requires
        args.len() >= 1,
        (args.len() - 1) % 2 == 0,
        indexes_in_bounds(items.len() as int, arg_data(args@).subrange(1, args.len() as int)),
    ensures
        data_of(r@) == assoc_indexes(data_of(items@), arg_data(args@).subrange(1, args.len() as int)),
{
    let ghost a = arg_data(args@);
    let ghost s0 = data_of(items@);
    let mut out = values_clone(items);
    proof {
        lemma_data_of(items@);
        lemma_data_of(out@);
    }
    let mut i: usize = 1;
    while i < args.len()
        invariant
            1 <= i <= args.len(),
            a == arg_data(args@),
            a.len() == args.len(),
            i % 2 == 1,
            args.len() % 2 == 1,
            out.len() == items.len(),
            indexes_in_bounds(items.len() as int, a.subrange(1, a.len() as int)),
            assoc_indexes(s0, a.subrange(1, a.len() as int)) == assoc_indexes(
                data_of(out@),
                a.subrange(i as int, a.len() as int),
            ),
        decreases args.len() - i,
    {
        let ghost rest = a.subrange(i as int, a.len() as int);
        assert(rest[0] == args@[i as int]@);
        assert(rest[1] == args@[i + 1]@);
        assert(rest.subrange(2, rest.len() as int) =~= a.subrange(i + 2, a.len() as int));
        assert(a.subrange(1, a.len() as int)[i - 1] == rest[0]);
        assert((i - 1) % 2 == 0);
        let idx = match &*args[i] {
            Value::Integer(k) => *k,
            _ => 0,
        };
        assert(idx == int_of(rest[0]));
        let v = args[i + 1].deep_clone();
        let ghost before = out@;
        let ghost dv = v@;
        out.set(idx as usize, v);
        proof {
            lemma_data_of(before);
            lemma_data_of(out@);
            assert(data_of(out@) =~= data_of(before).update(idx as int, dv));
        }
        i += 2;
    }
    assert(a.subrange(i as int, a.len() as int).len() == 0);
    out
}

/// `(assoc m k v & kvs)`.
pub fn assoc(args: &Vec<PtrValue>) -> (r: Value)
    requires
        assoc_ok(arg_data(args@)),
    ensures
        r@ == assoc_spec(args@[0]@, arg_data(args@).subrange(1, args.len() as int)),
{
    let ghost a = arg_data(args@);
    assert(a[0] == args@[0]@);
    let (mut entries, meta): (Vec<(Value, Value)>, Option<Vec<(Value, Value)>>) = match &*args[0] {
        Value::Nil(m) => (Vec::new(), meta_clone(m)),
        Value::HashMap(e, m) => (entries_clone(e), meta_clone(m)),
        Value::Vector(items, m) => {
            proof {
                lemma_data_of(items@);
            }
            return Value::Vector(assoc_vector(items, args), meta_clone(m));
        },
        _ => {
            return args[0].deep_clone();
        },
    };
    let ghost e0 = entries_of(entries@);
    assert(e0 == match a[0] {
        Datum::HashMap(e, _) => e,
        _ => Seq::empty(),
    });
    let mut i: usize = 1;
    assert(a.subrange(1, a.len() as int).subrange(0, a.len() - 1) =~= a.subrange(1, a.len() as int));
    while i < args.len()
        invariant
            1 <= i <= args.len(),
            a == arg_data(args@),
            a.len() == args.len(),
            (args.len() - i) % 2 == 0,
            assoc_pairs(e0, a.subrange(1, a.len() as int)) == assoc_pairs(
                entries_of(entries@),
                a.subrange(i as int, a.len() as int),
            ),
        decreases args.len() - i,
    {
        let ghost rest = a.subrange(i as int, a.len() as int);
        assert(rest[0] == args@[i as int]@);
        assert(rest[1] == args@[i + 1]@);
        assert(rest.subrange(2, rest.len() as int) =~= a.subrange(i + 2, a.len() as int));
        let k = args[i].deep_clone();
        let v = args[i + 1].deep_clone();
        put_entry(&mut entries, k, v);
        i += 2;
    }
    assert(a.subrange(i as int, a.len() as int).len() == 0);
    Value::HashMap(entries, meta)
}

/// `e` without each of `ks` in turn.
pub open spec fn dissoc_keys(e: Seq<(Datum, Datum)>, ks: Seq<Datum>) -> Seq<(Datum, Datum)>
    decreases ks.len(),
{
    if ks.len() == 0 {
        e
    } else {
        dissoc_keys(dissoc_entry(e, ks[0]), ks.subrange(1, ks.len() as int))
    }
}

/// The spec of `(dissoc m k & ks)`: a map loses the keys and keeps its
/// metadata; anything else comes back unchanged.
pub open spec fn dissoc_spec(m: Datum, ks: Seq<Datum>) -> Datum {
    match m {
        Datum::HashMap(e, meta) => Datum::HashMap(dissoc_keys(e, ks), meta),
        _ => m,
    }
}

/// `(dissoc m k & ks)`.
pub fn dissoc(args: &Vec<PtrValue>) -> (r: Value)
    requires
        args.len() >= 2,
    ensures
        r@ == dissoc_spec(args@[0]@, arg_data(args@).subrange(1, args.len() as int)),
{
    let ghost a = arg_data(args@);
    assert(a[0] == args@[0]@);
    let (mut entries, meta): (Vec<(Value, Value)>, Option<Vec<(Value, Value)>>) = match &*args[0] {
        Value::HashMap(e, m) => (entries_clone(e), meta_clone(m)),
        _ => {
            return args[0].deep_clone();
        },
    };
    let ghost e0 = entries_of(entries@);
    let mut i: usize = 1;
    while i < args.len()
        invariant
            1 <= i <= args.len(),
            a == arg_data(args@),
            a.len() == args.len(),
            dissoc_keys(e0, a.subrange(1, a.len() as int)) == dissoc_keys(
                entries_of(entries@),
                a.subrange(i as int, a.len() as int),
            ),
        decreases args.len() - i,
    {
        let ghost rest = a.subrange(i as int, a.len() as int);
        assert(rest[0] == args@[i as int]@);
        assert(rest.subrange(1, rest.len() as int) =~= a.subrange(i + 1, a.len() as int));
        remove_entry(&mut entries, &args[i]);
        i += 1;
    }
    assert(a.subrange(i as int, a.len() as int).len() == 0);
    Value::HashMap(entries, meta)
}


// ---------------------------------------------------------------------------
// assoc-in
// ---------------------------------------------------------------------------

/// The value under `k` in a map, or `nil`.
pub open spec fn lookup_or_nil(e: Seq<(Datum, Datum)>, k: Datum) -> Datum {
    match lookup(e, k) {
        Some(v) => v,
        None => Datum::Nil(None),
    }
}

/// The spec of `assoc-in` along a nonempty path of keys: `nil` counts as an
/// empty map without metadata, a map or vector on the path keeps its
/// metadata and a vector is updated at the integer index, and any other
/// value comes back unchanged.
pub open spec fn assoc_in_path(m: Datum, ks: Seq<Datum>, v: Datum) -> Datum
    decreases ks.len(),
{
    if ks.len() == 0 {
        v
    } else {
        let k = ks[0];
        let rest = ks.subrange(1, ks.len() as int);
        match m {
            Datum::Nil(_) => Datum::HashMap(
                seq![(k, assoc_in_path(Datum::HashMap(Seq::empty(), None), rest, v))],
                None,
            ),
            Datum::HashMap(e, meta) => Datum::HashMap(
                assoc_entry(e, k, assoc_in_path(lookup_or_nil(e, k), rest, v)),
                meta,
            ),
            Datum::Vector(s, meta) => match k {
                Datum::Integer(i) => if 0 <= i < s.len() {
                    Datum::Vector(s.update(i as int, assoc_in_path(s[i as int], rest, v)), meta)
                } else {
                    m
                },
                _ => m,
            },
            _ => m,
        }
    }
}

/// Every vector on the path is indexed by an integer within its bounds.
pub open spec fn assoc_in_path_ok(m: Datum, ks: Seq<Datum>) -> bool
    decreases ks.len(),
{
    if ks.len() == 0 {
        true
    } else {
        let k = ks[0];
        let rest = ks.subrange(1, ks.len() as int);
        match m {
            Datum::Nil(_) => assoc_in_path_ok(Datum::HashMap(Seq::empty(), None), rest),
            Datum::HashMap(e, _) => assoc_in_path_ok(lookup_or_nil(e, k), rest),
            Datum::Vector(s, _) => match k {
                Datum::Integer(i) => 0 <= i < s.len() && assoc_in_path_ok(s[i as int], rest),
                _ => false,
            },
            _ => true,
        }
    }
}

/// The spec of `(assoc-in m ks v)`. An empty path associates `nil` with `v`,
/// keeping the metadata of `m`.
pub open spec fn assoc_in_spec(m: Datum, ks: Seq<Datum>, v: Datum) -> Datum {
    if ks.len() == 0 {
        match m {
            Datum::Nil(meta) => Datum::HashMap(seq![(Datum::Nil(None), v)], meta),
            Datum::HashMap(e, meta) => Datum::HashMap(assoc_entry(e, Datum::Nil(None), v), meta),
            _ => m,
        }
    } else {
        assoc_in_path(m, ks, v)
    }
}

/// The arguments that `assoc-in` accepts: the keys form a vector, and an
/// empty path is not applied to a vector.
pub open spec fn assoc_in_ok(m: Datum, ks: Datum) -> bool {
    match ks {
        Datum::Vector(keys, _) => if keys.len() == 0 {
            !(m is Vector)
        } else {
            assoc_in_path_ok(m, keys)
        },
        _ => false,
    }
}

fn assoc_in_from(m: Value, keys: &Vec<Value>, start: usize, v: Value) -> (r: Value)
    requires
        start <= keys.len(),
        assoc_in_path_ok(m@, data_of(keys@).subrange(start as int, keys.len() as int)),
    ensures
        r@ == assoc_in_path(m@, data_of(keys@).subrange(start as int, keys.len() as int), v@),
    decreases keys.len() - start,
{
    proof {
        lemma_data_of(keys@);
    }
    let ghost kd = data_of(keys@);
    let ghost ks = kd.subrange(start as int, keys.len() as int);
    if start == keys.len() {
        return v;
    }
    assert(ks[0] == datum_of(keys@[start as int]));
    assert(ks.subrange(1, ks.len() as int) =~= kd.subrange(start + 1, keys.len() as int));
    let k = &keys[start];
    match m {
        Value::Nil(_) => {
            let nested = assoc_in_from(Value::HashMap(Vec::new(), None), keys, start + 1, v);
            let mut entries: Vec<(Value, Value)> = Vec::new();
            let kc = k.deep_clone();
            proof {
                lemma_entries_push(entries@, (kc, nested));
                assert(entries_of(entries@) =~= Seq::<(Datum, Datum)>::empty());
            }
            entries.push((kc, nested));
            assert(entries_of(entries@) =~= seq![(ks[0], nested@)]);
            Value::HashMap(entries, None)
        },
        Value::HashMap(mut entries, meta) => {
            proof {
                lemma_entries_of(entries@);
            }
            let current = match position_of_key(&entries, k) {
                Some(i) => entries[i].1.deep_clone(),
                None => Value::Nil(None),
            };
            let nested = assoc_in_from(current, keys, start + 1, v);
            put_entry(&mut entries, k.deep_clone(), nested);
            Value::HashMap(entries, meta)
        },
        Value::Vector(mut items, meta) => {
            proof {
                lemma_data_of(items@);
            }
            match k {
                Value::Integer(i) => {
                    assert(k@ == Datum::Integer(*i));
                    assert(0 <= *i < items.len());
                    let idx = *i as usize;
                    let current = items[idx].deep_clone();
                    let nested = assoc_in_from(current, keys, start + 1, v);
                    let ghost old_items = items@;
                    items.set(idx, nested);
                    proof {
                        lemma_data_of(items@);
                        assert(data_of(items@) =~= data_of(old_items).update(idx as int, nested@));
                    }
                    Value::Vector(items, meta)
                },
                _ => Value::Vector(items, meta),
            }
        },
        other => other,
    }
}

/// `(assoc-in m ks v)`.
pub fn assoc_in(m: &Value, ks: &Value, v: Value) -> (r: Value)
    requires
        assoc_in_ok(m@, ks@),
    ensures
        r@ == match ks@ {
            Datum::Vector(keys, _) => assoc_in_spec(m@, keys, v@),
            _ => m@,
        },
{
    let keys = match ks {
        Value::Vector(keys, _) => keys,
        _ => { return m.deep_clone(); },
    };
    proof {
        lemma_data_of(keys@);
    }
    if keys.len() == 0 {
        match m {
            Value::Nil(meta) => {
                let mut entries: Vec<(Value, Value)> = Vec::new();
                proof {
                    lemma_entries_push(entries@, (Value::Nil(None), v));
                    assert(entries_of(entries@) =~= Seq::<(Datum, Datum)>::empty());
                }
                entries.push((Value::Nil(None), v));
                assert(entries_of(entries@) =~= seq![(Datum::Nil(None), v@)]);
                Value::HashMap(entries, meta_clone(meta))
            },
            Value::HashMap(e, meta) => {
                let mut entries = entries_clone(e);
                put_entry(&mut entries, Value::Nil(None), v);
                Value::HashMap(entries, meta_clone(meta))
            },
            _ => m.deep_clone(),
        }
    } else {
        assert(data_of(keys@).subrange(0, keys.len() as int) =~= data_of(keys@));
        assoc_in_from(m.deep_clone(), keys, 0, v)
    }
}


// ---------------------------------------------------------------------------
// Laws of the map functions
// ---------------------------------------------------------------------------

proof fn lemma_first_key_index_update(e: Seq<(Datum, Datum)>, k: Datum, v: Datum)
    requires
        first_key_index(e, k) >= 0,
    ensures
        first_key_index(e.update(first_key_index(e, k), (k, v)), k) == first_key_index(e, k),
{
    lemma_first_key_index(e, k);
    let i = first_key_index(e, k);
    let e2 = e.update(i, (k, v));
    lemma_first_key_index_is(e2, k, i);
}

proof fn lemma_first_key_index_push(e: Seq<(Datum, Datum)>, k: Datum, v: Datum)
    requires
        first_key_index(e, k) < 0,
    ensures
        first_key_index(e.push((k, v)), k) == e.len(),
{
    lemma_first_key_index(e, k);
    lemma_first_key_index_is(e.push((k, v)), k, e.len() as int);
}

/// `get` reads back what `assoc` wrote: after `(assoc m k v)` on `nil` or a
/// map, `(get _ k d)` gives `v`; on a map, every other key reads as before.
pub proof fn lemma_get_after_assoc(m: Datum, k: Datum, v: Datum, k2: Datum, d: Datum)
    requires
        m is Nil || m is HashMap,
        k2 != k,
    ensures
        get_spec(assoc_spec(m, seq![k, v]), k, d) == v,
        m is HashMap ==> get_spec(assoc_spec(m, seq![k, v]), k2, d) == get_spec(m, k2, d),
{
    let kvs = seq![k, v];
    assert(kvs.subrange(2, kvs.len() as int).len() == 0);
    let e = match m {
        Datum::HashMap(e, _) => e,
        _ => Seq::empty(),
    };
    assert(assoc_pairs(e, kvs) == assoc_pairs(assoc_entry(e, k, v), kvs.subrange(2, kvs.len() as int)));
    lemma_lookup_assoc_same(e, k, v);
    lemma_lookup_assoc_other(e, k, v, k2);
}

/// `get` after `dissoc`: in a map without repeated keys, a removed key reads
/// as the default, and every other key reads as before.
pub proof fn lemma_get_after_dissoc(e: Seq<(Datum, Datum)>, meta: Option<Seq<(Datum, Datum)>>, k: Datum, k2: Datum, d: Datum)
    requires
        keys_unique(e),
        k2 != k,
    ensures
        get_spec(dissoc_spec(Datum::HashMap(e, meta), seq![k]), k, d) == d,
        get_spec(dissoc_spec(Datum::HashMap(e, meta), seq![k]), k2, d) == get_spec(Datum::HashMap(e, meta), k2, d),
{
    let ks = seq![k];
    assert(ks.subrange(1, ks.len() as int).len() == 0);
    assert(dissoc_keys(e, ks) == dissoc_keys(dissoc_entry(e, k), ks.subrange(1, ks.len() as int)));
    lemma_lookup_dissoc_same(e, k);
    lemma_lookup_dissoc_other(e, k, k2);
}

/// In a vector, reading an index right after associating it gives the
/// associated value, every other index keeps its element, and the length
/// stays the same.
pub proof fn lemma_get_assoc_vector(s: Seq<Datum>, meta: Option<Seq<(Datum, Datum)>>, i: i64, v: Datum, j: i64, d: Datum)
    requires
        0 <= i < s.len(),
    ensures
        assoc_spec(Datum::Vector(s, meta), seq![Datum::Integer(i), v])->Vector_0.len() == s.len(),
        get_spec(assoc_spec(Datum::Vector(s, meta), seq![Datum::Integer(i), v]), Datum::Integer(i), d) == v,
        j != i ==> get_spec(assoc_spec(Datum::Vector(s, meta), seq![Datum::Integer(i), v]), Datum::Integer(j), d)
            == get_spec(Datum::Vector(s, meta), Datum::Integer(j), d),
{
    let kvs = seq![Datum::Integer(i), v];
    assert(kvs.subrange(2, kvs.len() as int).len() == 0);
    assert(assoc_indexes(s, kvs) == assoc_indexes(s.update(i as int, v), kvs.subrange(2, kvs.len() as int)));
}

/// Reading a key right after associating it gives the associated value.
pub proof fn lemma_lookup_assoc_same(e: Seq<(Datum, Datum)>, k: Datum, v: Datum)
    ensures
        lookup(assoc_entry(e, k, v), k) == Some(v),
{
    lemma_first_key_index(e, k);
    if first_key_index(e, k) >= 0 {
        lemma_first_key_index_update(e, k, v);
    } else {
        lemma_first_key_index_push(e, k, v);
    }
}

/// Associating a key leaves every other key's value as it was.
pub proof fn lemma_lookup_assoc_other(e: Seq<(Datum, Datum)>, k: Datum, v: Datum, k2: Datum)
    requires
        k2 != k,
    ensures
        lookup(assoc_entry(e, k, v), k2) == lookup(e, k2),
{
    lemma_first_key_index(e, k);
    lemma_first_key_index(e, k2);
    let e2 = assoc_entry(e, k, v);
    let j = first_key_index(e, k2);
    if first_key_index(e, k) >= 0 {
        assert(e2.len() == e.len());
        lemma_first_key_index_is(e2, k2, j);
    } else {
        assert(e2.len() == e.len() + 1);
        assert(e2[e.len() as int].0 == k);
        lemma_first_key_index_is(e2, k2, j);
    }
}

/// Associating a key keeps the keys of a map distinct.
pub proof fn lemma_assoc_keeps_keys_unique(e: Seq<(Datum, Datum)>, k: Datum, v: Datum)
    requires
        keys_unique(e),
    ensures
        keys_unique(assoc_entry(e, k, v)),
{
    lemma_first_key_index(e, k);
}

/// Removing a key from a map with distinct keys leaves no value under it.
pub proof fn lemma_lookup_dissoc_same(e: Seq<(Datum, Datum)>, k: Datum)
    requires
        keys_unique(e),
    ensures
        lookup(dissoc_entry(e, k), k) is None,
{
    lemma_first_key_index(e, k);
    let i = first_key_index(e, k);
    let e2 = dissoc_entry(e, k);
    if i >= 0 {
        assert forall|j: int| 0 <= j < e2.len() implies e2[j].0 != k by {
            if j < i {
                assert(e2[j] == e[j]);
            } else {
                assert(e2[j] == e[j + 1]);
            }
        }
    }
    lemma_first_key_index_is(e2, k, -1);
}

/// Removing a key leaves every other key's value as it was.
pub proof fn lemma_lookup_dissoc_other(e: Seq<(Datum, Datum)>, k: Datum, k2: Datum)
    requires
        k2 != k,
    ensures
        lookup(dissoc_entry(e, k), k2) == lookup(e, k2),
{
    lemma_first_key_index(e, k);
    lemma_first_key_index(e, k2);
    let i = first_key_index(e, k);
    let j = first_key_index(e, k2);
    if i >= 0 {
        let e2 = e.remove(i);
        if j < 0 {
            assert forall|x: int| 0 <= x < e2.len() implies e2[x].0 != k2 by {
                if x < i {
                    assert(e2[x] == e[x]);
                } else {
                    assert(e2[x] == e[x + 1]);
                }
            }
            lemma_first_key_index_is(e2, k2, -1);
        } else if j < i {
            assert forall|x: int| 0 <= x < e2.len() && x < j implies e2[x].0 != k2 by {
                assert(e2[x] == e[x]);
            }
            assert(e2[j] == e[j]);
            lemma_first_key_index_is(e2, k2, j);
        } else {
            assert(j != i);
            assert forall|x: int| 0 <= x < e2.len() && x < j - 1 implies e2[x].0 != k2 by {
                if x < i {
                    assert(e2[x] == e[x]);
                } else {
                    assert(e2[x] == e[x + 1]);
                }
            }
            assert(e2[j - 1] == e[j]);
            lemma_first_key_index_is(e2, k2, j - 1);
        }
    }
}

/// Removing keys keeps the keys of a map distinct.
pub proof fn lemma_dissoc_keeps_keys_unique(e: Seq<(Datum, Datum)>, k: Datum)
    requires
        keys_unique(e),
    ensures
        keys_unique(dissoc_entry(e, k)),
{
    lemma_first_key_index(e, k);
    let i = first_key_index(e, k);
    if i >= 0 {
        let e2 = e.remove(i);
        assert forall|a: int, b: int| 0 <= a < b < e2.len() implies e2[a].0 != e2[b].0 by {
            let a1 = if a < i { a } else { a + 1 };
            let b1 = if b < i { b } else { b + 1 };
            assert(e2[a] == e[a1]);
            assert(e2[b] == e[b1]);
        }
    }
}

/// The path of `assoc-in` runs through maps, `nil`s and vectors indexed
/// within their bounds, so that the value lands at the end of the path.
pub open spec fn assoc_in_reaches(m: Datum, ks: Seq<Datum>) -> bool
    decreases ks.len(),
{
    if ks.len() == 0 {
        true
    } else {
        let k = ks[0];
        let rest = ks.subrange(1, ks.len() as int);
        match m {
            Datum::Nil(_) => assoc_in_reaches(Datum::HashMap(Seq::empty(), None), rest),
            Datum::HashMap(e, _) => assoc_in_reaches(lookup_or_nil(e, k), rest),
            Datum::Vector(s, _) => match k {
                Datum::Integer(i) => 0 <= i < s.len() && assoc_in_reaches(s[i as int], rest),
                _ => false,
            },
            _ => false,
        }
    }
}

/// What `assoc-in` writes along a path, `get-in` reads back along the same
/// path, and every step of that read is defined.
pub proof fn lemma_get_in_assoc_in(m: Datum, ks: Seq<Datum>, v: Datum)
    requires
        ks.len() > 0,
        assoc_in_reaches(m, ks),
    ensures
        get_in_spec(assoc_in_path(m, ks, v), ks) == v,
        get_in_ok(assoc_in_path(m, ks, v), ks),
        !(assoc_in_path(m, ks, v) is Nil),
    decreases ks.len(),
{
    let k = ks[0];
    let rest = ks.subrange(1, ks.len() as int);
    let r = assoc_in_path(m, ks, v);
    let nested = match m {
        Datum::Nil(_) => assoc_in_path(Datum::HashMap(Seq::empty(), None), rest, v),
        Datum::HashMap(e, _) => assoc_in_path(lookup_or_nil(e, k), rest, v),
        Datum::Vector(s, _) => match k {
            Datum::Integer(i) => assoc_in_path(s[i as int], rest, v),
            _ => v,
        },
        _ => v,
    };
    match m {
        Datum::Nil(_) => {
            let e1: Seq<(Datum, Datum)> = seq![(k, nested)];
            lemma_first_key_index_is(e1, k, 0);
        },
        Datum::HashMap(e, _) => {
            lemma_lookup_assoc_same(e, k, nested);
        },
        _ => {},
    }
    assert(get_spec(r, k, Datum::Nil(None)) == nested);
    assert(get_ok(r, k));
    if rest.len() > 0 {
        match m {
            Datum::Nil(_) => lemma_get_in_assoc_in(Datum::HashMap(Seq::empty(), None), rest, v),
            Datum::HashMap(e, _) => lemma_get_in_assoc_in(lookup_or_nil(e, k), rest, v),
            Datum::Vector(s, _) => match k {
                Datum::Integer(i) => lemma_get_in_assoc_in(s[i as int], rest, v),
                _ => {},
            },
            _ => {},
        }
    } else {
        assert(nested == v);
        assert(get_in_ok(nested, rest));
    }
    assert(!(r is Nil));
}


// ---------------------------------------------------------------------------
// Inspection and construction
// ---------------------------------------------------------------------------

/// A collection: list, vector, set or map.
pub open spec fn is_collection(m: Datum) -> bool {
    m is List || m is Vector || m is HashSet || m is HashMap
}

/// The spec of `(count coll)`.
pub open spec fn count_spec(m: Datum) -> Datum {
    match m {
        Datum::List(s) => Datum::Integer(s.len() as i64),
        Datum::Vector(s, _) => Datum::Integer(s.len() as i64),
        Datum::HashSet(s) => Datum::Integer(s.len() as i64),
        Datum::HashMap(e, _) => Datum::Integer(e.len() as i64),
        _ => Datum::Nil(None),
    }
}

/// The count of every collection is its number of elements, or of entries
/// for a map, whatever its metadata.
pub proof fn lemma_count_is_length(s: Seq<Datum>, e: Seq<(Datum, Datum)>, meta: Option<Seq<(Datum, Datum)>>)
    ensures
        count_spec(Datum::List(s)) == Datum::Integer(s.len() as i64),
        count_spec(Datum::Vector(s, meta)) == Datum::Integer(s.len() as i64),
        count_spec(Datum::HashSet(s)) == Datum::Integer(s.len() as i64),
        count_spec(Datum::HashMap(e, meta)) == Datum::Integer(e.len() as i64),
{
}

/// `(count coll)`.
pub fn count(m: &Value) -> (r: Value)
    requires
        is_collection(m@),
    ensures
        r@ == count_spec(m@),
        m@ matches Datum::List(s) ==> r@ == Datum::Integer(s.len() as i64),
        m@ matches Datum::Vector(s, _) ==> r@ == Datum::Integer(s.len() as i64),
        m@ matches Datum::HashSet(s) ==> r@ == Datum::Integer(s.len() as i64),
        m@ matches Datum::HashMap(e, _) ==> r@ == Datum::Integer(e.len() as i64),
{
    match m {
        Value::List(s) => {
            proof { lemma_data_of(s@); }
            Value::Integer(s.len() as i64)
        },
        Value::Vector(s, _) => {
            proof { lemma_data_of(s@); }
            Value::Integer(s.len() as i64)
        },
        Value::HashSet(s) => {
            proof { lemma_data_of(s@); }
            Value::Integer(s.len() as i64)
        },
        Value::HashMap(e, _) => {
            proof { lemma_entries_of(e@); }
            Value::Integer(e.len() as i64)
        },
        _ => Value::Nil(None),
    }
}

/// The element at `i` of a sequence, or `nil`.
pub open spec fn nth_or_nil(s: Seq<Datum>, i: int) -> Datum {
    if 0 <= i < s.len() {
        s[i]
    } else {
        Datum::Nil(None)
    }
}

/// The element at position `pos(len)` of a list or vector; `nil` for
/// anything else or a position out of range.
pub open spec fn element_spec(m: Datum, i: int) -> Datum {
    match m {
        Datum::List(s) => nth_or_nil(s, i),
        Datum::Vector(s, _) => nth_or_nil(s, i),
        _ => Datum::Nil(None),
    }
}

/// The number of elements of a list or vector; 0 for anything else.
pub open spec fn seq_len(m: Datum) -> int {
    match m {
        Datum::List(s) => s.len() as int,
        Datum::Vector(s, _) => s.len() as int,
        _ => 0,
    }
}

fn element_at(m: &Value, from_end: bool, offset: usize) -> (r: Value)
    ensures
        r@ == element_spec(m@, if from_end { seq_len(m@) - 1 - offset } else { offset as int }),
{
    let items = match m {
        Value::List(s) => s,
        Value::Vector(s, _) => s,
        _ => { return Value::Nil(None); },
    };
    proof { lemma_data_of(items@); }
    if offset >= items.len() {
        return Value::Nil(None);
    }
    let i = if from_end { items.len() - 1 - offset } else { offset };
    items[i].deep_clone()
}

/// `(first coll)`.
pub fn first(m: &Value) -> (r: Value)
    ensures
        r@ == element_spec(m@, 0),
        m@ matches Datum::List(s) ==> (s.len() > 0 ==> r@ == s[0]) && (s.len() == 0 ==> r@ == Datum::Nil(None)),
        m@ matches Datum::Vector(s, _) ==> (s.len() > 0 ==> r@ == s[0]) && (s.len() == 0 ==> r@ == Datum::Nil(
            None,
        )),
        !(m@ is List || m@ is Vector) ==> r@ == Datum::Nil(None),
{
    element_at(m, false, 0)
}

/// `(second coll)`.
pub fn second(m: &Value) -> (r: Value)
    ensures
        r@ == element_spec(m@, 1),
        m@ matches Datum::List(s) ==> (s.len() > 1 ==> r@ == s[1]) && (s.len() <= 1 ==> r@ == Datum::Nil(None)),
        m@ matches Datum::Vector(s, _) ==> (s.len() > 1 ==> r@ == s[1]) && (s.len() <= 1 ==> r@ == Datum::Nil(
            None,
        )),
        !(m@ is List || m@ is Vector) ==> r@ == Datum::Nil(None),
{
    element_at(m, false, 1)
}

/// `(last coll)`.
pub fn last(m: &Value) -> (r: Value)
    ensures
        r@ == element_spec(m@, seq_len(m@) - 1),
        m@ matches Datum::List(s) ==> (s.len() > 0 ==> r@ == s.last()) && (s.len() == 0 ==> r@ == Datum::Nil(None)),
        m@ matches Datum::Vector(s, _) ==> (s.len() > 0 ==> r@ == s.last()) && (s.len() == 0 ==> r@ == Datum::Nil(
            None,
        )),
        !(m@ is List || m@ is Vector) ==> r@ == Datum::Nil(None),
{
    element_at(m, true, 0)
}

/// The keys of a map, in entry order.
pub open spec fn keys_of(e: Seq<(Datum, Datum)>) -> Seq<Datum> {
    e.map_values(|p: (Datum, Datum)| p.0)
}

/// The values of a map, in entry order.
pub open spec fn vals_of(e: Seq<(Datum, Datum)>) -> Seq<Datum> {
    e.map_values(|p: (Datum, Datum)| p.1)
}

fn map_column(entries: &Vec<(Value, Value)>, want_keys: bool) -> (r: Vec<Value>)
    ensures
        data_of(r@) == if want_keys {
            keys_of(entries_of(entries@))
        } else {
            vals_of(entries_of(entries@))
        },
{
    proof { lemma_entries_of(entries@); }
    let ghost e = entries_of(entries@);
    let mut r: Vec<Value> = Vec::new();
    let mut i: usize = 0;
    while i < entries.len()
        invariant
            0 <= i <= entries.len(),
            r.len() == i,
            e == entries_of(entries@),
            e.len() == entries.len(),
            forall|j: int|
                0 <= j < entries.len() ==> #[trigger] e[j] == (
                    datum_of(entries@[j].0),
                    datum_of(entries@[j].1),
                ),
            forall|j: int|
                0 <= j < i ==> datum_of(#[trigger] r@[j]) == if want_keys {
                    e[j].0
                } else {
                    e[j].1
                },
        decreases entries.len() - i,
    {
        let x = if want_keys { entries[i].0.deep_clone() } else { entries[i].1.deep_clone() };
        r.push(x);
        i += 1;
    }
    proof { lemma_data_of(r@); }
    if want_keys {
        assert(data_of(r@) =~= keys_of(e));
    } else {
        assert(data_of(r@) =~= vals_of(e));
    }
    r
}

/// `(keys m)`: the keys of a map as a list.
pub fn keys(m: &Value) -> (r: Value)
    requires
        m@ is HashMap,
    ensures
        r@ == Datum::List(keys_of(m@->HashMap_0)),
        r@ is List && r@->List_0.len() == m@->HashMap_0.len(),
        forall|i: int| 0 <= i < m@->HashMap_0.len() ==> r@->List_0[i] == (#[trigger] m@->HashMap_0[i]).0,
{
    match m {
        Value::HashMap(e, _) => Value::List(map_column(e, true)),
        _ => Value::Nil(None),
    }
}

/// `(vals m)`: the values of a map as a list.
pub fn vals(m: &Value) -> (r: Value)
    requires
        m@ is HashMap,
    ensures
        r@ == Datum::List(vals_of(m@->HashMap_0)),
        r@ is List && r@->List_0.len() == m@->HashMap_0.len(),
        forall|i: int| 0 <= i < m@->HashMap_0.len() ==> r@->List_0[i] == (#[trigger] m@->HashMap_0[i]).1,
{
    match m {
        Value::HashMap(e, _) => Value::List(map_column(e, false)),
        _ => Value::Nil(None),
    }
}

/// `(list & xs)`.
pub fn list(args: &Vec<PtrValue>) -> (r: Value)
    ensures
        r@ == Datum::List(arg_data(args@)),
{
    let mut items: Vec<Value> = Vec::new();
    let mut i: usize = 0;
    while i < args.len()
        invariant
            0 <= i <= args.len(),
            items.len() == i,
            forall|j: int| 0 <= j < i ==> datum_of(#[trigger] items@[j]) == args@[j]@,
        decreases args.len() - i,
    {
        items.push(args[i].deep_clone());
        i += 1;
    }
    proof { lemma_data_of(items@); }
    assert(data_of(items@) =~= arg_data(args@));
    Value::List(items)
}

/// `(symbol name)` and `(symbol ns name)`: the arguments are strings.
pub fn symbol(args: &Vec<PtrValue>) -> (r: Value)
    requires
        args.len() == 1 || args.len() == 2,
        forall|i: int| 0 <= i < args.len() ==> (#[trigger] args@[i])@ is Str,
    ensures
        r@ == if args.len() == 1 {
            Datum::Symbol(None, args@[0]@->Str_0)
        } else {
            Datum::Symbol(Some(args@[0]@->Str_0), args@[1]@->Str_0)
        },
{
    assert(args@[0]@ is Str);
    if args.len() == 1 {
        match &*args[0] {
            Value::String(name) => Value::Symbol(None, name.clone()),
            _ => Value::Nil(None),
        }
    } else {
        assert(args@[1]@ is Str);
        match (&*args[0], &*args[1]) {
            (Value::String(ns), Value::String(name)) => Value::Symbol(Some(ns.clone()), name.clone()),
            _ => Value::Nil(None),
        }
    }
}

// ---------------------------------------------------------------------------
// Integer arithmetic
// ---------------------------------------------------------------------------

/// The integer of an integer datum.
pub open spec fn int_of(d: Datum) -> int {
    match d {
        Datum::Integer(i) => i as int,
        _ => 0,
    }
}

/// The sum of the integers of `s`.
pub open spec fn int_sum(s: Seq<Datum>) -> int
    decreases s.len(),
{
    if s.len() == 0 {
        0
    } else {
        int_sum(s.drop_last()) + int_of(s.last())
    }
}

/// Every datum of `s` is an integer.
pub open spec fn all_integers(s: Seq<Datum>) -> bool {
    forall|i: int| 0 <= i < s.len() ==> (#[trigger] s[i]) is Integer
}

/// `x` fits in an `i64`.
pub open spec fn fits_i64(x: int) -> bool {
    i64::MIN <= x <= i64::MAX
}

/// `base` plus, or minus, `sum`.
pub open spec fn offset_by(base: int, negate: bool, sum: int) -> int {
    if negate {
        base - sum
    } else {
        base + sum
    }
}

/// Every running total of `base` plus (or minus) `s[0]`, ..., `s[j]` fits in
/// an `i64`.
pub open spec fn running_sums_fit(base: int, negate: bool, s: Seq<Datum>) -> bool {
    forall|j: int| 0 <= j <= s.len() ==> #[trigger] fits_i64(offset_by(base, negate, int_sum(s.take(j))))
}

fn accumulate(base: i64, negate: bool, args: &Vec<PtrValue>, from: usize) -> (r: i64)
    requires
        from <= args.len(),
        all_integers(arg_data(args@)),
        running_sums_fit(base as int, negate, arg_data(args@).skip(from as int)),
    ensures
        r == offset_by(base as int, negate, int_sum(arg_data(args@).skip(from as int))),
{
    let ghost a = arg_data(args@);
    let ghost s = a.skip(from as int);
    let mut x: i64 = base;
    let mut i: usize = from;
    assert(s.take(0) =~= Seq::<Datum>::empty());
    while i < args.len()
        invariant
            from <= i <= args.len(),
            a == arg_data(args@),
            s == a.skip(from as int),
            all_integers(a),
            running_sums_fit(base as int, negate, s),
            x == offset_by(base as int, negate, int_sum(s.take(i - from))),
        decreases args.len() - i,
    {
        assert(a[i as int] == args@[i as int]@);
        assert(a[i as int] is Integer);
        let n: i64 = match &*args[i] {
            Value::Integer(n) => *n,
            _ => 0,
        };
        assert(s.take(i - from + 1).drop_last() =~= s.take(i - from));
        assert(s.take(i - from + 1).last() == a[i as int]);
        assert(s[i - from] == a[i as int]);
        assert(int_sum(s.take(i - from + 1)) == int_sum(s.take(i - from)) + n);
        assert(fits_i64(offset_by(base as int, negate, int_sum(s.take(i - from + 1)))));
        if negate {
            x = x - n;
        } else {
            x = x + n;
        }
        i += 1;
    }
    assert(s.take(args.len() - from) =~= s);
    x
}

/// `(+ & xs)` on integers: their sum, `0` for no arguments.
pub fn add(args: &Vec<PtrValue>) -> (r: Value)
    requires
        all_integers(arg_data(args@)),
        running_sums_fit(0, false, arg_data(args@)),
    ensures
        r@ == Datum::Integer(int_sum(arg_data(args@)) as i64),
{
    assert(arg_data(args@).skip(0) =~= arg_data(args@));
    let x = accumulate(0, false, args, 0);
    Value::Integer(x)
}

/// `(- x)` on an integer is its negation; `(- x y & more)` subtracts the
/// others from the first.
pub open spec fn subtract_spec(a: Seq<Datum>) -> int {
    if a.len() == 1 {
        0 - int_of(a[0])
    } else {
        int_of(a[0]) - int_sum(a.skip(1))
    }
}

/// The sum of no integers is 0, and adding one more integer adds it to the
/// sum; `(- x)` negates `x`, and `(- x y ...)` takes the sum of the rest
/// from `x`.
pub proof fn lemma_sum_and_difference(s: Seq<Datum>, x: Datum, rest: Seq<Datum>)
    requires
        rest.len() > 0,
    ensures
        int_sum(Seq::<Datum>::empty()) == 0,
        int_sum(s.push(x)) == int_sum(s) + int_of(x),
        subtract_spec(seq![x]) == -int_of(x),
        subtract_spec(seq![x] + rest) == int_of(x) - int_sum(rest),
{
    assert(s.push(x).drop_last() =~= s);
    assert((seq![x] + rest).skip(1) =~= rest);
}

/// `(- x & xs)` on integers.
pub fn subtract(args: &Vec<PtrValue>) -> (r: Value)
    requires
        args.len() >= 1,
        all_integers(arg_data(args@)),
        args.len() == 1 ==> running_sums_fit(0, true, arg_data(args@)),
        args.len() >= 2 ==> running_sums_fit(int_of(arg_data(args@)[0]), true, arg_data(args@).skip(1)),
    ensures
        r@ == Datum::Integer(subtract_spec(arg_data(args@)) as i64),
{
    let ghost a = arg_data(args@);
    if args.len() == 1 {
        assert(a.skip(0) =~= a);
        let x = accumulate(0, true, args, 0);
        assert(a.drop_last() =~= Seq::<Datum>::empty());
        assert(int_sum(a) == int_sum(a.drop_last()) + int_of(a.last()));
        Value::Integer(x)
    } else {
        assert(a[0] == args@[0]@);
        let first_n: i64 = match &*args[0] {
            Value::Integer(n) => *n,
            _ => 0,
        };
        let x = accumulate(first_n, true, args, 1);
        Value::Integer(x)
    }
}


// ---------------------------------------------------------------------------
// map
// ---------------------------------------------------------------------------

/// The collection that `(map f coll)` builds: a list, vector or set gives
/// one of its kind, and a map gives a vector.
pub open spec fn mapped_kind(coll: Datum, out: Seq<Datum>) -> Datum {
    match coll {
        Datum::List(_) => Datum::List(out),
        Datum::Vector(_, _) => Datum::Vector(out, None),
        Datum::HashSet(_) => Datum::HashSet(without_repeats(out)),
        _ => Datum::Vector(out, None),
    }
}

/// `s` with every element after its first occurrence left out.
pub open spec fn without_repeats(s: Seq<Datum>) -> Seq<Datum>
    decreases s.len(),
{
    if s.len() == 0 {
        s
    } else {
        let kept = without_repeats(s.drop_last());
        if kept.contains(s.last()) {
            kept
        } else {
            kept.push(s.last())
        }
    }
}

fn contains_value(items: &Vec<Value>, x: &Value) -> (r: bool)
    ensures
        r == data_of(items@).contains(x@),
{
    proof {
        lemma_data_of(items@);
    }
    let mut i: usize = 0;
    while i < items.len()
        invariant
            0 <= i <= items.len(),
            data_of(items@).len() == items.len(),
            forall|j: int| 0 <= j < items.len() ==> #[trigger] data_of(items@)[j] == datum_of(items@[j]),
            forall|j: int| 0 <= j < i ==> data_of(items@)[j] != x@,
        decreases items.len() - i,
    {
        if items[i].equals(x) {
            assert(data_of(items@)[i as int] == x@);
            return true;
        }
        i += 1;
    }
    false
}

fn without_repeated_values(items: Vec<Value>) -> (r: Vec<Value>)
    ensures
        data_of(r@) == without_repeats(data_of(items@)),
{
    let ghost d = data_of(items@);
    proof {
        lemma_data_of(items@);
    }
    let mut kept: Vec<Value> = Vec::new();
    let mut i: usize = 0;
    assert(d.take(0) =~= Seq::<Datum>::empty());
    assert(data_of(kept@) =~= Seq::<Datum>::empty());
    while i < items.len()
        invariant
            0 <= i <= items.len(),
            d == data_of(items@),
            d.len() == items.len(),
            forall|j: int| 0 <= j < items.len() ==> #[trigger] d[j] == datum_of(items@[j]),
            data_of(kept@) == without_repeats(d.take(i as int)),
        decreases items.len() - i,
    {
        assert(d.take(i + 1).drop_last() =~= d.take(i as int));
        assert(d.take(i + 1).last() == d[i as int]);
        if !contains_value(&kept, &items[i]) {
            let ghost before = kept@;
            kept.push(items[i].deep_clone());
            proof {
                lemma_data_of(before);
                lemma_data_of(kept@);
                assert(data_of(kept@) =~= data_of(before).push(d[i as int]));
            }
        }
        i += 1;
    }
    assert(d.take(items.len() as int) =~= d);
    kept
}

/// The inputs that `(map f coll)` hands to `f`, in order: the elements of a
/// list, vector or set, and `[k v]` for each entry of a map.
pub open spec fn map_inputs(coll: Datum) -> Seq<Datum> {
    match coll {
        Datum::List(s) => s,
        Datum::Vector(s, _) => s,
        Datum::HashSet(s) => s,
        Datum::HashMap(e, _) => e.map_values(|p: (Datum, Datum)| Datum::Vector(seq![p.0, p.1], None)),
        _ => Seq::empty(),
    }
}

fn map_input(coll: &Value, i: usize) -> (r: PtrValue)
    requires
        is_collection(coll@),
        i < map_inputs(coll@).len(),
    ensures
        r@ == map_inputs(coll@)[i as int],
{
    match coll {
        Value::List(s) => {
            proof { lemma_data_of(s@); }
            Arc::new(s[i].deep_clone())
        },
        Value::Vector(s, _) => {
            proof { lemma_data_of(s@); }
            Arc::new(s[i].deep_clone())
        },
        Value::HashSet(s) => {
            proof { lemma_data_of(s@); }
            Arc::new(s[i].deep_clone())
        },
        Value::HashMap(e, _) => {
            proof { lemma_entries_of(e@); }
            let mut pair: Vec<Value> = Vec::new();
            pair.push(e[i].0.deep_clone());
            pair.push(e[i].1.deep_clone());
            proof {
                lemma_data_of(pair@);
                assert(data_of(pair@) =~= seq![datum_of(e@[i as int].0), datum_of(e@[i as int].1)]);
            }
            Arc::new(Value::Vector(pair, None))
        },
        _ => Arc::new(Value::Nil(None)),
    }
}

fn map_input_count(coll: &Value) -> (r: usize)
    requires
        is_collection(coll@),
    ensures
        r == map_inputs(coll@).len(),
{
    match coll {
        Value::List(s) => {
            proof { lemma_data_of(s@); }
            s.len()
        },
        Value::Vector(s, _) => {
            proof { lemma_data_of(s@); }
            s.len()
        },
        Value::HashSet(s) => {
            proof { lemma_data_of(s@); }
            s.len()
        },
        Value::HashMap(e, _) => {
            proof { lemma_entries_of(e@); }
            e.len()
        },
        _ => 0,
    }
}

/// `r` is what `f` gave, in order, for the inputs `ins` of `coll`.
pub open spec fn mapped_by<F: Fn(PtrValue) -> PtrValue>(
    f: F,
    coll: Datum,
    ins: Seq<PtrValue>,
    outs: Seq<PtrValue>,
    r: Datum,
) -> bool {
    &&& ins.len() == map_inputs(coll).len()
    &&& outs.len() == ins.len()
    &&& forall|i: int| 0 <= i < ins.len() ==> (#[trigger] ins[i])@ == map_inputs(coll)[i]
    &&& forall|i: int| 0 <= i < ins.len() ==> f.ensures((ins[i],), #[trigger] outs[i])
    &&& r == mapped_kind(coll, outs.map_values(|o: PtrValue| o@))
}

/// `(map f coll)`: `f` applied to each input of `coll` in order, collected
/// into a collection of the same kind (a vector for a map; a set holds each
/// result once).
pub fn map<F: Fn(PtrValue) -> PtrValue>(f: F, coll: &Value) -> (r: Value)
    requires
        is_collection(coll@),
        forall|x: PtrValue| f.requires((x,)),
    ensures
        exists|ins: Seq<PtrValue>, outs: Seq<PtrValue>| #[trigger] mapped_by(f, coll@, ins, outs, r@),
{
    let n = map_input_count(coll);
    let mut out: Vec<Value> = Vec::new();
    let ghost mut ins: Seq<PtrValue> = Seq::empty();
    let ghost mut outs: Seq<PtrValue> = Seq::empty();
    let mut i: usize = 0;
    while i < n
        invariant
            0 <= i <= n,
            n == map_inputs(coll@).len(),
            is_collection(coll@),
            forall|x: PtrValue| f.requires((x,)),
            ins.len() == i,
            outs.len() == i,
            out.len() == i,
            forall|j: int| 0 <= j < i ==> (#[trigger] ins[j])@ == map_inputs(coll@)[j],
            forall|j: int| 0 <= j < i ==> f.ensures((ins[j],), #[trigger] outs[j]),
            forall|j: int| 0 <= j < i ==> datum_of(#[trigger] out@[j]) == outs[j]@,
        decreases n - i,
    {
        let x = map_input(coll, i);
        let ghost gx = x;
        let y = f(x);
        proof {
            ins = ins.push(gx);
            outs = outs.push(y);
        }
        out.push(y.deep_clone());
        i += 1;
    }
    proof {
        lemma_data_of(out@);
        assert(data_of(out@) =~= outs.map_values(|o: PtrValue| o@));
    }
    let r = match coll {
        Value::List(_) => Value::List(out),
        Value::Vector(_, _) => Value::Vector(out, None),
        Value::HashSet(_) => Value::HashSet(without_repeated_values(out)),
        _ => Value::Vector(out, None),
    };
    assert(mapped_by(f, coll@, ins, outs, r@));
    r
}


// ---------------------------------------------------------------------------
// Definedness tests
// ---------------------------------------------------------------------------

/// Whether `(get-in m ks)` is defined.
pub fn get_in_defined(m: &Value, ks: &Value) -> (r: bool)
    ensures
        r == ((!(m@ is Nil) ==> ks@ is Vector) && (ks@ matches Datum::Vector(keys, _) ==> get_in_ok(m@, keys))),
{
    if let Value::Nil(_) = m {
        return true;
    }
    let keys = match ks {
        Value::Vector(keys, _) => keys,
        _ => { return false; },
    };
    proof {
        lemma_data_of(keys@);
    }
    let ghost kd = data_of(keys@);
    let mut cur = m.deep_clone();
    let mut i: usize = 0;
    assert(kd.subrange(0, kd.len() as int) =~= kd);
    while i < keys.len()
        invariant
            0 <= i <= keys.len(),
            kd == data_of(keys@),
            ks@ is Vector && ks@->Vector_0 == kd,
            !(m@ is Nil),
            kd.len() == keys.len(),
            forall|j: int| 0 <= j < keys.len() ==> #[trigger] kd[j] == datum_of(keys@[j]),
            get_in_ok(m@, kd) == get_in_ok(cur@, kd.subrange(i as int, kd.len() as int)),
        decreases keys.len() - i,
    {
        let ghost rest = kd.subrange(i as int, kd.len() as int);
        assert(rest[0] == kd[i as int]);
        assert(rest.subrange(1, rest.len() as int) =~= kd.subrange(i + 1, kd.len() as int));
        if let Value::Nil(_) = cur {
            return true;
        }
        let vector_key_ok = match (&cur, &keys[i]) {
            (Value::Vector(_, _), Value::Integer(_)) => true,
            (Value::Vector(_, _), _) => false,
            _ => true,
        };
        if !vector_key_ok {
            return false;
        }
        cur = get(&cur, &keys[i]);
        i += 1;
    }
    true
}

/// Whether `(assoc-in m ks v)` is defined.
pub fn assoc_in_defined(m: &Value, ks: &Value) -> (r: bool)
    ensures
        r == assoc_in_ok(m@, ks@),
{
    let keys = match ks {
        Value::Vector(keys, _) => keys,
        _ => { return false; },
    };
    proof {
        lemma_data_of(keys@);
    }
    if keys.len() == 0 {
        return match m {
            Value::Vector(_, _) => false,
            _ => true,
        };
    }
    let ghost kd = data_of(keys@);
    let mut cur = m.deep_clone();
    let mut i: usize = 0;
    assert(kd.subrange(0, kd.len() as int) =~= kd);
    while i < keys.len()
        invariant
            0 <= i <= keys.len(),
            kd == data_of(keys@),
            ks@ is Vector && ks@->Vector_0 == kd,
            kd.len() == keys.len(),
            kd.len() > 0,
            forall|j: int| 0 <= j < keys.len() ==> #[trigger] kd[j] == datum_of(keys@[j]),
            assoc_in_path_ok(m@, kd) == assoc_in_path_ok(cur@, kd.subrange(i as int, kd.len() as int)),
        decreases keys.len() - i,
    {
        let ghost rest = kd.subrange(i as int, kd.len() as int);
        assert(rest[0] == kd[i as int]);
        assert(rest.subrange(1, rest.len() as int) =~= kd.subrange(i + 1, kd.len() as int));
        let next = match &cur {
            Value::Nil(_) => Value::HashMap(Vec::new(), None),
            Value::HashMap(entries, _) => {
                proof {
                    lemma_entries_of(entries@);
                }
                match position_of_key(entries, &keys[i]) {
                    Some(p) => entries[p].1.deep_clone(),
                    None => Value::Nil(None),
                }
            },
            Value::Vector(items, _) => {
                proof {
                    lemma_data_of(items@);
                }
                match &keys[i] {
                    Value::Integer(k) => {
                        if *k < 0 || *k as u64 >= items.len() as u64 {
                            return false;
                        }
                        items[*k as usize].deep_clone()
                    },
                    _ => { return false; },
                }
            },
            _ => { return true; },
        };
        proof {
            assert(!(cur@ is Nil) ==> next@ == match cur@ {
                Datum::HashMap(e, _) => lookup_or_nil(e, kd[i as int]),
                _ => next@,
            });
            if cur@ is Nil {
                assert(next@ =~= Datum::HashMap(Seq::empty(), None));
            }
        }
        cur = next;
        i += 1;
    }
    assert(kd.subrange(i as int, kd.len() as int).len() == 0);
    true
}

fn running_totals_fit(args: &Vec<PtrValue>, base: i64, negate: bool, from: usize) -> (r: bool)
    requires
        from <= args.len(),
        all_integers(arg_data(args@)),
    ensures
        r == running_sums_fit(base as int, negate, arg_data(args@).skip(from as int)),
{
    let ghost a = arg_data(args@);
    let ghost s = a.skip(from as int);
    let mut x: i64 = base;
    let mut i: usize = from;
    assert(s.take(0) =~= Seq::<Datum>::empty());
    while i < args.len()
        invariant
            from <= i <= args.len(),
            a == arg_data(args@),
            s == a.skip(from as int),
            all_integers(a),
            x == offset_by(base as int, negate, int_sum(s.take(i - from))),
            forall|j: int| 0 <= j <= i - from ==> #[trigger] fits_i64(offset_by(base as int, negate, int_sum(s.take(j)))),
        decreases args.len() - i,
    {
        assert(a[i as int] == args@[i as int]@);
        let n: i64 = match &*args[i] {
            Value::Integer(n) => *n,
            _ => 0,
        };
        assert(s.take(i - from + 1).drop_last() =~= s.take(i - from));
        assert(s[i - from] == a[i as int]);
        assert(int_sum(s.take(i - from + 1)) == int_sum(s.take(i - from)) + n);
        let next = if negate { x.checked_sub(n) } else { x.checked_add(n) };
        match next {
            Some(y) => { x = y; },
            None => {
                assert(!fits_i64(offset_by(base as int, negate, int_sum(s.take(i - from + 1)))));
                return false;
            },
        }
        i += 1;
    }
    assert(s.take(args.len() - from) =~= s);
    true
}

fn integers_only(args: &Vec<PtrValue>) -> (r: bool)
    ensures
        r == all_integers(arg_data(args@)),
{
    let mut i: usize = 0;
    while i < args.len()
        invariant
            0 <= i <= args.len(),
            forall|j: int| 0 <= j < i ==> (#[trigger] arg_data(args@)[j]) is Integer,
        decreases args.len() - i,
    {
        match &*args[i] {
            Value::Integer(_) => {},
            _ => {
                assert(arg_data(args@)[i as int] == args@[i as int]@);
                return false;
            },
        }
        assert(arg_data(args@)[i as int] == args@[i as int]@);
        i += 1;
    }
    true
}

/// Whether `(+ & xs)` is defined on integers: every argument is an integer
/// and every running total fits.
pub fn add_defined(args: &Vec<PtrValue>) -> (r: bool)
    ensures
        r == (all_integers(arg_data(args@)) && running_sums_fit(0, false, arg_data(args@))),
{
    if !integers_only(args) {
        return false;
    }
    assert(arg_data(args@).skip(0) =~= arg_data(args@));
    running_totals_fit(args, 0, false, 0)
}

/// Whether `(- x & xs)` is defined on integers.
pub fn subtract_defined(args: &Vec<PtrValue>) -> (r: bool)
    ensures
        r == (args.len() >= 1 && all_integers(arg_data(args@)) && (args.len() == 1 ==> running_sums_fit(
            0,
            true,
            arg_data(args@),
        )) && (args.len() >= 2 ==> running_sums_fit(
            int_of(arg_data(args@)[0]),
            true,
            arg_data(args@).skip(1),
        ))),
{
    if args.len() == 0 || !integers_only(args) {
        return false;
    }
    if args.len() == 1 {
        assert(arg_data(args@).skip(0) =~= arg_data(args@));
        running_totals_fit(args, 0, true, 0)
    } else {
        assert(arg_data(args@)[0] == args@[0]@);
        let first_n: i64 = match &*args[0] {
            Value::Integer(n) => *n,
            _ => 0,
        };
        running_totals_fit(args, first_n, true, 1)
    }
}

} // verus!
