//! Script values: the data that commands, templates and the Clojure core
//! functions read and build.
//!
//! `Value` is the executable representation; `Datum` is its mathematical
//! shape, obtained through `view`. Two values are the same script value
//! exactly when their views are equal, metadata included.
use std::sync::Arc;
use vstd::prelude::*;

verus! {

broadcast use vstd::std_specs::vec::axiom_vec_index_decreases, vstd::std_specs::vec::axiom_vec_decreases_to_view, vstd::seq::axiom_seq_index_decreases;

/// The mathematical shape of a script value.
pub enum Datum {
    Nil(Option<Seq<(Datum, Datum)>>),
    Boolean(bool),
    Integer(i64),
    Str(Seq<char>),
    Keyword(Option<Seq<char>>, Seq<char>),
    Symbol(Option<Seq<char>>, Seq<char>),
    List(Seq<Datum>),
    Vector(Seq<Datum>, Option<Seq<(Datum, Datum)>>),
    HashSet(Seq<Datum>),
    HashMap(Seq<(Datum, Datum)>, Option<Seq<(Datum, Datum)>>),
    Opaque(u64),
}

/// A script value.
///
/// `Keyword` and `Symbol` carry an optional namespace and a name. A map is a
/// sequence of entries; the maps this library builds never hold one key
/// twice. `Opaque` stands for a value that the library only carries along
/// (a function, a var, a namespace, a promise handle, a float), named by a
/// number that its owner hands out.
#[derive(Debug)]
pub enum Value {
    Nil(Option<Vec<(Value, Value)>>),
    Boolean(bool),
    Integer(i64),
    String(String),
    Keyword(Option<String>, String),
    Symbol(Option<String>, String),
    List(Vec<Value>),
    Vector(Vec<Value>, Option<Vec<(Value, Value)>>),
    HashSet(Vec<Value>),
    HashMap(Vec<(Value, Value)>, Option<Vec<(Value, Value)>>),
    Opaque(u64),
}

/// A shared, immutable script value.
pub type PtrValue = Arc<Value>;

/// The text of an optional namespace.
pub open spec fn opt_text(o: Option<String>) -> Option<Seq<char>> {
    match o {
        Some(s) => Some(s@),
        None => None,
    }
}

/// The shape of a value.
pub open spec fn datum_of(v: Value) -> Datum
    decreases v,
{
    match v {
        Value::Nil(None) => Datum::Nil(None),
        Value::Nil(Some(meta)) => Datum::Nil(Some(entries_of(meta@))),
        Value::Boolean(b) => Datum::Boolean(b),
        Value::Integer(i) => Datum::Integer(i),
        Value::String(s) => Datum::Str(s@),
        Value::Keyword(ns, n) => Datum::Keyword(opt_text(ns), n@),
        Value::Symbol(ns, n) => Datum::Symbol(opt_text(ns), n@),
        Value::List(l) => Datum::List(data_of(l@)),
        Value::Vector(l, None) => Datum::Vector(data_of(l@), None),
        Value::Vector(l, Some(meta)) => Datum::Vector(data_of(l@), Some(entries_of(meta@))),
        Value::HashSet(l) => Datum::HashSet(data_of(l@)),
        Value::HashMap(m, None) => Datum::HashMap(entries_of(m@), None),
        Value::HashMap(m, Some(meta)) => Datum::HashMap(entries_of(m@), Some(entries_of(meta@))),
        Value::Opaque(h) => Datum::Opaque(h),
    }
}

/// The shapes of a sequence of values, in order.
pub open spec fn data_of(s: Seq<Value>) -> Seq<Datum>
    decreases s,
{
    if s.len() == 0 {
        Seq::empty()
    } else {
        data_of(s.subrange(0, s.len() - 1)).push(datum_of(s[s.len() - 1]))
    }
}

/// The shapes of a sequence of map entries, in order.
pub open spec fn entries_of(s: Seq<(Value, Value)>) -> Seq<(Datum, Datum)>
    decreases s,
{
    if s.len() == 0 {
        Seq::empty()
    } else {
        entries_of(s.subrange(0, s.len() - 1)).push(
            (datum_of(s[s.len() - 1].0), datum_of(s[s.len() - 1].1)),
        )
    }
}

impl View for Value {
    type V = Datum;

    open spec fn view(&self) -> Datum {
        datum_of(*self)
    }
}

/// `data_of` keeps the length and maps each value to its shape.
pub proof fn lemma_data_of(s: Seq<Value>)
    ensures
        data_of(s).len() == s.len(),
        forall|i: int| 0 <= i < s.len() ==> #[trigger] data_of(s)[i] == datum_of(s[i]),
    decreases s.len(),
{
    if s.len() > 0 {
        lemma_data_of(s.subrange(0, s.len() - 1));
    }
}

/// `entries_of` keeps the length and maps each entry to its shapes.
pub proof fn lemma_entries_of(s: Seq<(Value, Value)>)
    ensures
        entries_of(s).len() == s.len(),
        forall|i: int|
            0 <= i < s.len() ==> #[trigger] entries_of(s)[i] == (datum_of(s[i].0), datum_of(s[i].1)),
    decreases s.len(),
{
    if s.len() > 0 {
        lemma_entries_of(s.subrange(0, s.len() - 1));
    }
}


fn opt_text_eq(a: &Option<String>, b: &Option<String>) -> (r: bool)
    ensures
        r == (opt_text(*a) == opt_text(*b)),
{
    match (a, b) {
        (Some(x), Some(y)) => *x == *y,
        (None, None) => true,
        _ => false,
    }
}

fn opt_text_clone(a: &Option<String>) -> (r: Option<String>)
    ensures
        opt_text(r) == opt_text(*a),
{
    match a {
        Some(x) => Some(x.clone()),
        None => None,
    }
}

fn values_equal(a: &Vec<Value>, b: &Vec<Value>) -> (r: bool)
    ensures
        r == (data_of(a@) == data_of(b@)),
    decreases a, 0int,
{
    proof {
        lemma_data_of(a@);
        lemma_data_of(b@);
    }
    if a.len() != b.len() {
        return false;
    }
    let mut i: usize = 0;
    while i < a.len()
        invariant
            a.len() == b.len(),
            0 <= i <= a.len(),
            data_of(a@).len() == a@.len(),
            data_of(b@).len() == b@.len(),
            forall|j: int| 0 <= j < a.len() ==> #[trigger] data_of(a@)[j] == datum_of(a@[j]),
            forall|j: int| 0 <= j < b.len() ==> #[trigger] data_of(b@)[j] == datum_of(b@[j]),
            forall|j: int| 0 <= j < i ==> data_of(a@)[j] == data_of(b@)[j],
        decreases a.len() - i,
    {
        if !a[i].equals(&b[i]) {
            assert(data_of(a@)[i as int] != data_of(b@)[i as int]);
            return false;
        }
        i += 1;
    }
    assert(data_of(a@) =~= data_of(b@));
    true
}

fn entries_equal(a: &Vec<(Value, Value)>, b: &Vec<(Value, Value)>) -> (r: bool)
    ensures
        r == (entries_of(a@) == entries_of(b@)),
    decreases a, 0int,
{
    proof {
        lemma_entries_of(a@);
        lemma_entries_of(b@);
    }
    if a.len() != b.len() {
        return false;
    }
    let mut i: usize = 0;
    while i < a.len()
        invariant
            a.len() == b.len(),
            0 <= i <= a.len(),
            entries_of(a@).len() == a@.len(),
            entries_of(b@).len() == b@.len(),
            forall|j: int|
                0 <= j < a.len() ==> #[trigger] entries_of(a@)[j] == (
                    datum_of(a@[j].0),
                    datum_of(a@[j].1),
                ),
            forall|j: int|
                0 <= j < b.len() ==> #[trigger] entries_of(b@)[j] == (
                    datum_of(b@[j].0),
                    datum_of(b@[j].1),
                ),
            forall|j: int| 0 <= j < i ==> entries_of(a@)[j] == entries_of(b@)[j],
        decreases a.len() - i,
    {
        let same_key = a[i].0.equals(&b[i].0);
        if !same_key {
            assert(entries_of(a@)[i as int] != entries_of(b@)[i as int]);
            return false;
        }
        let same_val = a[i].1.equals(&b[i].1);
        if !same_val {
            assert(entries_of(a@)[i as int] != entries_of(b@)[i as int]);
            return false;
        }
        i += 1;
    }
    assert(entries_of(a@) =~= entries_of(b@));
    true
}

/// The shape of optional metadata.
pub open spec fn meta_of(m: Option<Vec<(Value, Value)>>) -> Option<Seq<(Datum, Datum)>> {
    match m {
        Some(e) => Some(entries_of(e@)),
        None => None,
    }
}

fn meta_equal(a: &Option<Vec<(Value, Value)>>, b: &Option<Vec<(Value, Value)>>) -> (r: bool)
    ensures
        r == (meta_of(*a) == meta_of(*b)),
    decreases a, 0int,
{
    match (a, b) {
        (Some(x), Some(y)) => entries_equal(x, y),
        (None, None) => true,
        _ => false,
    }
}

pub(crate) fn meta_clone(a: &Option<Vec<(Value, Value)>>) -> (r: Option<Vec<(Value, Value)>>)
    ensures
        meta_of(r) == meta_of(*a),
    decreases a, 0int,
{
    match a {
        Some(x) => Some(entries_clone(x)),
        None => None,
    }
}

pub(crate) fn values_clone(a: &Vec<Value>) -> (r: Vec<Value>)
    ensures
        data_of(r@) == data_of(a@),
    decreases a, 0int,
{
    proof {
        lemma_data_of(a@);
    }
    let mut r: Vec<Value> = Vec::new();
    let mut i: usize = 0;
    while i < a.len()
        invariant
            0 <= i <= a.len(),
            r.len() == i,
            data_of(a@).len() == a@.len(),
            forall|j: int| 0 <= j < a.len() ==> #[trigger] data_of(a@)[j] == datum_of(a@[j]),
            forall|j: int| 0 <= j < i ==> datum_of(#[trigger] r@[j]) == datum_of(a@[j]),
        decreases a.len() - i,
    {
        let x = a[i].deep_clone();
        r.push(x);
        i += 1;
    }
    proof {
        lemma_data_of(r@);
    }
    assert(data_of(r@) =~= data_of(a@));
    r
}

pub(crate) fn entries_clone(a: &Vec<(Value, Value)>) -> (r: Vec<(Value, Value)>)
    ensures
        entries_of(r@) == entries_of(a@),
    decreases a, 0int,
{
    proof {
        lemma_entries_of(a@);
    }
    let mut r: Vec<(Value, Value)> = Vec::new();
    let mut i: usize = 0;
    while i < a.len()
        invariant
            0 <= i <= a.len(),
            r.len() == i,
            entries_of(a@).len() == a@.len(),
            forall|j: int|
                0 <= j < a.len() ==> #[trigger] entries_of(a@)[j] == (
                    datum_of(a@[j].0),
                    datum_of(a@[j].1),
                ),
            forall|j: int|
                0 <= j < i ==> datum_of((#[trigger] r@[j]).0) == datum_of(a@[j].0) && datum_of(
                    r@[j].1,
                ) == datum_of(a@[j].1),
        decreases a.len() - i,
    {
        let k = a[i].0.deep_clone();
        let v = a[i].1.deep_clone();
        r.push((k, v));
        i += 1;
    }
    proof {
        lemma_entries_of(r@);
    }
    assert(entries_of(r@) =~= entries_of(a@));
    r
}

impl Value {
    /// Script equality: whether the two values are the same script value.
    pub fn equals(&self, other: &Value) -> (r: bool)
        ensures
            r == (self@ == other@),
        decreases self, 1int,
    {
        match (self, other) {
            (Value::Nil(a), Value::Nil(b)) => meta_equal(a, b),
            (Value::Boolean(a), Value::Boolean(b)) => *a == *b,
            (Value::Integer(a), Value::Integer(b)) => *a == *b,
            (Value::String(a), Value::String(b)) => *a == *b,
            (Value::Keyword(na, a), Value::Keyword(nb, b)) => opt_text_eq(na, nb) && *a == *b,
            (Value::Symbol(na, a), Value::Symbol(nb, b)) => opt_text_eq(na, nb) && *a == *b,
            (Value::List(a), Value::List(b)) => values_equal(a, b),
            (Value::Vector(a, ma), Value::Vector(b, mb)) => values_equal(a, b) && meta_equal(ma, mb),
            (Value::HashSet(a), Value::HashSet(b)) => values_equal(a, b),
            (Value::HashMap(a, ma), Value::HashMap(b, mb)) => entries_equal(a, b) && meta_equal(ma, mb),
            (Value::Opaque(a), Value::Opaque(b)) => *a == *b,
            _ => false,
        }
    }

    /// A fresh copy of this value.
    pub fn deep_clone(&self) -> (r: Value)
        ensures
            r@ == self@,
        decreases self, 1int,
    {
        match self {
            Value::Nil(m) => Value::Nil(meta_clone(m)),
            Value::Boolean(b) => Value::Boolean(*b),
            Value::Integer(i) => Value::Integer(*i),
            Value::String(s) => Value::String(s.clone()),
            Value::Keyword(ns, n) => Value::Keyword(opt_text_clone(ns), n.clone()),
            Value::Symbol(ns, n) => Value::Symbol(opt_text_clone(ns), n.clone()),
            Value::List(l) => Value::List(values_clone(l)),
            Value::Vector(l, m) => Value::Vector(values_clone(l), meta_clone(m)),
            Value::HashSet(l) => Value::HashSet(values_clone(l)),
            Value::HashMap(e, m) => Value::HashMap(entries_clone(e), meta_clone(m)),
            Value::Opaque(h) => Value::Opaque(*h),
        }
    }
}

} // verus!
