//! The engine's game data: health and vision components, stable entity ids
//! and the registry that ties them to the world's entities, and the options
//! of the core component builders.
use crate::clojure::{arg_data, lookup};
use crate::registry::NameMap;
use crate::value::{datum_of, entries_of, lemma_entries_of, Datum, PtrValue, Value};
use short_id::ShortIdError;
use std::collections::HashMap;
use std::sync::Arc;
use vstd::prelude::*;

verus! {

broadcast use vstd::std_specs::hash::group_hash_axioms;

// ---------------------------------------------------------------------------
// Components
// ---------------------------------------------------------------------------

/// Hit points: a maximum and the current amount.
pub struct Health {
    max: u64,
    cur: u64,
}

impl Health {
    /// Full health of `max` hit points.
    pub fn new(max: u64) -> (r: Self)
        ensures
            r.max_spec() == max,
            r.cur_spec() == max,
    {
        Health { max, cur: max }
    }

    /// The maximum hit points.
    pub closed spec fn max_spec(&self) -> u64 {
        self.max
    }

    /// The current hit points.
    pub closed spec fn cur_spec(&self) -> u64 {
        self.cur
    }

    /// The maximum hit points.
    pub fn max(&self) -> (r: u64)
        ensures
            r == self.max_spec(),
    {
        self.max
    }

    /// The current hit points.
    pub fn cur(&self) -> (r: u64)
        ensures
            r == self.cur_spec(),
    {
        self.cur
    }

    /// Subtracts `damage` (a negative amount heals) from the current hit
    /// points, taken as a signed number; the difference is stored back as
    /// an unsigned number, wrapping below zero.
    pub fn take_damage(&mut self, damage: i64)
        requires
            i64::MIN <= (old(self).cur_spec() as i64) - damage <= i64::MAX,
        ensures
            final(self).cur_spec() == (((old(self).cur_spec() as i64) - damage) as i64) as u64,
            final(self).max_spec() == old(self).max_spec(),
    {
        let cur = self.cur as i64;
        self.cur = (cur - damage) as u64;
    }
}

/// How far an entity sees.
pub struct RadialVision {
    radius: u64,
}

impl RadialVision {
    /// Vision of `radius`.
    pub fn new(radius: u64) -> (r: Self)
        ensures
            r.radius_spec() == radius,
    {
        RadialVision { radius }
    }

    /// The vision radius.
    pub closed spec fn radius_spec(&self) -> u64 {
        self.radius
    }

    /// The radius.
    pub fn radius(&self) -> (r: u64)
        ensures
            r == self.radius_spec(),
    {
        self.radius
    }
}

// ---------------------------------------------------------------------------
// Builder options
// ---------------------------------------------------------------------------

/// The integer that the option map in the first argument holds under the
/// keyword `name`.
pub open spec fn integer_option(args: Seq<Datum>, name: Seq<char>) -> Option<i64> {
    if args.len() >= 1 {
        match args[0] {
            Datum::HashMap(e, _) => match lookup(e, Datum::Keyword(None, name)) {
                Some(Datum::Integer(i)) => Some(i),
                _ => None,
            },
            _ => None,
        }
    } else {
        None
    }
}

fn read_integer_option(args: &Vec<PtrValue>, name: &str) -> (r: i64)
    requires
        integer_option(arg_data(args@), name@) is Some,
    ensures
        Some(r) == integer_option(arg_data(args@), name@),
{
    let ghost a = arg_data(args@);
    assert(a[0] == args@[0]@);
    let key = Value::Keyword(None, String::from_str(name));
    let found = crate::clojure::get(&*args[0], &key);
    match found {
        Value::Integer(i) => i,
        _ => 0,
    }
}

/// The health that the builder of `litki.vital/health` gives for its
/// arguments: `[{:max n}]` gives full health of `n`.
pub fn health_from_args(args: &Vec<PtrValue>) -> (r: Health)
    requires
        integer_option(arg_data(args@), "max"@) is Some,
    ensures
        r.max_spec() == integer_option(arg_data(args@), "max"@)->0 as u64,
        r.cur_spec() == r.max_spec(),
{
    let max = read_integer_option(args, "max");
    Health { max: max as u64, cur: max as u64 }
}

/// The vision that the builder of `litki.vision/radial` gives for its
/// arguments: `[{:radius n}]` gives vision of radius `n`.
pub fn radial_vision_from_args(args: &Vec<PtrValue>) -> (r: RadialVision)
    requires
        integer_option(arg_data(args@), "radius"@) is Some,
    ensures
        r.radius_spec() == integer_option(arg_data(args@), "radius"@)->0 as u64,
{
    let radius = read_integer_option(args, "radius");
    RadialVision::new(radius as u64)
}

// ---------------------------------------------------------------------------
// Stable ids
// ---------------------------------------------------------------------------

#[verifier::external_type_specification]
#[verifier::external_body]
pub struct ExShortIdError(ShortIdError);

/// A character of the URL-safe base64 alphabet.
pub open spec fn is_url_safe(c: char) -> bool {
    ('A' <= c <= 'Z') || ('a' <= c <= 'z') || ('0' <= c <= '9') || c == '-' || c == '_'
}

/// Fourteen characters of the URL-safe base64 alphabet: the text of a short id.
pub open spec fn is_short_id(s: Seq<char>) -> bool {
    s.len() == 14 && forall|i: int| 0 <= i < s.len() ==> is_url_safe(#[trigger] s[i])
}

/// `short_id::ShortId::try_from(&str)`: accepts exactly fourteen characters
/// of the URL-safe base64 alphabet, and the id's text is the input.
#[verifier::external_body]
fn parse_short_id(text: &str) -> (r: Result<String, ShortIdError>)
    ensures
        r is Ok <==> is_short_id(text@),
        r matches Ok(s) ==> s@ == text@,
{
    match short_id::ShortId::try_from(text) {
        Ok(id) => Ok(id.into()),
        Err(e) => Err(e),
    }
}

/// `short_id::ShortId::random()`: a fresh random id, whose text is fourteen
/// characters of the URL-safe base64 alphabet.
#[verifier::external_body]
fn random_short_id() -> (r: String)
    ensures
        is_short_id(r@),
{
    short_id::ShortId::random().into()
}

/// An id of an entity that stays the same across runs and saves.
#[derive(Debug, PartialEq, Eq, Hash)]
pub struct StableId(String);

impl Clone for StableId {
    fn clone(&self) -> (r: Self)
        ensures
            r@ == self@,
    {
        self.duplicate()
    }
}

impl View for StableId {
    type V = Seq<char>;

    closed spec fn view(&self) -> Seq<char> {
        self.0@
    }
}

impl StableId {
    #[verifier::type_invariant]
    closed spec fn valid(self) -> bool {
        is_short_id(self.0@)
    }

    /// The id whose text is `id`, or `id` back with the reason it is not one.
    pub fn try_from_string(id: String) -> (r: Result<Self, (String, ShortIdError)>)
        ensures
            r is Ok <==> is_short_id(id@),
            r matches Ok(s) ==> s@ == id@,
            r matches Err((t, _)) ==> t@ == id@,
    {
        match parse_short_id(id.as_str()) {
            Ok(_) => Ok(StableId(id)),
            Err(e) => Err((id, e)),
        }
    }

    /// The id whose text is `id`, or `id` back with the reason it is not one.
    pub fn try_from_str(id: &str) -> (r: Result<Self, (&str, ShortIdError)>)
        ensures
            r is Ok <==> is_short_id(id@),
            r matches Ok(s) ==> s@ == id@,
            r matches Err((t, _)) ==> t == id,
    {
        match parse_short_id(id) {
            Ok(text) => Ok(StableId(text)),
            Err(e) => Err((id, e)),
        }
    }

    /// A fresh random id.
    pub fn new_random() -> (r: Self)
        ensures
            is_short_id(r@),
    {
        StableId(random_short_id())
    }

    /// The id's text.
    pub fn as_str(&self) -> (r: &str)
        ensures
            r@ == self@,
            is_short_id(r@),
    {
        proof {
            use_type_invariant(self);
        }
        self.0.as_str()
    }

    /// The id's text.
    pub fn to_string(&self) -> (r: String)
        ensures
            r@ == self@,
    {
        self.0.clone()
    }

    /// The id as a script value: its text as a string.
    pub fn to_value(&self) -> (r: Value)
        ensures
            r@ == Datum::Str(self@),
    {
        Value::String(self.to_string())
    }

    /// The id as a shared script value.
    pub fn to_value_ptr(&self) -> (r: PtrValue)
        ensures
            r@ == Datum::Str(self@),
    {
        Arc::new(self.to_value())
    }

    /// The id as a script value.
    pub fn into_value(self) -> (r: Value)
        ensures
            r@ == Datum::Str(self@),
    {
        Value::String(self.0)
    }

    /// The id as a shared script value.
    pub fn into_value_ptr(self) -> (r: PtrValue)
        ensures
            r@ == Datum::Str(self@),
    {
        Arc::new(self.into_value())
    }

    /// Whether the two ids have the same text.
    pub fn same_as(&self, other: &StableId) -> (r: bool)
        ensures
            r == (self@ == other@),
    {
        self.0 == other.0
    }

    fn duplicate(&self) -> (r: StableId)
        ensures
            r@ == self@,
    {
        proof {
            use_type_invariant(self);
        }
        StableId(self.0.clone())
    }
}

// ---------------------------------------------------------------------------
// Entity registry
// ---------------------------------------------------------------------------

/// The two directions of an entity registry map each other: every stable id
/// maps to an entity that maps back to it, and the other way round.
pub open spec fn mutually_inverse(by_stable: Map<Seq<char>, u64>, by_entity: Map<u64, Seq<char>>) -> bool {
    &&& forall|s: Seq<char>|
        #[trigger] by_stable.contains_key(s) ==> by_entity.contains_key(by_stable[s]) && by_entity[by_stable[s]] == s
    &&& forall|e: u64|
        #[trigger] by_entity.contains_key(e) ==> by_stable.contains_key(by_entity[e]) && by_stable[by_entity[e]] == e
}

/// Which entity of the world each stable id names, and back. Entities are
/// given by their bits.
pub struct EntityRegistry {
    stable_id_to_entity_id: NameMap<u64>,
    entity_id_to_stable_id: HashMap<u64, StableId>,
}

impl EntityRegistry {
    /// Stable id to entity.
    pub closed spec fn by_stable(&self) -> Map<Seq<char>, u64> {
        self.stable_id_to_entity_id@
    }

    /// Entity to stable id.
    pub closed spec fn by_entity(&self) -> Map<u64, Seq<char>> {
        self.entity_id_to_stable_id@.map_values(|s: StableId| s@)
    }

    /// An empty registry.
    pub fn new() -> (r: Self)
        ensures
            r.by_stable() == Map::<Seq<char>, u64>::empty(),
            r.by_entity() == Map::<u64, Seq<char>>::empty(),
            mutually_inverse(r.by_stable(), r.by_entity()),
    {
        let r = EntityRegistry {
            stable_id_to_entity_id: NameMap::new(),
            entity_id_to_stable_id: HashMap::new(),
        };
        assert(r.by_entity() =~= Map::<u64, Seq<char>>::empty());
        r
    }

    /// Records that `stable_id` names `entity_id`, in both directions.
    pub fn register(&mut self, stable_id: StableId, entity_id: u64)
        ensures
            final(self).by_stable() == old(self).by_stable().insert(stable_id@, entity_id),
            final(self).by_entity() == old(self).by_entity().insert(entity_id, stable_id@),
            mutually_inverse(old(self).by_stable(), old(self).by_entity()) && !old(self).by_stable().contains_key(
                stable_id@,
            ) && !old(self).by_entity().contains_key(entity_id) ==> mutually_inverse(
                final(self).by_stable(),
                final(self).by_entity(),
            ),
    {
        let ghost s = stable_id@;
        self.stable_id_to_entity_id.insert(stable_id.to_string(), entity_id);
        self.entity_id_to_stable_id.insert(entity_id, stable_id);
        assert(self.by_entity() =~= old(self).by_entity().insert(entity_id, s));
        proof {
            if mutually_inverse(old(self).by_stable(), old(self).by_entity()) && !old(self).by_stable().contains_key(s)
                && !old(self).by_entity().contains_key(entity_id) {
                lemma_register_keeps_inverse(old(self).by_stable(), old(self).by_entity(), s, entity_id);
            }
        }
    }

    /// The entity that `stable_id` names.
    pub fn get_by_stable_id(&self, stable_id: &StableId) -> (r: Option<u64>)
        ensures
            r == (if self.by_stable().contains_key(stable_id@) {
                Some(self.by_stable()[stable_id@])
            } else {
                None
            }),
    {
        match self.stable_id_to_entity_id.get(stable_id.as_str()) {
            Some(e) => Some(*e),
            None => None,
        }
    }

    /// The stable id that names `entity_id`.
    pub fn get_by_entity_id(&self, entity_id: &u64) -> (r: Option<StableId>)
        ensures
            match r {
                Some(s) => self.by_entity().contains_key(*entity_id) && s@ == self.by_entity()[*entity_id],
                None => !self.by_entity().contains_key(*entity_id),
            },
    {
        match self.entity_id_to_stable_id.get(entity_id) {
            Some(s) => Some(s.duplicate()),
            None => None,
        }
    }

    /// Forgets `stable_id` and the entity it names; gives back that entity
    /// and the stable id recorded for it.
    pub fn deregister_by_stable_id(&mut self, stable_id: StableId) -> (r: Option<(u64, StableId)>)
        requires
            old(self).by_stable().contains_key(stable_id@),
            old(self).by_entity().contains_key(old(self).by_stable()[stable_id@]),
        ensures
            r matches Some((e, s)) && e == old(self).by_stable()[stable_id@] && s@ == old(
                self,
            ).by_entity()[e],
            final(self).by_stable() == old(self).by_stable().remove(stable_id@),
            final(self).by_entity() == old(self).by_entity().remove(old(self).by_stable()[stable_id@]),
            final(self).by_stable().dom().len() + 1 == old(self).by_stable().dom().len(),
            mutually_inverse(old(self).by_stable(), old(self).by_entity()) ==> mutually_inverse(
                final(self).by_stable(),
                final(self).by_entity(),
            ),
    {
        proof {
            if mutually_inverse(old(self).by_stable(), old(self).by_entity()) {
                lemma_deregister_by_stable_id_keeps_inverse(old(self).by_stable(), old(self).by_entity(), stable_id@);
            }
        }
        let removed = self.stable_id_to_entity_id.remove(stable_id.as_str());
        let entity_id = match removed {
            Some(e) => e,
            None => 0,
        };
        let stable = self.entity_id_to_stable_id.remove(&entity_id);
        proof {
            assert(self.by_entity() =~= old(self).by_entity().remove(entity_id));
        }
        match stable {
            Some(s) => Some((entity_id, s)),
            None => None,
        }
    }

    /// Forgets `entity_id` and the stable id that names it; gives back the
    /// entity recorded for that stable id, and the stable id.
    pub fn deregister_by_entity_id(&mut self, entity_id: u64) -> (r: Option<(u64, StableId)>)
        requires
            old(self).by_entity().contains_key(entity_id),
            old(self).by_stable().contains_key(old(self).by_entity()[entity_id]),
        ensures
            r matches Some((e, s)) && s@ == old(self).by_entity()[entity_id] && e == old(
                self,
            ).by_stable()[s@],
            final(self).by_entity() == old(self).by_entity().remove(entity_id),
            final(self).by_stable() == old(self).by_stable().remove(old(self).by_entity()[entity_id]),
            final(self).by_stable().dom().len() + 1 == old(self).by_stable().dom().len(),
            mutually_inverse(old(self).by_stable(), old(self).by_entity()) ==> mutually_inverse(
                final(self).by_stable(),
                final(self).by_entity(),
            ),
    {
        proof {
            if mutually_inverse(old(self).by_stable(), old(self).by_entity()) {
                lemma_deregister_by_entity_id_keeps_inverse(old(self).by_stable(), old(self).by_entity(), entity_id);
            }
        }
        let removed = self.entity_id_to_stable_id.remove(&entity_id);
        proof {
            assert(self.by_entity() =~= old(self).by_entity().remove(entity_id));
        }
        match removed {
            Some(stable_id) => {
                let e = self.stable_id_to_entity_id.remove(stable_id.as_str());
                match e {
                    Some(e) => Some((e, stable_id)),
                    None => None,
                }
            },
            None => None,
        }
    }

    /// Whether `stable_id` names an entity.
    pub fn contains(&self, stable_id: StableId) -> (r: bool)
        ensures
            r == self.by_stable().contains_key(stable_id@),
    {
        self.stable_id_to_entity_id.contains(stable_id.as_str())
    }

    /// The number of stable ids that name an entity.
    pub fn count(&self) -> (r: usize)
        ensures
            r == self.by_stable().dom().len(),
    {
        self.stable_id_to_entity_id.len()
    }
}


/// Registering a stable id and an entity that are both new keeps the two
/// directions of the registry inverse to each other.
pub proof fn lemma_register_keeps_inverse(
    by_stable: Map<Seq<char>, u64>,
    by_entity: Map<u64, Seq<char>>,
    s: Seq<char>,
    e: u64,
)
    requires
        mutually_inverse(by_stable, by_entity),
        !by_stable.contains_key(s),
        !by_entity.contains_key(e),
    ensures
        mutually_inverse(by_stable.insert(s, e), by_entity.insert(e, s)),
{
}

/// In an inverse registry, deregistering a registered stable id is defined,
/// gives back that same stable id, and keeps the registry inverse.
pub proof fn lemma_deregister_by_stable_id_keeps_inverse(
    by_stable: Map<Seq<char>, u64>,
    by_entity: Map<u64, Seq<char>>,
    s: Seq<char>,
)
    requires
        mutually_inverse(by_stable, by_entity),
        by_stable.contains_key(s),
    ensures
        by_entity.contains_key(by_stable[s]),
        by_entity[by_stable[s]] == s,
        mutually_inverse(by_stable.remove(s), by_entity.remove(by_stable[s])),
{
    let e = by_stable[s];
    let f2 = by_stable.remove(s);
    let b2 = by_entity.remove(e);
    assert forall|x: u64| #[trigger] b2.contains_key(x) implies f2.contains_key(b2[x]) && f2[b2[x]] == x by {
        assert(by_stable[by_entity[x]] == x);
    }
}

/// In an inverse registry, deregistering a registered entity is defined,
/// gives back that same entity, and keeps the registry inverse.
pub proof fn lemma_deregister_by_entity_id_keeps_inverse(
    by_stable: Map<Seq<char>, u64>,
    by_entity: Map<u64, Seq<char>>,
    e: u64,
)
    requires
        mutually_inverse(by_stable, by_entity),
        by_entity.contains_key(e),
    ensures
        by_stable.contains_key(by_entity[e]),
        by_stable[by_entity[e]] == e,
        mutually_inverse(by_stable.remove(by_entity[e]), by_entity.remove(e)),
{
    let s = by_entity[e];
    let f2 = by_stable.remove(s);
    let b2 = by_entity.remove(e);
    assert forall|x: Seq<char>| #[trigger] f2.contains_key(x) implies b2.contains_key(f2[x]) && b2[f2[x]] == x by {
        assert(by_entity[by_stable[x]] == x);
    }
}

/// A call that changes an entity registry, in the terms of its two maps.
pub enum RegistryCall {
    /// `register(s, e)`.
    Register(Seq<char>, u64),
    /// `deregister_by_stable_id(s)`.
    DeregisterStable(Seq<char>),
    /// `deregister_by_entity_id(e)`.
    DeregisterEntity(u64),
}

/// What `call` does to the two maps, as the methods' contracts state it.
pub open spec fn apply_call(
    by_stable: Map<Seq<char>, u64>,
    by_entity: Map<u64, Seq<char>>,
    call: RegistryCall,
) -> (Map<Seq<char>, u64>, Map<u64, Seq<char>>) {
    match call {
        RegistryCall::Register(s, e) => (by_stable.insert(s, e), by_entity.insert(e, s)),
        RegistryCall::DeregisterStable(s) => (by_stable.remove(s), by_entity.remove(by_stable[s])),
        RegistryCall::DeregisterEntity(e) => (by_stable.remove(by_entity[e]), by_entity.remove(e)),
    }
}

/// `call` registers a new stable id with a new entity, or deregisters
/// something registered.
pub open spec fn call_allowed(by_stable: Map<Seq<char>, u64>, by_entity: Map<u64, Seq<char>>, call: RegistryCall) -> bool {
    match call {
        RegistryCall::Register(s, e) => !by_stable.contains_key(s) && !by_entity.contains_key(e),
        RegistryCall::DeregisterStable(s) => by_stable.contains_key(s),
        RegistryCall::DeregisterEntity(e) => by_entity.contains_key(e),
    }
}

/// The two maps of a registry made by `new` after `calls`, in order.
pub open spec fn run_calls(calls: Seq<RegistryCall>) -> (Map<Seq<char>, u64>, Map<u64, Seq<char>>)
    decreases calls.len(),
{
    if calls.len() == 0 {
        (Map::empty(), Map::empty())
    } else {
        let (f, b) = run_calls(calls.drop_last());
        apply_call(f, b, calls.last())
    }
}

/// Every one of `calls` is allowed in the registry it is made on.
pub open spec fn calls_allowed(calls: Seq<RegistryCall>) -> bool
    decreases calls.len(),
{
    calls.len() == 0 || (calls_allowed(calls.drop_last()) && call_allowed(
        run_calls(calls.drop_last()).0,
        run_calls(calls.drop_last()).1,
        calls.last(),
    ))
}

/// In every registry reached from `new` by registering new ids with new
/// entities and deregistering registered ones, the two maps are inverse to
/// each other and hold as many ids as entities, so that `count` is the
/// number of registered pairs.
pub proof fn lemma_reachable_registry_is_inverse(calls: Seq<RegistryCall>)
    requires
        calls_allowed(calls),
    ensures
        mutually_inverse(run_calls(calls).0, run_calls(calls).1),
        run_calls(calls).0.dom().finite(),
        run_calls(calls).1.dom().finite(),
        run_calls(calls).0.dom().len() == run_calls(calls).1.dom().len(),
    decreases calls.len(),
{
    if calls.len() > 0 {
        let prev = calls.drop_last();
        lemma_reachable_registry_is_inverse(prev);
        let (f, b) = run_calls(prev);
        match calls.last() {
            RegistryCall::Register(s, e) => {
                lemma_register_keeps_inverse(f, b, s, e);
            },
            RegistryCall::DeregisterStable(s) => {
                lemma_deregister_by_stable_id_keeps_inverse(f, b, s);
            },
            RegistryCall::DeregisterEntity(e) => {
                lemma_deregister_by_entity_id_keeps_inverse(f, b, e);
            },
        }
    }
}

/// An empty registry is inverse.
pub proof fn lemma_empty_is_inverse()
    ensures
        mutually_inverse(Map::<Seq<char>, u64>::empty(), Map::<u64, Seq<char>>::empty()),
{
}

impl Default for EntityRegistry {
    fn default() -> (r: Self)
        ensures
            r.by_stable() == Map::<Seq<char>, u64>::empty(),
            r.by_entity() == Map::<u64, Seq<char>>::empty(),
    {
        Self::new()
    }
}

} // verus!
