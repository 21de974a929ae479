//! Name-keyed registries: the component builders, the entity templates and
//! the animations that scripts refer to by name.
use crate::value::{Datum, Value};
use vstd::prelude::*;

verus! {

/// The map that a sequence of distinct-named entries stands for.
pub open spec fn entries_map<T>(s: Seq<(String, T)>) -> Map<Seq<char>, T>
    decreases s.len(),
{
    if s.len() == 0 {
        Map::empty()
    } else {
        entries_map(s.drop_last()).insert(s.last().0@, s.last().1)
    }
}

/// No name occurs twice.
pub open spec fn names_distinct<T>(s: Seq<(String, T)>) -> bool {
    forall|i: int, j: int| 0 <= i < j < s.len() ==> s[i].0@ != s[j].0@
}

/// With distinct names, the map of the entries holds exactly their names,
/// each bound to its own value, and has as many keys as there are entries.
pub proof fn lemma_entries_map<T>(s: Seq<(String, T)>)
    requires
        names_distinct(s),
    ensures
        forall|n: Seq<char>|
            entries_map(s).contains_key(n) <==> exists|i: int| 0 <= i < s.len() && s[i].0@ == n,
        forall|i: int| 0 <= i < s.len() ==> #[trigger] entries_map(s)[s[i].0@] == s[i].1,
        entries_map(s).dom().finite(),
        entries_map(s).dom().len() == s.len(),
    decreases s.len(),
{
    if s.len() > 0 {
        let p = s.drop_last();
        assert forall|i: int, j: int| 0 <= i < j < p.len() implies p[i].0@ != p[j].0@ by {
            assert(p[i] == s[i] && p[j] == s[j]);
        }
        lemma_entries_map(p);
        let l = s.last();
        assert forall|n: Seq<char>|
            entries_map(s).contains_key(n) <==> exists|i: int| 0 <= i < s.len() && s[i].0@ == n by {
            if entries_map(s).contains_key(n) && n != l.0@ {
                let i = choose|i: int| 0 <= i < p.len() && p[i].0@ == n;
                assert(s[i] == p[i]);
            }
            if exists|i: int| 0 <= i < s.len() && s[i].0@ == n {
                let i = choose|i: int| 0 <= i < s.len() && s[i].0@ == n;
                if i < s.len() - 1 {
                    assert(p[i] == s[i]);
                }
            }
        }
        assert forall|i: int| 0 <= i < s.len() implies #[trigger] entries_map(s)[s[i].0@] == s[i].1 by {
            if i < s.len() - 1 {
                assert(p[i] == s[i]);
                assert(s[i].0@ != l.0@);
            }
        }
        assert(!entries_map(p).contains_key(l.0@)) by {
            if entries_map(p).contains_key(l.0@) {
                let i = choose|i: int| 0 <= i < p.len() && p[i].0@ == l.0@;
                assert(p[i] == s[i]);
            }
        }
    }
}

/// A map from names to values.
pub struct NameMap<T> {
    entries: Vec<(String, T)>,
}

impl<T> View for NameMap<T> {
    type V = Map<Seq<char>, T>;

    closed spec fn view(&self) -> Map<Seq<char>, T> {
        entries_map(self.entries@)
    }
}

impl<T> NameMap<T> {
    #[verifier::type_invariant]
    closed spec fn wf(self) -> bool {
        names_distinct(self.entries@)
    }

    /// An empty map.
    pub fn new() -> (r: Self)
        ensures
            r@ == Map::<Seq<char>, T>::empty(),
    {
        NameMap { entries: Vec::new() }
    }

    fn find(&self, name: &str) -> (r: Option<usize>)
        ensures
            r matches Some(i) ==> i < self.entries.len() && self.entries@[i as int].0@ == name@,
            r is None ==> forall|i: int| 0 <= i < self.entries.len() ==> self.entries@[i].0@ != name@,
    {
        let key = String::from_str(name);
        let mut i: usize = 0;
        while i < self.entries.len()
            invariant
                0 <= i <= self.entries.len(),
                key@ == name@,
                forall|j: int| 0 <= j < i ==> self.entries@[j].0@ != name@,
            decreases self.entries.len() - i,
        {
            if self.entries[i].0 == key {
                return Some(i);
            }
            i += 1;
        }
        None
    }

    /// Whether `name` is mapped.
    pub fn contains(&self, name: &str) -> (r: bool)
        ensures
            r == self@.contains_key(name@),
    {
        proof {
            use_type_invariant(self);
            lemma_entries_map(self.entries@);
        }
        self.find(name).is_some()
    }

    /// The value mapped to `name`.
    pub fn get(&self, name: &str) -> (r: Option<&T>)
        ensures
            r matches Some(v) ==> self@.contains_key(name@) && *v == self@[name@],
            r is None ==> !self@.contains_key(name@),
    {
        proof {
            use_type_invariant(self);
            lemma_entries_map(self.entries@);
        }
        match self.find(name) {
            Some(i) => Some(&self.entries[i].1),
            None => None,
        }
    }

    /// Maps `name` to `value`, replacing what it was mapped to.
    pub fn insert(&mut self, name: String, value: T)
        ensures
            final(self)@ == old(self)@.insert(name@, value),
    {
        proof {
            use_type_invariant(&*self);
            lemma_entries_map(self.entries@);
        }
        let ghost old_entries = self.entries@;
        let found = self.find(name.as_str());
        let ghost n = name@;
        let mut entries = Vec::new();
        std::mem::swap(&mut entries, &mut self.entries);
        match found {
            Some(i) => {
                entries.set(i, (name, value));
            },
            None => {
                entries.push((name, value));
            },
        }
        let ghost s = entries@;
        assert(names_distinct(s)) by {
            assert forall|a: int, b: int| 0 <= a < b < s.len() implies s[a].0@ != s[b].0@ by {
                if found is None && b == old_entries.len() {
                    assert(s[a] == old_entries[a]);
                } else {
                    if a != found->0 as int {
                        assert(s[a] == old_entries[a]);
                    }
                    if b != found->0 as int {
                        assert(s[b] == old_entries[b]);
                    }
                }
            }
        }
        proof {
            lemma_entries_map(s);
            let m_old = entries_map(old_entries);
            let m_new = entries_map(s);
            assert forall|k: Seq<char>| m_new.contains_key(k) <==> m_old.insert(n, value).contains_key(k) by {
                if m_new.contains_key(k) && k != n {
                    let j = choose|j: int| 0 <= j < s.len() && s[j].0@ == k;
                    assert(s[j] == old_entries[j]);
                }
                if m_old.contains_key(k) && k != n {
                    let j = choose|j: int| 0 <= j < old_entries.len() && old_entries[j].0@ == k;
                    assert(s[j] == old_entries[j]);
                    assert(m_new.contains_key(s[j].0@));
                }
                if k == n {
                    match found {
                        Some(i) => assert(s[i as int].0@ == n),
                        None => assert(s[old_entries.len() as int].0@ == n),
                    }
                }
            }
            assert forall|k: Seq<char>| #[trigger] m_new.contains_key(k) implies m_new[k] == m_old.insert(n, value)[k] by {
                let j = choose|j: int| 0 <= j < s.len() && s[j].0@ == k;
                assert(m_new[s[j].0@] == s[j].1);
                if k != n {
                    assert(s[j] == old_entries[j]);
                    assert(m_old[old_entries[j].0@] == old_entries[j].1);
                }
            }
            assert(m_new =~= m_old.insert(n, value));
        }
        self.entries = entries;
    }

    /// Removes `name` and gives back what it was mapped to.
    pub fn remove(&mut self, name: &str) -> (r: Option<T>)
        ensures
            final(self)@ == old(self)@.remove(name@),
            old(self)@.dom().finite(),
            r matches Some(v) ==> old(self)@.contains_key(name@) && v == old(self)@[name@],
            r is None ==> !old(self)@.contains_key(name@),
    {
        proof {
            use_type_invariant(&*self);
            lemma_entries_map(self.entries@);
        }
        let ghost old_entries = self.entries@;
        match self.find(name) {
            None => {
                assert(entries_map(old_entries) =~= entries_map(old_entries).remove(name@));
                None
            },
            Some(i) => {
                let mut entries = Vec::new();
                std::mem::swap(&mut entries, &mut self.entries);
                let (_, v) = entries.remove(i);
                let ghost s = entries@;
                assert(forall|j: int| 0 <= j < s.len() ==> #[trigger] s[j] == old_entries[if j < i { j } else { j + 1 }]);
                assert(names_distinct(s)) by {
                    assert forall|a: int, b: int| 0 <= a < b < s.len() implies s[a].0@ != s[b].0@ by {
                        assert(s[a] == old_entries[if a < i { a } else { a + 1 }]);
                        assert(s[b] == old_entries[if b < i { b } else { b + 1 }]);
                    }
                }
                proof {
                    lemma_entries_map(s);
                    let m_old = entries_map(old_entries);
                    let m_new = entries_map(s);
                    assert forall|k: Seq<char>| m_new.contains_key(k) <==> m_old.remove(name@).contains_key(k) by {
                        if m_new.contains_key(k) {
                            let j = choose|j: int| 0 <= j < s.len() && s[j].0@ == k;
                            let j1 = if j < i { j } else { j + 1 };
                            assert(s[j] == old_entries[j1]);
                            assert(j1 != i);
                        }
                        if m_old.contains_key(k) && k != name@ {
                            let j = choose|j: int| 0 <= j < old_entries.len() && old_entries[j].0@ == k;
                            assert(j != i);
                            let j2 = if j < i { j } else { j - 1 };
                            assert(s[j2] == old_entries[j]);
                            assert(m_new.contains_key(s[j2].0@));
                        }
                    }
                    assert forall|k: Seq<char>| #[trigger] m_new.contains_key(k) implies m_new[k] == m_old[k] by {
                        let j = choose|j: int| 0 <= j < s.len() && s[j].0@ == k;
                        let j1 = if j < i { j } else { j + 1 };
                        assert(s[j] == old_entries[j1]);
                        assert(m_new[s[j].0@] == s[j].1);
                        assert(m_old[old_entries[j1].0@] == old_entries[j1].1);
                    }
                    assert(m_new =~= m_old.remove(name@));
                }
                self.entries = entries;
                Some(v)
            },
        }
    }

    /// The mapped names, each once.
    pub fn names(&self) -> (r: Vec<String>)
        ensures
            forall|i: int| 0 <= i < r.len() ==> self@.contains_key(#[trigger] r@[i]@),
            forall|n: Seq<char>| self@.contains_key(n) ==> exists|i: int| 0 <= i < r.len() && r@[i]@ == n,
            forall|i: int, j: int| 0 <= i < j < r.len() ==> r@[i]@ != r@[j]@,
            r.len() == self@.dom().len(),
    {
        proof {
            use_type_invariant(self);
            lemma_entries_map(self.entries@);
        }
        let mut r: Vec<String> = Vec::new();
        let mut i: usize = 0;
        while i < self.entries.len()
            invariant
                0 <= i <= self.entries.len(),
                r.len() == i,
                forall|j: int| 0 <= j < i ==> (#[trigger] r@[j])@ == self.entries@[j].0@,
            decreases self.entries.len() - i,
        {
            r.push(self.entries[i].0.clone());
            i += 1;
        }
        proof {
            assert forall|n: Seq<char>| self@.contains_key(n) implies exists|j: int| 0 <= j < r.len() && r@[j]@ == n by {
                let j = choose|j: int| 0 <= j < self.entries.len() && self.entries@[j].0@ == n;
                assert(r@[j]@ == n);
            }
            assert forall|a: int, b: int| 0 <= a < b < r.len() implies r@[a]@ != r@[b]@ by {
                assert(r@[a]@ == self.entries@[a].0@);
                assert(r@[b]@ == self.entries@[b].0@);
            }
        }
        r
    }

    /// The number of mapped names.
    pub fn len(&self) -> (r: usize)
        ensures
            r == self@.dom().len(),
    {
        proof {
            use_type_invariant(self);
            lemma_entries_map(self.entries@);
        }
        self.entries.len()
    }

    /// The entries, in no particular order.
    pub fn into_entries(self) -> (r: Vec<(String, T)>)
        ensures
            forall|i: int, j: int| 0 <= i < j < r.len() ==> r@[i].0@ != r@[j].0@,
            forall|i: int| 0 <= i < r.len() ==> #[trigger] self@.contains_key(r@[i].0@) && self@[r@[i].0@] == r@[i].1,
            r.len() == self@.dom().len(),
    {
        proof {
            use_type_invariant(&self);
            lemma_entries_map(self.entries@);
        }
        self.entries
    }
}

impl<T: Clone> NameMap<T> {
    /// A copy of the map, each value cloned.
    pub fn cloned(&self) -> (r: NameMap<T>)
        ensures
            r@.dom() == self@.dom(),
            forall|n: Seq<char>| #[trigger] r@.contains_key(n) ==> cloned::<T>(self@[n], r@[n]),
    {
        proof {
            use_type_invariant(self);
            lemma_entries_map(self.entries@);
        }
        let mut entries: Vec<(String, T)> = Vec::new();
        let mut i: usize = 0;
        while i < self.entries.len()
            invariant
                0 <= i <= self.entries.len(),
                entries.len() == i,
                forall|j: int| 0 <= j < i ==> (#[trigger] entries@[j]).0@ == self.entries@[j].0@,
                forall|j: int| 0 <= j < i ==> cloned::<T>(self.entries@[j].1, (#[trigger] entries@[j]).1),
            decreases self.entries.len() - i,
        {
            let n = self.entries[i].0.clone();
            let v = self.entries[i].1.clone();
            entries.push((n, v));
            i += 1;
        }
        let ghost s = entries@;
        let ghost o = self.entries@;
        assert(names_distinct(s)) by {
            assert forall|a: int, b: int| 0 <= a < b < s.len() implies s[a].0@ != s[b].0@ by {
                assert(s[a].0@ == o[a].0@);
                assert(s[b].0@ == o[b].0@);
            }
        }
        proof {
            lemma_entries_map(s);
            assert forall|n: Seq<char>| entries_map(s).contains_key(n) <==> entries_map(o).contains_key(n) by {
                if entries_map(s).contains_key(n) {
                    let j = choose|j: int| 0 <= j < s.len() && s[j].0@ == n;
                    assert(o[j].0@ == n);
                }
                if entries_map(o).contains_key(n) {
                    let j = choose|j: int| 0 <= j < o.len() && o[j].0@ == n;
                    assert(s[j].0@ == n);
                }
            }
            assert(entries_map(s).dom() =~= entries_map(o).dom());
            assert forall|n: Seq<char>| #[trigger] entries_map(s).contains_key(n) implies cloned::<T>(entries_map(o)[n], entries_map(s)[n]) by {
                let j = choose|j: int| 0 <= j < s.len() && s[j].0@ == n;
                assert(entries_map(s)[s[j].0@] == s[j].1);
                assert(entries_map(o)[o[j].0@] == o[j].1);
            }
        }
        NameMap { entries }
    }
}


/// The promise of every name-keyed registry here (`NameMap`, the builder,
/// template and command registries), whose writes change their view by
/// `insert` and `remove`: a read right after a write under a name gives back
/// what was written, a removed name reads as absent, and a write under one
/// name leaves every other name as it was.
pub proof fn lemma_read_after_write<T>(m: Map<Seq<char>, T>, name: Seq<char>, value: T, other: Seq<char>)
    requires
        other != name,
    ensures
        m.insert(name, value).contains_key(name),
        m.insert(name, value)[name] == value,
        !m.remove(name).contains_key(name),
        m.insert(name, value).contains_key(other) == m.contains_key(other),
        m.remove(name).contains_key(other) == m.contains_key(other),
        m.contains_key(other) ==> m.insert(name, value)[other] == m[other] && m.remove(name)[other] == m[other],
{
}

/// The component builders, by component name.
pub struct ComponentBuilderRegistry<B> {
    builders: NameMap<B>,
}

impl<B> View for ComponentBuilderRegistry<B> {
    type V = Map<Seq<char>, B>;

    closed spec fn view(&self) -> Map<Seq<char>, B> {
        self.builders@
    }
}

impl<B> ComponentBuilderRegistry<B> {
    /// A registry with no builders.
    pub fn new() -> (r: Self)
        ensures
            r@ == Map::<Seq<char>, B>::empty(),
    {
        ComponentBuilderRegistry { builders: NameMap::new() }
    }

    /// The names of the registered builders, each once.
    pub fn names(&self) -> (r: Vec<String>)
        ensures
            forall|i: int| 0 <= i < r.len() ==> self@.contains_key(#[trigger] r@[i]@),
            forall|n: Seq<char>| self@.contains_key(n) ==> exists|i: int| 0 <= i < r.len() && r@[i]@ == n,
            forall|i: int, j: int| 0 <= i < j < r.len() ==> r@[i]@ != r@[j]@,
    {
        self.builders.names()
    }

    /// Registers `builder` under `name`, replacing any builder of that name.
    pub fn register(&mut self, name: &str, builder: B)
        ensures
            final(self)@ == old(self)@.insert(name@, builder),
    {
        self.builders.insert(String::from_str(name), builder);
    }

    /// Whether a builder is registered under `name`.
    pub fn contains(&self, name: &str) -> (r: bool)
        ensures
            r == self@.contains_key(name@),
    {
        self.builders.contains(name)
    }
}

impl<B: Clone> ComponentBuilderRegistry<B> {
    /// The builder registered under `name`.
    pub fn get(&self, name: &str) -> (r: Option<B>)
        ensures
            r matches Some(b) ==> self@.contains_key(name@) && cloned::<B>(self@[name@], b),
            r is None ==> !self@.contains_key(name@),
    {
        match self.builders.get(name) {
            Some(b) => Some(b.clone()),
            None => None,
        }
    }

    /// A copy of the registered builders.
    pub fn builders_cloned(&self) -> (r: NameMap<B>)
        ensures
            r@.dom() == self@.dom(),
            forall|n: Seq<char>| #[trigger] r@.contains_key(n) ==> cloned::<B>(self@[n], r@[n]),
    {
        self.builders.cloned()
    }
}

/// The views of the values of a name map.
pub open spec fn data_map(m: Map<Seq<char>, Value>) -> Map<Seq<char>, Datum> {
    m.map_values(|v: Value| v@)
}

/// The entity templates, by template name.
pub struct TemplateRegistry {
    templates: NameMap<Value>,
}

impl View for TemplateRegistry {
    type V = Map<Seq<char>, Datum>;

    closed spec fn view(&self) -> Map<Seq<char>, Datum> {
        data_map(self.templates@)
    }
}

impl TemplateRegistry {
    /// A registry with no templates.
    pub fn new() -> (r: Self)
        ensures
            r@ == Map::<Seq<char>, Datum>::empty(),
    {
        let r = TemplateRegistry { templates: NameMap::new() };
        assert(r@ =~= Map::<Seq<char>, Datum>::empty());
        r
    }

    /// The names of the registered templates, each once.
    pub fn names(&self) -> (r: Vec<String>)
        ensures
            forall|i: int| 0 <= i < r.len() ==> self@.contains_key(#[trigger] r@[i]@),
            forall|n: Seq<char>| self@.contains_key(n) ==> exists|i: int| 0 <= i < r.len() && r@[i]@ == n,
            forall|i: int, j: int| 0 <= i < j < r.len() ==> r@[i]@ != r@[j]@,
    {
        self.templates.names()
    }

    /// Registers `template` under `name`, replacing any template of that name.
    pub fn register(&mut self, name: &str, template: Value)
        ensures
            final(self)@ == old(self)@.insert(name@, template@),
    {
        let ghost t = template@;
        self.templates.insert(String::from_str(name), template);
        assert(data_map(self.templates@) =~= data_map(old(self).templates@).insert(name@, t));
    }

    /// A copy of the template registered under `name`.
    pub fn get(&self, name: &str) -> (r: Option<Value>)
        ensures
            r matches Some(v) ==> self@.contains_key(name@) && v@ == self@[name@],
            r is None ==> !self@.contains_key(name@),
    {
        match self.templates.get(name) {
            Some(v) => Some(v.deep_clone()),
            None => None,
        }
    }

    /// Replaces the template registered under `name` by what `update_fn`
    /// makes of a copy of it; does nothing when no template has that name.
    pub fn update<F: Fn(Value) -> Value>(&mut self, name: &str, update_fn: F)
        requires
            forall|v: Value| update_fn.requires((v,)),
        ensures
            !old(self)@.contains_key(name@) ==> final(self)@ == old(self)@,
            old(self)@.contains_key(name@) ==> exists|arg: Value, new: Value|
                arg@ == old(self)@[name@] && update_fn.ensures((arg,), new) && final(self)@ == old(
                    self,
                )@.insert(name@, new@),
    {
        if let Some(current) = self.get(name) {
            let ghost arg = current;
            let new_template = update_fn(current);
            self.register(name, new_template);
            assert(arg@ == old(self)@[name@] && update_fn.ensures((arg,), new_template));
        }
    }

    /// A copy of all registered templates.
    pub fn templates_cloned(&self) -> (r: NameMap<Value>)
        ensures
            data_map(r@) == self@,
    {
        let names = self.templates.names();
        let mut r: NameMap<Value> = NameMap::new();
        let mut i: usize = 0;
        while i < names.len()
            invariant
                0 <= i <= names.len(),
                forall|j: int| 0 <= j < names.len() ==> self.templates@.contains_key(#[trigger] names@[j]@),
                forall|n: Seq<char>| #![trigger self.templates@.contains_key(n)] self.templates@.contains_key(n) ==> exists|j: int| 0 <= j < names.len() && names@[j]@ == n,
                forall|n: Seq<char>| #[trigger] r@.contains_key(n) <==> exists|j: int| 0 <= j < i && names@[j]@ == n,
                forall|n: Seq<char>| #[trigger] r@.contains_key(n) ==> r@[n]@ == self.templates@[n]@,
            decreases names.len() - i,
        {
            let t = self.templates.get(names[i].as_str());
            if let Some(t) = t {
                let c = t.deep_clone();
                r.insert(names[i].clone(), c);
            }
            proof {
                assert forall|n: Seq<char>| #[trigger] r@.contains_key(n) <==> exists|j: int| 0 <= j < i + 1 && names@[j]@ == n by {
                    if n == names@[i as int]@ {
                        assert(names@[i as int]@ == n);
                    }
                }
            }
            i += 1;
        }
        proof {
            assert forall|n: Seq<char>| #[trigger] data_map(r@).contains_key(n) <==> self@.contains_key(n) by {
                if self.templates@.contains_key(n) {
                    let j = choose|j: int| 0 <= j < names.len() && names@[j]@ == n;
                    assert(r@.contains_key(names@[j]@));
                }
            }
            assert(data_map(r@) =~= self@);
        }
        r
    }
}

/// The animations, by name. Nothing is registered in it yet.
pub struct AnimationRegistry;

impl AnimationRegistry {
    /// The empty registry.
    pub fn new() -> Self {
        AnimationRegistry
    }
}

impl<B> Default for ComponentBuilderRegistry<B> {
    fn default() -> (r: Self)
        ensures
            r@ == Map::<Seq<char>, B>::empty(),
    {
        Self::new()
    }
}

impl Default for TemplateRegistry {
    fn default() -> (r: Self)
        ensures
            r@ == Map::<Seq<char>, Datum>::empty(),
    {
        Self::new()
    }
}

impl Default for AnimationRegistry {
    fn default() -> Self {
        AnimationRegistry
    }
}

impl<T> Default for NameMap<T> {
    fn default() -> (r: Self)
        ensures
            r@ == Map::<Seq<char>, T>::empty(),
    {
        Self::new()
    }
}

} // verus!
