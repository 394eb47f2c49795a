//! Sets of names and maps keyed by names.
//!
//! Both keep their entries in the order of insertion, and no name occurs twice.
use vstd::prelude::*;

verus! {

/// The character sequences of a sequence of strings.
pub open spec fn texts(v: Seq<String>) -> Seq<Seq<char>> {
    Seq::new(v.len(), |i: int| v[i]@)
}

/// The position of `name` in `items`, if it occurs there: the first one.
pub fn position(items: &Vec<String>, name: &str) -> (r: Option<usize>)
    ensures
        match r {
            Some(i) => i < items.len() && items[i as int]@ == name@ && (forall|j: int|
                0 <= j < i ==> (#[trigger] items[j])@ != name@),
            None => !texts(items@).contains(name@),
        },
{
    let target = name.to_owned();
    let mut i: usize = 0;
    while i < items.len()
        invariant
            i <= items.len(),
            target@ == name@,
            forall|j: int| 0 <= j < i ==> (#[trigger] items[j])@ != name@,
        decreases items.len() - i,
    {
        if items[i] == target {
            return Some(i);
        }
        i += 1;
    }
    assert forall|j: int| 0 <= j < texts(items@).len() implies texts(items@)[j] != name@ by {
        assert(items[j]@ != name@);
    }
    None
}

/// Whether `name` occurs in `items`.
pub fn lists(items: &Vec<String>, name: &str) -> (r: bool)
    ensures
        r == texts(items@).contains(name@),
{
    match position(items, name) {
        Some(i) => {
            assert(texts(items@)[i as int] == name@);
            true
        },
        None => false,
    }
}

/// A copy of a list of names.
pub fn copy_names(items: &Vec<String>) -> (r: Vec<String>)
    ensures
        texts(r@) == texts(items@),
{
    let mut out: Vec<String> = Vec::new();
    let mut i: usize = 0;
    while i < items.len()
        invariant
            i <= items.len(),
            out.len() == i,
            forall|j: int| 0 <= j < i ==> (#[trigger] out[j])@ == items[j]@,
        decreases items.len() - i,
    {
        out.push(items[i].clone());
        i += 1;
    }
    assert(texts(out@) == texts(items@));
    out
}

/// A set of names.
#[derive(Debug)]
pub struct NameSet {
    items: Vec<String>,
}

impl View for NameSet {
    type V = Set<Seq<char>>;

    closed spec fn view(&self) -> Set<Seq<char>> {
        texts(self.items@).to_set()
    }
}

impl NameSet {
    #[verifier::type_invariant]
    spec fn inv(self) -> bool {
        texts(self.items@).no_duplicates()
    }

    /// The empty set.
    pub fn new() -> (r: NameSet)
        ensures
            r@ == Set::<Seq<char>>::empty(),
    {
        let r = NameSet { items: Vec::new() };
        assert(r@ =~= Set::<Seq<char>>::empty());
        r
    }

    /// A set of names is finite.
    pub proof fn lemma_finite(&self)
        ensures
            self@.finite(),
    {
        vstd::seq_lib::seq_to_set_is_finite(texts(self.items@));
    }

    /// Whether `name` is a member.
    pub fn contains(&self, name: &str) -> (r: bool)
        ensures
            r == self@.contains(name@),
    {
        lists(&self.items, name)
    }

    /// The members, each once.
    pub fn names(&self) -> (r: &Vec<String>)
        ensures
            texts(r@).no_duplicates(),
            texts(r@).to_set() == self@,
    {
        proof {
            use_type_invariant(self);
        }
        &self.items
    }

    /// The number of members.
    pub fn len(&self) -> (r: usize)
        ensures
            r == self@.len(),
    {
        proof {
            use_type_invariant(self);
            texts(self.items@).unique_seq_to_set();
        }
        self.items.len()
    }

    /// Adds `name`; tells whether it was absent.
    pub fn insert(&mut self, name: &str) -> (fresh: bool)
        ensures
            final(self)@ == old(self)@.insert(name@),
            fresh == !old(self)@.contains(name@),
    {
        proof {
            use_type_invariant(&*self);
        }
        if lists(&self.items, name) {
            assert(self@.insert(name@) =~= self@);
            return false;
        }
        let ghost before = self.items@;
        let mut items: Vec<String> = Vec::new();
        std::mem::swap(&mut items, &mut self.items);
        let s = name.to_owned();
        items.push(s);
        proof {
            assert(texts(items@) == texts(before).push(name@));
            assert forall|x: Seq<char>| texts(before).push(name@).to_set().contains(x)
                == texts(before).to_set().insert(name@).contains(x) by {
                if texts(before).contains(x) {
                    let i = texts(before).index_of(x);
                    assert(texts(before).push(name@)[i] == x);
                }
                if x == name@ {
                    assert(texts(before).push(name@)[before.len() as int] == x);
                }
            }
            assert(texts(before).push(name@).to_set() =~= texts(before).to_set().insert(name@));
        }
        self.items = items;
        true
    }

    /// Takes `name` out; tells whether it was present.
    pub fn remove(&mut self, name: &str) -> (found: bool)
        ensures
            final(self)@ == old(self)@.remove(name@),
            found == old(self)@.contains(name@),
    {
        proof {
            use_type_invariant(&*self);
        }
        match position(&self.items, name) {
            None => {
                assert(self@.remove(name@) =~= self@);
                false
            },
            Some(i) => {
                let ghost before = self.items@;
                let mut items: Vec<String> = Vec::new();
                std::mem::swap(&mut items, &mut self.items);
                let _gone = items.remove(i);
                proof {
                    lemma_remove(before, i as int);
                    assert(items@ == before.remove(i as int));
                    assert(texts(before)[i as int] == name@);
                }
                self.items = items;
                true
            },
        }
    }
}

impl Clone for NameSet {
    fn clone(&self) -> (r: NameSet)
        ensures
            r@ == self@,
    {
        proof {
            use_type_invariant(self);
        }
        let items = copy_names(&self.items);
        NameSet { items }
    }
}

/// Removing one entry of a list without repetitions removes its name, and nothing else.
proof fn lemma_remove(v: Seq<String>, i: int)
    requires
        0 <= i < v.len(),
        texts(v).no_duplicates(),
    ensures
        texts(v.remove(i)) == texts(v).remove(i),
        texts(v.remove(i)).no_duplicates(),
        texts(v.remove(i)).to_set() == texts(v).to_set().remove(v[i]@),
{
    let t = texts(v);
    let u = texts(v.remove(i));
    assert(u =~= t.remove(i));
    assert forall|a: int, b: int| 0 <= a < u.len() && 0 <= b < u.len() && a != b implies u[a]
        != u[b] by {
        let a2 = if a < i { a } else { a + 1 };
        let b2 = if b < i { b } else { b + 1 };
        assert(u[a] == t[a2] && u[b] == t[b2]);
    }
    assert forall|x: Seq<char>| u.to_set().contains(x) == t.to_set().remove(v[i]@).contains(x) by {
        if u.contains(x) {
            let a = u.index_of(x);
            let a2 = if a < i { a } else { a + 1 };
            assert(t[a2] == x && a2 != i);
            assert(t[i] == v[i]@);
        }
        if t.contains(x) && x != v[i]@ {
            let a = t.index_of(x);
            assert(a != i);
            let a2 = if a < i { a } else { a - 1 };
            assert(u[a2] == x);
        }
    }
    assert(u.to_set() =~= t.to_set().remove(v[i]@));
}

/// The map that a list of keys and a list of values of the same length stand for.
spec fn entries<V>(keys: Seq<Seq<char>>, vals: Seq<V>) -> Map<Seq<char>, V> {
    Map::new(|k: Seq<char>| keys.contains(k), |k: Seq<char>| vals[keys.index_of(k)])
}

/// A map from names to values.
#[derive(Debug)]
pub struct NameMap<V> {
    keys: Vec<String>,
    vals: Vec<V>,
}

impl<V> View for NameMap<V> {
    type V = Map<Seq<char>, V>;

    closed spec fn view(&self) -> Map<Seq<char>, V> {
        entries(texts(self.keys@), self.vals@)
    }
}

impl<V> NameMap<V> {
    #[verifier::type_invariant]
    spec fn inv(self) -> bool {
        self.keys@.len() == self.vals@.len() && texts(self.keys@).no_duplicates()
    }

    /// The empty map.
    pub fn new() -> (r: NameMap<V>)
        ensures
            r@ == Map::<Seq<char>, V>::empty(),
    {
        let r = NameMap { keys: Vec::new(), vals: Vec::new() };
        assert(r@ =~= Map::<Seq<char>, V>::empty());
        r
    }

    /// A map keyed by names has a finite domain.
    pub proof fn lemma_finite(&self)
        ensures
            self@.dom().finite(),
    {
        vstd::seq_lib::seq_to_set_is_finite(texts(self.keys@));
        assert(self@.dom() =~= texts(self.keys@).to_set());
    }

    /// Whether `name` has a value.
    pub fn contains_key(&self, name: &str) -> (r: bool)
        ensures
            r == self@.contains_key(name@),
    {
        lists(&self.keys, name)
    }

    /// The value of `name`.
    pub fn get(&self, name: &str) -> (r: Option<&V>)
        ensures
            match r {
                Some(v) => self@.contains_key(name@) && *v == self@[name@],
                None => !self@.contains_key(name@),
            },
    {
        proof {
            use_type_invariant(self);
        }
        match position(&self.keys, name) {
            Some(i) => {
                assert(texts(self.keys@)[i as int] == name@);
                assert(texts(self.keys@).index_of(name@) == i);
                Some(&self.vals[i])
            },
            None => None,
        }
    }

    /// The names that have a value, each once.
    pub fn names(&self) -> (r: &Vec<String>)
        ensures
            texts(r@).no_duplicates(),
            texts(r@).to_set() == self@.dom(),
    {
        proof {
            use_type_invariant(self);
            assert(self@.dom() =~= texts(self.keys@).to_set());
        }
        &self.keys
    }

    /// The number of names that have a value.
    pub fn len(&self) -> (r: usize)
        ensures
            r == self@.dom().len(),
    {
        proof {
            use_type_invariant(self);
            texts(self.keys@).unique_seq_to_set();
            assert(self@.dom() =~= texts(self.keys@).to_set());
        }
        self.keys.len()
    }

    /// Gives `name` the value `value`, whether it had one or not.
    pub fn insert(&mut self, name: &str, value: V)
        ensures
            final(self)@ == old(self)@.insert(name@, value),
    {
        proof {
            use_type_invariant(&*self);
        }
        let ghost old_keys = texts(self.keys@);
        let ghost old_vals = self.vals@;
        let at = position(&self.keys, name);
        let mut taken = NameMap { keys: Vec::new(), vals: Vec::new() };
        std::mem::swap(self, &mut taken);
        let NameMap { keys, vals } = taken;
        let mut keys = keys;
        let mut vals = vals;
        match at {
            Some(i) => {
                vals.set(i, value);
                proof {
                    assert(old_keys[i as int] == name@);
                    assert(entries(old_keys, vals@) =~= entries(old_keys, old_vals).insert(
                        name@,
                        value,
                    )) by {
                        assert forall|k: Seq<char>| old_keys.contains(k) implies (entries(
                            old_keys,
                            vals@,
                        )[k] == entries(old_keys, old_vals).insert(name@, value)[k]) by {
                            let j = old_keys.index_of(k);
                            assert(k != name@ ==> j != i);
                        }
                    }
                }
            },
            None => {
                let s = name.to_owned();
                keys.push(s);
                vals.push(value);
                proof {
                    lemma_push(old_keys, old_vals, name@, value);
                    assert(texts(keys@) =~= old_keys.push(name@));
                }
            },
        }
        *self = NameMap { keys, vals };
    }

    /// Takes the entry of `name` out, and hands over its value.
    pub fn remove(&mut self, name: &str) -> (r: Option<V>)
        ensures
            final(self)@ == old(self)@.remove(name@),
            match r {
                Some(v) => old(self)@.contains_key(name@) && v == old(self)@[name@],
                None => !old(self)@.contains_key(name@),
            },
    {
        proof {
            use_type_invariant(&*self);
        }
        match position(&self.keys, name) {
            None => {
                assert(self@.remove(name@) =~= self@);
                None
            },
            Some(i) => {
                let ghost old_keys = self.keys@;
                let ghost old_vals = self.vals@;
                let mut taken = NameMap { keys: Vec::new(), vals: Vec::new() };
                std::mem::swap(self, &mut taken);
                let NameMap { keys, vals } = taken;
                let mut keys = keys;
                let mut vals = vals;
                let _gone = keys.remove(i);
                let v = vals.remove(i);
                proof {
                    lemma_remove(old_keys, i as int);
                    assert(keys@ == old_keys.remove(i as int));
                    assert(texts(old_keys)[i as int] == name@);
                    assert(texts(old_keys).index_of(name@) == i);
                    lemma_remove_entry(texts(old_keys), old_vals, i as int);
                }
                *self = NameMap { keys, vals };
                Some(v)
            },
        }
    }
}

impl<V: Clone> Clone for NameMap<V> {
    fn clone(&self) -> (r: NameMap<V>)
        ensures
            r@.dom() == self@.dom(),
            forall|k: Seq<char>| #[trigger]
                self@.contains_key(k) ==> cloned::<V>(self@[k], r@[k]),
    {
        proof {
            use_type_invariant(self);
        }
        let keys = copy_names(&self.keys);
        let vals = self.vals.clone();
        assert(texts(keys@).len() == texts(self.keys@).len());
        let r = NameMap { keys, vals };
        assert(r@.dom() =~= self@.dom());
        r
    }
}

proof fn lemma_push<V>(keys: Seq<Seq<char>>, vals: Seq<V>, k: Seq<char>, v: V)
    requires
        keys.len() == vals.len(),
        keys.no_duplicates(),
        !keys.contains(k),
    ensures
        keys.push(k).no_duplicates(),
        entries(keys.push(k), vals.push(v)) == entries(keys, vals).insert(k, v),
{
    let nk = keys.push(k);
    let nv = vals.push(v);
    assert forall|x: Seq<char>| nk.contains(x) == (keys.contains(x) || x == k) by {
        if keys.contains(x) {
            assert(nk[keys.index_of(x)] == x);
        }
        assert(nk[keys.len() as int] == k);
    }
    assert forall|x: Seq<char>| nk.contains(x) implies #[trigger] entries(nk, nv)[x] == entries(
        keys,
        vals,
    ).insert(k, v)[x] by {
        let j = nk.index_of(x);
        if x == k {
            assert(nk[keys.len() as int] == k);
            assert(j == keys.len());
        } else {
            assert(nk[keys.index_of(x)] == x);
            assert(j == keys.index_of(x));
        }
    }
    assert(entries(nk, nv) =~= entries(keys, vals).insert(k, v));
}

proof fn lemma_remove_entry<V>(keys: Seq<Seq<char>>, vals: Seq<V>, i: int)
    requires
        keys.len() == vals.len(),
        keys.no_duplicates(),
        0 <= i < keys.len(),
    ensures
        entries(keys.remove(i), vals.remove(i)) == entries(keys, vals).remove(keys[i]),
{
    let nk = keys.remove(i);
    let nv = vals.remove(i);
    let k = keys[i];
    assert forall|x: Seq<char>| nk.contains(x) == (keys.contains(x) && x != k) by {
        if nk.contains(x) {
            let a = nk.index_of(x);
            let a2 = if a < i { a } else { a + 1 };
            assert(keys[a2] == x && a2 != i);
        }
        if keys.contains(x) && x != k {
            let a = keys.index_of(x);
            let a2 = if a < i { a } else { a - 1 };
            assert(nk[a2] == x);
        }
    }
    assert forall|x: Seq<char>| nk.contains(x) implies #[trigger] entries(nk, nv)[x] == entries(
        keys,
        vals,
    ).remove(k)[x] by {
        let a = nk.index_of(x);
        let a2 = if a < i { a } else { a + 1 };
        assert(keys[a2] == x);
        assert(keys.index_of(x) == a2);
    }
    assert(entries(nk, nv) =~= entries(keys, vals).remove(k));
}

} // verus!
