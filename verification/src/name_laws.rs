//! What sets of names, maps keyed by names and lists of names promise, call by call.
use vstd::prelude::*;

use crate::names::{copy_names, lists, texts, NameMap, NameSet};

verus! {

/// Law: a name that was put into a set is in it, all others are as they were; and the set tells
/// whether the name is new.
pub proof fn lemma_set_insert(s: &mut NameSet, name: &str, fresh: bool, other: &str, before: bool)
    requires
        call_ensures(NameSet::contains, (old(s), other), before),
        call_ensures(NameSet::insert, (s, name), fresh),
    ensures
        final(s)@.contains(name@),
        other@ != name@ ==> final(s)@.contains(other@) == before,
        other@ == name@ ==> fresh == !before,
{
}

/// Law: a name that was taken out of a set is not in it, all others are as they were; and the
/// set tells whether the name was there.
pub proof fn lemma_set_remove(s: &mut NameSet, name: &str, found: bool, other: &str, before: bool)
    requires
        call_ensures(NameSet::contains, (old(s), other), before),
        call_ensures(NameSet::remove, (s, name), found),
    ensures
        !final(s)@.contains(name@),
        other@ != name@ ==> final(s)@.contains(other@) == before,
        other@ == name@ ==> found == before,
{
}

/// Law: the empty set holds no name.
pub proof fn lemma_set_empty(s: NameSet, name: &str, r: bool)
    requires
        call_ensures(NameSet::new, (), s),
        call_ensures(NameSet::contains, (&s, name), r),
    ensures
        !r,
{
}

/// Law: the members of a set are listed once each, and nothing else is; the set counts them.
pub proof fn lemma_set_members(s: &NameSet, names: &Vec<String>, n: usize, name: &str, r: bool)
    requires
        call_ensures(NameSet::names, (s,), names),
        call_ensures(NameSet::len, (s,), n),
        call_ensures(NameSet::contains, (s, name), r),
    ensures
        r == texts(names@).contains(name@),
        texts(names@).no_duplicates(),
        n == names@.len(),
{
    texts(names@).unique_seq_to_set();
    assert(texts(names@).to_set().contains(name@) == texts(names@).contains(name@));
    assert(texts(names@).len() == names@.len());
}

/// Law: the empty map has no value for any name, and a lookup finds the value of a name exactly
/// if it has one.
pub proof fn lemma_map_get<V>(
    empty: NameMap<V>,
    m: &NameMap<V>,
    name: &str,
    r: Option<&V>,
)
    requires
        call_ensures(NameMap::<V>::new, (), empty),
        call_ensures(NameMap::<V>::get, (m, name), r),
    ensures
        !empty@.contains_key(name@),
        r is Some <==> m@.contains_key(name@),
        r is Some ==> *r->0 == m@[name@],
{
}

/// Law: a value that was given to a name is found under it, and under all other names what was
/// there before.
pub proof fn lemma_map_insert<V>(
    m: &mut NameMap<V>,
    name: &str,
    value: V,
    other: &str,
)
    requires
        call_ensures(NameMap::<V>::insert, (m, name, value), ()),
    ensures
        final(m)@.contains_key(name@) && final(m)@[name@] == value,
        other@ != name@ ==> final(m)@.contains_key(other@) == old(m)@.contains_key(other@),
        other@ != name@ && old(m)@.contains_key(other@) ==> final(m)@[other@] == old(m)@[other@],
{
}

/// Law: a name that was taken out of a map has no value, and what it had is handed back; all
/// other names keep theirs.
pub proof fn lemma_map_remove<V>(m: &mut NameMap<V>, name: &str, r: Option<V>, other: &str)
    requires
        call_ensures(NameMap::<V>::remove, (m, name), r),
    ensures
        !final(m)@.contains_key(name@),
        r is Some <==> old(m)@.contains_key(name@),
        r is Some ==> r->0 == old(m)@[name@],
        other@ != name@ ==> final(m)@.contains_key(other@) == old(m)@.contains_key(other@),
        other@ != name@ && old(m)@.contains_key(other@) ==> final(m)@[other@] == old(m)@[other@],
{
}

/// Law: a map finds a value exactly for the names that have one, lists these names once each,
/// and counts them.
pub proof fn lemma_map_lookup<V>(
    m: &NameMap<V>,
    name: &str,
    known: bool,
    names: &Vec<String>,
    n: usize,
)
    requires
        call_ensures(NameMap::<V>::contains_key, (m, name), known),
        call_ensures(NameMap::<V>::names, (m,), names),
        call_ensures(NameMap::<V>::len, (m,), n),
    ensures
        known == m@.contains_key(name@),
        known == texts(names@).contains(name@),
        texts(names@).no_duplicates(),
        n == names@.len(),
{
    texts(names@).unique_seq_to_set();
    assert(texts(names@).to_set().contains(name@) == texts(names@).contains(name@));
    assert(texts(names@).len() == names@.len());
}

/// Law: a list holds a name exactly if one of its entries is that name; and a copy of a list has
/// the same entries in the same order.
pub proof fn lemma_lists(items: &Vec<String>, name: &str, r: bool, copy: Vec<String>, i: int)
    requires
        call_ensures(lists, (items, name), r),
        call_ensures(copy_names, (items,), copy),
    ensures
        0 <= i < items@.len() && items@[i]@ == name@ ==> r,
        r ==> exists|k: int| 0 <= k < items@.len() && (#[trigger] items@[k])@ == name@,
        copy@.len() == items@.len(),
        0 <= i < items@.len() ==> copy@[i]@ == items@[i]@,
{
    let t = texts(items@);
    assert(texts(copy@).len() == copy@.len());
    if 0 <= i < items@.len() {
        assert(t[i] == items@[i]@);
        assert(texts(copy@)[i] == copy@[i]@);
    }
    if r {
        let k = t.index_of(name@);
        assert(items@[k]@ == name@);
    }
}

} // verus!
