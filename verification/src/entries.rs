//! Name-keyed association lists.
//!
//! Sinks, labels, per-location occurrence counts and check rates are all
//! mappings keyed by a string. They are stored as vectors of [`Entry`]
//! values and read through their abstraction [`entries_map`]: the first
//! entry with a given name decides that name's value, so a later shadowed
//! duplicate never shows through. Updates rewrite the first occurrence in
//! place or append a new entry at the end.

use vstd::prelude::*;
use vstd::string::StringExecFns;
use crate::paths::str_eq;

verus! {

/// One named entry of an association list.
#[derive(Debug, Clone)]
pub struct Entry<V> {
    pub name: String,
    pub value: V,
}

/// The mapping an association list stands for: the first entry with a name
/// decides its value.
pub open spec fn entries_map<V>(s: Seq<Entry<V>>) -> Map<Seq<char>, V>
    decreases s.len(),
{
    if s.len() == 0 {
        Map::empty()
    } else {
        entries_map(s.skip(1)).insert(s[0].name@, s[0].value)
    }
}

/// A name is in the mapping exactly when some entry carries it.
pub proof fn lemma_entries_map_dom<V>(s: Seq<Entry<V>>, n: Seq<char>)
    ensures
        entries_map(s).contains_key(n) <==> exists|j: int| 0 <= j < s.len() && s[j].name@ == n,
    decreases s.len(),
{
    if s.len() > 0 {
        lemma_entries_map_dom(s.skip(1), n);
        if exists|j: int| 0 <= j < s.skip(1).len() && s.skip(1)[j].name@ == n {
            let j = choose|j: int| 0 <= j < s.skip(1).len() && s.skip(1)[j].name@ == n;
            assert(s[j + 1].name@ == n);
        }
        if s[0].name@ != n && exists|j: int| 0 <= j < s.len() && s[j].name@ == n {
            let j = choose|j: int| 0 <= j < s.len() && s[j].name@ == n;
            assert(s.skip(1)[j - 1].name@ == n);
        }
    }
}

/// The first entry with a name gives the mapping's value for it.
pub proof fn lemma_entries_map_first<V>(s: Seq<Entry<V>>, i: int)
    requires
        0 <= i < s.len(),
        forall|j: int| 0 <= j < i ==> s[j].name@ != s[i].name@,
    ensures
        entries_map(s).contains_key(s[i].name@),
        entries_map(s)[s[i].name@] == s[i].value,
    decreases s.len(),
{
    if i > 0 {
        assert(s.skip(1)[i - 1] == s[i]);
        lemma_entries_map_first(s.skip(1), i - 1);
    }
}

/// Rewriting the first entry with a name updates the mapping at that name
/// alone.
pub proof fn lemma_entries_map_update<V>(s: Seq<Entry<V>>, i: int, e: Entry<V>)
    requires
        0 <= i < s.len(),
        forall|j: int| 0 <= j < i ==> s[j].name@ != s[i].name@,
        e.name@ == s[i].name@,
    ensures
        entries_map(s.update(i, e)) =~= entries_map(s).insert(e.name@, e.value),
    decreases s.len(),
{
    let n = s[i].name@;
    if i == 0 {
        assert(s.update(0, e).skip(1) =~= s.skip(1));
    } else {
        assert(s.update(i, e).skip(1) =~= s.skip(1).update(i - 1, e));
        assert(s.skip(1)[i - 1] == s[i]);
        lemma_entries_map_update(s.skip(1), i - 1, e);
        assert(s.update(i, e)[0] == s[0]);
    }
}

/// Appending an entry with a fresh name extends the mapping by that name.
pub proof fn lemma_entries_map_push<V>(s: Seq<Entry<V>>, e: Entry<V>)
    requires
        forall|j: int| 0 <= j < s.len() ==> s[j].name@ != e.name@,
    ensures
        entries_map(s.push(e)) =~= entries_map(s).insert(e.name@, e.value),
    decreases s.len(),
{
    let t = s.push(e);
    if s.len() == 0 {
        assert(t[0] == e);
        assert(t.skip(1) =~= Seq::<Entry<V>>::empty());
        assert(entries_map(t) == entries_map(t.skip(1)).insert(t[0].name@, t[0].value));
        assert(entries_map(t) =~= entries_map(s).insert(e.name@, e.value));
    } else {
        assert(t.skip(1) =~= s.skip(1).push(e));
        assert(forall|j: int| 0 <= j < s.skip(1).len() ==> s.skip(1)[j].name@ != e.name@);
        lemma_entries_map_push(s.skip(1), e);
        assert(t[0] == s[0]);
        let m1 = entries_map(s.skip(1));
        assert(entries_map(t) == entries_map(t.skip(1)).insert(t[0].name@, t[0].value));
        assert(entries_map(t.skip(1)) =~= m1.insert(e.name@, e.value));
        assert(entries_map(s) == m1.insert(s[0].name@, s[0].value));
        assert(s[0].name@ != e.name@);
        assert(m1.insert(e.name@, e.value).insert(s[0].name@, s[0].value) =~= m1.insert(
            s[0].name@,
            s[0].value,
        ).insert(e.name@, e.value));
        assert(entries_map(t) =~= entries_map(s).insert(e.name@, e.value));
    }
}

/// Appending an entry whose name an earlier entry already carries leaves
/// the mapping as it was.
pub proof fn lemma_entries_map_push_shadowed<V>(s: Seq<Entry<V>>, e: Entry<V>)
    requires
        exists|j: int| 0 <= j < s.len() && s[j].name@ == e.name@,
    ensures
        entries_map(s.push(e)) =~= entries_map(s),
    decreases s.len(),
{
    let t = s.push(e);
    assert(t.skip(1) =~= s.skip(1).push(e));
    assert(t[0] == s[0]);
    if s[0].name@ == e.name@ {
        if exists|j: int| 0 <= j < s.skip(1).len() && s.skip(1)[j].name@ == e.name@ {
            lemma_entries_map_push_shadowed(s.skip(1), e);
        } else {
            lemma_entries_map_push(s.skip(1), e);
            assert(entries_map(s.skip(1)).insert(e.name@, e.value).insert(s[0].name@, s[0].value)
                =~= entries_map(s.skip(1)).insert(s[0].name@, s[0].value));
        }
    } else {
        let j = choose|j: int| 0 <= j < s.len() && s[j].name@ == e.name@;
        assert(s.skip(1)[j - 1].name@ == e.name@);
        lemma_entries_map_push_shadowed(s.skip(1), e);
    }
}

/// A copy of an association list with plain-copy values, equal entry by
/// entry.
pub fn clone_entries<V: Copy>(s: &Vec<Entry<V>>) -> (r: Vec<Entry<V>>)
    ensures
        r@ == s@,
{
    let mut r: Vec<Entry<V>> = Vec::new();
    let mut i: usize = 0;
    proof {
        assert(r@ =~= s@.take(0));
    }
    while i < s.len()
        invariant
            i <= s@.len(),
            r@ == s@.take(i as int),
        decreases s@.len() - i,
    {
        r.push(Entry { name: s[i].name.clone(), value: s[i].value });
        proof {
            assert(r@ =~= s@.take(i as int + 1));
        }
        i = i + 1;
    }
    proof {
        assert(s@.take(s@.len() as int) =~= s@);
    }
    r
}

/// Index of the first entry named `name`, if any.
pub fn entry_find<V>(s: &Vec<Entry<V>>, name: &str) -> (r: Option<usize>)
    ensures
        match r {
            Some(i) => i < s@.len() && s@[i as int].name@ == name@ && (forall|j: int|
                0 <= j < i ==> s@[j].name@ != name@),
            None => forall|j: int| 0 <= j < s@.len() ==> s@[j].name@ != name@,
        },
{
    let mut i: usize = 0;
    while i < s.len()
        invariant
            i <= s@.len(),
            forall|j: int| 0 <= j < i ==> s@[j].name@ != name@,
        decreases s@.len() - i,
    {
        if str_eq(s[i].name.as_str(), name) {
            return Some(i);
        }
        i = i + 1;
    }
    None
}

/// The value recorded under `name`, if any.
pub fn entry_get<V: Copy>(s: &Vec<Entry<V>>, name: &str) -> (r: Option<V>)
    ensures
        match r {
            Some(v) => entries_map(s@).contains_key(name@) && entries_map(s@)[name@] == v,
            None => !entries_map(s@).contains_key(name@),
        },
{
    proof {
        lemma_entries_map_dom(s@, name@);
    }
    match entry_find(s, name) {
        Some(i) => {
            proof {
                lemma_entries_map_first(s@, i as int);
            }
            Some(s[i].value)
        },
        None => None,
    }
}

/// Sets `name` to `value`: rewrites the first entry with that name, or
/// appends one. The mapping gains or changes that one name; an existing
/// entry keeps its place, a new one goes to the end.
pub fn entry_set<V>(s: &mut Vec<Entry<V>>, name: &str, value: V)
    ensures
        entries_map(final(s)@) == entries_map(old(s)@).insert(name@, value),
        entries_map(old(s)@).contains_key(name@) ==> {
            &&& final(s)@.len() == old(s)@.len()
            &&& exists|i: int|
                0 <= i < old(s)@.len() && final(s)@[i].name@ == name@ && final(s)@[i].value
                    == value && (forall|j: int|
                    0 <= j < final(s)@.len() && j != i ==> final(s)@[j] == old(s)@[j])
        },
        !entries_map(old(s)@).contains_key(name@) ==> {
            &&& final(s)@.len() == old(s)@.len() + 1
            &&& final(s)@.take(old(s)@.len() as int) == old(s)@
            &&& final(s)@.last().name@ == name@
            &&& final(s)@.last().value == value
        },
{
    proof {
        lemma_entries_map_dom(old(s)@, name@);
    }
    match entry_find(s, name) {
        Some(i) => {
            let e = Entry { name: String::from_str(name), value };
            proof {
                lemma_entries_map_update(s@, i as int, e);
            }
            s[i] = e;
        },
        None => {
            let e = Entry { name: String::from_str(name), value };
            proof {
                lemma_entries_map_push(s@, e);
            }
            s.push(e);
            proof {
                assert(s@.take(old(s)@.len() as int) =~= old(s)@);
            }
        },
    }
}

} // verus!
