//! A map from names to values that keeps each name once.
use vstd::prelude::*;
use crate::lexer::str_eq;

verus! {

/// The map that a sequence of entries stands for: a later entry for a name
/// replaces an earlier one.
pub open spec fn assoc<V: View>(es: Seq<(String, V)>) -> Map<Seq<char>, V::V>
    decreases es.len(),
{
    if es.len() == 0 {
        Map::empty()
    } else {
        assoc(es.drop_last()).insert(es.last().0@, es.last().1@)
    }
}

pub open spec fn names_unique<V>(es: Seq<(String, V)>) -> bool {
    forall|i: int, j: int| 0 <= i < j < es.len() ==> es[i].0@ != es[j].0@
}

proof fn lemma_assoc_absent<V: View>(es: Seq<(String, V)>, k: Seq<char>)
    requires
        forall|i: int| 0 <= i < es.len() ==> es[i].0@ != k,
    ensures
        !assoc(es).contains_key(k),
    decreases es.len(),
{
    if es.len() > 0 {
        lemma_assoc_absent(es.drop_last(), k);
    }
}

proof fn lemma_assoc_at<V: View>(es: Seq<(String, V)>, i: int)
    requires
        names_unique(es),
        0 <= i < es.len(),
    ensures
        assoc(es).contains_key(es[i].0@),
        assoc(es)[es[i].0@] == es[i].1@,
    decreases es.len(),
{
    if i < es.len() - 1 {
        lemma_assoc_at(es.drop_last(), i);
    }
}

proof fn lemma_assoc_update<V: View>(es: Seq<(String, V)>, i: int, e: (String, V))
    requires
        names_unique(es),
        0 <= i < es.len(),
        es[i].0@ == e.0@,
    ensures
        assoc(es.update(i, e)) == assoc(es).insert(e.0@, e.1@),
    decreases es.len(),
{
    let u = es.update(i, e);
    if i == es.len() - 1 {
        assert(u.drop_last() =~= es.drop_last());
        assert(assoc(u) =~= assoc(es).insert(e.0@, e.1@));
    } else {
        assert(u.drop_last() =~= es.drop_last().update(i, e));
        lemma_assoc_update(es.drop_last(), i, e);
        assert(assoc(u) =~= assoc(es).insert(e.0@, e.1@));
    }
}

proof fn lemma_assoc_len<V: View>(es: Seq<(String, V)>)
    requires
        names_unique(es),
    ensures
        assoc(es).dom().finite(),
        assoc(es).dom().len() == es.len(),
    decreases es.len(),
{
    if es.len() > 0 {
        let d = es.drop_last();
        lemma_assoc_len(d);
        lemma_assoc_absent(d, es.last().0@);
    }
}

/// A map from names to values, kept as a sequence of entries with distinct names.
#[derive(Debug)]
pub struct NameMap<V> {
    entries: Vec<(String, V)>,
}

impl<V: View> View for NameMap<V> {
    type V = Map<Seq<char>, V::V>;

    closed spec fn view(&self) -> Map<Seq<char>, V::V> {
        assoc(self.entries@)
    }
}

impl<V> NameMap<V> {
    #[verifier::type_invariant]
    closed spec fn wf(self) -> bool {
        names_unique(self.entries@)
    }
}

impl<V: View> NameMap<V> {
    pub fn new() -> (r: NameMap<V>)
        ensures
            r@ == Map::<Seq<char>, V::V>::empty(),
    {
        NameMap { entries: Vec::new() }
    }

    /// The number of names in the map.
    pub fn len(&self) -> (r: usize)
        ensures
            self@.dom().finite(),
            r == self@.dom().len(),
    {
        proof {
            use_type_invariant(self);
            lemma_assoc_len(self.entries@);
        }
        self.entries.len()
    }

    /// The index of the entry for `name`, if there is one.
    fn find(&self, name: &str) -> (r: Option<usize>)
        ensures
            match r {
                Some(i) => i < self.entries@.len() && self.entries@[i as int].0@ == name@,
                None => forall|i: int|
                    0 <= i < self.entries@.len() ==> self.entries@[i].0@ != name@,
            },
    {
        let mut i: usize = 0;
        while i < self.entries.len()
            invariant
                i <= self.entries@.len(),
                forall|k: int| 0 <= k < i ==> self.entries@[k].0@ != name@,
            decreases self.entries@.len() - i,
        {
            if str_eq(self.entries[i].0.as_str(), name) {
                return Some(i);
            }
            i = i + 1;
        }
        None
    }

    /// The value stored under `name`.
    pub fn get(&self, name: &str) -> (r: Option<&V>)
        ensures
            self@.contains_key(name@) ==> r is Some && r->Some_0@ == self@[name@],
            !self@.contains_key(name@) ==> r is None,
    {
        proof {
            use_type_invariant(self);
        }
        match self.find(name) {
            Some(i) => {
                proof {
                    lemma_assoc_at(self.entries@, i as int);
                }
                Some(&self.entries[i].1)
            },
            None => {
                proof {
                    lemma_assoc_absent(self.entries@, name@);
                }
                None
            },
        }
    }

    /// Whether `name` has a value in the map.
    pub fn contains(&self, name: &str) -> (r: bool)
        ensures
            r == self@.contains_key(name@),
    {
        self.get(name).is_some()
    }

    /// Stores `value` under `name`, replacing what was stored there.
    pub fn insert(&mut self, name: String, value: V)
        ensures
            final(self)@ == old(self)@.insert(name@, value@),
    {
        proof {
            use_type_invariant(&*self);
        }
        let found = self.find(name.as_str());
        let mut es: Vec<(String, V)> = Vec::new();
        std::mem::swap(&mut es, &mut self.entries);
        let ghost old_es = es@;
        match found {
            Some(i) => {
                proof {
                    lemma_assoc_update(old_es, i as int, (name, value));
                }
                es.set(i, (name, value));
                assert(names_unique(es@)) by {
                    assert forall|a: int, b: int| 0 <= a < b < es@.len() implies es@[a].0@
                        != es@[b].0@ by {
                        assert(old_es[a].0@ != old_es[b].0@);
                    }
                }
            },
            None => {
                es.push((name, value));
                assert(es@.drop_last() =~= old_es);
            },
        }
        self.entries = es;
    }

    /// Moves every entry of `other` into this map; where both hold a name,
    /// the value from `other` is kept.
    pub fn extend(&mut self, other: NameMap<V>)
        ensures
            final(self)@ == old(self)@.union_prefer_right(other@),
    {
        proof {
            use_type_invariant(&other);
        }
        let ghost start = self@;
        let ghost all = other.entries@;
        let mut rest = other.entries;
        let total = rest.len();
        let mut taken: usize = 0;
        assert(all.take(0) =~= Seq::<(String, V)>::empty());
        assert(start.union_prefer_right(Map::empty()) =~= start);
        while rest.len() > 0
            invariant
                taken <= all.len(),
                all.len() == total,
                rest@ == all.skip(taken as int),
                self@ == start.union_prefer_right(assoc(all.take(taken as int))),
            decreases rest@.len(),
        {
            let ghost before = self@;
            assert(taken < all.len());
            let e = rest.remove(0);
            assert(e == all[taken as int]);
            self.insert(e.0, e.1);
            assert(all.take(taken + 1 as int).drop_last() =~= all.take(taken as int));
            assert(self@ =~= start.union_prefer_right(assoc(all.take(taken + 1 as int))));
            assert(rest@ =~= all.skip(taken + 1 as int));
            taken = taken + 1;
        }
        assert(all.take(taken as int) =~= all);
    }
}

} // verus!
