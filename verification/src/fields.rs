//! An insertion-ordered string map with unique keys.
use vstd::prelude::*;
use crate::text::{owned, str_eq};

verus! {

/// The pairs of a field list, each as its characters.
pub open spec fn pairs_view(entries: Seq<(String, String)>) -> Seq<(Seq<char>, Seq<char>)> {
    entries.map_values(|p: (String, String)| (p.0@, p.1@))
}

/// No key occurs twice.
pub open spec fn unique_keys(s: Seq<(Seq<char>, Seq<char>)>) -> bool {
    forall|i: int, j: int| 0 <= i < s.len() && 0 <= j < s.len() && i != j ==> #[trigger] s[i].0 != #[trigger] s[j].0
}

/// The map that a list of pairs denotes (a later pair wins, which never matters
/// when keys are unique).
pub open spec fn to_map(s: Seq<(Seq<char>, Seq<char>)>) -> Map<Seq<char>, Seq<char>>
    decreases s.len(),
{
    if s.len() == 0 {
        Map::empty()
    } else {
        to_map(s.drop_last()).insert(s.last().0, s.last().1)
    }
}

pub proof fn lemma_to_map_dom(s: Seq<(Seq<char>, Seq<char>)>, k: Seq<char>)
    ensures
        to_map(s).dom().contains(k) <==> exists|i: int| 0 <= i < s.len() && #[trigger] s[i].0 == k,
    decreases s.len(),
{
    if s.len() > 0 {
        lemma_to_map_dom(s.drop_last(), k);
        if to_map(s).dom().contains(k) && s.last().0 != k {
            let i = choose|i: int| 0 <= i < s.drop_last().len() && #[trigger] s.drop_last()[i].0 == k;
            assert(s[i].0 == k);
        }
        if exists|i: int| 0 <= i < s.len() && #[trigger] s[i].0 == k {
            let i = choose|i: int| 0 <= i < s.len() && #[trigger] s[i].0 == k;
            if i < s.len() - 1 {
                assert(s.drop_last()[i].0 == k);
            }
        }
    }
}

pub proof fn lemma_to_map_value(s: Seq<(Seq<char>, Seq<char>)>, i: int)
    requires
        unique_keys(s),
        0 <= i < s.len(),
    ensures
        to_map(s).dom().contains(s[i].0),
        to_map(s)[s[i].0] == s[i].1,
    decreases s.len(),
{
    if i < s.len() - 1 {
        let t = s.drop_last();
        assert(t[i] == s[i]);
        assert(unique_keys(t)) by {
            assert forall|a: int, b: int| 0 <= a < t.len() && 0 <= b < t.len() && a != b implies #[trigger] t[a].0 != #[trigger] t[b].0 by {
                assert(t[a] == s[a] && t[b] == s[b]);
            }
        }
        lemma_to_map_value(t, i);
        assert(s[i].0 != s[s.len() - 1].0);
    }
}

pub proof fn lemma_to_map_update(s: Seq<(Seq<char>, Seq<char>)>, i: int, v: Seq<char>)
    requires
        unique_keys(s),
        0 <= i < s.len(),
    ensures
        to_map(s.update(i, (s[i].0, v))) =~= to_map(s).insert(s[i].0, v),
        unique_keys(s.update(i, (s[i].0, v))),
    decreases s.len(),
{
    let u = s.update(i, (s[i].0, v));
    assert(unique_keys(u)) by {
        assert forall|a: int, b: int| 0 <= a < u.len() && 0 <= b < u.len() && a != b implies #[trigger] u[a].0 != #[trigger] u[b].0 by {
            assert(u[a].0 == s[a].0 && u[b].0 == s[b].0);
        }
    }
    let t = s.drop_last();
    assert(unique_keys(t)) by {
        assert forall|a: int, b: int| 0 <= a < t.len() && 0 <= b < t.len() && a != b implies #[trigger] t[a].0 != #[trigger] t[b].0 by {
            assert(t[a] == s[a] && t[b] == s[b]);
        }
    }
    if i == s.len() - 1 {
        assert(u.drop_last() =~= t);
        lemma_to_map_dom(t, s[i].0);
        assert forall|k: int| 0 <= k < t.len() implies #[trigger] t[k].0 != s[i].0 by {
            assert(t[k] == s[k]);
        }
    } else {
        lemma_to_map_update(t, i, v);
        assert(u.drop_last() =~= t.update(i, (t[i].0, v)));
        assert(s[i].0 != s.last().0);
    }
}

pub proof fn lemma_to_map_remove(s: Seq<(Seq<char>, Seq<char>)>, i: int)
    requires
        unique_keys(s),
        0 <= i < s.len(),
    ensures
        to_map(s.remove(i)) =~= to_map(s).remove(s[i].0),
        unique_keys(s.remove(i)),
    decreases s.len(),
{
    let u = s.remove(i);
    assert(unique_keys(u)) by {
        assert forall|a: int, b: int| 0 <= a < u.len() && 0 <= b < u.len() && a != b implies #[trigger] u[a].0 != #[trigger] u[b].0 by {
            let a2 = if a < i { a } else { a + 1 };
            let b2 = if b < i { b } else { b + 1 };
            assert(u[a] == s[a2] && u[b] == s[b2]);
        }
    }
    let t = s.drop_last();
    assert(unique_keys(t)) by {
        assert forall|a: int, b: int| 0 <= a < t.len() && 0 <= b < t.len() && a != b implies #[trigger] t[a].0 != #[trigger] t[b].0 by {
            assert(t[a] == s[a] && t[b] == s[b]);
        }
    }
    if i == s.len() - 1 {
        assert(u =~= t);
        lemma_to_map_dom(t, s[i].0);
        assert forall|k: int| 0 <= k < t.len() implies #[trigger] t[k].0 != s[i].0 by {
            assert(t[k] == s[k]);
        }
    } else {
        lemma_to_map_remove(t, i);
        assert(u.drop_last() =~= t.remove(i));
        assert(u.last() == s.last());
        assert(s[i].0 != s.last().0);
    }
}

/// Named string fields of a record, kept in insertion order; each key occurs once.
#[derive(Debug)]
pub struct Fields {
    entries: Vec<(String, String)>,
}

impl Fields {
    /// The fields as a map from key to value.
    pub closed spec fn map(&self) -> Map<Seq<char>, Seq<char>> {
        to_map(pairs_view(self.entries@))
    }

    /// The fields in insertion order.
    pub closed spec fn pairs(&self) -> Seq<(Seq<char>, Seq<char>)> {
        pairs_view(self.entries@)
    }

    #[verifier::type_invariant]
    spec fn keys_unique(&self) -> bool {
        unique_keys(pairs_view(self.entries@))
    }

    pub fn new() -> (f: Fields)
        ensures
            f.map() == Map::<Seq<char>, Seq<char>>::empty(),
            f.pairs() == Seq::<(Seq<char>, Seq<char>)>::empty(),
    {
        let f = Fields { entries: Vec::new() };
        assert(pairs_view(f.entries@) =~= Seq::empty());
        f
    }

    pub fn len(&self) -> (n: usize)
        ensures
            n == self.pairs().len(),
    {
        self.entries.len()
    }

    pub fn is_empty(&self) -> (b: bool)
        ensures
            b == (self.pairs().len() == 0),
    {
        self.entries.len() == 0
    }

    /// The position of `key`, if present.
    fn position(&self, key: &str) -> (r: Option<usize>)
        ensures
            match r {
                Some(i) => i < self.pairs().len() && self.pairs()[i as int].0 == key@,
                None => forall|i: int| 0 <= i < self.pairs().len() ==> #[trigger] self.pairs()[i].0 != key@,
            },
    {
        let mut i: usize = 0;
        while i < self.entries.len()
            invariant
                0 <= i <= self.entries.len(),
                forall|j: int| 0 <= j < i ==> #[trigger] pairs_view(self.entries@)[j].0 != key@,
            decreases self.entries.len() - i,
        {
            if str_eq(self.entries[i].0.as_str(), key) {
                return Some(i);
            }
            i = i + 1;
        }
        None
    }

    /// Whether `key` is present.
    pub fn contains_key(&self, key: &str) -> (b: bool)
        ensures
            b == self.map().dom().contains(key@),
    {
        proof { lemma_to_map_dom(self.pairs(), key@); }
        match self.position(key) {
            Some(i) => true,
            None => false,
        }
    }

    /// The value stored under `key`.
    pub fn get(&self, key: &str) -> (r: Option<&String>)
        ensures
            match r {
                Some(v) => self.map().dom().contains(key@) && self.map()[key@] == v@,
                None => !self.map().dom().contains(key@),
            },
    {
        proof { use_type_invariant(self); lemma_to_map_dom(self.pairs(), key@); }
        match self.position(key) {
            Some(i) => {
                proof { lemma_to_map_value(self.pairs(), i as int); }
                Some(&self.entries[i].1)
            },
            None => None,
        }
    }

    /// Sets `key` to `value`: an existing key keeps its place, a new one goes last.
    pub fn insert(&mut self, key: &str, value: &str)
        ensures
            final(self).map() == old(self).map().insert(key@, value@),
            old(self).map().dom().contains(key@) ==> final(self).pairs().len() == old(self).pairs().len(),
            !old(self).map().dom().contains(key@) ==> final(self).pairs() == old(self).pairs().push((key@, value@)),
    {
        proof { use_type_invariant(&*self); lemma_to_map_dom(self.pairs(), key@); }
        match self.position(key) {
            Some(i) => {
                let ghost s = self.pairs();
                proof { lemma_to_map_update(s, i as int, value@); }
                let mut es: Vec<(String, String)> = Vec::new();
                std::mem::swap(&mut es, &mut self.entries);
                es.set(i, (owned(key), owned(value)));
                assert(pairs_view(es@) =~= s.update(i as int, (s[i as int].0, value@)));
                self.entries = es;
            },
            None => {
                let ghost s = self.pairs();
                let mut es: Vec<(String, String)> = Vec::new();
                std::mem::swap(&mut es, &mut self.entries);
                es.push((owned(key), owned(value)));
                assert(pairs_view(es@) =~= s.push((key@, value@)));
                assert(pairs_view(es@).drop_last() =~= s);
                assert(unique_keys(pairs_view(es@))) by {
                    let t = pairs_view(es@);
                    assert forall|a: int, b: int| 0 <= a < t.len() && 0 <= b < t.len() && a != b implies #[trigger] t[a].0 != #[trigger] t[b].0 by {
                        if a < s.len() && b < s.len() {
                            assert(t[a] == s[a] && t[b] == s[b]);
                        } else if a < s.len() {
                            assert(t[a] == s[a]);
                        } else {
                            assert(t[b] == s[b]);
                        }
                    }
                }
                self.entries = es;
            },
        }
    }

    /// Removes `key`, handing back its value if it was present.
    pub fn remove(&mut self, key: &str) -> (r: Option<String>)
        ensures
            final(self).map() == old(self).map().remove(key@),
            r is Some <==> old(self).map().dom().contains(key@),
            r matches Some(v) ==> v@ == old(self).map()[key@],
    {
        proof { use_type_invariant(&*self); lemma_to_map_dom(self.pairs(), key@); }
        match self.position(key) {
            Some(i) => {
                let ghost s = self.pairs();
                proof {
                    lemma_to_map_remove(s, i as int);
                    lemma_to_map_value(s, i as int);
                }
                let mut es: Vec<(String, String)> = Vec::new();
                std::mem::swap(&mut es, &mut self.entries);
                let (_, v) = es.remove(i);
                assert(pairs_view(es@) =~= s.remove(i as int));
                self.entries = es;
                Some(v)
            },
            None => {
                proof {
                    assert(!self.map().dom().contains(key@));
                    assert(self.map().remove(key@) =~= self.map());
                }
                None
            },
        }
    }

    /// The key and value at position `i`.
    pub fn entry(&self, i: usize) -> (r: (&String, &String))
        requires
            i < self.pairs().len(),
        ensures
            r.0@ == self.pairs()[i as int].0,
            r.1@ == self.pairs()[i as int].1,
    {
        (&self.entries[i].0, &self.entries[i].1)
    }
}

impl Clone for Fields {
    fn clone(&self) -> (r: Self)
        ensures
            r.map() == self.map(),
            r.pairs() == self.pairs(),
    {
        proof { use_type_invariant(self); }
        let mut es: Vec<(String, String)> = Vec::new();
        let mut i: usize = 0;
        while i < self.entries.len()
            invariant
                0 <= i <= self.entries.len(),
                pairs_view(es@) == pairs_view(self.entries@).take(i as int),
            decreases self.entries.len() - i,
        {
            let k = self.entries[i].0.clone();
            let v = self.entries[i].1.clone();
            let ghost before = es@;
            es.push((k, v));
            assert(es@ == before.push((k, v)));
            assert(pairs_view(self.entries@)[i as int] == (k@, v@));
            assert(pairs_view(es@) =~= pairs_view(before).push((k@, v@)));
            assert(pairs_view(es@) =~= pairs_view(self.entries@).take(i + 1));
            i = i + 1;
        }
        assert(pairs_view(self.entries@).take(i as int) =~= pairs_view(self.entries@));
        Fields { entries: es }
    }
}

} // verus!
