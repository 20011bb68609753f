//! A map keyed by strings, kept as a list of entries in the order their keys
//! were first inserted. No key occurs twice.
use vstd::prelude::*;
use crate::text::str_eq;

verus! {

/// The map that a list of (key, value) pairs describes, later pairs winning.
pub open spec fn map_of_pairs<V>(p: Seq<(Seq<char>, V)>) -> Map<Seq<char>, V>
    decreases p.len(),
{
    if p.len() == 0 {
        Map::empty()
    } else {
        map_of_pairs(p.drop_last()).insert(p.last().0, p.last().1)
    }
}

/// No key occurs twice among the pairs.
pub open spec fn keys_distinct<V>(p: Seq<(Seq<char>, V)>) -> bool {
    forall|i: int, j: int| 0 <= i < p.len() && 0 <= j < p.len() && i != j ==> p[i].0 != p[j].0
}

/// The keys of a list of pairs, in order.
pub open spec fn keys_of<V>(p: Seq<(Seq<char>, V)>) -> Seq<Seq<char>> {
    p.map_values(|e: (Seq<char>, V)| e.0)
}

/// A key is in the described map exactly when some pair has it.
pub proof fn lemma_map_of_pairs_dom<V>(p: Seq<(Seq<char>, V)>, k: Seq<char>)
    ensures
        map_of_pairs(p).dom().contains(k) <==> exists|i: int| 0 <= i < p.len() && p[i].0 == k,
    decreases p.len(),
{
    if p.len() > 0 {
        lemma_map_of_pairs_dom(p.drop_last(), k);
        if map_of_pairs(p).dom().contains(k) && p.last().0 != k {
            let i = choose|i: int| 0 <= i < p.len() - 1 && p.drop_last()[i].0 == k;
            assert(p[i].0 == k);
        }
        if exists|i: int| 0 <= i < p.len() && p[i].0 == k {
            let i = choose|i: int| 0 <= i < p.len() && p[i].0 == k;
            if i < p.len() - 1 {
                assert(p.drop_last()[i].0 == k);
            }
        }
    }
}

/// With distinct keys, the described map gives each pair's value for its key.
pub proof fn lemma_map_of_pairs_index<V>(p: Seq<(Seq<char>, V)>, i: int)
    requires
        keys_distinct(p),
        0 <= i < p.len(),
    ensures
        map_of_pairs(p).dom().contains(p[i].0),
        map_of_pairs(p)[p[i].0] == p[i].1,
    decreases p.len(),
{
    if i < p.len() - 1 {
        assert(keys_distinct(p.drop_last()));
        lemma_map_of_pairs_index(p.drop_last(), i);
        assert(p.drop_last()[i] == p[i]);
        assert(p.last().0 != p[i].0);
    }
}

/// With distinct keys, replacing the value of the pair at `i` updates the map at its key.
pub proof fn lemma_map_of_pairs_update<V>(p: Seq<(Seq<char>, V)>, i: int, v: V)
    requires
        keys_distinct(p),
        0 <= i < p.len(),
    ensures
        map_of_pairs(p.update(i, (p[i].0, v))) == map_of_pairs(p).insert(p[i].0, v),
    decreases p.len(),
{
    let q = p.update(i, (p[i].0, v));
    if i == p.len() - 1 {
        assert(q.drop_last() =~= p.drop_last());
        assert(map_of_pairs(q) =~= map_of_pairs(p).insert(p[i].0, v));
    } else {
        assert(keys_distinct(p.drop_last()));
        lemma_map_of_pairs_update(p.drop_last(), i, v);
        assert(q.drop_last() =~= p.drop_last().update(i, (p[i].0, v)));
        assert(p.last().0 != p[i].0);
        assert(map_of_pairs(q) =~= map_of_pairs(p).insert(p[i].0, v));
    }
}

/// With distinct keys, removing the pair at `i` removes its key from the map.
pub proof fn lemma_map_of_pairs_remove<V>(p: Seq<(Seq<char>, V)>, i: int)
    requires
        keys_distinct(p),
        0 <= i < p.len(),
    ensures
        map_of_pairs(p.remove(i)) == map_of_pairs(p).remove(p[i].0),
    decreases p.len(),
{
    let q = p.remove(i);
    if i == p.len() - 1 {
        assert(q =~= p.drop_last());
        assert forall|k: Seq<char>| #[trigger] map_of_pairs(q).dom().contains(k) implies k != p[i].0 by {
            lemma_map_of_pairs_dom(q, k);
            let j = choose|j: int| 0 <= j < q.len() && q[j].0 == k;
            assert(q[j] == p[j]);
        }
        assert(map_of_pairs(q) =~= map_of_pairs(p).remove(p[i].0));
    } else {
        assert(keys_distinct(p.drop_last()));
        lemma_map_of_pairs_remove(p.drop_last(), i);
        assert(q.drop_last() =~= p.drop_last().remove(i));
        assert(q.last() == p.last());
        assert(p.last().0 != p[i].0);
        assert(map_of_pairs(q) =~= map_of_pairs(p).remove(p[i].0));
    }
}

/// The pairs after setting `k` to `v`: an existing key keeps its place and
/// takes the new value, a new key goes to the end.
pub open spec fn assoc_insert<V>(p: Seq<(Seq<char>, V)>, k: Seq<char>, v: V) -> Seq<(Seq<char>, V)> {
    if keys_of(p).contains(k) {
        p.update(keys_of(p).index_of(k), (k, v))
    } else {
        p.push((k, v))
    }
}

/// The pairs that inserting each of `p` in turn into an empty map leaves.
pub open spec fn collect_pairs<V>(p: Seq<(Seq<char>, V)>) -> Seq<(Seq<char>, V)>
    decreases p.len(),
{
    if p.len() == 0 {
        Seq::empty()
    } else {
        assoc_insert(collect_pairs(p.drop_last()), p.last().0, p.last().1)
    }
}

/// The pairs with each value transformed by `f`.
pub open spec fn map_vals<V, W>(p: Seq<(Seq<char>, V)>, f: spec_fn(V) -> W) -> Seq<(Seq<char>, W)> {
    p.map_values(|e: (Seq<char>, V)| (e.0, f(e.1)))
}

/// With distinct keys, the key at `i` is found at `i`.
pub proof fn lemma_index_of_distinct<V>(p: Seq<(Seq<char>, V)>, i: int)
    requires
        keys_distinct(p),
        0 <= i < p.len(),
    ensures
        keys_of(p).contains(p[i].0),
        keys_of(p).index_of(p[i].0) == i,
{
    let ks = keys_of(p);
    assert(ks[i] == p[i].0);
    let j = ks.index_of(p[i].0);
    assert(ks[j] == p[j].0);
}

/// Transforming values does not change where keys are set.
pub proof fn lemma_assoc_insert_map_vals<V, W>(
    p: Seq<(Seq<char>, V)>,
    k: Seq<char>,
    v: V,
    f: spec_fn(V) -> W,
)
    ensures
        map_vals(assoc_insert(p, k, v), f) == assoc_insert(map_vals(p, f), k, f(v)),
{
    assert(keys_of(map_vals(p, f)) =~= keys_of(p));
    assert(map_vals(assoc_insert(p, k, v), f) =~= assoc_insert(map_vals(p, f), k, f(v)));
}

/// Collecting pairs whose keys are all different gives the same pairs back.
pub proof fn lemma_collect_distinct<V>(p: Seq<(Seq<char>, V)>)
    requires
        keys_distinct(p),
    ensures
        collect_pairs(p) == p,
    decreases p.len(),
{
    if p.len() > 0 {
        let q = p.drop_last();
        assert(keys_distinct(q));
        lemma_collect_distinct(q);
        assert(!keys_of(q).contains(p.last().0)) by {
            if keys_of(q).contains(p.last().0) {
                let j = choose|j: int| 0 <= j < keys_of(q).len() && keys_of(q)[j] == p.last().0;
                assert(p[j].0 == p[p.len() - 1].0);
            }
        }
        assert(q.push(p.last()) =~= p);
    }
}

/// A map from strings to values, keeping the order in which keys were first
/// inserted.
#[derive(Debug)]
pub struct StrMap<V> {
    entries: Vec<(String, V)>,
}

impl<V> StrMap<V> {
    /// The (key, value) pairs in insertion order, keys taken as character sequences.
    pub closed spec fn pairs(&self) -> Seq<(Seq<char>, V)> {
        self.entries@.map_values(|e: (String, V)| (e.0@, e.1))
    }

    /// The map from keys to values.
    pub open spec fn view(&self) -> Map<Seq<char>, V> {
        map_of_pairs(self.pairs())
    }

    #[verifier::type_invariant]
    spec fn wf(self) -> bool {
        keys_distinct(self.pairs())
    }

    /// An empty map.
    pub fn new() -> (m: Self)
        ensures
            m.pairs() == Seq::<(Seq<char>, V)>::empty(),
            m.view() == Map::<Seq<char>, V>::empty(),
            keys_distinct(m.pairs()),
    {
        let m = StrMap { entries: Vec::new() };
        assert(m.pairs() =~= Seq::<(Seq<char>, V)>::empty());
        m
    }

    /// The number of keys.
    pub fn len(&self) -> (n: usize)
        ensures
            n == self.pairs().len(),
    {
        self.entries.len()
    }

    /// The entries in insertion order.
    pub fn entries(&self) -> (e: &Vec<(String, V)>)
        ensures
            keys_distinct(self.pairs()),
            e@.len() == self.pairs().len(),
            forall|i: int|
                0 <= i < e@.len() ==> (#[trigger] e@[i]).0@ == self.pairs()[i].0 && e@[i].1
                    == self.pairs()[i].1,
    {
        proof {
            use_type_invariant(self);
        }
        &self.entries
    }

    /// The position of `key` among the entries, if it is there.
    pub fn position(&self, key: &str) -> (res: Option<usize>)
        ensures
            match res {
                Some(i) => i < self.pairs().len() && self.pairs()[i as int].0 == key@,
                None => !self.view().dom().contains(key@),
            },
            res is None <==> !self.view().dom().contains(key@),
    {
        let mut i: usize = 0;
        while i < self.entries.len()
            invariant
                i <= self.entries@.len(),
                forall|j: int| 0 <= j < i ==> self.pairs()[j].0 != key@,
            decreases self.entries@.len() - i,
        {
            if str_eq(self.entries[i].0.as_str(), key) {
                proof {
                    lemma_map_of_pairs_dom(self.pairs(), key@);
                    assert(self.pairs()[i as int].0 == key@);
                }
                return Some(i);
            }
            i = i + 1;
        }
        proof {
            lemma_map_of_pairs_dom(self.pairs(), key@);
        }
        None
    }

    /// Whether `key` has a value.
    pub fn contains_key(&self, key: &str) -> (res: bool)
        ensures
            res == self.view().dom().contains(key@),
    {
        proof {
            use_type_invariant(self);
        }
        match self.position(key) {
            Some(i) => {
                proof {
                    lemma_map_of_pairs_index(self.pairs(), i as int);
                }
                true
            },
            None => false,
        }
    }

    /// The value of `key`, if it has one.
    pub fn get(&self, key: &str) -> (res: Option<&V>)
        ensures
            match res {
                Some(v) => self.view().dom().contains(key@) && *v == self.view()[key@],
                None => !self.view().dom().contains(key@),
            },
    {
        proof {
            use_type_invariant(self);
        }
        match self.position(key) {
            Some(i) => {
                proof {
                    lemma_map_of_pairs_index(self.pairs(), i as int);
                }
                Some(&self.entries[i].1)
            },
            None => None,
        }
    }

    /// Sets the value of `key`. A new key goes to the end; an existing key keeps
    /// its place and takes the new value.
    pub fn insert(&mut self, key: String, value: V)
        ensures
            keys_distinct(final(self).pairs()),
            final(self).pairs() == assoc_insert(old(self).pairs(), key@, value),
            final(self).view() == old(self).view().insert(key@, value),
            old(self).view().dom().contains(key@) ==> final(self).pairs().len() == old(
                self,
            ).pairs().len(),
            !old(self).view().dom().contains(key@) ==> final(self).pairs() == old(
                self,
            ).pairs().push((key@, value)),
    {
        proof {
            use_type_invariant(&*self);
        }
        let ghost old_pairs = self.pairs();
        let pos = self.position(key.as_str());
        let mut entries: Vec<(String, V)> = Vec::new();
        std::mem::swap(&mut entries, &mut self.entries);
        assert(entries@.map_values(|e: (String, V)| (e.0@, e.1)) == old_pairs);
        match pos {
            Some(i) => {
                let ghost k = key@;
                entries.set(i, (key, value));
                proof {
                    let new_pairs = entries@.map_values(|e: (String, V)| (e.0@, e.1));
                    assert(new_pairs =~= old_pairs.update(i as int, (old_pairs[i as int].0, value)));
                    lemma_map_of_pairs_update(old_pairs, i as int, value);
                    lemma_index_of_distinct(old_pairs, i as int);
                    assert(keys_distinct(new_pairs));
                }
                self.entries = entries;
            },
            None => {
                let ghost k = key@;
                entries.push((key, value));
                proof {
                    let new_pairs = entries@.map_values(|e: (String, V)| (e.0@, e.1));
                    assert(new_pairs =~= old_pairs.push((k, value)));
                    assert(new_pairs.drop_last() =~= old_pairs);
                    assert forall|j: int| 0 <= j < old_pairs.len() implies old_pairs[j].0 != k by {
                        lemma_map_of_pairs_dom(old_pairs, k);
                    }
                    assert(keys_distinct(new_pairs));
                    assert(!keys_of(old_pairs).contains(k));
                }
                self.entries = entries;
            },
        }
    }

    /// Removes `key` and gives back its value, if it had one. The other keys keep
    /// their order.
    pub fn remove(&mut self, key: &str) -> (res: Option<V>)
        ensures
            keys_distinct(final(self).pairs()),
            final(self).view() == old(self).view().remove(key@),
            match res {
                Some(v) => old(self).view().dom().contains(key@) && v == old(self).view()[key@],
                None => !old(self).view().dom().contains(key@),
            },
    {
        proof {
            use_type_invariant(&*self);
        }
        let ghost old_pairs = self.pairs();
        match self.position(key) {
            Some(i) => {
                let mut entries: Vec<(String, V)> = Vec::new();
                std::mem::swap(&mut entries, &mut self.entries);
                assert(entries@.map_values(|e: (String, V)| (e.0@, e.1)) == old_pairs);
                let (_, v) = entries.remove(i);
                proof {
                    let new_pairs = entries@.map_values(|e: (String, V)| (e.0@, e.1));
                    assert(new_pairs =~= old_pairs.remove(i as int));
                    lemma_map_of_pairs_remove(old_pairs, i as int);
                    lemma_map_of_pairs_index(old_pairs, i as int);
                    assert forall|a: int, b: int|
                        0 <= a < new_pairs.len() && 0 <= b < new_pairs.len() && a != b implies new_pairs[a].0
                        != new_pairs[b].0 by {
                        let a2 = if a < i { a } else { a + 1 };
                        let b2 = if b < i { b } else { b + 1 };
                        assert(new_pairs[a] == old_pairs[a2]);
                        assert(new_pairs[b] == old_pairs[b2]);
                    }
                }
                self.entries = entries;
                Some(v)
            },
            None => {
                assert(self.view() =~= old(self).view().remove(key@));
                None
            },
        }
    }

    /// The entries in insertion order, taking the map apart.
    pub fn into_entries(self) -> (e: Vec<(String, V)>)
        ensures
            keys_distinct(self.pairs()),
            e@.len() == self.pairs().len(),
            forall|i: int|
                0 <= i < e@.len() ==> (#[trigger] e@[i]).0@ == self.pairs()[i].0 && e@[i].1
                    == self.pairs()[i].1,
    {
        proof {
            use_type_invariant(&self);
        }
        self.entries
    }
}

impl<V: Copy> StrMap<V> {
    /// A copy of the map, entries in the same order.
    pub fn duplicate(&self) -> (r: Self)
        ensures
            r.pairs() == self.pairs(),
    {
        proof {
            use_type_invariant(self);
        }
        let mut entries: Vec<(String, V)> = Vec::new();
        let mut i: usize = 0;
        while i < self.entries.len()
            invariant
                i <= self.entries@.len(),
                keys_distinct(self.pairs()),
                entries@.map_values(|e: (String, V)| (e.0@, e.1)) == self.pairs().take(i as int),
            decreases self.entries@.len() - i,
        {
            let ghost before = entries@;
            let k = self.entries[i].0.clone();
            let v = self.entries[i].1;
            entries.push((k, v));
            proof {
                assert(entries@ == before.push((k, v)));
                assert(self.pairs()[i as int] == (self.entries@[i as int].0@, self.entries@[i as int].1));
                assert(self.pairs().take(i + 1) =~= self.pairs().take(i as int).push(self.pairs()[i as int]));
                assert(entries@.map_values(|e: (String, V)| (e.0@, e.1)) =~= self.pairs().take(
                    i + 1,
                ));
            }
            i = i + 1;
        }
        assert(self.pairs().take(self.entries@.len() as int) =~= self.pairs());
        StrMap { entries }
    }
}

} // verus!
