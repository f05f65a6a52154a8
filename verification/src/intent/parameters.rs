//! Named parameters of an operation: a finite map from names to values.

use vstd::prelude::*;

verus! {

/// A map from parameter names to values, held as a list of entries in which
/// no name occurs twice.
pub struct Parameters {
    entries: Vec<(String, String)>,
}

/// The entries as pairs of character sequences.
pub open spec fn entry_views(entries: Seq<(String, String)>) -> Seq<(Seq<char>, Seq<char>)> {
    entries.map_values(|e: (String, String)| (e.0@, e.1@))
}

/// No name occurs in two entries.
pub open spec fn names_distinct(es: Seq<(Seq<char>, Seq<char>)>) -> bool {
    forall|i: int, j: int| 0 <= i < es.len() && 0 <= j < es.len() && i != j ==> es[i].0 != es[j].0
}

/// The map that a list of entries with distinct names stands for.
pub open spec fn entries_map(es: Seq<(Seq<char>, Seq<char>)>) -> Map<Seq<char>, Seq<char>> {
    Map::new(
        |k: Seq<char>| exists|i: int| 0 <= i < es.len() && es[i].0 == k,
        |k: Seq<char>| es[choose|i: int| 0 <= i < es.len() && es[i].0 == k].1,
    )
}

impl View for Parameters {
    type V = Map<Seq<char>, Seq<char>>;

    open spec fn view(&self) -> Map<Seq<char>, Seq<char>> {
        entries_map(self.entries())
    }
}

/// Replacing the value of an entry is inserting into the map.
proof fn lemma_update_entry(
    es: Seq<(Seq<char>, Seq<char>)>,
    i: int,
    k: Seq<char>,
    v: Seq<char>,
)
    requires
        names_distinct(es),
        0 <= i < es.len(),
        es[i].0 == k,
    ensures
        names_distinct(es.update(i, (k, v))),
        entries_map(es.update(i, (k, v))) == entries_map(es).insert(k, v),
{
    let ns = es.update(i, (k, v));
    assert forall|j: int| 0 <= j < ns.len() implies #[trigger] ns[j].0 == es[j].0 by {}
    let m = entries_map(ns);
    let m0 = entries_map(es).insert(k, v);
    assert forall|x: Seq<char>| #[trigger] m.contains_key(x) == m0.contains_key(x) by {
        if m0.contains_key(x) && x != k {
            let j = choose|j: int| 0 <= j < es.len() && es[j].0 == x;
            assert(ns[j].0 == x);
        }
        if x == k {
            assert(ns[i].0 == x);
        }
    }
    assert forall|x: Seq<char>| m.contains_key(x) implies #[trigger] m[x] == m0[x] by {
        let j = choose|j: int| 0 <= j < ns.len() && ns[j].0 == x;
        if x == k {
            assert(j == i);
        } else {
            let j0 = choose|j: int| 0 <= j < es.len() && es[j].0 == x;
            assert(ns[j].0 == es[j].0);
            assert(j0 == j);
        }
    }
    assert(m =~= m0);
}

/// Appending an entry with a new name is inserting into the map.
proof fn lemma_push_entry(es: Seq<(Seq<char>, Seq<char>)>, k: Seq<char>, v: Seq<char>)
    requires
        names_distinct(es),
        forall|j: int| 0 <= j < es.len() ==> #[trigger] es[j].0 != k,
    ensures
        names_distinct(es.push((k, v))),
        entries_map(es.push((k, v))) == entries_map(es).insert(k, v),
{
    let ns = es.push((k, v));
    let n = es.len() as int;
    assert forall|j: int| 0 <= j < n implies #[trigger] ns[j] == es[j] by {}
    assert(ns[n] == (k, v));
    let m = entries_map(ns);
    let m0 = entries_map(es).insert(k, v);
    assert forall|x: Seq<char>| #[trigger] m.contains_key(x) == m0.contains_key(x) by {
        if m0.contains_key(x) && x != k {
            let j = choose|j: int| 0 <= j < es.len() && es[j].0 == x;
            assert(ns[j].0 == x);
        }
        if m.contains_key(x) && x != k {
            let j = choose|j: int| 0 <= j < ns.len() && ns[j].0 == x;
            assert(j < n);
            assert(es[j].0 == x);
        }
    }
    assert forall|x: Seq<char>| m.contains_key(x) implies #[trigger] m[x] == m0[x] by {
        let j = choose|j: int| 0 <= j < ns.len() && ns[j].0 == x;
        if x == k {
            assert(j == n);
        } else {
            let j0 = choose|j: int| 0 <= j < es.len() && es[j].0 == x;
            assert(ns[j0].0 == x);
            assert(j0 == j);
        }
    }
    assert(m =~= m0);
}

impl Parameters {
    /// The entries, in the order they were first inserted.
    pub closed spec fn entries(&self) -> Seq<(Seq<char>, Seq<char>)> {
        entry_views(self.entries@)
    }

    #[verifier::type_invariant]
    closed spec fn wf(&self) -> bool {
        names_distinct(self.entries())
    }

    /// An empty map.
    pub fn new() -> (p: Self)
        ensures
            p@ == Map::<Seq<char>, Seq<char>>::empty(),
    {
        let p = Parameters { entries: Vec::new() };
        assert(p@ =~= Map::<Seq<char>, Seq<char>>::empty());
        p
    }

    /// The index of the entry named `key`, if there is one.
    fn find(&self, key: &String) -> (r: Option<usize>)
        ensures
            match r {
                Some(i) => i < self.entries().len() && self.entries()[i as int].0 == key@,
                None => forall|j: int|
                    0 <= j < self.entries().len() ==> #[trigger] self.entries()[j].0 != key@,
            },
    {
        let mut i: usize = 0;
        while i < self.entries.len()
            invariant
                i <= self.entries.len(),
                self.entries().len() == self.entries@.len(),
                forall|j: int| 0 <= j < i ==> #[trigger] self.entries()[j].0 != key@,
            decreases self.entries.len() - i,
        {
            if self.entries[i].0 == *key {
                return Some(i);
            }
            i += 1;
        }
        None
    }

    /// The value of the parameter named `key`.
    pub fn get(&self, key: &String) -> (r: Option<&String>)
        ensures
            match r {
                Some(v) => self@.contains_key(key@) && self@[key@] == v@,
                None => !self@.contains_key(key@),
            },
    {
        proof {
            use_type_invariant(self);
        }
        match self.find(key) {
            Some(i) => {
                proof {
                    let es = self.entries();
                    assert(es[i as int].0 == key@);
                    let j = choose|j: int| 0 <= j < es.len() && es[j].0 == key@;
                    assert(j == i);
                }
                Some(&self.entries[i].1)
            },
            None => None,
        }
    }

    /// Sets the parameter `key` to `value`; returns the value it had before.
    pub fn insert(&mut self, key: String, value: String) -> (r: Option<String>)
        ensures
            final(self)@ == old(self)@.insert(key@, value@),
            match r {
                Some(v) => old(self)@.contains_key(key@) && old(self)@[key@] == v@,
                None => !old(self)@.contains_key(key@),
            },
    {
        proof {
            use_type_invariant(&*self);
        }
        let ghost old_es = self.entries();
        let found = self.find(&key);
        let mut entries: Vec<(String, String)> = Vec::new();
        std::mem::swap(&mut entries, &mut self.entries);
        let ghost new_es;
        let r = match found {
            Some(i) => {
                let previous = entries[i].1.clone();
                entries.set(i, (key, value));
                proof {
                    new_es = entry_views(entries@);
                    assert(new_es =~= old_es.update(i as int, (key@, value@)));
                    lemma_update_entry(old_es, i as int, key@, value@);
                    let j = choose|j: int| 0 <= j < old_es.len() && old_es[j].0 == key@;
                    assert(j == i);
                }
                Some(previous)
            },
            None => {
                entries.push((key, value));
                proof {
                    new_es = entry_views(entries@);
                    assert(new_es =~= old_es.push((key@, value@)));
                    lemma_push_entry(old_es, key@, value@);
                }
                None
            },
        };
        self.entries = entries;
        r
    }
}

} // verus!
