//! A string-keyed association table with a mathematical map view.
//!
//! The relay registry keeps two of these: one for active sinks and one for
//! pending payloads. Entries are held in a vector of (name, value) pairs
//! whose names are pairwise distinct, so the table denotes a finite map
//! from character sequences to values.

use vstd::prelude::*;

verus! {

/// One named entry of a table.
pub struct Entry<V> {
    name: String,
    value: V,
}

/// A table of named values: at most one value per name.
pub struct NameTable<V> {
    entries: Vec<Entry<V>>,
}

/// The finite map denoted by a sequence of entries; later entries win.
spec fn assoc_map<V>(s: Seq<Entry<V>>) -> Map<Seq<char>, V>
    decreases s.len(),
{
    if s.len() == 0 {
        Map::empty()
    } else {
        assoc_map(s.drop_last()).insert(s.last().name@, s.last().value)
    }
}

/// No two entries share a name.
spec fn distinct_names<V>(s: Seq<Entry<V>>) -> bool {
    forall|i: int, j: int| 0 <= i < j < s.len() ==> s[i].name@ != s[j].name@
}

proof fn lemma_assoc_map_contains<V>(s: Seq<Entry<V>>, k: Seq<char>)
    ensures
        assoc_map(s).contains_key(k) <==> (exists|i: int| 0 <= i < s.len() && s[i].name@ == k),
    decreases s.len(),
{
    if s.len() > 0 {
        lemma_assoc_map_contains(s.drop_last(), k);
        if s.last().name@ == k {
            assert(s[s.len() - 1].name@ == k);
        } else {
            if assoc_map(s).contains_key(k) {
                let i = choose|i: int| 0 <= i < s.drop_last().len() && s.drop_last()[i].name@ == k;
                assert(s[i].name@ == k);
            }
            if exists|i: int| 0 <= i < s.len() && s[i].name@ == k {
                let i = choose|i: int| 0 <= i < s.len() && s[i].name@ == k;
                assert(i < s.len() - 1);
                assert(s.drop_last()[i].name@ == k);
            }
        }
    }
}

proof fn lemma_assoc_map_index<V>(s: Seq<Entry<V>>, i: int)
    requires
        distinct_names(s),
        0 <= i < s.len(),
    ensures
        assoc_map(s).contains_key(s[i].name@),
        assoc_map(s)[s[i].name@] == s[i].value,
    decreases s.len(),
{
    if i < s.len() - 1 {
        lemma_assoc_map_index(s.drop_last(), i);
        assert(s.drop_last()[i] == s[i]);
        assert(s.last().name@ != s[i].name@);
    }
}

proof fn lemma_assoc_map_push<V>(s: Seq<Entry<V>>, e: Entry<V>)
    ensures
        assoc_map(s.push(e)) == assoc_map(s).insert(e.name@, e.value),
{
    assert(s.push(e).drop_last() =~= s);
    assert(s.push(e).last() == e);
}

proof fn lemma_distinct_push<V>(s: Seq<Entry<V>>, e: Entry<V>)
    requires
        distinct_names(s),
        forall|i: int| 0 <= i < s.len() ==> s[i].name@ != e.name@,
    ensures
        distinct_names(s.push(e)),
{
}

proof fn lemma_distinct_remove<V>(s: Seq<Entry<V>>, i: int)
    requires
        distinct_names(s),
        0 <= i < s.len(),
    ensures
        distinct_names(s.remove(i)),
{
    assert forall|a: int, b: int| 0 <= a < b < s.remove(i).len() implies s.remove(i)[a].name@
        != s.remove(i)[b].name@ by {
        let a0 = if a < i { a } else { a + 1 };
        let b0 = if b < i { b } else { b + 1 };
        assert(s.remove(i)[a] == s[a0]);
        assert(s.remove(i)[b] == s[b0]);
    }
}

proof fn lemma_assoc_map_remove<V>(s: Seq<Entry<V>>, i: int)
    requires
        distinct_names(s),
        0 <= i < s.len(),
    ensures
        assoc_map(s.remove(i)) == assoc_map(s).remove(s[i].name@),
    decreases s.len(),
{
    lemma_assoc_map_contains(s.drop_last(), s[i].name@);
    if i == s.len() - 1 {
        assert(s.remove(i) =~= s.drop_last());
        assert(!assoc_map(s.drop_last()).contains_key(s[i].name@));
        assert(assoc_map(s.drop_last()).insert(s.last().name@, s.last().value).remove(s[i].name@)
            =~= assoc_map(s.drop_last()));
    } else {
        assert(distinct_names(s.drop_last()));
        lemma_assoc_map_remove(s.drop_last(), i);
        assert(s.remove(i).drop_last() =~= s.drop_last().remove(i));
        assert(s.remove(i).last() == s.last());
        assert(s.last().name@ != s[i].name@);
        assert(s.drop_last()[i] == s[i]);
        assert(assoc_map(s.drop_last()).remove(s[i].name@).insert(s.last().name@, s.last().value)
            =~= assoc_map(s.drop_last()).insert(s.last().name@, s.last().value).remove(
            s[i].name@,
        ));
        assert(assoc_map(s.remove(i)) =~= assoc_map(s).remove(s[i].name@));
    }
}

impl<V> View for NameTable<V> {
    type V = Map<Seq<char>, V>;

    closed spec fn view(&self) -> Map<Seq<char>, V> {
        assoc_map(self.entries@)
    }
}

impl<V> NameTable<V> {
    /// Names are pairwise distinct, so each name denotes at most one value.
    pub closed spec fn wf(self) -> bool {
        distinct_names(self.entries@)
    }

    /// An empty table.
    pub fn new() -> (t: Self)
        ensures
            t.wf(),
            t@ == Map::<Seq<char>, V>::empty(),
    {
        NameTable { entries: Vec::new() }
    }

    /// The index of the entry named `name`, if there is one.
    fn position_of(&self, name: &String) -> (r: Option<usize>)
        ensures
            match r {
                Some(i) => i < self.entries@.len() && self.entries@[i as int].name@ == name@,
                None => forall|i: int|
                    0 <= i < self.entries@.len() ==> self.entries@[i].name@ != name@,
            },
    {
        let n = self.entries.len();
        let mut i: usize = 0;
        while i < n
            invariant
                n == self.entries@.len(),
                i <= n,
                forall|j: int| 0 <= j < i ==> self.entries@[j].name@ != name@,
            decreases n - i,
        {
            let e = &self.entries[i];
            if e.name == *name {
                return Some(i);
            }
            i = i + 1;
        }
        None
    }

    /// Whether a value is recorded under `name`.
    pub fn contains(&self, name: &str) -> (r: bool)
        ensures
            r == self@.contains_key(name@),
    {
        let key: String = name.to_owned();
        proof {
            lemma_assoc_map_contains(self.entries@, name@);
        }
        self.position_of(&key).is_some()
    }

    /// The value recorded under `name`, if there is one.
    pub fn get(&self, name: &str) -> (r: Option<&V>)
        requires
            self.wf(),
        ensures
            match r {
                Some(v) => self@.contains_key(name@) && *v == self@[name@],
                None => !self@.contains_key(name@),
            },
    {
        let key: String = name.to_owned();
        proof {
            lemma_assoc_map_contains(self.entries@, name@);
        }
        match self.position_of(&key) {
            Some(i) => {
                proof {
                    lemma_assoc_map_index(self.entries@, i as int);
                }
                Some(&self.entries[i].value)
            },
            None => None,
        }
    }

    /// Record `value` under `name`, handing back whatever the name held before.
    pub fn insert(&mut self, name: &str, value: V) -> (r: Option<V>)
        requires
            old(self).wf(),
        ensures
            final(self).wf(),
            final(self)@ == old(self)@.insert(name@, value),
            r == (if old(self)@.contains_key(name@) {
                Some(old(self)@[name@])
            } else {
                None::<V>
            }),
    {
        let key: String = name.to_owned();
        let ghost s0 = self.entries@;
        proof {
            lemma_assoc_map_contains(s0, name@);
        }
        match self.position_of(&key) {
            Some(i) => {
                proof {
                    lemma_assoc_map_index(s0, i as int);
                    lemma_assoc_map_remove(s0, i as int);
                    lemma_distinct_remove(s0, i as int);
                }
                let prior = self.entries.remove(i);
                proof {
                    assert forall|j: int|
                        0 <= j < self.entries@.len() implies self.entries@[j].name@ != name@ by {
                        let j0 = if j < i { j } else { j + 1 };
                        assert(self.entries@[j] == s0[j0]);
                    }
                    lemma_assoc_map_push(self.entries@, Entry { name: key, value });
                    lemma_distinct_push(self.entries@, Entry { name: key, value });
                }
                self.entries.push(Entry { name: key, value });
                proof {
                    assert(self@ =~= assoc_map(s0).insert(name@, value));
                }
                Some(prior.value)
            },
            None => {
                proof {
                    lemma_assoc_map_push(self.entries@, Entry { name: key, value });
                    lemma_distinct_push(self.entries@, Entry { name: key, value });
                }
                self.entries.push(Entry { name: key, value });
                None
            },
        }
    }

    /// Drop whatever `name` holds, handing it back.
    pub fn remove(&mut self, name: &str) -> (r: Option<V>)
        requires
            old(self).wf(),
        ensures
            final(self).wf(),
            final(self)@ == old(self)@.remove(name@),
            r == (if old(self)@.contains_key(name@) {
                Some(old(self)@[name@])
            } else {
                None::<V>
            }),
    {
        let key: String = name.to_owned();
        proof {
            lemma_assoc_map_contains(self.entries@, name@);
        }
        match self.position_of(&key) {
            Some(i) => {
                proof {
                    lemma_assoc_map_index(self.entries@, i as int);
                    lemma_assoc_map_remove(self.entries@, i as int);
                    lemma_distinct_remove(self.entries@, i as int);
                }
                let prior = self.entries.remove(i);
                Some(prior.value)
            },
            None => {
                proof {
                    assert(self@.remove(name@) =~= self@);
                }
                None
            },
        }
    }
}

} // verus!
