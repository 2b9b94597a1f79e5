//! A finite map keyed by names, kept as a vector of entries with distinct keys.

use vstd::prelude::*;
use crate::ast::Type;
use crate::text::same_text;

verus! {

pub struct Table<V> {
    entries: Vec<(String, V)>,
}

pub open spec fn key_at<V>(s: Seq<(String, V)>, k: Seq<char>, i: int) -> bool {
    0 <= i < s.len() && s[i].0@ == k
}

/// The map that a sequence of entries with distinct keys denotes.
pub open spec fn entries_map<V>(s: Seq<(String, V)>) -> Map<Seq<char>, V> {
    Map::new(
        |k: Seq<char>| exists|i: int| key_at(s, k, i),
        |k: Seq<char>| s[choose|i: int| key_at(s, k, i)].1,
    )
}

pub open spec fn distinct_keys<V>(s: Seq<(String, V)>) -> bool {
    forall|i: int, j: int| 0 <= i < s.len() && 0 <= j < s.len() && i != j ==> s[i].0@ != s[j].0@
}

/// In a sequence with distinct keys, the entry at `i` gives the map's value for its key.
pub proof fn lemma_entry<V>(s: Seq<(String, V)>, i: int)
    requires
        distinct_keys(s),
        0 <= i < s.len(),
    ensures
        entries_map(s).contains_key(s[i].0@),
        entries_map(s)[s[i].0@] == s[i].1,
{
    assert(key_at(s, s[i].0@, i));
    let j = choose|j: int| key_at(s, s[i].0@, j);
    assert(j == i);
}

impl<V> View for Table<V> {
    type V = Map<Seq<char>, V>;

    closed spec fn view(&self) -> Map<Seq<char>, V> {
        entries_map(self.entries@)
    }
}

impl<V> Table<V> {
    #[verifier::type_invariant]
    spec fn keys_distinct(&self) -> bool {
        distinct_keys(self.entries@)
    }

    /// The entries in the order they are kept; their keys are distinct.
    pub closed spec fn entries(&self) -> Seq<(String, V)> {
        self.entries@
    }

    pub fn new() -> (t: Self)
        ensures
            t@ == Map::<Seq<char>, V>::empty(),
            t.entries().len() == 0,
    {
        let t = Table { entries: Vec::new() };
        assert(t@ =~= Map::<Seq<char>, V>::empty());
        t
    }

    pub fn len(&self) -> (n: usize)
        ensures
            n == self.entries().len(),
            distinct_keys(self.entries()),
            self@ == entries_map(self.entries()),
    {
        proof {
            use_type_invariant(self);
        }
        self.entries.len()
    }

    /// The entry at position `i`.
    pub fn entry(&self, i: usize) -> (e: &(String, V))
        requires
            i < self.entries().len(),
        ensures
            *e == self.entries()[i as int],
    {
        &self.entries[i]
    }

    fn find(&self, k: &str) -> (r: Option<usize>)
        ensures
            match r {
                Some(i) => i < self.entries@.len() && self.entries@[i as int].0@ == k@,
                None => !self@.contains_key(k@),
            },
    {
        let mut i: usize = 0;
        while i < self.entries.len()
            invariant
                i <= self.entries@.len(),
                forall|j: int| 0 <= j < i ==> self.entries@[j].0@ != k@,
            decreases self.entries@.len() - i,
        {
            if same_text(self.entries[i].0.as_str(), k) {
                return Some(i);
            }
            i += 1;
        }
        None
    }

    pub fn contains(&self, k: &str) -> (r: bool)
        ensures
            r == self@.contains_key(k@),
    {
        proof {
            use_type_invariant(self);
        }
        match self.find(k) {
            Some(i) => {
                proof {
                    lemma_entry(self.entries@, i as int);
                }
                true
            },
            None => false,
        }
    }

    pub fn get(&self, k: &str) -> (r: Option<&V>)
        ensures
            match r {
                Some(v) => self@.contains_key(k@) && *v == self@[k@],
                None => !self@.contains_key(k@),
            },
    {
        proof {
            use_type_invariant(self);
        }
        match self.find(k) {
            Some(i) => {
                proof {
                    lemma_entry(self.entries@, i as int);
                }
                Some(&self.entries[i].1)
            },
            None => None,
        }
    }

    pub fn insert(&mut self, k: String, v: V)
        ensures
            final(self)@ == old(self)@.insert(k@, v),
    {
        proof {
            use_type_invariant(&*self);
        }
        let ghost s = self.entries@;
        let ghost kv = k@;
        match self.find(k.as_str()) {
            Some(i) => {
                let ghost s2 = s.update(i as int, (k, v));
                assert(distinct_keys(s2)) by {
                    assert forall|a: int, b: int| 0 <= a < s2.len() && 0 <= b < s2.len() && a != b implies s2[a].0@ != s2[b].0@ by {
                        if a != i && b != i {
                            assert(s2[a] == s[a] && s2[b] == s[b]);
                        }
                    }
                }
                let mut es: Vec<(String, V)> = Vec::new();
                std::mem::swap(&mut es, &mut self.entries);
                es.set(i, (k, v));
                assert(es@ == s2);
                self.entries = es;
                assert(entries_map(s2) =~= entries_map(s).insert(kv, v)) by {
                    assert forall|key: Seq<char>| entries_map(s2).contains_key(key) <==> entries_map(s).insert(kv, v).contains_key(key) by {
                        if key != kv {
                            if exists|j: int| key_at(s, key, j) {
                                let j = choose|j: int| key_at(s, key, j);
                                assert(key_at(s2, key, j));
                            }
                            if exists|j: int| key_at(s2, key, j) {
                                let j = choose|j: int| key_at(s2, key, j);
                                assert(key_at(s, key, j));
                            }
                        } else {
                            assert(key_at(s2, key, i as int));
                        }
                    }
                    assert forall|key: Seq<char>| #[trigger] entries_map(s2).contains_key(key) implies entries_map(s2)[key] == entries_map(s).insert(kv, v)[key] by {
                        let j = choose|j: int| key_at(s2, key, j);
                        lemma_entry(s2, j);
                        if j != i {
                            lemma_entry(s, j);
                        }
                    }
                }
            },
            None => {
                let ghost s2 = s.push((k, v));
                assert(distinct_keys(s2)) by {
                    assert forall|a: int, b: int| 0 <= a < s2.len() && 0 <= b < s2.len() && a != b implies s2[a].0@ != s2[b].0@ by {
                        if a == s.len() as int {
                            assert(!key_at(s, kv, b));
                        } else if b == s.len() as int {
                            assert(!key_at(s, kv, a));
                        }
                    }
                }
                let mut es: Vec<(String, V)> = Vec::new();
                std::mem::swap(&mut es, &mut self.entries);
                es.push((k, v));
                assert(es@ == s2);
                self.entries = es;
                assert(entries_map(s2) =~= entries_map(s).insert(kv, v)) by {
                    assert forall|key: Seq<char>| entries_map(s2).contains_key(key) <==> entries_map(s).insert(kv, v).contains_key(key) by {
                        if key != kv {
                            if exists|j: int| key_at(s, key, j) {
                                let j = choose|j: int| key_at(s, key, j);
                                assert(key_at(s2, key, j));
                            }
                            if exists|j: int| key_at(s2, key, j) {
                                let j = choose|j: int| key_at(s2, key, j);
                                assert(key_at(s, key, j));
                            }
                        } else {
                            assert(key_at(s2, key, s.len() as int));
                        }
                    }
                    assert forall|key: Seq<char>| #[trigger] entries_map(s2).contains_key(key) implies entries_map(s2)[key] == entries_map(s).insert(kv, v)[key] by {
                        let j = choose|j: int| key_at(s2, key, j);
                        lemma_entry(s2, j);
                        if j != s.len() as int {
                            lemma_entry(s, j);
                        }
                    }
                }
            },
        }
    }

    pub fn remove(&mut self, k: &str)
        ensures
            final(self)@ == old(self)@.remove(k@),
    {
        proof {
            use_type_invariant(&*self);
        }
        let ghost s = self.entries@;
        match self.find(k) {
            Some(i) => {
                let ghost s2 = s.remove(i as int);
                assert(forall|j: int| 0 <= j < s2.len() ==> #[trigger] s2[j] == s[if j < i { j } else { j + 1 }]);
                assert(distinct_keys(s2)) by {
                    assert forall|a: int, b: int| 0 <= a < s2.len() && 0 <= b < s2.len() && a != b implies s2[a].0@ != s2[b].0@ by {
                        assert(s2[a] == s[if a < i { a } else { a + 1 }]);
                        assert(s2[b] == s[if b < i { b } else { b + 1 }]);
                    }
                }
                let mut es: Vec<(String, V)> = Vec::new();
                std::mem::swap(&mut es, &mut self.entries);
                es.remove(i);
                assert(es@ == s2);
                self.entries = es;
                assert(entries_map(s2) =~= entries_map(s).remove(k@)) by {
                    assert forall|key: Seq<char>| entries_map(s2).contains_key(key) <==> entries_map(s).remove(k@).contains_key(key) by {
                        if exists|j: int| key_at(s, key, j) {
                            let j = choose|j: int| key_at(s, key, j);
                            if j < i {
                                assert(key_at(s2, key, j));
                            } else if j > i {
                                assert(s2[j - 1] == s[j]);
                                assert(key_at(s2, key, j - 1));
                            }
                        }
                        if exists|j: int| key_at(s2, key, j) {
                            let j = choose|j: int| key_at(s2, key, j);
                            let jj = if j < i { j } else { j + 1 };
                            assert(s2[j] == s[jj]);
                            assert(key_at(s, key, jj));
                            assert(jj != i);
                        }
                    }
                    assert forall|key: Seq<char>| #[trigger] entries_map(s2).contains_key(key) implies entries_map(s2)[key] == entries_map(s).remove(k@)[key] by {
                        let j = choose|j: int| key_at(s2, key, j);
                        lemma_entry(s2, j);
                        let jj = if j < i { j } else { j + 1 };
                        assert(s2[j] == s[jj]);
                        lemma_entry(s, jj);
                    }
                }
            },
            None => {
                assert(entries_map(s) =~= entries_map(s).remove(k@));
            },
        }
    }
}

impl Table<Type> {
    /// A copy of the table.
    pub fn duplicate(&self) -> (r: Self)
        ensures
            r@ == self@,
    {
        proof {
            use_type_invariant(self);
        }
        let mut es: Vec<(String, Type)> = Vec::new();
        let mut i: usize = 0;
        while i < self.entries.len()
            invariant
                i <= self.entries@.len(),
                es@ == self.entries@.take(i as int),
            decreases self.entries@.len() - i,
        {
            es.push((self.entries[i].0.clone(), self.entries[i].1.duplicate()));
            assert(es@ =~= self.entries@.take(i + 1));
            i += 1;
        }
        assert(es@ =~= self.entries@);
        Table { entries: es }
    }
}

impl Table<bool> {
    /// A copy of the table.
    pub fn duplicate(&self) -> (r: Self)
        ensures
            r@ == self@,
    {
        proof {
            use_type_invariant(self);
        }
        let mut es: Vec<(String, bool)> = Vec::new();
        let mut i: usize = 0;
        while i < self.entries.len()
            invariant
                i <= self.entries@.len(),
                es@ == self.entries@.take(i as int),
            decreases self.entries@.len() - i,
        {
            es.push((self.entries[i].0.clone(), self.entries[i].1));
            assert(es@ =~= self.entries@.take(i + 1));
            i += 1;
        }
        assert(es@ =~= self.entries@);
        Table { entries: es }
    }
}

impl Table<()> {
    /// A copy of the table.
    pub fn duplicate(&self) -> (r: Self)
        ensures
            r@ == self@,
    {
        proof {
            use_type_invariant(self);
        }
        let mut es: Vec<(String, ())> = Vec::new();
        let mut i: usize = 0;
        while i < self.entries.len()
            invariant
                i <= self.entries@.len(),
                es@ == self.entries@.take(i as int),
            decreases self.entries@.len() - i,
        {
            es.push((self.entries[i].0.clone(), self.entries[i].1));
            assert(es@ =~= self.entries@.take(i + 1));
            i += 1;
        }
        assert(es@ =~= self.entries@);
        Table { entries: es }
    }
}

} // verus!
