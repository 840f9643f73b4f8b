use vstd::prelude::*;

verus! {

/// No key occurs twice in `s`.
pub open spec fn distinct_keys<V>(s: Seq<(String, V)>) -> bool {
    forall|i: int, j: int|
        0 <= i < s.len() && 0 <= j < s.len() && i != j ==> #[trigger] s[i].0@ != #[trigger] s[j].0@
}

/// Some position of `s` whose key is `k`.
pub open spec fn index_of<V>(s: Seq<(String, V)>, k: Seq<char>) -> int {
    choose|i: int| 0 <= i < s.len() && s[i].0@ == k
}

/// The map from keys to values that the entries `s` stand for.
pub open spec fn entries_map<V>(s: Seq<(String, V)>) -> Map<Seq<char>, V> {
    Map::new(
        |k: Seq<char>| exists|i: int| 0 <= i < s.len() && s[i].0@ == k,
        |k: Seq<char>| s[index_of(s, k)].1,
    )
}

proof fn lemma_lookup<V>(s: Seq<(String, V)>, i: int)
    requires
        distinct_keys(s),
        0 <= i < s.len(),
    ensures
        entries_map(s).contains_key(s[i].0@),
        entries_map(s)[s[i].0@] == s[i].1,
{
    let k = s[i].0@;
    assert(exists|j: int| 0 <= j < s.len() && s[j].0@ == k);
    let j = index_of(s, k);
    assert(j == i);
}

proof fn lemma_set_value<V>(s: Seq<(String, V)>, i: int)
    requires
        distinct_keys(s),
        0 <= i < s.len(),
    ensures
        forall|v: V| #![trigger s.update(i, (s[i].0, v))]
            distinct_keys(s.update(i, (s[i].0, v)))
            && entries_map(s.update(i, (s[i].0, v))) == entries_map(s).insert(s[i].0@, v),
        entries_map(s)[s[i].0@] == s[i].1,
        entries_map(s).contains_key(s[i].0@),
{
    lemma_lookup(s, i);
    assert forall|v: V| #![trigger s.update(i, (s[i].0, v))]
        distinct_keys(s.update(i, (s[i].0, v)))
        && entries_map(s.update(i, (s[i].0, v))) == entries_map(s).insert(s[i].0@, v) by {
        let t = s.update(i, (s[i].0, v));
        assert(distinct_keys(t));
        let m1 = entries_map(t);
        let m2 = entries_map(s).insert(s[i].0@, v);
        assert forall|k: Seq<char>| m1.contains_key(k) <==> m2.contains_key(k) by {
            if k == s[i].0@ {
                assert(t[i].0@ == k);
            } else {
                if exists|j: int| 0 <= j < s.len() && s[j].0@ == k {
                    let j = choose|j: int| 0 <= j < s.len() && s[j].0@ == k;
                    assert(t[j].0@ == k);
                }
                if exists|j: int| 0 <= j < t.len() && t[j].0@ == k {
                    let j = choose|j: int| 0 <= j < t.len() && t[j].0@ == k;
                    assert(s[j].0@ == k);
                }
            }
        }
        assert forall|k: Seq<char>| m1.contains_key(k) implies m1[k] == m2[k] by {
            let j = index_of(t, k);
            if k == s[i].0@ {
                assert(t[i].0@ == k);
                assert(j == i);
            } else {
                assert(s[j].0@ == k);
                lemma_lookup(s, j);
            }
        }
        assert(m1 =~= m2);
    }
}

proof fn lemma_push<V>(s: Seq<(String, V)>, k: String, v: V)
    requires
        distinct_keys(s),
        !entries_map(s).contains_key(k@),
    ensures
        distinct_keys(s.push((k, v))),
        entries_map(s.push((k, v))) == entries_map(s).insert(k@, v),
{
    let t = s.push((k, v));
    assert forall|i: int, j: int|
        0 <= i < t.len() && 0 <= j < t.len() && i != j implies #[trigger] t[i].0@ != #[trigger] t[j].0@ by {
        if i < s.len() && j < s.len() {
            assert(t[i] == s[i] && t[j] == s[j]);
        } else if i < s.len() {
            assert(t[i] == s[i]);
        } else {
            assert(t[j] == s[j]);
        }
    }
    let m1 = entries_map(t);
    let m2 = entries_map(s).insert(k@, v);
    assert forall|q: Seq<char>| m1.contains_key(q) <==> m2.contains_key(q) by {
        if q == k@ {
            assert(t[s.len() as int].0@ == q);
        } else {
            if exists|j: int| 0 <= j < s.len() && s[j].0@ == q {
                let j = choose|j: int| 0 <= j < s.len() && s[j].0@ == q;
                assert(t[j].0@ == q);
            }
            if exists|j: int| 0 <= j < t.len() && t[j].0@ == q {
                let j = choose|j: int| 0 <= j < t.len() && t[j].0@ == q;
                assert(s[j].0@ == q);
            }
        }
    }
    assert forall|q: Seq<char>| m1.contains_key(q) implies m1[q] == m2[q] by {
        let j = index_of(t, q);
        if q == k@ {
            assert(t[s.len() as int].0@ == q);
            lemma_lookup(t, s.len() as int);
        } else {
            assert(t[j].0@ == q);
            assert(j < s.len());
            assert(s[j].0@ == q);
            lemma_lookup(s, j);
            lemma_lookup(t, j);
        }
    }
    assert(m1 =~= m2);
}

proof fn lemma_remove<V>(s: Seq<(String, V)>, i: int)
    requires
        distinct_keys(s),
        0 <= i < s.len(),
    ensures
        distinct_keys(s.remove(i)),
        entries_map(s.remove(i)) == entries_map(s).remove(s[i].0@),
{
    let t = s.remove(i);
    let k = s[i].0@;
    assert forall|a: int, b: int|
        0 <= a < t.len() && 0 <= b < t.len() && a != b implies #[trigger] t[a].0@ != #[trigger] t[b].0@ by {
        let a2 = if a < i { a } else { a + 1 };
        let b2 = if b < i { b } else { b + 1 };
        assert(t[a] == s[a2] && t[b] == s[b2]);
    }
    let m1 = entries_map(t);
    let m2 = entries_map(s).remove(k);
    assert forall|q: Seq<char>| m1.contains_key(q) <==> m2.contains_key(q) by {
        if exists|j: int| 0 <= j < t.len() && t[j].0@ == q {
            let j = choose|j: int| 0 <= j < t.len() && t[j].0@ == q;
            let j2 = if j < i { j } else { j + 1 };
            assert(s[j2].0@ == q);
            assert(j2 != i);
        }
        if q != k && exists|j: int| 0 <= j < s.len() && s[j].0@ == q {
            let j = choose|j: int| 0 <= j < s.len() && s[j].0@ == q;
            assert(j != i);
            let j2 = if j < i { j } else { j - 1 };
            assert(t[j2].0@ == q);
        }
    }
    assert forall|q: Seq<char>| m1.contains_key(q) implies m1[q] == m2[q] by {
        let j = index_of(t, q);
        let j2 = if j < i { j } else { j + 1 };
        assert(s[j2] == t[j]);
        lemma_lookup(s, j2);
        lemma_lookup(t, j);
    }
    assert(m1 =~= m2);
}

/// `keys` with every occurrence of `k` taken out, the others kept in order.
pub open spec fn without_key(keys: Seq<Seq<char>>, k: Seq<char>) -> Seq<Seq<char>>
    decreases keys.len(),
{
    if keys.len() == 0 {
        keys
    } else if keys.last() == k {
        without_key(keys.drop_last(), k)
    } else {
        without_key(keys.drop_last(), k).push(keys.last())
    }
}

proof fn lemma_without_absent(keys: Seq<Seq<char>>, k: Seq<char>)
    requires
        !keys.contains(k),
    ensures
        without_key(keys, k) == keys,
    decreases keys.len(),
{
    if keys.len() > 0 {
        assert(!keys.drop_last().contains(k)) by {
            if keys.drop_last().contains(k) {
                let j = choose|j: int| 0 <= j < keys.drop_last().len() && keys.drop_last()[j] == k;
                assert(keys[j] == k);
            }
        }
        lemma_without_absent(keys.drop_last(), k);
        assert(keys.last() != k) by {
            assert(keys[keys.len() - 1] == keys.last());
        }
        assert(keys.drop_last().push(keys.last()) =~= keys);
    }
}

proof fn lemma_keys_after_remove<V>(s: Seq<(String, V)>, i: int)
    requires
        distinct_keys(s),
        0 <= i < s.len(),
    ensures
        s.remove(i).map_values(|e: (String, V)| e.0@)
            == without_key(s.map_values(|e: (String, V)| e.0@), s[i].0@),
    decreases s.len(),
{
    let ks = s.map_values(|e: (String, V)| e.0@);
    let k = s[i].0@;
    let t = s.remove(i);
    if i == s.len() - 1 {
        assert(t =~= s.drop_last());
        assert(ks.drop_last() =~= t.map_values(|e: (String, V)| e.0@));
        assert(!ks.drop_last().contains(k)) by {
            if ks.drop_last().contains(k) {
                let j = choose|j: int| 0 <= j < ks.drop_last().len() && ks.drop_last()[j] == k;
                assert(s[j].0@ == k);
            }
        }
        lemma_without_absent(ks.drop_last(), k);
    } else {
        let s2 = s.drop_last();
        assert(distinct_keys(s2)) by {
            assert forall|a: int, b: int|
                0 <= a < s2.len() && 0 <= b < s2.len() && a != b implies #[trigger] s2[a].0@ != #[trigger] s2[b].0@ by {
                assert(s2[a] == s[a] && s2[b] == s[b]);
            }
        }
        lemma_keys_after_remove(s2, i);
        assert(s2[i] == s[i]);
        assert(t =~= s2.remove(i).push(s.last()));
        assert(ks.drop_last() =~= s2.map_values(|e: (String, V)| e.0@));
        assert(ks.last() == s.last().0@);
        assert(ks.last() != k) by {
            assert(s[s.len() - 1] == s.last());
        }
        assert(t.map_values(|e: (String, V)| e.0@) =~= s2.remove(i).map_values(|e: (String, V)| e.0@).push(ks.last()));
    }
}

/// A map from string keys to values, kept as a vector of entries in the
/// order in which the keys were first inserted. No key occurs twice.
#[derive(Debug, Clone)]
pub struct KeyedVec<V> {
    entries: Vec<(String, V)>,
}

impl<V> KeyedVec<V> {
    /// The keys, in insertion order.
    pub closed spec fn key_seq(&self) -> Seq<Seq<char>> {
        self.entries@.map_values(|e: (String, V)| e.0@)
    }

    /// No key occurs twice.
    pub closed spec fn wf(&self) -> bool {
        distinct_keys(self.entries@)
    }

    /// The map that the entries stand for.
    pub closed spec fn view_map(&self) -> Map<Seq<char>, V> {
        entries_map(self.entries@)
    }

    /// The keys are listed once each, and they are the keys of the map.
    pub proof fn lemma_keys_are_domain(&self)
        requires
            self.wf(),
        ensures
            self.key_seq().no_duplicates(),
            forall|k: Seq<char>| self.key_seq().contains(k) <==> #[trigger] self.view_map().contains_key(k),
    {
        let ks = self.key_seq();
        assert forall|a: int, b: int| 0 <= a < ks.len() && 0 <= b < ks.len() && a != b implies ks[a] != ks[b] by {
            assert(ks[a] == self.entries@[a].0@ && ks[b] == self.entries@[b].0@);
        }
        assert forall|k: Seq<char>| ks.contains(k) <==> #[trigger] self.view_map().contains_key(k) by {
            if ks.contains(k) {
                let j = choose|j: int| 0 <= j < ks.len() && ks[j] == k;
                assert(self.entries@[j].0@ == k);
            }
            if self.view_map().contains_key(k) {
                let j = choose|j: int| 0 <= j < self.entries@.len() && self.entries@[j].0@ == k;
                assert(ks[j] == k);
            }
        }
    }

    pub fn new() -> (r: Self)
        ensures
            r.wf(),
            r.view_map() == Map::<Seq<char>, V>::empty(),
            r.key_seq() == Seq::<Seq<char>>::empty(),
    {
        let r = KeyedVec { entries: Vec::new() };
        assert(r.view_map() =~= Map::<Seq<char>, V>::empty());
        assert(r.key_seq() =~= Seq::<Seq<char>>::empty());
        r
    }

    fn find(&self, k: &String) -> (r: Option<usize>)
        requires
            self.wf(),
        ensures
            match r {
                Some(i) => i < self.entries@.len() && self.entries@[i as int].0@ == k@,
                None => !self.view_map().contains_key(k@),
            },
    {
        let mut i: usize = 0;
        while i < self.entries.len()
            invariant
                i <= self.entries@.len(),
                forall|j: int| 0 <= j < i ==> self.entries@[j].0@ != k@,
            decreases self.entries@.len() - i,
        {
            if self.entries[i].0 == *k {
                return Some(i);
            }
            i = i + 1;
        }
        None
    }

    pub fn get(&self, k: &String) -> (r: Option<&V>)
        requires
            self.wf(),
        ensures
            match r {
                Some(v) => self.view_map().contains_key(k@) && *v == self.view_map()[k@],
                None => !self.view_map().contains_key(k@),
            },
    {
        match self.find(k) {
            Some(i) => {
                proof {
                    lemma_lookup(self.entries@, i as int);
                }
                Some(&self.entries[i].1)
            },
            None => None,
        }
    }

    pub fn contains_key(&self, k: &String) -> (r: bool)
        requires
            self.wf(),
        ensures
            r == self.view_map().contains_key(k@),
    {
        match self.find(k) {
            Some(i) => {
                proof {
                    lemma_lookup(self.entries@, i as int);
                }
                true
            },
            None => false,
        }
    }

    /// Adds a key that the map does not hold yet, after all others.
    pub fn insert_new(&mut self, k: String, v: V)
        requires
            old(self).wf(),
            !old(self).view_map().contains_key(k@),
        ensures
            final(self).wf(),
            final(self).view_map() == old(self).view_map().insert(k@, v),
            final(self).key_seq() == old(self).key_seq().push(k@),
    {
        proof {
            lemma_push(self.entries@, k, v);
        }
        let ghost k_view = k@;
        self.entries.push((k, v));
        assert(self.key_seq() =~= old(self).key_seq().push(k_view));
    }

    pub fn remove(&mut self, k: &String)
        requires
            old(self).wf(),
        ensures
            final(self).wf(),
            final(self).view_map() == old(self).view_map().remove(k@),
            final(self).key_seq() == without_key(old(self).key_seq(), k@),
    {
        match self.find(k) {
            Some(i) => {
                proof {
                    lemma_remove(self.entries@, i as int);
                }
                proof {
                    lemma_keys_after_remove(self.entries@, i as int);
                }
                self.entries.remove(i);
            },
            None => {
                proof {
                    lemma_without_absent(self.key_seq(), k@);
                }
            },
        }
    }

    /// The keys, in insertion order.
    pub fn keys(&self) -> (r: Vec<String>)
        ensures
            r@.map_values(|s: String| s@) == self.key_seq(),
    {
        let mut r: Vec<String> = Vec::new();
        let mut i: usize = 0;
        while i < self.entries.len()
            invariant
                i <= self.entries@.len(),
                r@.map_values(|s: String| s@) == self.key_seq().take(i as int),
            decreases self.entries@.len() - i,
        {
            r.push(self.entries[i].0.clone());
            assert(self.key_seq().take(i + 1) =~= self.key_seq().take(i as int).push(self.entries@[i as int].0@));
            assert(r@.map_values(|s: String| s@) =~= self.key_seq().take(i + 1));
            i = i + 1;
        }
        assert(self.key_seq().take(i as int) =~= self.key_seq());
        r
    }

    pub fn get_mut(&mut self, k: &String) -> (r: Option<&mut V>)
        requires
            old(self).wf(),
        ensures
            match r {
                Some(v) => {
                    &&& old(self).view_map().contains_key(k@)
                    &&& *v == old(self).view_map()[k@]
                    &&& final(self).wf()
                    &&& final(self).view_map() == old(self).view_map().insert(k@, *final(v))
                    &&& final(self).key_seq() == old(self).key_seq()
                },
                None => {
                    &&& !old(self).view_map().contains_key(k@)
                    &&& *final(self) == *old(self)
                },
            },
    {
        match self.find(k) {
            Some(i) => {
                proof {
                    lemma_set_value(self.entries@, i as int);
                }
                Some(&mut self.entries[i].1)
            },
            None => None,
        }
    }
}

} // verus!
