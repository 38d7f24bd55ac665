use vstd::prelude::*;

verus! {

/// Whether the first components of `entries` are pairwise distinct (as text).
pub open spec fn distinct_keys<V>(entries: Seq<(String, V)>) -> bool {
    forall|i: int, j: int|
        #![trigger entries[i], entries[j]]
        0 <= i < j < entries.len() ==> entries[i].0@ != entries[j].0@
}

/// The entries as a map from key text to value.
pub open spec fn entries_map<V>(entries: Seq<(String, V)>) -> Map<Seq<char>, V>
    decreases entries.len(),
{
    if entries.len() == 0 {
        Map::empty()
    } else {
        entries_map(entries.drop_last()).insert(entries.last().0@, entries.last().1)
    }
}

/// A finite map from text keys to values, kept as a list of entries with
/// distinct keys in the order the keys were first inserted.
pub struct Table<V> {
    entries: Vec<(String, V)>,
}

impl<V> Table<V> {
    pub closed spec fn wf(&self) -> bool {
        distinct_keys(self.entries@)
    }

    /// The entries, in insertion order of their keys.
    pub closed spec fn entry_seq(&self) -> Seq<(String, V)> {
        self.entries@
    }

    pub open spec fn view(&self) -> Map<Seq<char>, V> {
        entries_map(self.entry_seq())
    }

    pub proof fn lemma_map_lookup(entries: Seq<(String, V)>, i: int)
        requires
            distinct_keys(entries),
            0 <= i < entries.len(),
        ensures
            entries_map(entries).contains_key(entries[i].0@),
            entries_map(entries)[entries[i].0@] == entries[i].1,
        decreases entries.len(),
    {
        let d = entries.drop_last();
        if i < entries.len() - 1 {
            assert(d[i] == entries[i]);
            assert(distinct_keys(d)) by {
                assert forall|a: int, b: int| #![trigger d[a], d[b]] 0 <= a < b < d.len() implies d[a].0@ != d[b].0@ by {
                    assert(d[a] == entries[a] && d[b] == entries[b]);
                }
            }
            Self::lemma_map_lookup(d, i);
            assert(entries[i].0@ != entries.last().0@);
        }
    }

    pub proof fn lemma_map_absent(entries: Seq<(String, V)>, key: Seq<char>)
        requires
            forall|i: int| 0 <= i < entries.len() ==> #[trigger] entries[i].0@ != key,
        ensures
            !entries_map(entries).contains_key(key),
        decreases entries.len(),
    {
        if entries.len() > 0 {
            let d = entries.drop_last();
            assert forall|i: int| 0 <= i < d.len() implies #[trigger] d[i].0@ != key by {
                assert(d[i] == entries[i]);
            }
            Self::lemma_map_absent(d, key);
            assert(entries[entries.len() - 1].0@ != key);
        }
    }

    pub proof fn lemma_len(&self)
        requires
            self.wf(),
        ensures
            self.view().dom().finite(),
            self.view().dom().len() == self.entry_seq().len(),
    {
        lemma_entries_map_len(self.entries@);
    }

    pub fn new() -> (t: Self)
        ensures
            t.wf(),
            t.view() == Map::<Seq<char>, V>::empty(),
            t.entry_seq().len() == 0,
    {
        Table { entries: Vec::new() }
    }

    pub fn len(&self) -> (n: usize)
        ensures
            n == self.entry_seq().len(),
    {
        self.entries.len()
    }

    /// The index of the entry with key `key`, if any.
    pub fn index_of(&self, key: &str) -> (r: Option<usize>)
        requires
            self.wf(),
        ensures
            r matches Some(i) ==> i < self.entry_seq().len() && self.entry_seq()[i as int].0@ == key@,
            r is None ==> forall|i: int| 0 <= i < self.entry_seq().len() ==> #[trigger] self.entry_seq()[i].0@ != key@,
            r is None <==> !self.view().contains_key(key@),
    {
        let mut i: usize = 0;
        while i < self.entries.len()
            invariant
                self.wf(),
                i <= self.entries@.len(),
                forall|k: int| 0 <= k < i ==> #[trigger] self.entries@[k].0@ != key@,
            decreases self.entries.len() - i,
        {
            if str_equal(self.entries[i].0.as_str(), key) {
                proof {
                    Self::lemma_map_lookup(self.entries@, i as int);
                }
                return Some(i);
            }
            i = i + 1;
        }
        proof {
            Self::lemma_map_absent(self.entries@, key@);
        }
        None
    }

    pub fn contains_key(&self, key: &str) -> (r: bool)
        requires
            self.wf(),
        ensures
            r == self.view().contains_key(key@),
    {
        self.index_of(key).is_some()
    }

    pub fn get(&self, key: &str) -> (r: Option<&V>)
        requires
            self.wf(),
        ensures
            r is Some <==> self.view().contains_key(key@),
            r matches Some(v) ==> *v == self.view()[key@],
    {
        match self.index_of(key) {
            Some(i) => {
                proof {
                    Self::lemma_map_lookup(self.entries@, i as int);
                }
                Some(&self.entries[i].1)
            },
            None => None,
        }
    }

    /// The key and value of the `i`-th entry.
    pub fn entry(&self, i: usize) -> (r: (&String, &V))
        requires
            i < self.entry_seq().len(),
        ensures
            *r.0 == self.entry_seq()[i as int].0,
            *r.1 == self.entry_seq()[i as int].1,
    {
        (&self.entries[i].0, &self.entries[i].1)
    }

    /// Sets the value of `key`: replaces the value in place when the key is
    /// present, else appends a new entry.
    pub fn insert(&mut self, key: String, value: V)
        requires
            old(self).wf(),
        ensures
            final(self).wf(),
            final(self).view() == old(self).view().insert(key@, value),
            old(self).view().contains_key(key@) ==> final(self).entry_seq().len() == old(self).entry_seq().len(),
            !old(self).view().contains_key(key@) ==> final(self).entry_seq() == old(self).entry_seq().push((key, value)),
    {
        match self.index_of(key.as_str()) {
            Some(i) => {
                let ghost old_entries = self.entries@;
                self.entries.set(i, (key, value));
                proof {
                    let e = self.entries@;
                    assert(distinct_keys(e)) by {
                        assert forall|a: int, b: int| #![trigger e[a], e[b]] 0 <= a < b < e.len() implies e[a].0@ != e[b].0@ by {
                            assert(old_entries[a].0@ == e[a].0@);
                            assert(old_entries[b].0@ == e[b].0@);
                        }
                    }
                    Self::lemma_set_map(old_entries, i as int, (key, value));
                }
            },
            None => {
                let ghost old_entries = self.entries@;
                self.entries.push((key, value));
                proof {
                    let e = self.entries@;
                    assert(e.drop_last() =~= old_entries);
                    assert(distinct_keys(e)) by {
                        assert forall|a: int, b: int| #![trigger e[a], e[b]] 0 <= a < b < e.len() implies e[a].0@ != e[b].0@ by {
                            if b < e.len() - 1 {
                                assert(old_entries[a] == e[a] && old_entries[b] == e[b]);
                            } else {
                                assert(old_entries[a] == e[a]);
                            }
                        }
                    }
                }
            },
        }
    }

    proof fn lemma_set_map(entries: Seq<(String, V)>, i: int, kv: (String, V))
        requires
            distinct_keys(entries),
            0 <= i < entries.len(),
            entries[i].0@ == kv.0@,
        ensures
            entries_map(entries.update(i, kv)) == entries_map(entries).insert(kv.0@, kv.1),
        decreases entries.len(),
    {
        let u = entries.update(i, kv);
        let d = entries.drop_last();
        assert(distinct_keys(d)) by {
            assert forall|a: int, b: int| #![trigger d[a], d[b]] 0 <= a < b < d.len() implies d[a].0@ != d[b].0@ by {
                assert(d[a] == entries[a] && d[b] == entries[b]);
            }
        }
        if i == entries.len() - 1 {
            assert(u.drop_last() =~= d);
            assert(entries_map(u) == entries_map(d).insert(kv.0@, kv.1));
            assert(entries_map(entries) == entries_map(d).insert(entries.last().0@, entries.last().1));
            assert(entries_map(u) =~= entries_map(entries).insert(kv.0@, kv.1));
        } else {
            assert(u.drop_last() =~= d.update(i, kv));
            Self::lemma_set_map(d, i, kv);
            assert(entries[i].0@ != entries.last().0@);
            assert(u.last() == entries.last());
            assert(entries_map(u) =~= entries_map(entries).insert(kv.0@, kv.1));
        }
    }
}

/// With distinct keys, the map has one key per entry.
pub proof fn lemma_entries_map_len<V>(entries: Seq<(String, V)>)
    requires
        distinct_keys(entries),
    ensures
        entries_map(entries).dom().finite(),
        entries_map(entries).dom().len() == entries.len(),
    decreases entries.len(),
{
    if entries.len() > 0 {
        let d = entries.drop_last();
        assert(distinct_keys(d)) by {
            assert forall|a: int, b: int| #![trigger d[a], d[b]] 0 <= a < b < d.len() implies d[a].0@ != d[b].0@ by {
                assert(d[a] == entries[a] && d[b] == entries[b]);
            }
        }
        lemma_entries_map_len(d);
        assert forall|i: int| 0 <= i < d.len() implies #[trigger] d[i].0@ != entries.last().0@ by {
            assert(d[i] == entries[i]);
        }
        Table::<V>::lemma_map_absent(d, entries.last().0@);
    }
}

/// The map of the first `i + 1` entries is the map of the first `i` with
/// the `i`-th entry added.
pub proof fn lemma_entries_map_take<V>(entries: Seq<(String, V)>, i: int)
    requires
        0 <= i < entries.len(),
    ensures
        entries_map(entries.take(i + 1)) == entries_map(entries.take(i)).insert(entries[i].0@, entries[i].1),
{
    assert(entries.take(i + 1).drop_last() =~= entries.take(i));
}

/// Whether two strings hold the same text.
pub fn str_equal(a: &str, b: &str) -> (r: bool)
    ensures
        r == (a@ == b@),
{
    let n = a.unicode_len();
    if n != b.unicode_len() {
        return false;
    }
    let mut i: usize = 0;
    while i < n
        invariant
            n == a@.len(),
            n == b@.len(),
            i <= n,
            forall|k: int| 0 <= k < i ==> a@[k] == b@[k],
        decreases n - i,
    {
        if a.get_char(i) != b.get_char(i) {
            return false;
        }
        i = i + 1;
    }
    proof {
        assert(a@ =~= b@);
    }
    true
}

} // verus!
