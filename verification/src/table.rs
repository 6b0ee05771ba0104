use vstd::prelude::*;

verus! {

/// A map from text keys to values.
///
/// The engine keys its orders, positions, fills and wallets by text ids.
/// vstd's specification of `HashMap` gives lookups by a `String` key no
/// meaning that a proof can use, so the table keeps its entries in a vector
/// and states its own view. The entries are kept in insertion order, and no
/// key occurs twice (`wf`). The abstract value of a table is a `Map` from the
/// key's characters to the value.
pub struct Table<V> {
    entries: Vec<(String, V)>,
}

impl<V> View for Table<V> {
    type V = Map<Seq<char>, V>;

    closed spec fn view(&self) -> Map<Seq<char>, V> {
        Map::new(
            |k: Seq<char>| exists|i: int| 0 <= i < self.entries@.len() && #[trigger] self.entries@[i].0@ == k,
            |k: Seq<char>| self.entries@[self.slot_of(k)].1,
        )
    }
}

impl<V> Table<V> {
    /// Position of the entry holding `k`, when there is one.
    closed spec fn slot_of(&self, k: Seq<char>) -> int {
        choose|i: int| 0 <= i < self.entries@.len() && #[trigger] self.entries@[i].0@ == k
    }

    /// No key occurs in two entries.
    pub closed spec fn wf(&self) -> bool {
        forall|i: int, j: int|
            0 <= i < self.entries@.len() && 0 <= j < self.entries@.len() && i != j
                ==> #[trigger] self.entries@[i].0@ != #[trigger] self.entries@[j].0@
    }

    /// The entries in the order they are stored.
    pub closed spec fn items(&self) -> Seq<(String, V)> {
        self.entries@
    }

    proof fn lemma_slot(&self, i: int)
        requires
            self.wf(),
            0 <= i < self.entries@.len(),
        ensures
            self@.contains_key(self.entries@[i].0@),
            self@[self.entries@[i].0@] == self.entries@[i].1,
            self.slot_of(self.entries@[i].0@) == i,
    {
        let k = self.entries@[i].0@;
        assert(self@.contains_key(k));
        let j = self.slot_of(k);
        assert(0 <= j < self.entries@.len() && self.entries@[j].0@ == k);
    }

    proof fn lemma_size(&self)
        requires
            self.wf(),
        ensures
            self@.dom().finite(),
            self@.dom().len() == self.entries@.len(),
    {
        let ks = self.entries@.map_values(|e: (String, V)| e.0@);
        assert forall|i: int, j: int| 0 <= i < ks.len() && 0 <= j < ks.len() && i != j implies ks[i]
            != ks[j] by {
            assert(self.entries@[i].0@ != self.entries@[j].0@);
        }
        assert(ks.no_duplicates());
        assert(self@.dom() =~= ks.to_set()) by {
            assert forall|k: Seq<char>| self@.dom().contains(k) implies ks.to_set().contains(k) by {
                let i = choose|i: int| 0 <= i < self.entries@.len() && #[trigger] self.entries@[i].0@ == k;
                assert(ks[i] == k);
            }
            assert forall|k: Seq<char>| ks.to_set().contains(k) implies self@.dom().contains(k) by {
                let i = choose|i: int| 0 <= i < ks.len() && ks[i] == k;
                assert(self.entries@[i].0@ == k);
            }
        }
        ks.unique_seq_to_set();
    }

    /// An empty table.
    pub fn new() -> (t: Self)
        ensures
            t.wf(),
            t@ == Map::<Seq<char>, V>::empty(),
            t.items().len() == 0,
    {
        let t = Table { entries: Vec::new() };
        assert(t@ =~= Map::<Seq<char>, V>::empty());
        t
    }

    /// Number of keys in the table.
    pub fn len(&self) -> (n: usize)
        requires
            self.wf(),
        ensures
            n == self@.dom().len(),
            self@.dom().finite(),
    {
        proof {
            self.lemma_size();
        }
        self.entries.len()
    }

    /// Whether the table holds no key.
    pub fn is_empty(&self) -> (b: bool)
        requires
            self.wf(),
        ensures
            b <==> self@.dom().len() == 0,
            self@.dom().finite(),
    {
        proof {
            self.lemma_size();
        }
        self.entries.len() == 0
    }

    /// Position of `key` among the entries.
    fn find(&self, key: &String) -> (r: Option<usize>)
        requires
            self.wf(),
        ensures
            match r {
                Some(i) => i < self.entries@.len() && self.entries@[i as int].0@ == key@
                    && self@.contains_key(key@) && self@[key@] == self.entries@[i as int].1,
                None => !self@.contains_key(key@),
            },
    {
        let mut i: usize = 0;
        while i < self.entries.len()
            invariant
                self.wf(),
                i <= self.entries@.len(),
                forall|j: int| 0 <= j < i ==> self.entries@[j].0@ != key@,
            decreases self.entries@.len() - i,
        {
            if self.entries[i].0 == *key {
                proof {
                    self.lemma_slot(i as int);
                }
                return Some(i);
            }
            i = i + 1;
        }
        proof {
            if self@.contains_key(key@) {
                let j = choose|j: int| 0 <= j < self.entries@.len() && #[trigger] self.entries@[j].0@ == key@;
                assert(self.entries@[j].0@ == key@);
            }
        }
        None
    }

    /// Whether `key` is in the table.
    pub fn contains_key(&self, key: &str) -> (b: bool)
        requires
            self.wf(),
        ensures
            b == self@.contains_key(key@),
    {
        let k = key.to_owned();
        match self.find(&k) {
            Some(_) => true,
            None => false,
        }
    }

    /// The value stored under `key`, if any.
    pub fn get(&self, key: &str) -> (r: Option<&V>)
        requires
            self.wf(),
        ensures
            match r {
                Some(v) => self@.contains_key(key@) && *v == self@[key@],
                None => !self@.contains_key(key@),
            },
    {
        let k = key.to_owned();
        match self.find(&k) {
            Some(i) => Some(&self.entries[i].1),
            None => None,
        }
    }

    /// Stores `value` under `key`, replacing what was there.
    pub fn insert(&mut self, key: String, value: V)
        requires
            old(self).wf(),
        ensures
            final(self).wf(),
            final(self)@ == old(self)@.insert(key@, value),
    {
        match self.find(&key) {
            Some(i) => {
                let ghost k = key@;
                let ghost pre = self.entries@;
                self.entries[i].1 = value;
                proof {
                    assert(self.entries@ == pre.update(i as int, (pre[i as int].0, value)));
                    assert forall|a: int, b: int|
                        0 <= a < self.entries@.len() && 0 <= b < self.entries@.len() && a != b
                            implies #[trigger] self.entries@[a].0@ != #[trigger] self.entries@[b].0@ by {
                        assert(pre[a].0@ != pre[b].0@);
                    }
                    assert forall|k2: Seq<char>| #[trigger] self@.contains_key(k2) <==> old(self)@.insert(k, value).contains_key(k2) by {
                        if old(self)@.contains_key(k2) {
                            let j = choose|j: int| 0 <= j < pre.len() && #[trigger] pre[j].0@ == k2;
                            assert(self.entries@[j].0@ == k2);
                        }
                        if self@.contains_key(k2) {
                            let j = choose|j: int| 0 <= j < pre.len() && #[trigger] self.entries@[j].0@ == k2;
                            assert(pre[j].0@ == k2);
                        }
                    }
                    assert forall|k2: Seq<char>| #[trigger] self@.contains_key(k2) implies self@[k2]
                        == old(self)@.insert(k, value)[k2] by {
                        let j = choose|j: int| 0 <= j < pre.len() && #[trigger] self.entries@[j].0@ == k2;
                        self.lemma_slot(j);
                        old(self).lemma_slot(j);
                    }
                    assert(self@ =~= old(self)@.insert(k, value));
                }
            },
            None => {
                let ghost pre = self.entries@;
                let ghost k = key@;
                self.entries.push((key, value));
                proof {
                    let n = pre.len() as int;
                    assert(self.entries@ == pre.push((self.entries@[n].0, value)));
                    assert forall|a: int, b: int|
                        0 <= a < self.entries@.len() && 0 <= b < self.entries@.len() && a != b
                            implies #[trigger] self.entries@[a].0@ != #[trigger] self.entries@[b].0@ by {
                        if a < n && b < n {
                            assert(pre[a].0@ != pre[b].0@);
                        } else if a == n {
                            assert(!old(self)@.contains_key(k));
                            assert(self.entries@[b].0@ == pre[b].0@);
                        } else {
                            assert(!old(self)@.contains_key(k));
                            assert(self.entries@[a].0@ == pre[a].0@);
                        }
                    }
                    assert forall|k2: Seq<char>| #[trigger] self@.contains_key(k2) <==> old(self)@.insert(k, value).contains_key(k2) by {
                        if old(self)@.contains_key(k2) {
                            let j = choose|j: int| 0 <= j < pre.len() && #[trigger] pre[j].0@ == k2;
                            assert(self.entries@[j].0@ == k2);
                        }
                        if k2 == k {
                            assert(self.entries@[n].0@ == k2);
                        }
                        if self@.contains_key(k2) {
                            let j = choose|j: int| 0 <= j < self.entries@.len() && #[trigger] self.entries@[j].0@ == k2;
                            if j < n {
                                assert(pre[j].0@ == k2);
                            }
                        }
                    }
                    assert forall|k2: Seq<char>| #[trigger] self@.contains_key(k2) implies self@[k2]
                        == old(self)@.insert(k, value)[k2] by {
                        let j = choose|j: int| 0 <= j < self.entries@.len() && #[trigger] self.entries@[j].0@ == k2;
                        self.lemma_slot(j);
                        if j < n {
                            old(self).lemma_slot(j);
                        }
                    }
                    assert(self@ =~= old(self)@.insert(k, value));
                }
            },
        }
    }

    /// Takes the entry stored under `key` out of the table.
    pub fn remove_entry(&mut self, key: &str) -> (r: Option<(String, V)>)
        requires
            old(self).wf(),
        ensures
            final(self).wf(),
            final(self)@ == old(self)@.remove(key@),
            match r {
                Some(e) => old(self)@.contains_key(key@) && e.0@ == key@ && e.1 == old(self)@[key@],
                None => !old(self)@.contains_key(key@),
            },
    {
        let k = key.to_owned();
        match self.find(&k) {
            Some(i) => {
                let ghost pre = self.entries@;
                let e = self.entries.remove(i);
                proof {
                    let ii = i as int;
                    assert(self.entries@ == pre.remove(ii));
                    assert forall|a: int, b: int|
                        0 <= a < self.entries@.len() && 0 <= b < self.entries@.len() && a != b
                            implies #[trigger] self.entries@[a].0@ != #[trigger] self.entries@[b].0@ by {
                        let pa = if a < ii { a } else { a + 1 };
                        let pb = if b < ii { b } else { b + 1 };
                        assert(self.entries@[a] == pre[pa]);
                        assert(self.entries@[b] == pre[pb]);
                        assert(pre[pa].0@ != pre[pb].0@);
                    }
                    assert forall|k2: Seq<char>| #[trigger] self@.contains_key(k2) <==> old(self)@.remove(key@).contains_key(k2) by {
                        if old(self)@.contains_key(k2) && k2 != key@ {
                            let j = choose|j: int| 0 <= j < pre.len() && #[trigger] pre[j].0@ == k2;
                            assert(j != ii);
                            let nj = if j < ii { j } else { j - 1 };
                            assert(self.entries@[nj] == pre[j]);
                        }
                        if self@.contains_key(k2) {
                            let j = choose|j: int| 0 <= j < self.entries@.len() && #[trigger] self.entries@[j].0@ == k2;
                            let pj = if j < ii { j } else { j + 1 };
                            assert(self.entries@[j] == pre[pj]);
                            assert(pre[pj].0@ == k2);
                            assert(pj != ii);
                        }
                    }
                    assert forall|k2: Seq<char>| #[trigger] self@.contains_key(k2) implies self@[k2]
                        == old(self)@.remove(key@)[k2] by {
                        let j = choose|j: int| 0 <= j < self.entries@.len() && #[trigger] self.entries@[j].0@ == k2;
                        let pj = if j < ii { j } else { j + 1 };
                        assert(self.entries@[j] == pre[pj]);
                        self.lemma_slot(j);
                        old(self).lemma_slot(pj);
                    }
                    assert(self@ =~= old(self)@.remove(key@));
                }
                Some(e)
            },
            None => {
                proof {
                    assert(self@ =~= old(self)@.remove(key@));
                }
                None
            },
        }
    }

    /// Takes the value stored under `key` out of the table.
    pub fn remove(&mut self, key: &str) -> (r: Option<V>)
        requires
            old(self).wf(),
        ensures
            final(self).wf(),
            final(self)@ == old(self)@.remove(key@),
            match r {
                Some(v) => old(self)@.contains_key(key@) && v == old(self)@[key@],
                None => !old(self)@.contains_key(key@),
            },
    {
        match self.remove_entry(key) {
            Some(e) => Some(e.1),
            None => None,
        }
    }

    /// A key not in the table: `candidate` itself when it is free, else
    /// `candidate` followed by enough `#` to be longer than every key.
    pub fn fresh_key(&self, candidate: String) -> (k: String)
        requires
            self.wf(),
        ensures
            !self@.contains_key(k@),
            !self@.contains_key(candidate@) ==> k@ == candidate@,
    {
        if !self.contains_key(candidate.as_str()) {
            return candidate;
        }
        let mut longest: usize = 0;
        let mut i: usize = 0;
        while i < self.entries.len()
            invariant
                i <= self.entries@.len(),
                forall|j: int| 0 <= j < i ==> #[trigger] self.entries@[j].0@.len() <= longest,
            decreases self.entries@.len() - i,
        {
            let n = self.entries[i].0.as_str().unicode_len();
            if n > longest {
                longest = n;
            }
            i = i + 1;
        }
        let mut k = candidate;
        while k.as_str().unicode_len() <= longest
            invariant
                forall|j: int| 0 <= j < self.entries@.len() ==> #[trigger] self.entries@[j].0@.len() <= longest,
            decreases longest + 1 - k@.len(),
        {
            proof {
                reveal_strlit("#");
            }
            k.append("#");
        }
        proof {
            if self@.contains_key(k@) {
                let j = choose|j: int| 0 <= j < self.entries@.len() && #[trigger] self.entries@[j].0@ == k@;
                assert(self.entries@[j].0@.len() <= longest);
            }
        }
        k
    }

    /// The entries, in the order they are stored.
    pub fn as_slice(&self) -> (s: &[(String, V)])
        ensures
            s@ == self.items(),
    {
        self.entries.as_slice()
    }
}

} // verus!
