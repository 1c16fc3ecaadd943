use vstd::prelude::*;

verus! {

/// A finite map from text keys to text values, kept as a list of entries
/// with pairwise distinct keys. The entries stay in the order in which their
/// keys were first inserted.
pub struct RepTable {
    entries: Vec<(String, String)>,
}

/// The entries of `s` hold pairwise distinct keys.
pub open spec fn keys_distinct(s: Seq<(String, String)>) -> bool {
    forall|i: int, j: int|
        0 <= i < s.len() && 0 <= j < s.len() && i != j ==> s[i].0@ != s[j].0@
}

/// Some entry of `s` has key `k`.
pub open spec fn has_key(s: Seq<(String, String)>, k: Seq<char>) -> bool {
    exists|i: int| 0 <= i < s.len() && s[i].0@ == k
}

/// The map that a list of entries with distinct keys stands for.
pub open spec fn entries_map(s: Seq<(String, String)>) -> Map<Seq<char>, Seq<char>> {
    Map::new(
        |k: Seq<char>| has_key(s, k),
        |k: Seq<char>| s[choose|i: int| 0 <= i < s.len() && s[i].0@ == k].1@,
    )
}

pub proof fn lemma_entries_map_at(s: Seq<(String, String)>, i: int)
    requires
        keys_distinct(s),
        0 <= i < s.len(),
    ensures
        entries_map(s).contains_key(s[i].0@),
        entries_map(s)[s[i].0@] == s[i].1@,
{
    let k = s[i].0@;
    assert(has_key(s, k));
    let j = choose|j: int| 0 <= j < s.len() && s[j].0@ == k;
    assert(j == i);
}

/// A list of entries with distinct keys stands for a finite map with one key
/// per entry.
pub proof fn lemma_entries_map_len(s: Seq<(String, String)>)
    requires
        keys_distinct(s),
    ensures
        entries_map(s).dom().finite(),
        entries_map(s).len() == s.len(),
{
    let keys = Seq::new(s.len(), |i: int| s[i].0@);
    assert forall|k: Seq<char>| entries_map(s).dom().contains(k) <==> keys.to_set().contains(k) by {
        if entries_map(s).dom().contains(k) {
            let i = choose|i: int| 0 <= i < s.len() && s[i].0@ == k;
            assert(keys[i] == k);
        }
        if keys.to_set().contains(k) {
            let i = choose|i: int| 0 <= i < keys.len() && keys[i] == k;
            assert(s[i].0@ == k);
        }
    }
    assert(entries_map(s).dom() =~= keys.to_set());
    assert(keys.no_duplicates());
    keys.unique_seq_to_set();
}

impl View for RepTable {
    type V = Map<Seq<char>, Seq<char>>;

    closed spec fn view(&self) -> Map<Seq<char>, Seq<char>> {
        entries_map(self.entries@)
    }
}

impl RepTable {
    /// The table's internal invariant: no key occurs twice.
    pub closed spec fn wf(&self) -> bool {
        keys_distinct(self.entries@)
    }

    pub fn new() -> (r: RepTable)
        ensures
            r.wf(),
            r@ == Map::<Seq<char>, Seq<char>>::empty(),
    {
        let r = RepTable { entries: Vec::new() };
        assert(r@ =~= Map::<Seq<char>, Seq<char>>::empty());
        r
    }

    pub fn len(&self) -> (n: usize)
        requires
            self.wf(),
        ensures
            n == self@.len(),
    {
        proof { lemma_entries_map_len(self.entries@); }
        self.entries.len()
    }

    fn find(&self, k: &String) -> (r: Option<usize>)
        requires
            self.wf(),
        ensures
            match r {
                Some(i) => i < self.entries@.len() && self.entries@[i as int].0@ == k@,
                None => !has_key(self.entries@, k@),
            },
    {
        let mut i: usize = 0;
        while i < self.entries.len()
            invariant
                i <= self.entries@.len(),
                forall|j: int| 0 <= j < i ==> self.entries@[j].0@ != k@,
            decreases self.entries@.len() - i,
        {
            if self.entries[i].0 == *k {
                return Some(i);
            }
            i = i + 1;
        }
        None
    }

    /// Looks up the value stored under `k`.
    pub fn get(&self, k: &String) -> (r: Option<&String>)
        requires
            self.wf(),
        ensures
            match r {
                Some(v) => self@.contains_key(k@) && self@[k@] == v@,
                None => !self@.contains_key(k@),
            },
    {
        match self.find(k) {
            Some(i) => {
                proof { lemma_entries_map_at(self.entries@, i as int); }
                Some(&self.entries[i].1)
            },
            None => None,
        }
    }

    /// Stores `v` under `k`, replacing what was stored there before.
    pub fn insert(&mut self, k: String, v: String)
        requires
            old(self).wf(),
        ensures
            final(self).wf(),
            final(self)@ == old(self)@.insert(k@, v@),
    {
        let ghost s0 = self.entries@;
        match self.find(&k) {
            Some(i) => {
                self.entries.set(i, (k, v));
                proof {
                    let s1 = self.entries@;
                    assert(keys_distinct(s1));
                    assert forall|key: Seq<char>| #[trigger] has_key(s1, key) == has_key(s0, key) by {
                        if has_key(s0, key) {
                            let j = choose|j: int| 0 <= j < s0.len() && s0[j].0@ == key;
                            assert(s1[j].0@ == key);
                        }
                        if has_key(s1, key) {
                            let j = choose|j: int| 0 <= j < s1.len() && s1[j].0@ == key;
                            assert(s0[j].0@ == key);
                        }
                    }
                    assert forall|key: Seq<char>|
                        #[trigger] entries_map(s1).contains_key(key) && key != k@ implies
                        entries_map(s1)[key] == entries_map(s0)[key] by {
                        let j = choose|j: int| 0 <= j < s1.len() && s1[j].0@ == key;
                        lemma_entries_map_at(s1, j);
                        lemma_entries_map_at(s0, j);
                    }
                    lemma_entries_map_at(s1, i as int);
                    assert(entries_map(s1) =~= entries_map(s0).insert(k@, v@));
                }
            },
            None => {
                self.entries.push((k, v));
                proof {
                    let s1 = self.entries@;
                    assert(keys_distinct(s1));
                    assert forall|key: Seq<char>|
                        #[trigger] entries_map(s1).contains_key(key) <==> (has_key(s0, key) || key == k@) by {
                        if has_key(s0, key) {
                            let j = choose|j: int| 0 <= j < s0.len() && s0[j].0@ == key;
                            assert(s1[j].0@ == key);
                        }
                        if key == k@ {
                            assert(s1[s0.len() as int].0@ == key);
                        }
                        if has_key(s1, key) && key != k@ {
                            let j = choose|j: int| 0 <= j < s1.len() && s1[j].0@ == key;
                            assert(s0[j].0@ == key);
                        }
                    }
                    assert forall|key: Seq<char>|
                        #[trigger] entries_map(s1).contains_key(key) && key != k@ implies
                        entries_map(s1)[key] == entries_map(s0)[key] by {
                        let j = choose|j: int| 0 <= j < s1.len() && s1[j].0@ == key;
                        lemma_entries_map_at(s1, j);
                        lemma_entries_map_at(s0, j);
                    }
                    lemma_entries_map_at(s1, s0.len() as int);
                    assert(entries_map(s1) =~= entries_map(s0).insert(k@, v@));
                }
            },
        }
    }

    /// The stored pairs, one for each key, in the table's own order.
    pub fn pairs(&self) -> (r: Vec<(String, String)>)
        requires
            self.wf(),
        ensures
            keys_distinct(r@),
            entries_map(r@) == self@,
    {
        let mut out: Vec<(String, String)> = Vec::new();
        let mut i: usize = 0;
        while i < self.entries.len()
            invariant
                i <= self.entries@.len(),
                self.wf(),
                out@.len() == i,
                forall|j: int| 0 <= j < i ==> out@[j].0@ == self.entries@[j].0@ && out@[j].1@
                    == self.entries@[j].1@,
            decreases self.entries@.len() - i,
        {
            let k = self.entries[i].0.clone();
            let v = self.entries[i].1.clone();
            out.push((k, v));
            i = i + 1;
        }
        proof {
            let s = self.entries@;
            let o = out@;
            assert forall|key: Seq<char>| has_key(o, key) == has_key(s, key) by {
                if has_key(o, key) {
                    let j = choose|j: int| 0 <= j < o.len() && o[j].0@ == key;
                    assert(s[j].0@ == key);
                }
                if has_key(s, key) {
                    let j = choose|j: int| 0 <= j < s.len() && s[j].0@ == key;
                    assert(o[j].0@ == key);
                }
            }
            assert forall|key: Seq<char>| #[trigger] entries_map(o).contains_key(key) implies
                entries_map(o)[key] == entries_map(s)[key] by {
                let j = choose|j: int| 0 <= j < o.len() && o[j].0@ == key;
                lemma_entries_map_at(o, j);
                lemma_entries_map_at(s, j);
            }
            assert(entries_map(o) =~= entries_map(s));
        }
        out
    }
}

} // verus!
