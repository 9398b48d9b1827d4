use vstd::prelude::*;

use crate::particle::ActorKey;

verus! {

pub type DataKey = (Seq<char>, Seq<char>);

/// One stored prev-data blob.
pub struct Entry {
    pub key: ActorKey,
    pub data: Vec<u8>,
}

pub open spec fn entry_views(s: Seq<Entry>) -> Seq<(DataKey, Seq<u8>)> {
    s.map_values(|e: Entry| (e.key@, e.data@))
}

pub open spec fn keys_unique(s: Seq<(DataKey, Seq<u8>)>) -> bool {
    forall|i: int, j: int| 0 <= i < j < s.len() ==> #[trigger] s[i].0 != #[trigger] s[j].0
}

pub open spec fn has_entry(s: Seq<(DataKey, Seq<u8>)>, k: DataKey) -> bool {
    exists|i: int| 0 <= i < s.len() && s[i].0 == k
}

pub open spec fn entry_index(s: Seq<(DataKey, Seq<u8>)>, k: DataKey) -> int {
    choose|i: int| 0 <= i < s.len() && s[i].0 == k
}

/// The blobs held by a list of entries with unique keys.
pub open spec fn entries_map(s: Seq<(DataKey, Seq<u8>)>) -> Map<DataKey, Seq<u8>> {
    Map::new(|k: DataKey| has_entry(s, k), |k: DataKey| s[entry_index(s, k)].1)
}

proof fn lemma_entry_index(s: Seq<(DataKey, Seq<u8>)>, i: int)
    requires
        keys_unique(s),
        0 <= i < s.len(),
    ensures
        has_entry(s, s[i].0),
        entry_index(s, s[i].0) == i,
{
    assert(has_entry(s, s[i].0));
    let j = entry_index(s, s[i].0);
    if j < i {
        assert(s[j].0 != s[i].0);
    } else if i < j {
        assert(s[i].0 != s[j].0);
    }
}

proof fn lemma_map_update(s: Seq<(DataKey, Seq<u8>)>, i: int, d: Seq<u8>)
    requires
        keys_unique(s),
        0 <= i < s.len(),
    ensures
        keys_unique(s.update(i, (s[i].0, d))),
        entries_map(s.update(i, (s[i].0, d))) == entries_map(s).insert(s[i].0, d),
{
    let t = s.update(i, (s[i].0, d));
    assert forall|a: int, b: int| 0 <= a < b < t.len() implies #[trigger] t[a].0 != #[trigger] t[b].0 by {
        assert(s[a].0 != s[b].0);
    }
    assert forall|k: DataKey| has_entry(t, k) == has_entry(s, k) by {
        if has_entry(s, k) {
            let j = entry_index(s, k);
            assert(t[j].0 == k);
        }
        if has_entry(t, k) {
            let j = entry_index(t, k);
            assert(s[j].0 == k);
        }
    }
    assert forall|k: DataKey| #[trigger] has_entry(t, k) implies t[entry_index(t, k)].1 == (
        if k == s[i].0 {
            d
        } else {
            s[entry_index(s, k)].1
        }) by {
        let j = entry_index(t, k);
        lemma_entry_index(t, j);
        if k != s[i].0 {
            lemma_entry_index(s, j);
        }
    }
    lemma_entry_index(s, i);
    assert(entries_map(t) =~= entries_map(s).insert(s[i].0, d));
}

proof fn lemma_map_push(s: Seq<(DataKey, Seq<u8>)>, k: DataKey, d: Seq<u8>)
    requires
        keys_unique(s),
        !has_entry(s, k),
    ensures
        keys_unique(s.push((k, d))),
        entries_map(s.push((k, d))) == entries_map(s).insert(k, d),
{
    let t = s.push((k, d));
    assert forall|a: int, b: int| 0 <= a < b < t.len() implies #[trigger] t[a].0 != #[trigger] t[b].0 by {
        if b == s.len() {
            assert(s[a].0 != k);
        } else {
            assert(s[a].0 != s[b].0);
        }
    }
    assert forall|k2: DataKey| has_entry(t, k2) == (has_entry(s, k2) || k2 == k) by {
        if has_entry(s, k2) {
            let j = entry_index(s, k2);
            assert(t[j].0 == k2);
        }
        if k2 == k {
            assert(t[s.len() as int].0 == k);
        }
        if has_entry(t, k2) && k2 != k {
            let j = entry_index(t, k2);
            assert(s[j].0 == k2);
        }
    }
    assert forall|k2: DataKey| #[trigger] has_entry(t, k2) implies t[entry_index(t, k2)].1 == (
        if k2 == k {
            d
        } else {
            s[entry_index(s, k2)].1
        }) by {
        let j = entry_index(t, k2);
        lemma_entry_index(t, j);
        if k2 != k {
            lemma_entry_index(s, j);
        }
    }
    assert(entries_map(t) =~= entries_map(s).insert(k, d));
}

proof fn lemma_map_remove(s: Seq<(DataKey, Seq<u8>)>, i: int)
    requires
        keys_unique(s),
        0 <= i < s.len(),
    ensures
        keys_unique(s.remove(i)),
        entries_map(s.remove(i)) == entries_map(s).remove(s[i].0),
{
    let t = s.remove(i);
    let k = s[i].0;
    assert forall|a: int, b: int| 0 <= a < b < t.len() implies #[trigger] t[a].0 != #[trigger] t[b].0 by {
        let a0 = if a < i { a } else { a + 1 };
        let b0 = if b < i { b } else { b + 1 };
        assert(s[a0].0 != s[b0].0);
    }
    assert forall|k2: DataKey| has_entry(t, k2) == (has_entry(s, k2) && k2 != k) by {
        if has_entry(s, k2) && k2 != k {
            let j = entry_index(s, k2);
            if j < i {
                assert(t[j].0 == k2);
            } else {
                lemma_entry_index(s, i);
                assert(t[j - 1].0 == k2);
            }
        }
        if has_entry(t, k2) {
            let j = entry_index(t, k2);
            let j0 = if j < i { j } else { j + 1 };
            assert(s[j0].0 == k2);
            assert(s[j0].0 != s[i].0) by {
                if j0 < i {} else {}
            }
        }
    }
    assert forall|k2: DataKey| #[trigger] has_entry(t, k2) implies t[entry_index(t, k2)].1 == s[entry_index(
        s,
        k2,
    )].1 by {
        let j = entry_index(t, k2);
        lemma_entry_index(t, j);
        let j0 = if j < i { j } else { j + 1 };
        lemma_entry_index(s, j0);
    }
    assert(entries_map(t) =~= entries_map(s).remove(k));
}

/// Prev-data blobs keyed by (particle id, peer id), each replaced as a whole.
pub struct ParticleDataStore {
    entries: Vec<Entry>,
}

impl View for ParticleDataStore {
    type V = Map<DataKey, Seq<u8>>;

    closed spec fn view(&self) -> Map<DataKey, Seq<u8>> {
        entries_map(entry_views(self.entries@))
    }
}

impl ParticleDataStore {
    pub closed spec fn wf(&self) -> bool {
        keys_unique(entry_views(self.entries@))
    }

    pub fn new() -> (r: ParticleDataStore)
        ensures
            r.wf(),
            r@ == Map::<DataKey, Seq<u8>>::empty(),
    {
        let r = ParticleDataStore { entries: Vec::new() };
        assert(r@ =~= Map::<DataKey, Seq<u8>>::empty());
        r
    }

    fn find(&self, key: &ActorKey) -> (r: Option<usize>)
        requires
            self.wf(),
        ensures
            match r {
                Some(i) => i < self.entries@.len() && entry_views(self.entries@)[i as int].0
                    == key@ && entry_index(entry_views(self.entries@), key@) == i,
                None => !has_entry(entry_views(self.entries@), key@),
            },
    {
        let mut i: usize = 0;
        while i < self.entries.len()
            invariant
                self.wf(),
                i <= self.entries.len(),
                forall|j: int| 0 <= j < i ==> entry_views(self.entries@)[j].0 != key@,
            decreases self.entries.len() - i,
        {
            if self.entries[i].key.matches(&key.particle_id, &key.peer_id) {
                proof {
                    lemma_entry_index(entry_views(self.entries@), i as int);
                }
                return Some(i);
            }
            i += 1;
        }
        None
    }

    /// The blob stored under `key`; `None` when there is none.
    pub fn get(&self, key: &ActorKey) -> (r: Option<Vec<u8>>)
        requires
            self.wf(),
        ensures
            match r {
                Some(d) => self@.contains_key(key@) && d@ == self@[key@],
                None => !self@.contains_key(key@),
            },
    {
        match self.find(key) {
            Some(i) => {
                let d = self.entries[i].data.clone();
                assert(d@ =~= self.entries@[i as int].data@);
                Some(d)
            },
            None => None,
        }
    }

    /// Replaces the blob stored under `key` with `data`.
    pub fn put(&mut self, key: ActorKey, data: Vec<u8>)
        requires
            old(self).wf(),
        ensures
            final(self).wf(),
            final(self)@ == old(self)@.insert(key@, data@),
    {
        let ghost s0 = entry_views(self.entries@);
        match self.find(&key) {
            Some(i) => {
                proof {
                    lemma_map_update(s0, i as int, data@);
                }
                self.entries[i].data = data;
                assert(entry_views(self.entries@) =~= s0.update(i as int, (s0[i as int].0, self.entries@[i as int].data@)));
            },
            None => {
                proof {
                    lemma_map_push(s0, key@, data@);
                }
                self.entries.push(Entry { key, data });
                assert(entry_views(self.entries@) =~= s0.push((self.entries@.last().key@, self.entries@.last().data@)));
            },
        }
    }

    /// Drops the blob stored under `key`, once its actor has retired.
    pub fn remove_prev(&mut self, key: &ActorKey)
        requires
            old(self).wf(),
        ensures
            final(self).wf(),
            final(self)@ == old(self)@.remove(key@),
    {
        let ghost s0 = entry_views(self.entries@);
        match self.find(key) {
            Some(i) => {
                proof {
                    lemma_map_remove(s0, i as int);
                }
                self.entries.remove(i);
                assert(entry_views(self.entries@) =~= s0.remove(i as int));
            },
            None => {
                assert(old(self)@.remove(key@) =~= old(self)@);
            },
        }
    }

    /// The number of stored blobs.
    pub fn len(&self) -> (r: usize)
        requires
            self.wf(),
        ensures
            r == self@.len(),
    {
        proof {
            self.lemma_len();
        }
        self.entries.len()
    }

    proof fn lemma_len(&self)
        requires
            self.wf(),
        ensures
            self@.len() == self.entries@.len(),
    {
        let s = entry_views(self.entries@);
        let keys = Set::new(|i: int| 0 <= i < s.len()).map(|i: int| s[i].0);
        assert(self@.dom() =~= keys) by {
            assert forall|k: DataKey| self@.dom().contains(k) implies keys.contains(k) by {
                let j = entry_index(s, k);
                assert(Set::new(|i: int| 0 <= i < s.len()).contains(j));
            }
        }
        vstd::set_lib::lemma_int_range(0, s.len() as int);
        assert(Set::new(|i: int| 0 <= i < s.len()) =~= vstd::set_lib::set_int_range(0, s.len() as int));
        let f = |i: int| s[i].0;
        assert forall|a: int, b: int| 0 <= a < s.len() && 0 <= b < s.len() && #[trigger] f(a) == #[trigger] f(b) implies a == b by {
            if a < b { assert(s[a].0 != s[b].0); } else if b < a { assert(s[b].0 != s[a].0); }
        }
        vstd::set_lib::lemma_map_size(vstd::set_lib::set_int_range(0, s.len() as int), keys, f);
    }
}

} // verus!
