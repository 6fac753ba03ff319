use vstd::prelude::*;

use crate::codec::{RecordModel, StoredRecord};

verus! {

/// The pairs of an association list read as a map; a later pair wins over an
/// earlier one with the same key.
pub open spec fn pairs_map<V>(s: Seq<(u64, V)>) -> Map<u64, V>
    decreases s.len(),
{
    if s.len() == 0 {
        Map::empty()
    } else {
        pairs_map(s.drop_last()).insert(s.last().0, s.last().1)
    }
}

/// No two pairs share a key.
pub open spec fn unique_keys<V>(s: Seq<(u64, V)>) -> bool {
    forall|i: int, j: int|
        0 <= i < j < s.len() ==> (#[trigger] s[i]).0 != (#[trigger] s[j]).0
}

/// Scores never decrease along the sequence: the order an ordered set hands
/// its members out in.
pub open spec fn sorted_scores(s: Seq<(u64, i64)>) -> bool {
    forall|i: int, j: int|
        0 <= i <= j < s.len() ==> (#[trigger] s[i]).1 <= (#[trigger] s[j]).1
}

/// The key of every pair is a key of the map.
pub proof fn lemma_pairs_map_key_at<V>(s: Seq<(u64, V)>, i: int)
    requires
        0 <= i < s.len(),
    ensures
        pairs_map(s).contains_key(s[i].0),
    decreases s.len(),
{
    if i < s.len() - 1 {
        lemma_pairs_map_key_at(s.drop_last(), i);
    }
}

/// Every key of the map is the key of some pair.
pub proof fn lemma_pairs_map_key_exists<V>(s: Seq<(u64, V)>, k: u64)
    requires
        pairs_map(s).contains_key(k),
    ensures
        exists|i: int| 0 <= i < s.len() && (#[trigger] s[i]).0 == k,
    decreases s.len(),
{
    if s.len() > 0 {
        if s.last().0 == k {
            assert(s[s.len() - 1].0 == k);
        } else {
            lemma_pairs_map_key_exists(s.drop_last(), k);
            let i = choose|i: int| 0 <= i < s.drop_last().len() && (#[trigger] s.drop_last()[i]).0 == k;
            assert(s[i].0 == k);
        }
    }
}

/// Under unique keys, the map sends each pair's key to that pair's value.
pub proof fn lemma_pairs_map_get<V>(s: Seq<(u64, V)>, i: int)
    requires
        unique_keys(s),
        0 <= i < s.len(),
    ensures
        pairs_map(s).contains_key(s[i].0),
        pairs_map(s)[s[i].0] == s[i].1,
    decreases s.len(),
{
    lemma_pairs_map_key_at(s, i);
    if i < s.len() - 1 {
        assert(unique_keys(s.drop_last()));
        lemma_pairs_map_get(s.drop_last(), i);
        assert(s[i].0 != s.last().0);
    }
}

/// A key no pair carries is not a key of the map.
pub proof fn lemma_pairs_map_absent<V>(s: Seq<(u64, V)>, k: u64)
    requires
        forall|i: int| 0 <= i < s.len() ==> (#[trigger] s[i]).0 != k,
    ensures
        !pairs_map(s).contains_key(k),
{
    if pairs_map(s).contains_key(k) {
        lemma_pairs_map_key_exists(s, k);
    }
}

/// Appending a pair with a fresh key inserts it into the map.
pub proof fn lemma_pairs_map_push<V>(s: Seq<(u64, V)>, k: u64, v: V)
    requires
        unique_keys(s),
        forall|i: int| 0 <= i < s.len() ==> (#[trigger] s[i]).0 != k,
    ensures
        pairs_map(s.push((k, v))) =~= pairs_map(s).insert(k, v),
        unique_keys(s.push((k, v))),
{
    assert(s.push((k, v)).drop_last() =~= s);
    assert(forall|i: int, j: int|
        0 <= i < j < s.push((k, v)).len() ==> (#[trigger] s.push((k, v))[i]).0 != (#[trigger] s.push(
            (k, v),
        )[j]).0);
}

/// Removing a pair removes its key from the map, when keys are unique.
pub proof fn lemma_pairs_map_remove<V>(s: Seq<(u64, V)>, i: int)
    requires
        unique_keys(s),
        0 <= i < s.len(),
    ensures
        pairs_map(s.remove(i)) =~= pairs_map(s).remove(s[i].0),
        unique_keys(s.remove(i)),
    decreases s.len(),
{
    let k = s[i].0;
    assert(unique_keys(s.remove(i))) by {
        assert(forall|a: int, b: int|
            0 <= a < b < s.remove(i).len() ==> (#[trigger] s.remove(i)[a]).0 != (#[trigger] s.remove(
                i,
            )[b]).0);
    }
    if i == s.len() - 1 {
        assert(s.remove(i) =~= s.drop_last());
        assert(forall|j: int| 0 <= j < s.drop_last().len() ==> (#[trigger] s.drop_last()[j]).0 != k);
        lemma_pairs_map_absent(s.drop_last(), k);
        assert(pairs_map(s.remove(i)) =~= pairs_map(s).remove(k));
    } else {
        let d = s.drop_last();
        assert(unique_keys(d));
        lemma_pairs_map_remove(d, i);
        assert(s.remove(i).drop_last() =~= d.remove(i));
        assert(s.remove(i).last() == s.last());
        assert(s.remove(i).len() > 0);
        assert(pairs_map(s.remove(i)) == pairs_map(d.remove(i)).insert(s.last().0, s.last().1));
        assert(s.last().0 != k);
        assert(pairs_map(s.remove(i)) =~= pairs_map(s).remove(k));
    }
}

/// Inserting a pair with a fresh key, anywhere, inserts it into the map.
pub proof fn lemma_pairs_map_insert<V>(s: Seq<(u64, V)>, p: int, k: u64, v: V)
    requires
        unique_keys(s),
        0 <= p <= s.len(),
        forall|i: int| 0 <= i < s.len() ==> (#[trigger] s[i]).0 != k,
    ensures
        pairs_map(s.insert(p, (k, v))) =~= pairs_map(s).insert(k, v),
        unique_keys(s.insert(p, (k, v))),
    decreases s.len(),
{
    let t = s.insert(p, (k, v));
    assert(unique_keys(t)) by {
        assert(forall|a: int, b: int|
            0 <= a < b < t.len() ==> (#[trigger] t[a]).0 != (#[trigger] t[b]).0);
    }
    if p == s.len() {
        assert(t =~= s.push((k, v)));
        lemma_pairs_map_push(s, k, v);
    } else {
        let d = s.drop_last();
        assert(unique_keys(d));
        lemma_pairs_map_insert(d, p, k, v);
        assert(t.drop_last() =~= d.insert(p, (k, v)));
        assert(t.last() == s.last());
        assert(t.len() > 0);
        assert(pairs_map(t) == pairs_map(d.insert(p, (k, v))).insert(s.last().0, s.last().1));
        assert(s.last().0 != k);
        assert(pairs_map(t) =~= pairs_map(s).insert(k, v));
    }
}

/// The store a repository talks to, modelled exactly as the wire contract
/// describes it: one field-map record per key, and a single ordered set
/// mapping members to scores, handed out in ascending score order.
pub struct Store {
    /// The records, one per distinct key.
    pub records: Vec<(u64, StoredRecord)>,
    /// The ordered set, kept sorted by score; order among equal scores is the
    /// store's own and callers may not rely on it.
    pub index: Vec<(u64, i64)>,
}

/// The mathematical content of a [`Store`]: the records as a map and the
/// ordered set as the member sequence in the order a range read returns.
#[verifier::ext_equal]
pub ghost struct StoreModel {
    pub records: Map<u64, RecordModel>,
    pub index: Seq<(u64, i64)>,
}

/// The record pairs of the store with each record read as its model.
pub open spec fn rec_pairs_model(s: Seq<(u64, StoredRecord)>) -> Seq<(u64, RecordModel)> {
    s.map_values(|p: (u64, StoredRecord)| (p.0, p.1@))
}

impl View for Store {
    type V = StoreModel;

    open spec fn view(&self) -> StoreModel {
        StoreModel { records: pairs_map(rec_pairs_model(self.records@)), index: self.index@ }
    }
}

impl Store {
    /// The representation invariant: keys and members are unique, and the
    /// ordered set is kept sorted by score. Every operation preserves it.
    pub open spec fn inv(&self) -> bool {
        &&& unique_keys(rec_pairs_model(self.records@))
        &&& unique_keys(self.index@)
        &&& sorted_scores(self.index@)
    }

    /// An empty store.
    pub fn new() -> (s: Store)
        ensures
            s.inv(),
            s@.records =~= Map::<u64, RecordModel>::empty(),
            s@.index =~= Seq::<(u64, i64)>::empty(),
    {
        Store { records: Vec::new(), index: Vec::new() }
    }

    fn find_record_pos(&self, id: u64) -> (r: Option<usize>)
        ensures
            r matches Some(i) ==> i < self.records@.len() && self.records@[i as int].0 == id,
            r is None ==> forall|j: int|
                0 <= j < self.records@.len() ==> (#[trigger] self.records@[j]).0 != id,
    {
        let n = self.records.len();
        let mut i: usize = 0;
        while i < n
            invariant
                i <= n,
                n == self.records@.len(),
                forall|j: int| 0 <= j < i ==> (#[trigger] self.records@[j]).0 != id,
            decreases n - i,
        {
            if self.records[i].0 == id {
                return Some(i);
            }
            i = i + 1;
        }
        None
    }

    fn find_index_pos(&self, member: u64) -> (r: Option<usize>)
        ensures
            r matches Some(i) ==> i < self.index@.len() && self.index@[i as int].0 == member,
            r is None ==> forall|j: int|
                0 <= j < self.index@.len() ==> (#[trigger] self.index@[j]).0 != member,
    {
        let n = self.index.len();
        let mut i: usize = 0;
        while i < n
            invariant
                i <= n,
                n == self.index@.len(),
                forall|j: int| 0 <= j < i ==> (#[trigger] self.index@[j]).0 != member,
            decreases n - i,
        {
            if self.index[i].0 == member {
                return Some(i);
            }
            i = i + 1;
        }
        None
    }

    /// Deletes the record at the given key; deleting an absent key is a no-op.
    pub fn del(&mut self, id: u64)
        requires
            old(self).inv(),
        ensures
            final(self).inv(),
            final(self)@.records =~= old(self)@.records.remove(id),
            final(self)@.index == old(self)@.index,
            forall|j: int|
                0 <= j < final(self).records@.len() ==> (#[trigger] final(self).records@[j]).0
                    != id,
    {
        match self.find_record_pos(id) {
            Some(i) => {
                let ghost s0 = rec_pairs_model(self.records@);
                self.records.remove(i);
                proof {
                    assert(rec_pairs_model(self.records@) =~= s0.remove(i as int));
                    lemma_pairs_map_remove(s0, i as int);
                    assert(forall|j: int|
                        0 <= j < self.records@.len() ==> (#[trigger] self.records@[j]).0 == s0.remove(
                            i as int,
                        )[j].0);
                }
            },
            None => {
                proof {
                    lemma_pairs_map_absent(rec_pairs_model(self.records@), id);
                    assert(old(self)@.records =~= old(self)@.records.remove(id));
                }
            },
        }
    }

    /// Writes the full record at the given key, overwriting any record
    /// already there.
    pub fn hset(&mut self, id: u64, rec: StoredRecord)
        requires
            old(self).inv(),
        ensures
            final(self).inv(),
            final(self)@.records =~= old(self)@.records.insert(id, rec@),
            final(self)@.index == old(self)@.index,
    {
        self.del(id);
        let ghost s0 = rec_pairs_model(self.records@);
        self.records.push((id, rec));
        proof {
            assert(rec_pairs_model(self.records@) =~= s0.push((id, rec@)));
            lemma_pairs_map_push(s0, id, rec@);
            assert(old(self)@.records.remove(id).insert(id, rec@) =~= old(self)@.records.insert(
                id,
                rec@,
            ));
        }
    }

    /// Reads the full record at the given key, or `None` where the key is
    /// absent.
    pub fn hgetall(&self, id: u64) -> (r: Option<StoredRecord>)
        requires
            self.inv(),
        ensures
            r matches Some(rec) ==> self@.records.contains_key(id) && rec@ == self@.records[id],
            r is None ==> !self@.records.contains_key(id),
    {
        match self.find_record_pos(id) {
            Some(i) => {
                proof {
                    lemma_pairs_map_get(rec_pairs_model(self.records@), i as int);
                }
                Some(self.records[i].1.duplicate())
            },
            None => {
                proof {
                    lemma_pairs_map_absent(rec_pairs_model(self.records@), id);
                }
                None
            },
        }
    }

    /// Removes the member from the ordered set; removing an absent member is
    /// a no-op.
    pub fn zrem(&mut self, member: u64)
        requires
            old(self).inv(),
        ensures
            final(self).inv(),
            pairs_map(final(self)@.index) =~= pairs_map(old(self)@.index).remove(member),
            final(self)@.records == old(self)@.records,
            forall|j: int|
                0 <= j < final(self)@.index.len() ==> old(self)@.index.contains(
                    #[trigger] final(self)@.index[j],
                ) && final(self)@.index[j].0 != member,
    {
        match self.find_index_pos(member) {
            Some(i) => {
                let ghost s0 = self.index@;
                self.index.remove(i);
                proof {
                    lemma_pairs_map_remove(s0, i as int);
                    assert(sorted_scores(self.index@)) by {
                        assert(forall|a: int, b: int|
                            0 <= a <= b < self.index@.len() ==> (#[trigger] self.index@[a]).1 <= (
                            #[trigger] self.index@[b]).1);
                    }
                    assert(forall|j: int|
                        0 <= j < self.index@.len() ==> s0.contains(#[trigger] self.index@[j])
                            && self.index@[j].0 != member);
                }
            },
            None => {
                proof {
                    lemma_pairs_map_absent(self.index@, member);
                    assert(pairs_map(self.index@) =~= pairs_map(self.index@).remove(member));
                    assert(forall|j: int|
                        0 <= j < self.index@.len() ==> old(self)@.index.contains(
                            #[trigger] self.index@[j],
                        ));
                }
            },
        }
    }

    /// Adds the member with the given score, or updates its score where it is
    /// already present, keeping the set ordered.
    pub fn zadd(&mut self, member: u64, score: i64)
        requires
            old(self).inv(),
        ensures
            final(self).inv(),
            pairs_map(final(self)@.index) =~= pairs_map(old(self)@.index).insert(member, score),
            final(self)@.records == old(self)@.records,
            forall|j: int|
                0 <= j < final(self)@.index.len() ==> final(self)@.index[j] == (member, score) || (
                old(self)@.index.contains(#[trigger] final(self)@.index[j])
                    && final(self)@.index[j].0 != member),
    {
        self.zrem(member);
        let ghost mid = self.index@;
        let n = self.index.len();
        let mut p: usize = 0;
        while p < n && self.index[p].1 <= score
            invariant
                p <= n,
                n == self.index@.len(),
                self.index@ == mid,
                forall|j: int| 0 <= j < p ==> (#[trigger] mid[j]).1 <= score,
            decreases n - p,
        {
            p = p + 1;
        }
        self.index.insert(p, (member, score));
        proof {
            lemma_pairs_map_insert(mid, p as int, member, score);
            assert(sorted_scores(self.index@)) by {
                assert(forall|j: int| p <= j < mid.len() ==> score < (#[trigger] mid[j]).1) by {
                    if p < mid.len() {
                        assert(forall|j: int|
                            p <= j < mid.len() ==> (#[trigger] mid[j]).1 >= mid[p as int].1);
                    }
                }
                assert(forall|a: int, b: int|
                    0 <= a <= b < self.index@.len() ==> (#[trigger] self.index@[a]).1 <= (
                    #[trigger] self.index@[b]).1);
            }
            assert(forall|j: int|
                0 <= j < self.index@.len() ==> self.index@[j] == (member, score) || (
                mid.contains(#[trigger] self.index@[j]) && self.index@[j].0 != member)) by {
                assert(forall|j: int|
                    0 <= j < self.index@.len() && j != p ==> mid.contains(
                        #[trigger] self.index@[j],
                    )) by {
                    assert(forall|j: int| 0 <= j < p ==> self.index@[j] == mid[j]);
                    assert(forall|j: int|
                        p < j < self.index@.len() ==> self.index@[j] == mid[j - 1]);
                }
            }
        }
    }

    /// Hands out every member of the ordered set, ascending by score.
    pub fn zrange(&self) -> (r: Vec<u64>)
        ensures
            r@.len() == self@.index.len(),
            forall|i: int| 0 <= i < r@.len() ==> r@[i] == (#[trigger] self@.index[i]).0,
    {
        let n = self.index.len();
        let mut out: Vec<u64> = Vec::new();
        let mut i: usize = 0;
        while i < n
            invariant
                i <= n,
                n == self.index@.len(),
                out@.len() == i,
                forall|j: int| 0 <= j < i ==> out@[j] == (#[trigger] self.index@[j]).0,
            decreases n - i,
        {
            out.push(self.index[i].0);
            i = i + 1;
        }
        out
    }
}

} // verus!
