use vstd::prelude::*;

use crate::codec::{decode_record, decoded_item, encode_record, record_of};
use crate::errors::Error;
use crate::item::{identity_of, spec_identity, wf_item, ItemModel, ToDoItem, TS_MAX, TS_MIN};
use crate::store::{pairs_map, sorted_scores, unique_keys, Store, StoreModel};

verus! {

/// The views of a sequence of items.
pub open spec fn views_of(s: Seq<ToDoItem>) -> Seq<ItemModel> {
    s.map_values(|it: ToDoItem| it@)
}

/// The item `v` stands in the store exactly as `add_item` writes it: its
/// record under its identity, its index entry scored by its due date, and the
/// record reads back as the item itself.
pub open spec fn stored_entry(m: StoreModel, id: u64, score: i64, v: ItemModel) -> bool {
    &&& wf_item(v)
    &&& spec_identity(v) == id
    &&& v.due_ts == score
    &&& m.records.contains_key(id)
    &&& m.records[id] == record_of(v)
    &&& decoded_item(m.records[id]) == Some(v)
}

/// Some item stands behind the index entry `(id, score)`.
pub open spec fn entry_ok(m: StoreModel, id: u64, score: i64) -> bool {
    exists|v: ItemModel| stored_entry(m, id, score, v)
}

/// The repository's invariant over a store: the index is an ordered set
/// proper, and every index entry has a corresponding record that reads back
/// as an item with that identity and that due date. Orphan records without an
/// index entry may exist; they are harmless and never listed.
pub open spec fn repo_inv(m: StoreModel) -> bool {
    &&& unique_keys(m.index)
    &&& sorted_scores(m.index)
    &&& forall|i: int|
        0 <= i < m.index.len() ==> entry_ok(m, (#[trigger] m.index[i]).0, m.index[i].1)
}

/// The outcome of listing the first `i` index entries in order: the decoded
/// items, or the first failure — `ItemMissing` for an entry without a record,
/// `ParseError` for a record that does not read back.
pub open spec fn list_upto(m: StoreModel, i: int) -> Result<Seq<ItemModel>, Error>
    decreases i,
{
    if i <= 0 {
        Ok(Seq::empty())
    } else {
        match list_upto(m, i - 1) {
            Ok(pre) => {
                let id = m.index[i - 1].0;
                if !m.records.contains_key(id) {
                    Err(Error::ItemMissing)
                } else {
                    match decoded_item(m.records[id]) {
                        Some(v) => Ok(pre.push(v)),
                        None => Err(Error::ParseError),
                    }
                }
            },
            Err(e) => Err(e),
        }
    }
}

/// What listing the whole store returns, entry by entry in index order.
pub open spec fn listing_model(m: StoreModel) -> Result<Seq<ItemModel>, Error> {
    list_upto(m, m.index.len() as int)
}

/// A failure among the first `i` entries decides every longer listing too.
proof fn lemma_list_upto_err(m: StoreModel, i: int, j: int)
    requires
        0 <= i <= j,
        list_upto(m, i) is Err,
    ensures
        list_upto(m, j) == list_upto(m, i),
    decreases j - i,
{
    if i < j {
        lemma_list_upto_err(m, i, j - 1);
    }
}

/// Under the repository invariant every prefix of the listing succeeds, and
/// the item listed for each entry carries that entry's identity and score.
proof fn lemma_list_upto_under_inv(m: StoreModel, i: int)
    requires
        repo_inv(m),
        0 <= i <= m.index.len(),
    ensures
        list_upto(m, i) is Ok,
        list_upto(m, i) matches Ok(l) ==> l.len() == i && forall|j: int|
            0 <= j < i ==> {
                &&& wf_item(#[trigger] l[j])
                &&& spec_identity(l[j]) == m.index[j].0
                &&& l[j].due_ts == m.index[j].1
                &&& decoded_item(m.records[m.index[j].0]) == Some(l[j])
            },
    decreases i,
{
    if i > 0 {
        lemma_list_upto_under_inv(m, i - 1);
        let e = m.index[i - 1];
        assert(entry_ok(m, e.0, e.1));
        let v = choose|v: ItemModel| stored_entry(m, e.0, e.1, v);
        assert(list_upto(m, i) == Ok::<Seq<ItemModel>, Error>(list_upto(m, i - 1)->Ok_0.push(v)));
    }
}

/// Under the repository invariant the listing succeeds, returns one item per
/// index entry, and each listed item carries its entry's identity and score.
pub proof fn lemma_listing_under_inv(m: StoreModel)
    requires
        repo_inv(m),
    ensures
        listing_model(m) is Ok,
        listing_model(m) matches Ok(l) ==> l.len() == m.index.len() && forall|j: int|
            0 <= j < l.len() ==> {
                &&& wf_item(#[trigger] l[j])
                &&& spec_identity(l[j]) == m.index[j].0
                &&& l[j].due_ts == m.index[j].1
                &&& decoded_item(m.records[m.index[j].0]) == Some(l[j])
            },
{
    lemma_list_upto_under_inv(m, m.index.len() as int);
}

/// The repository: add, enumerate-in-order, delete and update over to-do
/// items, against the store it owns.
pub struct Repository {
    /// The store holding the records and the date-ordered index.
    pub store: Store,
}

impl View for Repository {
    type V = StoreModel;

    open spec fn view(&self) -> StoreModel {
        self.store@
    }
}

impl Repository {
    /// A repository over an empty store.
    pub fn new() -> (r: Repository)
        ensures
            r.store.inv(),
            r@.records =~= Map::<u64, crate::codec::RecordModel>::empty(),
            r@.index =~= Seq::<(u64, i64)>::empty(),
            repo_inv(r@),
    {
        Repository { store: Store::new() }
    }

    /// Adds an item: writes its record under its identity, overwriting any
    /// record already there, then writes its index entry scored by its due
    /// date. Adding two items with equal title and due date collides by
    /// design: the identity is content-addressed and the last write wins.
    pub fn add_item(&mut self, item: &ToDoItem) -> (r: Result<(), Error>)
        requires
            old(self).store.inv(),
            item.wf(),
        ensures
            final(self).store.inv(),
            r is Ok,
            final(self)@.records =~= old(self)@.records.insert(
                spec_identity(item@),
                record_of(item@),
            ),
            pairs_map(final(self)@.index) =~= pairs_map(old(self)@.index).insert(
                spec_identity(item@),
                item@.due_ts,
            ),
            stored_entry(final(self)@, spec_identity(item@), item@.due_ts, item@),
            repo_inv(old(self)@) ==> repo_inv(final(self)@),
    {
        let id = identity_of(item);
        let rec = encode_record(item);
        self.store.hset(id, rec);
        let ghost m1 = self@;
        self.store.zadd(id, item.due_ts);
        proof {
            let m0 = old(self)@;
            let m2 = self@;
            assert(m2.records =~= m0.records.insert(id, record_of(item@)));
            assert(stored_entry(m2, id, item@.due_ts, item@));
            if repo_inv(m0) {
                assert forall|i: int| 0 <= i < m2.index.len() implies entry_ok(
                    m2,
                    (#[trigger] m2.index[i]).0,
                    m2.index[i].1,
                ) by {
                    let e = m2.index[i];
                    if e == (id, item@.due_ts) {
                        assert(stored_entry(m2, e.0, e.1, item@));
                    } else {
                        assert(m1.index.contains(e) && e.0 != id);
                        let i0 = choose|i0: int| 0 <= i0 < m0.index.len() && m0.index[i0] == e;
                        assert(entry_ok(m0, e.0, e.1));
                        let v = choose|v: ItemModel| stored_entry(m0, e.0, e.1, v);
                        assert(stored_entry(m2, e.0, e.1, v));
                    }
                }
            }
        }
        Ok(())
    }

    /// Reads all index entries in ascending score order and fetches each
    /// record. An entry without a record is an `ItemMissing` error, a record
    /// that does not read back is a `ParseError`: an inconsistency is
    /// surfaced, never skipped.
    pub fn list_items(&self) -> (r: Result<Vec<ToDoItem>, Error>)
        requires
            self.store.inv(),
        ensures
            r matches Ok(items) ==> listing_model(self@) == Ok::<Seq<ItemModel>, Error>(
                views_of(items@),
            ),
            r matches Ok(items) ==> forall|i: int|
                0 <= i < items@.len() ==> (#[trigger] items@[i]).wf(),
            r matches Err(e) ==> listing_model(self@) == Err::<Seq<ItemModel>, Error>(e),
            repo_inv(self@) ==> r is Ok,
    {
        let ghost m = self@;
        let members = self.store.zrange();
        let n = members.len();
        let mut out: Vec<ToDoItem> = Vec::new();
        proof {
            assert(views_of(out@) =~= Seq::<ItemModel>::empty());
        }
        let mut i: usize = 0;
        while i < n
            invariant
                self.store.inv(),
                m == self@,
                i <= n,
                n == m.index.len(),
                members@.len() == n,
                forall|j: int| 0 <= j < n ==> members@[j] == (#[trigger] m.index[j]).0,
                out@.len() == i,
                forall|j: int| 0 <= j < i ==> (#[trigger] out@[j]).wf(),
                list_upto(m, i as int) == Ok::<Seq<ItemModel>, Error>(views_of(out@)),
            decreases n - i,
        {
            let id = members[i];
            match self.store.hgetall(id) {
                None => {
                    proof {
                        assert(list_upto(m, i + 1) == Err::<Seq<ItemModel>, Error>(
                            Error::ItemMissing,
                        ));
                        lemma_list_upto_err(m, i + 1, m.index.len() as int);
                        if repo_inv(m) {
                            let e = m.index[i as int];
                            assert(entry_ok(m, e.0, e.1));
                            let v = choose|v: ItemModel| stored_entry(m, e.0, e.1, v);
                            assert(false);
                        }
                    }
                    return Err(Error::ItemMissing);
                },
                Some(rec) => {
                    match decode_record(&rec) {
                        Ok(it) => {
                            proof {
                                assert(list_upto(m, i + 1) == Ok::<Seq<ItemModel>, Error>(
                                    views_of(out@).push(it@),
                                ));
                                assert(views_of(out@.push(it)) =~= views_of(out@).push(it@));
                            }
                            out.push(it);
                            i = i + 1;
                        },
                        Err(_) => {
                            proof {
                                assert(list_upto(m, i + 1) == Err::<Seq<ItemModel>, Error>(
                                    Error::ParseError,
                                ));
                                lemma_list_upto_err(m, i + 1, m.index.len() as int);
                                if repo_inv(m) {
                                    let e = m.index[i as int];
                                    assert(entry_ok(m, e.0, e.1));
                                    let v = choose|v: ItemModel| stored_entry(m, e.0, e.1, v);
                                    assert(false);
                                }
                            }
                            return Err(Error::ParseError);
                        },
                    }
                },
            }
        }
        Ok(out)
    }

    /// Deletes an item: removes its index entry, then its record, both found
    /// by recomputing its identity. Deleting an item that is already absent
    /// succeeds: both removals are no-ops then.
    pub fn delete_item(&mut self, item: &ToDoItem) -> (r: Result<(), Error>)
        requires
            old(self).store.inv(),
            item.wf(),
        ensures
            final(self).store.inv(),
            r is Ok,
            final(self)@.records =~= old(self)@.records.remove(spec_identity(item@)),
            pairs_map(final(self)@.index) =~= pairs_map(old(self)@.index).remove(
                spec_identity(item@),
            ),
            forall|j: int|
                0 <= j < final(self)@.index.len() ==> old(self)@.index.contains(
                    #[trigger] final(self)@.index[j],
                ) && final(self)@.index[j].0 != spec_identity(item@),
            repo_inv(old(self)@) ==> repo_inv(final(self)@),
    {
        let id = identity_of(item);
        self.store.zrem(id);
        let ghost m1 = self@;
        self.store.del(id);
        proof {
            let m0 = old(self)@;
            let m2 = self@;
            if repo_inv(m0) {
                assert forall|i: int| 0 <= i < m2.index.len() implies entry_ok(
                    m2,
                    (#[trigger] m2.index[i]).0,
                    m2.index[i].1,
                ) by {
                    let e = m2.index[i];
                    assert(m0.index.contains(e) && e.0 != id);
                    let i0 = choose|i0: int| 0 <= i0 < m0.index.len() && m0.index[i0] == e;
                    assert(entry_ok(m0, e.0, e.1));
                    let v = choose|v: ItemModel| stored_entry(m0, e.0, e.1, v);
                    assert(stored_entry(m2, e.0, e.1, v));
                }
            }
        }
        Ok(())
    }

    /// Updates an item by replacement, never in place: builds the new item
    /// (fields left as `None` are carried over), deletes the old one, adds
    /// the new one, and returns it. The two steps are separate writes; this
    /// mirrors the store's lack of a multi-command transaction.
    pub fn update_item(
        &mut self,
        old_item: &ToDoItem,
        new_title: Option<String>,
        new_due_ts: Option<i64>,
    ) -> (r: Result<ToDoItem, Error>)
        requires
            old(self).store.inv(),
            old_item.wf(),
        ensures
            final(self).store.inv(),
            r is Ok <==> {
                &&& (new_title matches Some(t) ==> t@.len() > 0)
                &&& (new_due_ts matches Some(d) ==> TS_MIN <= d <= TS_MAX)
            },
            r matches Err(e) ==> e == Error::ParseError && final(self)@ == old(self)@,
            r matches Ok(it) ==> {
                &&& it.wf()
                &&& it@.title == (if new_title is Some {
                    new_title.unwrap()@
                } else {
                    old_item@.title
                })
                &&& it@.due_ts == (if new_due_ts is Some {
                    new_due_ts.unwrap()
                } else {
                    old_item@.due_ts
                })
                &&& final(self)@.records =~= old(self)@.records.remove(
                    spec_identity(old_item@),
                ).insert(spec_identity(it@), record_of(it@))
                &&& pairs_map(final(self)@.index) =~= pairs_map(old(self)@.index).remove(
                    spec_identity(old_item@),
                ).insert(spec_identity(it@), it@.due_ts)
                &&& stored_entry(final(self)@, spec_identity(it@), it@.due_ts, it@)
                &&& (spec_identity(it@) != spec_identity(old_item@) ==> !pairs_map(
                    final(self)@.index,
                ).contains_key(spec_identity(old_item@)))
                &&& (repo_inv(old(self)@) ==> repo_inv(final(self)@))
            },
    {
        let replacement = match old_item.reuse(new_title, new_due_ts) {
            Ok(it) => it,
            Err(e) => {
                return Err(e);
            },
        };
        let _ = self.delete_item(old_item);
        let _ = self.add_item(&replacement);
        Ok(replacement)
    }

    /// Deletes every listed item: lists the store, then deletes the items one
    /// by one. A listing failure is returned unchanged with nothing deleted.
    #[verifier::rlimit(50)]
    pub fn delete_all(&mut self) -> (r: Result<(), Error>)
        requires
            old(self).store.inv(),
        ensures
            final(self).store.inv(),
            r is Ok <==> listing_model(old(self)@) is Ok,
            r matches Err(e) ==> listing_model(old(self)@) == Err::<Seq<ItemModel>, Error>(e)
                && final(self)@ == old(self)@,
            (repo_inv(old(self)@) && r is Ok) ==> final(self)@.index =~= Seq::<(u64, i64)>::empty()
                && repo_inv(final(self)@),
    {
        let ghost m0 = old(self)@;
        let items = match self.list_items() {
            Ok(items) => items,
            Err(e) => {
                return Err(e);
            },
        };
        proof {
            if repo_inv(m0) {
                lemma_listing_under_inv(m0);
                assert forall|j: int| 0 <= j < items@.len() implies spec_identity(
                    (#[trigger] items@[j])@,
                ) == m0.index[j].0 by {
                    assert(views_of(items@)[j] == items@[j]@);
                }
                assert(views_of(items@).len() == m0.index.len());
            }
        }
        let n = items.len();
        let mut i: usize = 0;
        while i < n
            invariant
                self.store.inv(),
                i <= n,
                n == items@.len(),
                forall|j: int| 0 <= j < n ==> (#[trigger] items@[j]).wf(),
                repo_inv(m0) ==> {
                    &&& n == m0.index.len()
                    &&& (forall|j: int|
                        0 <= j < n ==> spec_identity((#[trigger] items@[j])@) == m0.index[j].0)
                    &&& (forall|k: u64|
                        pairs_map(self@.index).contains_key(k) ==> pairs_map(
                            m0.index,
                        ).contains_key(k) && (forall|j: int|
                            0 <= j < i ==> (#[trigger] m0.index[j]).0 != k))
                },
            decreases n - i,
        {
            let ghost before = self@;
            let _ = self.delete_item(&items[i]);
            proof {
                if repo_inv(m0) {
                    let id = spec_identity(items@[i as int]@);
                    assert forall|k: u64| pairs_map(self@.index).contains_key(k) implies pairs_map(
                        m0.index,
                    ).contains_key(k) && (forall|j: int|
                        0 <= j < i + 1 ==> (#[trigger] m0.index[j]).0 != k) by {
                        assert(pairs_map(self@.index) =~= pairs_map(before.index).remove(id));
                        assert(pairs_map(before.index).contains_key(k));
                        assert(k != id);
                        assert(pairs_map(m0.index).contains_key(k));
                        assert(m0.index[i as int].0 == id);
                        assert forall|j: int| 0 <= j < i + 1 implies (#[trigger] m0.index[j]).0
                            != k by {
                            if j < i {
                                assert(m0.index[j].0 != k);
                            }
                        }
                    }
                }
            }
            i = i + 1;
        }
        proof {
            if repo_inv(m0) {
                if self@.index.len() > 0 {
                    crate::store::lemma_pairs_map_get(self@.index, 0);
                    let k = self@.index[0].0;
                    assert(pairs_map(m0.index).contains_key(k));
                    crate::store::lemma_pairs_map_key_exists(m0.index, k);
                    let j = choose|j: int| 0 <= j < m0.index.len() && (#[trigger] m0.index[j]).0 == k;
                    assert(false);
                }
                assert(self@.index =~= Seq::<(u64, i64)>::empty());
            }
        }
        Ok(())
    }
}

/// Round trip: under the repository invariant, an item that stands in the
/// store as `add_item` leaves it — its index entry scored by its due date and
/// its record under its identity — is returned by the listing, equal in title
/// and due date.
pub proof fn lemma_round_trip(m: StoreModel, v: ItemModel)
    requires
        repo_inv(m),
        pairs_map(m.index).contains_key(spec_identity(v)),
        pairs_map(m.index)[spec_identity(v)] == v.due_ts,
        m.records.contains_key(spec_identity(v)),
        m.records[spec_identity(v)] == record_of(v),
    ensures
        listing_model(m) is Ok,
        listing_model(m) matches Ok(l) ==> l.contains(v),
{
    lemma_listing_under_inv(m);
    let id = spec_identity(v);
    crate::store::lemma_pairs_map_key_exists(m.index, id);
    let i = choose|i: int| 0 <= i < m.index.len() && (#[trigger] m.index[i]).0 == id;
    crate::store::lemma_pairs_map_get(m.index, i);
    let e = m.index[i];
    assert(e.1 == v.due_ts);
    assert(entry_ok(m, e.0, e.1));
    let vp = choose|vp: ItemModel| stored_entry(m, e.0, e.1, vp);
    assert(record_of(vp) == record_of(v));
    assert(vp.title == v.title);
    assert(vp =~= v);
    let l = listing_model(m)->Ok_0;
    assert(decoded_item(m.records[e.0]) == Some(l[i]));
    assert(l[i] == v);
    assert(l.contains(v));
}

/// Ordering: under the repository invariant the listing succeeds and returns
/// the items non-decreasing by due date.
pub proof fn lemma_listing_sorted(m: StoreModel)
    requires
        repo_inv(m),
    ensures
        listing_model(m) is Ok,
        listing_model(m) matches Ok(l) ==> forall|i: int, j: int|
            0 <= i <= j < l.len() ==> (#[trigger] l[i]).due_ts <= (#[trigger] l[j]).due_ts,
{
    lemma_listing_under_inv(m);
    let l = listing_model(m)->Ok_0;
    assert forall|i: int, j: int| 0 <= i <= j < l.len() implies (#[trigger] l[i]).due_ts <= (
    #[trigger] l[j]).due_ts by {
        assert(m.index[i].1 <= m.index[j].1);
    }
}

/// Deletion: under the repository invariant, once an identity has no index
/// entry the listing succeeds and contains no item with that identity.
pub proof fn lemma_deleted_absent(m: StoreModel, id: u64)
    requires
        repo_inv(m),
        !pairs_map(m.index).contains_key(id),
    ensures
        listing_model(m) is Ok,
        listing_model(m) matches Ok(l) ==> forall|i: int|
            0 <= i < l.len() ==> spec_identity(#[trigger] l[i]) != id,
{
    lemma_listing_under_inv(m);
    let l = listing_model(m)->Ok_0;
    assert forall|i: int| 0 <= i < l.len() implies spec_identity(#[trigger] l[i]) != id by {
        if spec_identity(l[i]) == id {
            crate::store::lemma_pairs_map_key_at(m.index, i);
        }
    }
}

/// Update: under the repository invariant, after an update whose replacement
/// has a different identity than the item it replaced — its entry present,
/// the old identity's entry gone — the listing contains the replacement and
/// no item with the old identity. An update that leaves title and due date
/// unchanged keeps the same identity and is outside this statement.
pub proof fn lemma_update_semantics(m: StoreModel, old_id: u64, v: ItemModel)
    requires
        repo_inv(m),
        old_id != spec_identity(v),
        !pairs_map(m.index).contains_key(old_id),
        pairs_map(m.index).contains_key(spec_identity(v)),
        pairs_map(m.index)[spec_identity(v)] == v.due_ts,
        m.records.contains_key(spec_identity(v)),
        m.records[spec_identity(v)] == record_of(v),
    ensures
        listing_model(m) is Ok,
        listing_model(m) matches Ok(l) ==> l.contains(v) && forall|i: int|
            0 <= i < l.len() ==> spec_identity(#[trigger] l[i]) != old_id,
{
    lemma_round_trip(m, v);
    lemma_deleted_absent(m, old_id);
}

} // verus!
