//! An in-memory model of the remote backend: per table, a filtered read of
//! records changed after a timestamp, an upsert keyed by id, and a keyed
//! delete.  The orchestrator runs against this model unchanged; over the
//! network the same calls are carried out by the surrounding application.

use vstd::prelude::*;
use crate::push::clone_columns;
use crate::remote::{validate_spec, RemoteRecord, RemoteRecordView, RemoteRow, RemoteRowView};
use crate::tables::{TableId, TABLE_COUNT};
use crate::timestamp::format_timestamp;

verus! {

/// Whether some remote record in `s` carries `id`.
pub open spec fn contains_rid(s: Seq<RemoteRecordView>, id: u128) -> bool {
    exists|i: int| 0 <= i < s.len() && s[i].id == id
}

/// The index of the remote record carrying `id`.
pub open spec fn rid_index(s: Seq<RemoteRecordView>, id: u128) -> int {
    choose|i: int| 0 <= i < s.len() && s[i].id == id
}

pub open spec fn unique_rids(s: Seq<RemoteRecordView>) -> bool {
    forall|i: int, j: int| 0 <= i < j < s.len() ==> s[i].id != s[j].id
}

/// Under unique ids, the chosen index of a present id is the only one.
pub proof fn lemma_rid_index_unique(s: Seq<RemoteRecordView>, i: int)
    requires
        unique_rids(s),
        0 <= i < s.len(),
    ensures
        rid_index(s, s[i].id) == i,
{
    let j = rid_index(s, s[i].id);
    assert(contains_rid(s, s[i].id));
    if i < j {
        assert(s[i].id != s[j].id);
    } else if j < i {
        assert(s[j].id != s[i].id);
    }
}

/// A remote table after an upsert: the record carrying the same id
/// replaced, or the record appended under its new id.
pub open spec fn upserted(s: Seq<RemoteRecordView>, rec: RemoteRecordView) -> Seq<
    RemoteRecordView,
> {
    if contains_rid(s, rec.id) {
        s.update(rid_index(s, rec.id), rec)
    } else {
        s.push(rec)
    }
}

/// A remote table after a keyed delete.
pub open spec fn deleted(s: Seq<RemoteRecordView>, id: u128) -> Seq<RemoteRecordView> {
    if contains_rid(s, id) {
        s.remove(rid_index(s, id))
    } else {
        s
    }
}

/// The records changed strictly after `since`, in row order.
pub open spec fn changed_since(s: Seq<RemoteRecordView>, since: u64) -> Seq<RemoteRecordView>
    decreases s.len(),
{
    if s.len() == 0 {
        Seq::empty()
    } else {
        changed_since(s.drop_last(), since) + (if s.last().updated_at > since {
            seq![s.last()]
        } else {
            Seq::empty()
        })
    }
}

/// No remote record was updated after instant `b`.
pub open spec fn updates_before(s: Seq<RemoteRecordView>, b: u64) -> bool {
    forall|i: int| 0 <= i < s.len() ==> (#[trigger] s[i]).updated_at <= b
}

/// A bound on every record bounds the changed ones.
pub proof fn lemma_changed_bound(s: Seq<RemoteRecordView>, since: u64, b: u64)
    requires
        updates_before(s, b),
    ensures
        updates_before(changed_since(s, since), b),
    decreases s.len(),
{
    if s.len() > 0 {
        assert(forall|i: int|
            0 <= i < s.drop_last().len() ==> (#[trigger] s.drop_last()[i]).updated_at <= b);
        lemma_changed_bound(s.drop_last(), since, b);
        assert(s.last() == s[s.len() - 1]);
        let c = changed_since(s, since);
        let cp = changed_since(s.drop_last(), since);
        assert forall|i: int| 0 <= i < c.len() implies (#[trigger] c[i]).updated_at <= b by {
            if i < cp.len() {
                assert(c[i] == cp[i]);
            } else {
                assert(c[i] == s.last());
            }
        }
    }
}

/// No more records change than exist.
pub proof fn lemma_changed_len(s: Seq<RemoteRecordView>, since: u64)
    ensures
        changed_since(s, since).len() <= s.len(),
    decreases s.len(),
{
    if s.len() > 0 {
        lemma_changed_len(s.drop_last(), since);
    }
}

/// Nothing changed exactly when no record's update time exceeds `since`.
pub proof fn lemma_no_changes(s: Seq<RemoteRecordView>, since: u64)
    requires
        forall|i: int| 0 <= i < s.len() ==> (#[trigger] s[i]).updated_at <= since,
    ensures
        changed_since(s, since) == Seq::<RemoteRecordView>::empty(),
    decreases s.len(),
{
    if s.len() > 0 {
        assert(forall|i: int|
            0 <= i < s.drop_last().len() ==> (#[trigger] s.drop_last()[i]).updated_at <= since);
        lemma_no_changes(s.drop_last(), since);
        assert(s.last() == s[s.len() - 1]);
        assert(changed_since(s, since) =~= Seq::<RemoteRecordView>::empty());
    } else {
        assert(changed_since(s, since) =~= Seq::<RemoteRecordView>::empty());
    }
}

/// One table of the remote backend.
pub struct RemoteTable {
    pub rows: Vec<RemoteRecord>,
}

impl View for RemoteTable {
    type V = Seq<RemoteRecordView>;

    open spec fn view(&self) -> Seq<RemoteRecordView> {
        self.rows@.map_values(|r: RemoteRecord| r@)
    }
}

impl RemoteTable {
    pub open spec fn wf(self) -> bool {
        &&& unique_rids(self@)
        &&& forall|i: int| 0 <= i < self@.len() ==> (#[trigger] self@[i]).wf()
    }

    pub fn new() -> (t: RemoteTable)
        ensures
            t@ == Seq::<RemoteRecordView>::empty(),
            t.wf(),
    {
        let t = RemoteTable { rows: Vec::new() };
        proof {
            assert(t@ =~= Seq::<RemoteRecordView>::empty());
        }
        t
    }

    pub fn find(&self, id: u128) -> (r: Option<usize>)
        ensures
            match r {
                Some(i) => i < self@.len() && self@[i as int].id == id,
                None => !contains_rid(self@, id),
            },
    {
        let mut i: usize = 0;
        while i < self.rows.len()
            invariant
                i <= self@.len(),
                forall|j: int| 0 <= j < i ==> self@[j].id != id,
            decreases self@.len() - i,
        {
            if self.rows[i].id == id {
                return Some(i);
            }
            i += 1;
        }
        None
    }

    /// The filtered read: every record changed strictly after `since`, as a
    /// raw transport row whose validation recovers the record exactly.
    pub fn fetch_since(&self, since: u64) -> (rows: Vec<RemoteRow>)
        requires
            self.wf(),
        ensures
            rows@.len() == changed_since(self@, since).len(),
            forall|i: int|
                0 <= i < rows@.len() ==> #[trigger] validate_spec(rows@[i]@) == Some(
                    changed_since(self@, since)[i],
                ),
    {
        let mut out: Vec<RemoteRow> = Vec::new();
        let mut j: usize = 0;
        proof {
            assert(self@.take(0) =~= Seq::<RemoteRecordView>::empty());
        }
        while j < self.rows.len()
            invariant
                0 <= j <= self@.len(),
                self.wf(),
                out@.len() == changed_since(self@.take(j as int), since).len(),
                forall|i: int|
                    0 <= i < out@.len() ==> #[trigger] validate_spec(out@[i]@) == Some(
                        changed_since(self@.take(j as int), since)[i],
                    ),
            decreases self@.len() - j,
        {
            proof {
                assert(self@.take(j + 1).drop_last() =~= self@.take(j as int));
                assert(self@.take(j + 1).last() == self@[j as int]);
            }
            let rec = &self.rows[j];
            if rec.updated_at > since {
                let row = RemoteRow {
                    id: Some(rec.id),
                    created_at: Some(format_timestamp(rec.created_at)),
                    updated_at: Some(format_timestamp(rec.updated_at)),
                    is_deleted: rec.is_deleted,
                    columns: clone_columns(&rec.columns),
                };
                proof {
                    assert(self@[j as int] == rec@);
                    assert(validate_spec(row@) == Some(self@[j as int]));
                }
                out.push(row);
            }
            j += 1;
        }
        proof {
            assert(self@.take(self@.len() as int) =~= self@);
        }
        out
    }

    /// Insert-or-merge by id: replaces the record carrying the same id, or
    /// appends the record if the id is new.
    pub fn upsert(&mut self, rec: RemoteRecord)
        requires
            old(self).wf(),
            rec@.wf(),
        ensures
            final(self).wf(),
            final(self)@ == upserted(old(self)@, rec@),
    {
        let ghost v = rec@;
        match self.find(rec.id) {
            Some(i) => {
                proof {
                    lemma_rid_index_unique(old(self)@, i as int);
                }
                let RemoteRecord { id, created_at, updated_at, is_deleted, columns } = rec;
                let row = &mut self.rows[i];
                row.created_at = created_at;
                row.updated_at = updated_at;
                row.is_deleted = is_deleted;
                row.columns = columns;
                proof {
                    assert(final(self)@ =~= old(self)@.update(i as int, v));
                    assert forall|a: int, b: int|
                        0 <= a < b < final(self)@.len() implies final(self)@[a].id
                        != final(self)@[b].id by {
                        assert(old(self)@[a].id != old(self)@[b].id);
                    }
                }
            },
            None => {
                self.rows.push(rec);
                proof {
                    assert(final(self)@ =~= old(self)@.push(v));
                    assert forall|a: int, b: int|
                        0 <= a < b < final(self)@.len() implies final(self)@[a].id
                        != final(self)@[b].id by {
                        if b == final(self)@.len() - 1 {
                            assert(final(self)@[a] == old(self)@[a]);
                            assert(contains_rid(old(self)@, old(self)@[a].id));
                        }
                    }
                }
            },
        }
    }

    /// Keyed delete: removes the record carrying `id`, if any.
    pub fn delete(&mut self, id: u128)
        requires
            old(self).wf(),
        ensures
            final(self).wf(),
            final(self)@ == deleted(old(self)@, id),
    {
        match self.find(id) {
            Some(i) => {
                proof {
                    lemma_rid_index_unique(old(self)@, i as int);
                }
                self.rows.remove(i);
                proof {
                    assert(final(self)@ =~= old(self)@.remove(i as int));
                    let t = final(self)@;
                    let s = old(self)@;
                    assert forall|a: int, b: int| 0 <= a < b < t.len() implies t[a].id != t[b].id by {
                        let a0 = if a < i { a } else { a + 1 };
                        let b0 = if b < i { b } else { b + 1 };
                        assert(t[a] == s[a0]);
                        assert(t[b] == s[b0]);
                    }
                    assert forall|a: int| 0 <= a < t.len() implies (#[trigger] t[a]).wf() by {
                        let a0 = if a < i { a } else { a + 1 };
                        assert(t[a] == s[a0]);
                    }
                }
            },
            None => {},
        }
    }
}

/// The whole remote backend: one table per registry entry, in registry
/// order.
pub struct RemoteStore {
    pub tables: Vec<RemoteTable>,
}

impl RemoteStore {
    pub open spec fn wf(self) -> bool {
        &&& self.tables@.len() == TABLE_COUNT
        &&& forall|t: int| 0 <= t < self.tables@.len() ==> (#[trigger] self.tables@[t]).wf()
    }

    pub fn new() -> (s: RemoteStore)
        ensures
            s.wf(),
            forall|t: int| 0 <= t < TABLE_COUNT ==> (#[trigger] s.tables@[t])@ == Seq::<
                RemoteRecordView,
            >::empty(),
    {
        let mut tables: Vec<RemoteTable> = Vec::new();
        tables.push(RemoteTable::new());
        tables.push(RemoteTable::new());
        tables.push(RemoteTable::new());
        RemoteStore { tables }
    }

    pub fn table(&self, id: TableId) -> (t: &RemoteTable)
        requires
            self.wf(),
        ensures
            *t == self.tables@[id.position_spec()],
    {
        let pos = id.position();
        &self.tables[pos]
    }

    pub fn table_mut(&mut self, id: TableId) -> (t: &mut RemoteTable)
        requires
            old(self).wf(),
        ensures
            *t == old(self).tables@[id.position_spec()],
            final(self).tables@ == old(self).tables@.update(id.position_spec(), *final(t)),
    {
        let pos = id.position();
        &mut self.tables[pos]
    }
}

} // verus!
