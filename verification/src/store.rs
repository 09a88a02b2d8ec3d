//! The local side of the reconciliation: an id-keyed table of syncable
//! records, with the local mutations (create, edit, tombstone) that make
//! records dirty, and the purge that ends a tombstone's life once the
//! remote delete is confirmed.

use vstd::prelude::*;
use crate::record::{local_record, Record, RecordView};
use crate::tables::{TableId, TABLE_COUNT};
use crate::timestamp::wf_time;

verus! {

/// Whether some record in `s` carries `id`.
pub open spec fn contains_id(s: Seq<RecordView>, id: u128) -> bool {
    exists|i: int| 0 <= i < s.len() && s[i].id == id
}

/// The index of the record carrying `id` (meaningful under `unique_ids`).
pub open spec fn id_index(s: Seq<RecordView>, id: u128) -> int {
    choose|i: int| 0 <= i < s.len() && s[i].id == id
}

/// No two records share an id.
pub open spec fn unique_ids(s: Seq<RecordView>) -> bool {
    forall|i: int, j: int| 0 <= i < j < s.len() ==> s[i].id != s[j].id
}

/// Every record is well-formed.
pub open spec fn all_wf(s: Seq<RecordView>) -> bool {
    forall|i: int| 0 <= i < s.len() ==> (#[trigger] s[i]).wf()
}

/// No record was last changed after instant `b`.
pub open spec fn edits_before(s: Seq<RecordView>, b: u64) -> bool {
    forall|i: int| 0 <= i < s.len() ==> (#[trigger] s[i]).local_updated_at <= b
}

/// Under unique ids, the chosen index of a present id is the only index
/// carrying it.
pub proof fn lemma_id_index_unique(s: Seq<RecordView>, i: int)
    requires
        unique_ids(s),
        0 <= i < s.len(),
    ensures
        id_index(s, s[i].id) == i,
{
    let id = s[i].id;
    assert(contains_id(s, id));
    let j = id_index(s, id);
    assert(0 <= j < s.len() && s[j].id == id);
    if i < j {
        assert(s[i].id != s[j].id);
    } else if j < i {
        assert(s[j].id != s[i].id);
    }
}

/// One syncable table of the local store.
pub struct Table {
    pub rows: Vec<Record>,
}

impl View for Table {
    type V = Seq<RecordView>;

    open spec fn view(&self) -> Seq<RecordView> {
        self.rows@.map_values(|r: Record| r@)
    }
}

impl Table {
    /// Well-formed table: unique ids, every record well-formed.
    pub open spec fn wf(self) -> bool {
        unique_ids(self@) && all_wf(self@)
    }

    pub fn new() -> (t: Table)
        ensures
            t@ == Seq::<RecordView>::empty(),
            t.wf(),
    {
        let t = Table { rows: Vec::new() };
        proof {
            assert(t@ =~= Seq::<RecordView>::empty());
        }
        t
    }

    pub fn len(&self) -> (r: usize)
        ensures
            r == self@.len(),
    {
        self.rows.len()
    }

    /// The index of the record carrying `id`, if any.
    pub fn find(&self, id: u128) -> (r: Option<usize>)
        ensures
            match r {
                Some(i) => i < self@.len() && self@[i as int].id == id,
                None => !contains_id(self@, id),
            },
    {
        let mut i: usize = 0;
        while i < self.rows.len()
            invariant
                i <= self@.len(),
                forall|j: int| 0 <= j < i ==> self@[j].id != id,
            decreases self@.len() - i,
        {
            if self.rows[i].id == id {
                return Some(i);
            }
            i += 1;
        }
        None
    }

    /// Read access to one record by index.
    pub fn record_at(&self, i: usize) -> (r: &Record)
        requires
            i < self@.len(),
        ensures
            r@ == self@[i as int],
    {
        &self.rows[i]
    }

    /// Inserts a locally authored record, unless the id is taken.
    pub fn insert_new(&mut self, id: u128, columns: Vec<Option<String>>, now: u64) -> (ok: bool)
        requires
            old(self).wf(),
            wf_time(now),
        ensures
            final(self).wf(),
            ok == !contains_id(old(self)@, id),
            ok ==> final(self)@ == old(self)@.push(local_record(id, columns@, now)),
            !ok ==> final(self)@ == old(self)@,
    {
        match self.find(id) {
            Some(_) => false,
            None => {
                let rec = Record::new_local(id, columns, now);
                let ghost v = rec@;
                self.rows.push(rec);
                proof {
                    assert(self@ =~= old(self)@.push(v));
                }
                true
            },
        }
    }

    /// The essence of record creation: draw a fresh id and insert a
    /// locally authored record under it.  Returns `None` only in the
    /// (vanishingly unlikely) event that the drawn id is already taken —
    /// so never on an empty table — and the store is then left unchanged.
    pub fn create_record(&mut self, columns: Vec<Option<String>>, now: u64) -> (r: Option<u128>)
        requires
            old(self).wf(),
            wf_time(now),
        ensures
            final(self).wf(),
            r is None ==> old(self)@.len() > 0,
            match r {
                Some(id) => !contains_id(old(self)@, id) && final(self)@ == old(self)@.push(
                    local_record(id, columns@, now),
                ),
                None => final(self)@ == old(self)@,
            },
    {
        let id = fresh_id();
        if self.insert_new(id, columns, now) {
            Some(id)
        } else {
            None
        }
    }

    /// A local edit: replaces the business columns and bumps the local
    /// change time, leaving the sync bookkeeping untouched.
    pub fn update_record(&mut self, id: u128, columns: Vec<Option<String>>, now: u64) -> (found:
        bool)
        requires
            old(self).wf(),
            wf_time(now),
            contains_id(old(self)@, id) ==> now > old(self)@[id_index(old(self)@, id)].local_updated_at,
        ensures
            final(self).wf(),
            found == contains_id(old(self)@, id),
            found ==> final(self)@ == old(self)@.update(
                id_index(old(self)@, id),
                edited_record(old(self)@[id_index(old(self)@, id)], columns@, now),
            ),
            !found ==> final(self)@ == old(self)@,
    {
        match self.find(id) {
            None => false,
            Some(i) => {
                proof {
                    lemma_id_index_unique(old(self)@, i as int);
                }
                let row = &mut self.rows[i];
                row.columns = columns;
                row.local_updated_at = now;
                proof {
                    assert(self@ =~= old(self)@.update(
                        i as int,
                        edited_record(old(self)@[i as int], columns@, now),
                    ));
                }
                true
            },
        }
    }

    /// A local delete: marks the record as a tombstone and bumps the local
    /// change time; the row stays in place, dirty, until the remote delete
    /// is confirmed.
    pub fn tombstone_record(&mut self, id: u128, now: u64) -> (found: bool)
        requires
            old(self).wf(),
            wf_time(now),
            contains_id(old(self)@, id) ==> now > old(self)@[id_index(old(self)@, id)].local_updated_at,
        ensures
            final(self).wf(),
            found == contains_id(old(self)@, id),
            found ==> final(self)@ == old(self)@.update(
                id_index(old(self)@, id),
                tombstoned_record(old(self)@[id_index(old(self)@, id)], now),
            ),
            !found ==> final(self)@ == old(self)@,
    {
        match self.find(id) {
            None => false,
            Some(i) => {
                proof {
                    lemma_id_index_unique(old(self)@, i as int);
                }
                let row = &mut self.rows[i];
                row.is_deleted = true;
                row.local_updated_at = now;
                proof {
                    assert(self@ =~= old(self)@.update(
                        i as int,
                        tombstoned_record(old(self)@[i as int], now),
                    ));
                }
                true
            },
        }
    }

    /// Removes the row at `i`; used when a deletion has been confirmed (or
    /// decided) by the remote side.
    pub fn remove_at(&mut self, i: usize)
        requires
            old(self).wf(),
            i < old(self)@.len(),
        ensures
            final(self).wf(),
            final(self)@ == old(self)@.remove(i as int),
    {
        self.rows.remove(i);
        proof {
            assert(final(self)@ =~= old(self)@.remove(i as int));
            lemma_remove_keeps_wf(old(self)@, i as int);
        }
    }
}

/// A record after a local edit at instant `now`.
pub open spec fn edited_record(r: RecordView, columns: Seq<Option<String>>, now: u64) -> RecordView {
    RecordView { columns, local_updated_at: now, ..r }
}

/// A record after a local tombstoning at instant `now`.
pub open spec fn tombstoned_record(r: RecordView, now: u64) -> RecordView {
    RecordView { is_deleted: true, local_updated_at: now, ..r }
}

/// Removing a row preserves table well-formedness.
pub proof fn lemma_remove_keeps_wf(s: Seq<RecordView>, i: int)
    requires
        unique_ids(s),
        all_wf(s),
        0 <= i < s.len(),
    ensures
        unique_ids(s.remove(i)),
        all_wf(s.remove(i)),
{
    let t = s.remove(i);
    assert forall|a: int, b: int| 0 <= a < b < t.len() implies t[a].id != t[b].id by {
        let a0 = if a < i { a } else { a + 1 };
        let b0 = if b < i { b } else { b + 1 };
        assert(t[a] == s[a0]);
        assert(t[b] == s[b0]);
    }
    assert forall|a: int| 0 <= a < t.len() implies (#[trigger] t[a]).wf() by {
        let a0 = if a < i { a } else { a + 1 };
        assert(t[a] == s[a0]);
    }
}

/// Relies on `uuid::Uuid::new_v4` for a random version-4 identifier, taken
/// as its 128-bit value via `uuid::Uuid::as_u128`.  Nothing can be promised
/// of a random value.  The call aborts the process if the operating
/// system's random source fails, an environmental failure on a par with
/// resource exhaustion.
#[verifier::external_body]
fn fresh_id() -> (r: u128) {
    uuid::Uuid::new_v4().as_u128()
}

/// The whole local store: one table per registry entry, in registry order.
pub struct LocalStore {
    pub tables: Vec<Table>,
}

impl LocalStore {
    pub open spec fn wf(self) -> bool {
        &&& self.tables@.len() == TABLE_COUNT
        &&& forall|t: int| 0 <= t < self.tables@.len() ==> (#[trigger] self.tables@[t]).wf()
    }

    pub fn new() -> (s: LocalStore)
        ensures
            s.wf(),
            forall|t: int| 0 <= t < TABLE_COUNT ==> (#[trigger] s.tables@[t])@ == Seq::<
                RecordView,
            >::empty(),
    {
        let mut tables: Vec<Table> = Vec::new();
        tables.push(Table::new());
        tables.push(Table::new());
        tables.push(Table::new());
        LocalStore { tables }
    }

    /// The table a registry entry names.
    pub fn table(&self, id: TableId) -> (t: &Table)
        requires
            self.wf(),
        ensures
            *t == self.tables@[id.position_spec()],
    {
        let pos = id.position();
        &self.tables[pos]
    }

    /// Mutable access to the table a registry entry names.
    pub fn table_mut(&mut self, id: TableId) -> (t: &mut Table)
        requires
            old(self).wf(),
        ensures
            *t == old(self).tables@[id.position_spec()],
            final(self).tables@ == old(self).tables@.update(id.position_spec(), *final(t)),
    {
        let pos = id.position();
        &mut self.tables[pos]
    }
}

} // verus!
