//! The pull phase: applying remote records to the local store.
//!
//! Every pulled record is validated, passed through the conflict resolver,
//! and applied: inserted if unknown locally, overwritten if the remote is
//! at least as new, skipped if the local copy is strictly newer.  A record
//! the remote reports as deleted is removed locally outright — the remote
//! is already authoritative for the deletion.

use vstd::prelude::*;
use crate::record::{Record, RecordView};
use crate::remote::{validate, validate_spec, RemoteRecord, RemoteRecordView, RemoteRow, RemoteRowView};
use crate::resolver::{resolve, Decision};
use crate::store::{contains_id, edits_before, id_index, lemma_id_index_unique, Table};

verus! {

/// A remote-authored record as first stored locally: fully synchronized at
/// the remote's reported update time.
pub open spec fn stored_record(r: RemoteRecordView) -> RecordView {
    RecordView {
        id: r.id,
        columns: r.columns,
        created_at: r.created_at,
        local_updated_at: r.updated_at,
        remote_updated_at: r.updated_at,
        is_deleted: false,
    }
}

/// A local record overwritten by a winning remote record: all business
/// columns replaced, both sync times set to the remote's reported update
/// time, the creation time kept (it is immutable).
pub open spec fn overwritten_record(local: RecordView, r: RemoteRecordView) -> RecordView {
    RecordView {
        columns: r.columns,
        local_updated_at: r.updated_at,
        remote_updated_at: r.updated_at,
        is_deleted: false,
        ..local
    }
}

/// The table contents after one validated remote record is applied.
pub open spec fn pull_one(s: Seq<RecordView>, r: RemoteRecordView) -> Seq<RecordView> {
    if r.is_deleted {
        if contains_id(s, r.id) {
            s.remove(id_index(s, r.id))
        } else {
            s
        }
    } else if !contains_id(s, r.id) {
        s.push(stored_record(r))
    } else {
        let i = id_index(s, r.id);
        if s[i].local_updated_at > r.updated_at {
            s
        } else {
            s.update(i, overwritten_record(s[i], r))
        }
    }
}

/// Applies one validated remote record to a local table, following the
/// resolver's decision.  A strictly newer local copy is left untouched
/// (local wins); otherwise the remote payload is applied whole.
pub fn apply_remote_record(table: &mut Table, rec: RemoteRecord)
    requires
        old(table).wf(),
        rec@.wf(),
    ensures
        final(table).wf(),
        final(table)@ == pull_one(old(table)@, rec@),
        (!rec@.is_deleted && contains_id(old(table)@, rec@.id) && old(table)@[id_index(
            old(table)@,
            rec@.id,
        )].local_updated_at > rec@.updated_at) ==> final(table)@ == old(table)@,
{
    let idx = table.find(rec.id);
    if rec.is_deleted {
        match idx {
            Some(i) => {
                proof {
                    lemma_id_index_unique(old(table)@, i as int);
                }
                table.remove_at(i);
            },
            None => {},
        }
    } else {
        match idx {
            None => {
                let d = resolve(None, &rec);
                let ghost v = rec@;
                let RemoteRecord { id, created_at, updated_at, is_deleted: _, columns } = rec;
                let row = Record {
                    id,
                    columns,
                    created_at,
                    local_updated_at: updated_at,
                    remote_updated_at: updated_at,
                    is_deleted: false,
                };
                proof {
                    assert(row@ == stored_record(v));
                }
                table.rows.push(row);
                proof {
                    assert(final(table)@ =~= old(table)@.push(stored_record(v)));
                    assert forall|a: int, b: int|
                        0 <= a < b < final(table)@.len() implies final(table)@[a].id
                        != final(table)@[b].id by {
                        if b == final(table)@.len() - 1 {
                            assert(final(table)@[a] == old(table)@[a]);
                            assert(contains_id(old(table)@, old(table)@[a].id));
                        }
                    }
                }
            },
            Some(i) => {
                proof {
                    lemma_id_index_unique(old(table)@, i as int);
                }
                let d = resolve(Some(table.record_at(i)), &rec);
                match d {
                    Decision::KeepLocal => {},
                    Decision::ApplyRemote => {
                        let ghost v = rec@;
                        let RemoteRecord { id: _, created_at: _, updated_at, is_deleted: _, columns } =
                            rec;
                        let row = &mut table.rows[i];
                        row.columns = columns;
                        row.local_updated_at = updated_at;
                        row.remote_updated_at = updated_at;
                        row.is_deleted = false;
                        proof {
                            assert(final(table)@ =~= old(table)@.update(
                                i as int,
                                overwritten_record(old(table)@[i as int], v),
                            ));
                            assert forall|a: int, b: int|
                                0 <= a < b < final(table)@.len() implies final(table)@[a].id
                                != final(table)@[b].id by {
                                assert(old(table)@[a].id != old(table)@[b].id);
                            }
                        }
                    },
                }
            },
        }
    }
}

/// The table contents after a whole fetched batch is validated and applied
/// in order; rows failing validation are skipped.
pub open spec fn pull_rows(s: Seq<RecordView>, rows: Seq<RemoteRowView>) -> Seq<RecordView>
    decreases rows.len(),
{
    if rows.len() == 0 {
        s
    } else {
        let prev = pull_rows(s, rows.drop_last());
        match validate_spec(rows.last()) {
            Some(rec) => pull_one(prev, rec),
            None => prev,
        }
    }
}

/// The table contents after a batch of already validated records is
/// applied in order.
pub open spec fn pull_recs(s: Seq<RecordView>, recs: Seq<RemoteRecordView>) -> Seq<RecordView>
    decreases recs.len(),
{
    if recs.len() == 0 {
        s
    } else {
        pull_one(pull_recs(s, recs.drop_last()), recs.last())
    }
}

/// A batch whose every row validates applies exactly like the validated
/// records themselves, and rejects nothing.
pub proof fn lemma_pull_rows_valid(
    s: Seq<RecordView>,
    rows: Seq<RemoteRowView>,
    recs: Seq<RemoteRecordView>,
)
    requires
        rows.len() == recs.len(),
        forall|i: int| 0 <= i < rows.len() ==> #[trigger] validate_spec(rows[i]) == Some(recs[i]),
    ensures
        pull_rows(s, rows) == pull_recs(s, recs),
        invalid_ids(rows) == Seq::<Option<u128>>::empty(),
    decreases rows.len(),
{
    if rows.len() == 0 {
        assert(invalid_ids(rows) =~= Seq::<Option<u128>>::empty());
    } else {
        assert(forall|i: int|
            0 <= i < rows.drop_last().len() ==> #[trigger] validate_spec(rows.drop_last()[i])
                == Some(recs.drop_last()[i]));
        lemma_pull_rows_valid(s, rows.drop_last(), recs.drop_last());
        assert(validate_spec(rows.last()) == Some(recs.last()));
        assert(invalid_ids(rows) =~= Seq::<Option<u128>>::empty());
    }
}

/// Applying one record changed no later than `b` keeps every local change
/// time at or before `b`.
pub proof fn lemma_pull_one_time_bound(s: Seq<RecordView>, r: RemoteRecordView, b: u64)
    requires
        edits_before(s, b),
        r.updated_at <= b,
    ensures
        edits_before(pull_one(s, r), b),
{
    let t = pull_one(s, r);
    assert forall|i: int| 0 <= i < t.len() implies (#[trigger] t[i]).local_updated_at <= b by {
        if r.is_deleted && contains_id(s, r.id) {
            let k = id_index(s, r.id);
            let i0 = if i < k {
                i
            } else {
                i + 1
            };
            assert(t[i] == s[i0]);
        } else if !r.is_deleted && !contains_id(s, r.id) {
            if i < s.len() {
                assert(t[i] == s[i]);
            } else {
                assert(t[i] == stored_record(r));
            }
        } else if !r.is_deleted {
            assert(t[i] == s[i] || t[i] == overwritten_record(s[i], r));
        }
    }
}

/// Applying a batch changed no later than `b` keeps every local change
/// time at or before `b`.
pub proof fn lemma_pull_recs_time_bound(s: Seq<RecordView>, recs: Seq<RemoteRecordView>, b: u64)
    requires
        edits_before(s, b),
        crate::remote_store::updates_before(recs, b),
    ensures
        edits_before(pull_recs(s, recs), b),
    decreases recs.len(),
{
    if recs.len() > 0 {
        assert(forall|i: int|
            0 <= i < recs.drop_last().len() ==> (#[trigger] recs.drop_last()[i]).updated_at <= b);
        lemma_pull_recs_time_bound(s, recs.drop_last(), b);
        assert(recs.last() == recs[recs.len() - 1]);
        lemma_pull_one_time_bound(pull_recs(s, recs.drop_last()), recs.last(), b);
    }
}

/// Applying a batch grows a table by at most the batch's length.
pub proof fn lemma_pull_recs_len(s: Seq<RecordView>, recs: Seq<RemoteRecordView>)
    ensures
        pull_recs(s, recs).len() <= s.len() + recs.len(),
    decreases recs.len(),
{
    if recs.len() > 0 {
        lemma_pull_recs_len(s, recs.drop_last());
    }
}

/// The ids (where present) of the rows of a batch that fail validation, in
/// batch order.
pub open spec fn invalid_ids(rows: Seq<RemoteRowView>) -> Seq<Option<u128>>
    decreases rows.len(),
{
    if rows.len() == 0 {
        Seq::empty()
    } else {
        invalid_ids(rows.drop_last()) + (if validate_spec(rows.last()) is None {
            seq![rows.last().id]
        } else {
            Seq::empty()
        })
    }
}

/// View of a fetched batch.
pub open spec fn rows_view(rows: Seq<RemoteRow>) -> Seq<RemoteRowView> {
    rows.map_values(|r: RemoteRow| r@)
}

/// Validates and applies a whole fetched batch in order, returning the ids
/// of the rows that were rejected.
pub fn apply_rows(table: &mut Table, rows: Vec<RemoteRow>) -> (invalid: Vec<Option<u128>>)
    requires
        old(table).wf(),
    ensures
        final(table).wf(),
        final(table)@ == pull_rows(old(table)@, rows_view(rows@)),
        invalid@ == invalid_ids(rows_view(rows@)),
{
    let ghost orig_rows = rows@;
    let ghost orig = rows_view(orig_rows);
    let mut rows = rows;
    let mut invalid: Vec<Option<u128>> = Vec::new();
    let ghost k: int = 0;
    proof {
        assert(orig.len() == orig_rows.len());
        assert(orig.take(0) =~= Seq::<RemoteRowView>::empty());
        assert(invalid@ =~= invalid_ids(orig.take(0)));
    }
    while rows.len() > 0
        invariant
            0 <= k <= orig_rows.len(),
            orig.len() == orig_rows.len(),
            orig == rows_view(orig_rows),
            rows@ =~= orig_rows.skip(k),
            table.wf(),
            table@ == pull_rows(old(table)@, orig.take(k)),
            invalid@ == invalid_ids(orig.take(k)),
        decreases rows@.len(),
    {
        let row = rows.remove(0);
        proof {
            assert(row == orig_rows[k]);
            assert(row@ == orig[k]);
            assert(rows@ =~= orig_rows.skip(k + 1));
            assert(orig.take(k + 1).drop_last() =~= orig.take(k));
            assert(orig.take(k + 1).last() == orig[k]);
        }
        let rid = row.id;
        match validate(row) {
            Some(rec) => {
                apply_remote_record(table, rec);
                proof {
                    assert(invalid@ =~= invalid_ids(orig.take(k + 1)));
                }
            },
            None => {
                invalid.push(rid);
                proof {
                    assert(invalid@ =~= invalid_ids(orig.take(k + 1)));
                }
            },
        }
        proof {
            k = k + 1;
        }
    }
    proof {
        assert(k == orig.len());
        assert(orig.take(k) =~= orig);
    }
    invalid
}

} // verus!
