//! The sync orchestrator: a checkpointed, two-phase (pull-then-push)
//! reconciliation pass over all registered tables.
//!
//! A pass captures its start instant, reads the checkpoint (a failed read
//! is fatal), pulls every table, pushes every table, and finally advances
//! the checkpoint to the captured start — never backward, and regardless
//! of collected errors, so a concurrent remote write is re-pulled next
//! time rather than silently missed, while failed pushes stay discoverable
//! through their dirty flag.

use vstd::prelude::*;
use crate::errors::{CheckpointError, ErrorKind, SyncError};
use crate::pull::{
    apply_rows, invalid_ids, lemma_pull_recs_len, lemma_pull_recs_time_bound,
    lemma_pull_rows_valid, pull_one, pull_recs, pull_rows, rows_view, stored_record,
};
use crate::push::{
    apply_confirmed_from, apply_one_confirmed, apply_push_result, clone_columns,
    lemma_action_from_record, lemma_action_ids_unique, lemma_actions_empty, lemma_actions_len,
    lemma_dirty_in_actions, lemma_push_phase_state, lemma_single_dirty_actions, push_actions,
    push_plan, pushed_state, PushAction, PushApplied,
};
use crate::record::RecordView;
use crate::remote::{validate_spec, RemoteRecord, RemoteRecordView, RemoteRow};
use crate::remote_store::{
    changed_since, contains_rid, deleted, lemma_changed_bound, lemma_changed_len,
    lemma_no_changes, rid_index, updates_before, upserted, RemoteStore, RemoteTable,
};
use crate::store::{
    all_wf, contains_id, edits_before, id_index, lemma_id_index_unique, unique_ids, LocalStore,
    Table,
};
use crate::tables::{TableId, TABLE_COUNT};
use crate::timestamp::MAX_TIMESTAMP;

verus! {

/// The aggregate outcome of one sync run.  `pulled` counts the records the
/// pull phase attempted (a conflict skip still counts); `pushed` counts
/// confirmed remote writes (a failed push does not count).
pub struct SyncResult {
    pub success: bool,
    pub pulled: usize,
    pub pushed: usize,
    pub errors: Vec<SyncError>,
}

/// The persisted checkpoint: the single timestamp marking the last
/// completed sync pass, the exclusive lower bound of the next pull.
pub struct Checkpoint {
    pub last_synced_at: u64,
}

impl Checkpoint {
    pub open spec fn wf(self) -> bool {
        self.last_synced_at <= MAX_TIMESTAMP
    }

    /// A checkpoint that has never been advanced: everything is pulled.
    pub fn new() -> (c: Checkpoint)
        ensures
            c.last_synced_at == 0,
            c.wf(),
    {
        Checkpoint { last_synced_at: 0 }
    }

    pub fn read(&self) -> (t: u64)
        ensures
            t == self.last_synced_at,
    {
        self.last_synced_at
    }

    pub fn write(&mut self, t: u64)
        requires
            t <= MAX_TIMESTAMP,
        ensures
            final(self).last_synced_at == t,
            final(self).wf(),
    {
        self.last_synced_at = t;
    }
}

/// One sync pass in flight: the pull filter bound, the captured start
/// instant, and the counts and errors accumulated so far.
pub struct SyncRun {
    pub since: u64,
    pub sync_start: u64,
    pub pulled: usize,
    pub pushed: usize,
    pub errors: Vec<SyncError>,
}

/// The errors a pull phase records for the rejected rows of a batch.
pub open spec fn validation_errors(tid: TableId, rows: Seq<crate::remote::RemoteRowView>) -> Seq<
    SyncError,
> {
    invalid_ids(rows).map_values(
        |o: Option<u128>|
            SyncError { table: tid, kind: ErrorKind::Validation, record_id: o },
    )
}

impl SyncRun {
    pub open spec fn wf(self) -> bool {
        self.since <= MAX_TIMESTAMP && self.sync_start <= MAX_TIMESTAMP
    }

    /// Starts a pass at instant `now` from a checkpoint read.  A failed
    /// read is fatal: no safe pull filter bound exists, and no table has
    /// been touched yet.
    pub fn begin(checkpoint_read: Option<u64>, now: u64) -> (r: Result<SyncRun, CheckpointError>)
        requires
            now <= MAX_TIMESTAMP,
            checkpoint_read matches Some(c) ==> c <= MAX_TIMESTAMP,
        ensures
            r is Ok <==> checkpoint_read is Some,
            r matches Ok(run) ==> run.wf() && run.since == checkpoint_read.unwrap()
                && run.sync_start == now && run.pulled == 0 && run.pushed == 0 && run.errors@
                == Seq::<SyncError>::empty(),
    {
        match checkpoint_read {
            None => Err(CheckpointError),
            Some(since) => {
                let run = SyncRun {
                    since,
                    sync_start: now,
                    pulled: 0,
                    pushed: 0,
                    errors: Vec::new(),
                };
                proof {
                    assert(run.errors@ =~= Seq::<SyncError>::empty());
                }
                Ok(run)
            },
        }
    }

    /// Pull phase for one table.  Every fetched record counts as
    /// attempted; each is validated and applied in order, one validation
    /// error recorded per rejected row.  A failed fetch abandons this
    /// table's pull, records the failure, and leaves the table untouched;
    /// the remaining tables still run.
    pub fn pull_table(
        &mut self,
        table: &mut Table,
        tid: TableId,
        fetched: Result<Vec<RemoteRow>, ErrorKind>,
    )
        requires
            old(table).wf(),
            fetched matches Ok(rows) ==> old(self).pulled + rows@.len() <= usize::MAX,
        ensures
            final(table).wf(),
            final(self).since == old(self).since,
            final(self).sync_start == old(self).sync_start,
            final(self).pushed == old(self).pushed,
            match fetched {
                Ok(rows) => {
                    &&& final(table)@ == pull_rows(old(table)@, rows_view(rows@))
                    &&& final(self).pulled == old(self).pulled + rows@.len()
                    &&& final(self).errors@ == old(self).errors@ + validation_errors(
                        tid,
                        rows_view(rows@),
                    )
                },
                Err(k) => {
                    &&& final(table)@ == old(table)@
                    &&& final(self).pulled == old(self).pulled
                    &&& final(self).errors@ == old(self).errors@.push(
                        SyncError { table: tid, kind: k, record_id: None },
                    )
                },
            },
    {
        match fetched {
            Err(k) => {
                self.errors.push(SyncError { table: tid, kind: k, record_id: None });
            },
            Ok(rows) => {
                let ghost rv = rows_view(rows@);
                self.pulled = self.pulled + rows.len();
                let invalid = apply_rows(table, rows);
                let ghost errs0 = self.errors@;
                let mut j: usize = 0;
                proof {
                    assert(invalid@.take(0) =~= Seq::<Option<u128>>::empty());
                    assert(self.errors@ =~= errs0 + invalid@.take(0).map_values(
                        |o: Option<u128>|
                            SyncError { table: tid, kind: ErrorKind::Validation, record_id: o },
                    ));
                }
                while j < invalid.len()
                    invariant
                        0 <= j <= invalid@.len(),
                        self.since == old(self).since,
                        self.sync_start == old(self).sync_start,
                        self.pushed == old(self).pushed,
                        self.pulled == old(self).pulled + rv.len(),
                        self.errors@ == errs0 + invalid@.take(j as int).map_values(
                            |o: Option<u128>|
                                SyncError { table: tid, kind: ErrorKind::Validation, record_id: o },
                        ),
                    decreases invalid@.len() - j,
                {
                    self.errors.push(
                        SyncError {
                            table: tid,
                            kind: ErrorKind::Validation,
                            record_id: invalid[j],
                        },
                    );
                    proof {
                        assert(self.errors@ =~= errs0 + invalid@.take(j + 1).map_values(
                            |o: Option<u128>|
                                SyncError { table: tid, kind: ErrorKind::Validation, record_id: o },
                        ));
                    }
                    j += 1;
                }
                proof {
                    assert(invalid@.take(invalid@.len() as int) =~= invalid@);
                    assert(self.errors@ == errs0 + validation_errors(tid, rv));
                }
            },
        }
    }

    /// Push phase, one record: absorbs the outcome of the remote write
    /// owed for `id`.  A confirmed tombstone delete purges the row; a
    /// confirmed upsert marks the record clean
    /// (`remote_updated_at == local_updated_at`); a failure records an
    /// error and leaves the record dirty, to be selected again next run.
    pub fn push_record(
        &mut self,
        table: &mut Table,
        tid: TableId,
        id: u128,
        outcome: Result<(), ErrorKind>,
    )
        requires
            old(table).wf(),
            old(self).pushed < usize::MAX,
        ensures
            final(table).wf(),
            final(self).since == old(self).since,
            final(self).sync_start == old(self).sync_start,
            final(self).pulled == old(self).pulled,
            ({
                let s = old(table)@;
                if !contains_id(s, id) {
                    final(table)@ == s && final(self).pushed == old(self).pushed
                        && final(self).errors@ == old(self).errors@
                } else {
                    let i = id_index(s, id);
                    if !s[i].dirty() {
                        final(table)@ == s && final(self).pushed == old(self).pushed
                            && final(self).errors@ == old(self).errors@
                    } else {
                        match outcome {
                            Ok(u) => {
                                &&& final(table)@ == if s[i].is_deleted {
                                    s.remove(i)
                                } else {
                                    s.update(i, s[i].marked_clean())
                                }
                                &&& final(self).pushed == old(self).pushed + 1
                                &&& final(self).errors@ == old(self).errors@
                            },
                            Err(k) => {
                                &&& final(table)@ == s
                                &&& final(self).pushed == old(self).pushed
                                &&& final(self).errors@ == old(self).errors@.push(
                                    SyncError { table: tid, kind: k, record_id: Some(id) },
                                )
                            },
                        }
                    }
                }
            }),
    {
        let applied = apply_push_result(table, id, outcome);
        match applied {
            PushApplied::Confirmed => {
                self.pushed = self.pushed + 1;
            },
            PushApplied::Failed => {
                match outcome {
                    Err(k) => {
                        self.errors.push(SyncError { table: tid, kind: k, record_id: Some(id) });
                    },
                    Ok(_) => {
                        proof {
                            assert(false);
                        }
                    },
                }
            },
            PushApplied::NotFound => {},
            PushApplied::NotDirty => {},
        }
    }

    /// Ends the pass: advances the checkpoint to the captured start of
    /// this run — never backward, and unconditionally, so the window moves
    /// even after partial failure — and reports the aggregate counts.  The
    /// run succeeded exactly when no error was recorded.
    pub fn finish(self, cp: &mut Checkpoint) -> (r: SyncResult)
        requires
            self.wf(),
            old(cp).wf(),
        ensures
            final(cp).wf(),
            final(cp).last_synced_at == if self.sync_start > old(cp).last_synced_at {
                self.sync_start
            } else {
                old(cp).last_synced_at
            },
            final(cp).last_synced_at >= old(cp).last_synced_at,
            final(cp).last_synced_at >= self.sync_start,
            r.pulled == self.pulled,
            r.pushed == self.pushed,
            r.errors@ == self.errors@,
            r.success == (self.errors@.len() == 0),
    {
        if self.sync_start > cp.last_synced_at {
            cp.write(self.sync_start);
        }
        let success = self.errors.len() == 0;
        SyncResult { success, pulled: self.pulled, pushed: self.pushed, errors: self.errors }
    }
}

/// Every local record is fully synchronized.
pub open spec fn local_all_clean(s: LocalStore) -> bool {
    forall|t: int, i: int|
        0 <= t < s.tables@.len() && 0 <= i < s.tables@[t]@.len() ==> (#[trigger] s.tables@[t]@[i]).clean()
}

/// Nothing on the remote side changed strictly after `since`.
pub open spec fn remote_quiet(s: RemoteStore, since: u64) -> bool {
    forall|t: int, i: int|
        0 <= t < s.tables@.len() && 0 <= i < s.tables@[t]@.len() ==> (#[trigger] s.tables@[t]@[i]).updated_at
            <= since
}

/// No local record anywhere was last changed after instant `b`.
pub open spec fn local_edits_before(s: LocalStore, b: u64) -> bool {
    forall|t: int| 0 <= t < s.tables@.len() ==> edits_before((#[trigger] s.tables@[t])@, b)
}

/// Where one table stands after a full pass: everything the remote changed
/// since the checkpoint is pulled, then every owed write is confirmed and
/// absorbed.
pub open spec fn table_after_run(l: Seq<RecordView>, r: Seq<RemoteRecordView>, since: u64) -> Seq<
    RecordView,
> {
    let pulled = pull_recs(l, changed_since(r, since));
    apply_confirmed_from(pulled, push_actions(pulled), 0)
}

/// The payload a push hands the remote for a local record: the record's
/// business columns under its id, reported as updated at its latest local
/// change.
pub open spec fn remote_of(rec: RecordView) -> RemoteRecordView {
    RemoteRecordView {
        id: rec.id,
        created_at: rec.created_at,
        updated_at: rec.local_updated_at,
        is_deleted: false,
        columns: rec.columns,
    }
}

/// A remote table after the owed writes from position `k` on are carried
/// out against the local table `s`, in order: a keyed delete for each
/// tombstone, an upsert of the record's payload otherwise.
pub open spec fn push_remote_from(
    r: Seq<RemoteRecordView>,
    s: Seq<RecordView>,
    acts: Seq<PushAction>,
    k: int,
) -> Seq<RemoteRecordView>
    decreases acts.len() - k,
    when 0 <= k <= acts.len()
{
    if k >= acts.len() {
        r
    } else {
        let step = if acts[k].tombstone {
            deleted(r, acts[k].id)
        } else if contains_id(s, acts[k].id) {
            upserted(r, remote_of(s[id_index(s, acts[k].id)]))
        } else {
            r
        };
        push_remote_from(step, s, acts, k + 1)
    }
}

/// Where one remote table stands after a full pass: each write owed by the
/// locally pulled state confirmed against it.
pub open spec fn remote_after_run(r: Seq<RemoteRecordView>, l: Seq<RecordView>, since: u64) -> Seq<
    RemoteRecordView,
> {
    let pulled = pull_recs(l, changed_since(r, since));
    push_remote_from(r, pulled, push_actions(pulled), 0)
}

/// How many records both sides hold together.
pub open spec fn total_records(ls: LocalStore, rs: RemoteStore) -> int {
    ls.tables@[0]@.len() + ls.tables@[1]@.len() + ls.tables@[2]@.len() + rs.tables@[0]@.len()
        + rs.tables@[1]@.len() + rs.tables@[2]@.len() as int
}

/// Pull phase for one table against the in-memory remote: fetches
/// everything changed strictly after the run's filter bound and applies
/// it.  In-memory fetches cannot fail and their rows always validate, so
/// no error is recorded.
fn pull_mem_table(run: &mut SyncRun, lt: &mut Table, rt: &RemoteTable, tid: TableId)
    requires
        old(lt).wf(),
        rt.wf(),
        old(run).pulled + rt@.len() <= usize::MAX,
    ensures
        final(lt).wf(),
        final(lt)@ == pull_recs(old(lt)@, changed_since(rt@, old(run).since)),
        final(lt)@.len() <= old(lt)@.len() + rt@.len(),
        final(run).pulled == old(run).pulled + changed_since(rt@, old(run).since).len(),
        final(run).errors@ == old(run).errors@,
        final(run).pushed == old(run).pushed,
        final(run).since == old(run).since,
        final(run).sync_start == old(run).sync_start,
{
    let ghost since = run.since;
    let ghost changed = changed_since(rt@, since);
    proof {
        lemma_changed_len(rt@, since);
    }
    let rows = rt.fetch_since(run.since);
    let ghost rv = rows_view(rows@);
    proof {
        assert(rv.len() == changed.len());
        assert forall|i: int| 0 <= i < rv.len() implies #[trigger] validate_spec(rv[i]) == Some(
            changed[i],
        ) by {
            assert(rv[i] == rows@[i]@);
            assert(validate_spec(rows@[i]@) == Some(changed_since(rt@, since)[i]));
        }
        lemma_pull_rows_valid(lt@, rv, changed);
        lemma_pull_recs_len(lt@, changed);
    }
    run.pull_table(lt, tid, Ok(rows));
    proof {
        assert(validation_errors(tid, rv) =~= Seq::<SyncError>::empty());
        assert(run.errors@ =~= old(run).errors@);
    }
}

/// Push phase for one table against the in-memory remote: plans the owed
/// writes once, performs each (a keyed delete for a tombstone, an upsert
/// otherwise), and absorbs every confirmed outcome.  Afterwards every
/// surviving record of the table is clean.
#[verifier::rlimit(50)]
fn push_mem_table(
    run: &mut SyncRun,
    lt: &mut Table,
    rt: &mut RemoteTable,
    tid: TableId,
    Ghost(b): Ghost<u64>,
)
    requires
        old(lt).wf(),
        old(rt).wf(),
        old(run).pushed + old(lt)@.len() <= usize::MAX,
    ensures
        (edits_before(old(lt)@, b) && updates_before(old(rt)@, b)) ==> (edits_before(final(lt)@, b)
            && updates_before(final(rt)@, b)),
        final(lt).wf(),
        final(rt).wf(),
        forall|i: int| 0 <= i < final(lt)@.len() ==> (#[trigger] final(lt)@[i]).clean(),
        final(lt)@ == apply_confirmed_from(old(lt)@, push_actions(old(lt)@), 0),
        final(rt)@ == push_remote_from(old(rt)@, old(lt)@, push_actions(old(lt)@), 0),
        final(lt)@.len() <= old(lt)@.len(),
        final(run).pushed == old(run).pushed + push_actions(old(lt)@).len(),
        final(run).pushed <= old(run).pushed + old(lt)@.len(),
        final(run).errors@ == old(run).errors@,
        final(run).pulled == old(run).pulled,
        final(run).since == old(run).since,
        final(run).sync_start == old(run).sync_start,
        (forall|i: int| 0 <= i < old(lt)@.len() ==> (#[trigger] old(lt)@[i]).clean())
            ==> (final(lt)@ == old(lt)@ && final(rt)@ == old(rt)@
            && final(run).pushed == old(run).pushed),
{
    let ghost s0 = old(lt)@;
    let acts = push_plan(lt);
    proof {
        lemma_actions_len(s0);
        assert forall|i: int|
            0 <= i < lt@.len() implies (#[trigger] lt@[i]).clean() || exists|n: int|
            0 <= n < acts@.len() && (#[trigger] acts@[n]).id == lt@[i].id by {
            if !lt@[i].clean() {
                assert(lt@[i].wf());
                lemma_dirty_in_actions(lt@, i);
                let n = choose|n: int|
                    0 <= n < push_actions(lt@).len() && push_actions(lt@)[n] == (PushAction {
                        id: lt@[i].id,
                        tombstone: lt@[i].is_deleted,
                    });
                assert(acts@[n].id == lt@[i].id);
            }
        }
        lemma_action_ids_unique(s0);
        assert forall|n: int|
            0 <= n < acts@.len() implies contains_id(lt@, (#[trigger] acts@[n]).id) && lt@[id_index(
            lt@,
            acts@[n].id,
        )].dirty() && lt@[id_index(lt@, acts@[n].id)].is_deleted == acts@[n].tombstone && lt@[id_index(
            lt@,
            acts@[n].id,
        )] == s0[id_index(s0, acts@[n].id)] by {
            lemma_action_from_record(s0, n);
            let i = choose|i: int|
                0 <= i < s0.len() && (#[trigger] s0[i]).id == acts@[n].id && s0[i].dirty()
                    && s0[i].is_deleted == acts@[n].tombstone;
            assert(contains_id(lt@, acts@[n].id));
            lemma_id_index_unique(s0, i);
        }
    }
    let mut m: usize = 0;
    while m < acts.len()
        invariant
            0 <= m <= acts@.len(),
            acts@ == push_actions(s0),
            acts@.len() <= s0.len(),
            lt.wf(),
            rt.wf(),
            lt@.len() <= s0.len(),
            apply_confirmed_from(s0, acts@, 0) == apply_confirmed_from(lt@, acts@, m as int),
            run.pushed == old(run).pushed + m,
            old(run).pushed + s0.len() <= usize::MAX,
            forall|n1: int, n2: int|
                0 <= n1 < n2 < acts@.len() ==> (#[trigger] acts@[n1]).id != (#[trigger] acts@[n2]).id,
            forall|n: int|
                m <= n < acts@.len() ==> contains_id(lt@, (#[trigger] acts@[n]).id) && lt@[id_index(
                    lt@,
                    acts@[n].id,
                )].dirty() && lt@[id_index(lt@, acts@[n].id)].is_deleted == acts@[n].tombstone
                    && lt@[id_index(lt@, acts@[n].id)] == s0[id_index(s0, acts@[n].id)],
            push_remote_from(old(rt)@, s0, acts@, 0) == push_remote_from(rt@, s0, acts@, m as int),
            run.errors@ == old(run).errors@,
            run.pulled == old(run).pulled,
            run.since == old(run).since,
            run.sync_start == old(run).sync_start,
            forall|i: int|
                0 <= i < lt@.len() ==> (#[trigger] lt@[i]).clean() || exists|n: int|
                    m <= n < acts@.len() && (#[trigger] acts@[n]).id == lt@[i].id,
            (forall|i: int| 0 <= i < s0.len() ==> (#[trigger] s0[i]).clean()) ==> (lt@ == s0 && rt@
                == old(rt)@ && run.pushed == old(run).pushed),
            (edits_before(s0, b) && updates_before(old(rt)@, b)) ==> (edits_before(lt@, b)
                && updates_before(rt@, b)),
        decreases acts@.len() - m,
    {
        proof {
            if forall|i: int| 0 <= i < s0.len() ==> (#[trigger] s0[i]).clean() {
                assert(forall|i: int| 0 <= i < s0.len() ==> !(#[trigger] s0[i]).dirty());
                lemma_actions_empty(s0);
                assert(false);
            }
        }
        let ghost s = lt@;
        let ghost rpre = rt@;
        let act = acts[m];
        match lt.find(act.id) {
            Some(i) => {
                proof {
                    lemma_id_index_unique(s, i as int);
                }
                let rec = lt.record_at(i);
                if rec.is_dirty() {
                    if rec.is_deleted {
                        rt.delete(act.id);
                        proof {
                            assert(rt@ == deleted(rpre, act.id));
                            assert(acts@[m as int].tombstone);
                            assert(push_remote_from(rpre, s0, acts@, m as int)
                                == push_remote_from(rt@, s0, acts@, m + 1));
                            if edits_before(s0, b) && updates_before(old(rt)@, b) {
                                assert forall|j: int|
                                    0 <= j < rt@.len() implies (#[trigger] rt@[j]).updated_at
                                    <= b by {
                                    if contains_rid(rpre, act.id) {
                                        let rx = rid_index(rpre, act.id);
                                        let j0 = if j < rx {
                                            j
                                        } else {
                                            j + 1
                                        };
                                        assert(rt@[j] == rpre[j0]);
                                    } else {
                                        assert(rt@[j] == rpre[j]);
                                    }
                                }
                            }
                        }
                    } else {
                        let payload = clone_columns(&rec.columns);
                        let up = RemoteRecord {
                            id: rec.id,
                            created_at: rec.created_at,
                            updated_at: rec.local_updated_at,
                            is_deleted: false,
                            columns: payload,
                        };
                        proof {
                            assert(s[i as int].wf());
                            assert(up@.wf());
                        }
                        let ghost upv = up@;
                        rt.upsert(up);
                        proof {
                            lemma_action_from_record(s0, m as int);
                            let w = choose|w: int|
                                0 <= w < s0.len() && (#[trigger] s0[w]).id == acts@[m as int].id
                                    && s0[w].dirty() && s0[w].is_deleted == acts@[m as int].tombstone;
                            assert(contains_id(s0, act.id));
                            assert(s[i as int] == s0[id_index(s0, act.id)]);
                            assert(!acts@[m as int].tombstone);
                            assert(upv == remote_of(s0[id_index(s0, act.id)]));
                            assert(rt@ == upserted(rpre, upv));
                            assert(push_remote_from(rpre, s0, acts@, m as int)
                                == push_remote_from(rt@, s0, acts@, m + 1));
                            if edits_before(s0, b) && updates_before(old(rt)@, b) {
                                assert(upv.updated_at == s[i as int].local_updated_at);
                                assert(upv.updated_at <= b);
                                assert forall|j: int|
                                    0 <= j < rt@.len() implies (#[trigger] rt@[j]).updated_at
                                    <= b by {
                                    if contains_rid(rpre, act.id) {
                                        assert(rt@[j] == rpre[j] || rt@[j] == upv);
                                    } else {
                                        if j < rpre.len() {
                                            assert(rt@[j] == rpre[j]);
                                        } else {
                                            assert(rt@[j] == upv);
                                        }
                                    }
                                }
                            }
                        }
                    }
                } else {
                    proof {
                        // every owed record is still dirty when its turn comes
                        assert(false);
                    }
                }
            },
            None => {
                proof {
                    // every owed record is still present when its turn comes
                    assert(false);
                }
            },
        }
        run.push_record(lt, tid, act.id, Ok(()));
        proof {
            assert(lt@ == apply_one_confirmed(s, act.id));
            assert(apply_confirmed_from(s, acts@, m as int) == apply_confirmed_from(
                lt@,
                acts@,
                m + 1,
            ));
            assert forall|i: int|
                0 <= i < lt@.len() implies (#[trigger] lt@[i]).clean() || exists|n: int|
                m + 1 <= n < acts@.len() && (#[trigger] acts@[n]).id == lt@[i].id by {
                if !contains_id(s, act.id) {
                    assert(lt@ == s);
                    if !lt@[i].clean() {
                        let n = choose|n: int| m <= n < acts@.len() && acts@[n].id == s[i].id;
                        if n == m {
                            assert(contains_id(s, act.id));
                        }
                        assert(m + 1 <= n < acts@.len() && acts@[n].id == lt@[i].id);
                    }
                } else {
                    let k0 = id_index(s, act.id);
                    assert(0 <= k0 < s.len() && s[k0].id == act.id);
                    if !s[k0].dirty() {
                        assert(lt@ == s);
                        if !lt@[i].clean() {
                            let n = choose|n: int| m <= n < acts@.len() && acts@[n].id == s[i].id;
                            if n == m {
                                assert(s[i].id == act.id);
                                assert(i == k0) by {
                                    if i < k0 {
                                        assert(s[i].id != s[k0].id);
                                    } else if k0 < i {
                                        assert(s[k0].id != s[i].id);
                                    }
                                }
                                assert(s[k0].wf());
                                assert(s[k0].clean());
                            }
                            assert(m + 1 <= n < acts@.len() && acts@[n].id == lt@[i].id);
                        }
                    } else if s[k0].is_deleted {
                        assert(lt@ == s.remove(k0));
                        let i0 = if i < k0 {
                            i
                        } else {
                            i + 1
                        };
                        assert(lt@[i] == s[i0]);
                        if !lt@[i].clean() {
                            let n = choose|n: int| m <= n < acts@.len() && acts@[n].id == s[i0].id;
                            if n == m {
                                assert(s[i0].id == act.id);
                                if i0 < k0 {
                                    assert(s[i0].id != s[k0].id);
                                } else if k0 < i0 {
                                    assert(s[k0].id != s[i0].id);
                                }
                            }
                            assert(m + 1 <= n < acts@.len() && acts@[n].id == lt@[i].id);
                        }
                    } else {
                        assert(lt@ == s.update(k0, s[k0].marked_clean()));
                        if i == k0 {
                            assert(lt@[i].clean());
                        } else {
                            assert(lt@[i] == s[i]);
                            if !lt@[i].clean() {
                                let n = choose|n: int|
                                    m <= n < acts@.len() && acts@[n].id == s[i].id;
                                if n == m {
                                    assert(s[i].id == act.id);
                                    if i < k0 {
                                        assert(s[i].id != s[k0].id);
                                    } else {
                                        assert(s[k0].id != s[i].id);
                                    }
                                }
                                assert(m + 1 <= n < acts@.len() && acts@[n].id == lt@[i].id);
                            }
                        }
                    }
                }
            }
            assert forall|n: int|
                m + 1 <= n < acts@.len() implies contains_id(lt@, (#[trigger] acts@[n]).id)
                && lt@[id_index(lt@, acts@[n].id)].dirty() && lt@[id_index(
                lt@,
                acts@[n].id,
            )].is_deleted == acts@[n].tombstone && lt@[id_index(lt@, acts@[n].id)] == s0[id_index(
                s0,
                acts@[n].id,
            )] by {
                let j = id_index(s, acts@[n].id);
                assert(contains_id(s, acts@[n].id));
                assert(0 <= j < s.len() && s[j].id == acts@[n].id);
                assert(acts@[n].id != acts@[m as int].id);
                if contains_id(s, act.id) {
                    let k0 = id_index(s, act.id);
                    assert(s[k0].id == act.id);
                    assert(j != k0);
                    if s[k0].dirty() && s[k0].is_deleted {
                        let j0 = if j < k0 {
                            j
                        } else {
                            j - 1
                        };
                        assert(lt@[j0] == s[j]);
                        assert(contains_id(lt@, acts@[n].id));
                        lemma_id_index_unique(lt@, j0);
                    } else if s[k0].dirty() {
                        assert(lt@[j] == s[j]);
                        assert(contains_id(lt@, acts@[n].id));
                        lemma_id_index_unique(lt@, j);
                    } else {
                        assert(lt@ == s);
                    }
                } else {
                    assert(lt@ == s);
                }
            }
            if edits_before(s0, b) && updates_before(old(rt)@, b) {
                assert(edits_before(s, b));
                assert forall|i: int|
                    0 <= i < lt@.len() implies (#[trigger] lt@[i]).local_updated_at <= b by {
                    if contains_id(s, act.id) {
                        let k0 = id_index(s, act.id);
                        if s[k0].dirty() && s[k0].is_deleted {
                            let i0 = if i < k0 {
                                i
                            } else {
                                i + 1
                            };
                            assert(lt@[i] == s[i0]);
                        } else if s[k0].dirty() {
                            assert(lt@[i] == s[i] || lt@[i] == s[k0].marked_clean());
                        } else {
                            assert(lt@[i] == s[i]);
                        }
                    } else {
                        assert(lt@[i] == s[i]);
                    }
                }
            }
        }
        m += 1;
    }
    proof {
        assert(push_remote_from(rt@, s0, acts@, acts@.len() as int) == rt@);
        assert forall|i: int| 0 <= i < lt@.len() implies (#[trigger] lt@[i]).clean() by {
            if !lt@[i].clean() {
                let n = choose|n: int| m <= n < acts@.len() && acts@[n].id == lt@[i].id;
            }
        }
    }
}

/// One whole reconciliation pass over in-memory stores, exactly as the
/// orchestrator runs it over the network: capture the start instant, read
/// the checkpoint, pull every table in registry order, push every table in
/// the same order, then advance the checkpoint to the captured start —
/// never backward — and report the counts.
///
/// Afterwards every surviving local record is clean, and a second pass
/// started with nothing new on either side pulls nothing, pushes nothing,
/// changes nothing, and succeeds — sync is idempotent.
pub fn sync_run(local: &mut LocalStore, remote: &mut RemoteStore, cp: &mut Checkpoint, now: u64) -> (r:
    SyncResult)
    requires
        old(local).wf(),
        old(remote).wf(),
        old(cp).wf(),
        now <= MAX_TIMESTAMP,
        total_records(*old(local), *old(remote)) <= usize::MAX,
    ensures
        final(local).wf(),
        final(remote).wf(),
        final(cp).wf(),
        final(cp).last_synced_at == if now > old(cp).last_synced_at {
            now
        } else {
            old(cp).last_synced_at
        },
        final(cp).last_synced_at >= old(cp).last_synced_at,
        r.errors@ == Seq::<SyncError>::empty(),
        r.success,
        r.pulled == changed_since(old(remote).tables@[0]@, old(cp).last_synced_at).len()
            + changed_since(old(remote).tables@[1]@, old(cp).last_synced_at).len() + changed_since(
            old(remote).tables@[2]@,
            old(cp).last_synced_at,
        ).len(),
        r.pushed == push_actions(
            pull_recs(old(local).tables@[0]@, changed_since(old(remote).tables@[0]@, old(cp).last_synced_at)),
        ).len() + push_actions(
            pull_recs(old(local).tables@[1]@, changed_since(old(remote).tables@[1]@, old(cp).last_synced_at)),
        ).len() + push_actions(
            pull_recs(old(local).tables@[2]@, changed_since(old(remote).tables@[2]@, old(cp).last_synced_at)),
        ).len(),
        forall|t: int, i: int|
            0 <= t < TABLE_COUNT && 0 <= i < final(local).tables@[t]@.len()
                ==> (#[trigger] final(local).tables@[t]@[i]).clean(),
        final(local).tables@[0]@ == table_after_run(
            old(local).tables@[0]@,
            old(remote).tables@[0]@,
            old(cp).last_synced_at,
        ),
        final(local).tables@[1]@ == table_after_run(
            old(local).tables@[1]@,
            old(remote).tables@[1]@,
            old(cp).last_synced_at,
        ),
        final(local).tables@[2]@ == table_after_run(
            old(local).tables@[2]@,
            old(remote).tables@[2]@,
            old(cp).last_synced_at,
        ),
        final(remote).tables@[0]@ == remote_after_run(
            old(remote).tables@[0]@,
            old(local).tables@[0]@,
            old(cp).last_synced_at,
        ),
        final(remote).tables@[1]@ == remote_after_run(
            old(remote).tables@[1]@,
            old(local).tables@[1]@,
            old(cp).last_synced_at,
        ),
        final(remote).tables@[2]@ == remote_after_run(
            old(remote).tables@[2]@,
            old(local).tables@[2]@,
            old(cp).last_synced_at,
        ),
        (local_all_clean(*old(local)) && remote_quiet(*old(remote), old(cp).last_synced_at)) ==> (
        r.pulled == 0 && r.pushed == 0 && (forall|t: int|
            0 <= t < TABLE_COUNT ==> (#[trigger] final(local).tables@[t])@ == old(local).tables@[t]@
                && (#[trigger] final(remote).tables@[t])@ == old(remote).tables@[t]@)),
        (local_edits_before(*old(local), final(cp).last_synced_at)
            && remote_quiet(*old(remote), final(cp).last_synced_at))
            ==> (remote_quiet(*final(remote), final(cp).last_synced_at)
            && local_edits_before(*final(local), final(cp).last_synced_at)),
{
    let ghost since0 = cp.last_synced_at;
    let ghost l0 = old(local).tables@[0]@;
    let ghost l1 = old(local).tables@[1]@;
    let ghost l2 = old(local).tables@[2]@;
    let ghost r0 = old(remote).tables@[0]@;
    let ghost r1 = old(remote).tables@[1]@;
    let ghost r2 = old(remote).tables@[2]@;
    let ghost c0 = changed_since(r0, since0);
    let ghost c1 = changed_since(r1, since0);
    let ghost c2 = changed_since(r2, since0);
    let ghost b: u64 = if now > since0 {
        now
    } else {
        since0
    };
    proof {
        lemma_changed_len(r0, since0);
        lemma_changed_len(r1, since0);
        lemma_changed_len(r2, since0);
    }
    let started = SyncRun::begin(Some(cp.read()), now);
    let mut run = match started {
        Ok(run) => run,
        Err(_) => {
            proof {
                assert(false);
            }
            SyncRun { since: 0, sync_start: 0, pulled: 0, pushed: 0, errors: Vec::new() }
        },
    };
    // Pull phase, registry order.
    let lt = local.table_mut(TableId::Categories);
    pull_mem_table(&mut run, lt, remote.table(TableId::Categories), TableId::Categories);
    proof {
        assert(local.wf());
        assert(local.tables@[0]@ == pull_recs(l0, c0));
        assert(local.tables@[1]@ == l1 && local.tables@[2]@ == l2);
    }
    let lt = local.table_mut(TableId::Products);
    pull_mem_table(&mut run, lt, remote.table(TableId::Products), TableId::Products);
    proof {
        assert(local.wf());
        assert(local.tables@[0]@ == pull_recs(l0, c0));
        assert(local.tables@[1]@ == pull_recs(l1, c1));
        assert(local.tables@[2]@ == l2);
    }
    let lt = local.table_mut(TableId::Customers);
    pull_mem_table(&mut run, lt, remote.table(TableId::Customers), TableId::Customers);
    proof {
        assert(local.wf());
        assert(local.tables@[0]@ == pull_recs(l0, c0));
        assert(local.tables@[1]@ == pull_recs(l1, c1));
        assert(local.tables@[2]@ == pull_recs(l2, c2));
        assert(run.pulled == c0.len() + c1.len() + c2.len());
        assert(run.pushed == 0);
        assert(run.errors@ == Seq::<SyncError>::empty());
    }
    let ghost p0 = local.tables@[0]@;
    let ghost p1 = local.tables@[1]@;
    let ghost p2 = local.tables@[2]@;
    // Push phase, same order.
    let lt = local.table_mut(TableId::Categories);
    let rt = remote.table_mut(TableId::Categories);
    push_mem_table(&mut run, lt, rt, TableId::Categories, Ghost(b));
    proof {
        assert(local.wf());
        assert(remote.wf());
        assert(local.tables@[1]@ == p1 && local.tables@[2]@ == p2);
        assert(remote.tables@[1]@ == r1 && remote.tables@[2]@ == r2);
    }
    let lt = local.table_mut(TableId::Products);
    let rt = remote.table_mut(TableId::Products);
    push_mem_table(&mut run, lt, rt, TableId::Products, Ghost(b));
    proof {
        assert(local.wf());
        assert(remote.wf());
        assert(local.tables@[2]@ == p2);
        assert(remote.tables@[2]@ == r2);
    }
    let lt = local.table_mut(TableId::Customers);
    let rt = remote.table_mut(TableId::Customers);
    push_mem_table(&mut run, lt, rt, TableId::Customers, Ghost(b));
    proof {
        assert(local.wf());
        assert(remote.wf());
        assert(run.errors@ == Seq::<SyncError>::empty());
        if local_all_clean(*old(local)) && remote_quiet(*old(remote), since0) {
            assert(forall|i: int| 0 <= i < r0.len() ==> (#[trigger] r0[i]).updated_at <= since0);
            assert(forall|i: int| 0 <= i < r1.len() ==> (#[trigger] r1[i]).updated_at <= since0);
            assert(forall|i: int| 0 <= i < r2.len() ==> (#[trigger] r2[i]).updated_at <= since0);
            lemma_no_changes(r0, since0);
            lemma_no_changes(r1, since0);
            lemma_no_changes(r2, since0);
            assert(p0 == l0 && p1 == l1 && p2 == l2);
            assert(forall|i: int| 0 <= i < l0.len() ==> (#[trigger] l0[i]).clean());
            assert(forall|i: int| 0 <= i < l1.len() ==> (#[trigger] l1[i]).clean());
            assert(forall|i: int| 0 <= i < l2.len() ==> (#[trigger] l2[i]).clean());
            assert(local.tables@[0]@ == l0 && local.tables@[1]@ == l1 && local.tables@[2]@ == l2);
            assert(remote.tables@[0]@ == r0 && remote.tables@[1]@ == r1 && remote.tables@[2]@
                == r2);
            assert(run.pulled == 0 && run.pushed == 0);
        }
        if local_edits_before(*old(local), b) && remote_quiet(*old(remote), b) {
            assert(edits_before(l0, b) && edits_before(l1, b) && edits_before(l2, b));
            assert forall|i: int| 0 <= i < r0.len() implies (#[trigger] r0[i]).updated_at <= b by {
                assert(old(remote).tables@[0]@[i].updated_at <= b);
            }
            assert forall|i: int| 0 <= i < r1.len() implies (#[trigger] r1[i]).updated_at <= b by {
                assert(old(remote).tables@[1]@[i].updated_at <= b);
            }
            assert forall|i: int| 0 <= i < r2.len() implies (#[trigger] r2[i]).updated_at <= b by {
                assert(old(remote).tables@[2]@[i].updated_at <= b);
            }
            assert(updates_before(r0, b) && updates_before(r1, b) && updates_before(r2, b));
            lemma_changed_bound(r0, since0, b);
            lemma_changed_bound(r1, since0, b);
            lemma_changed_bound(r2, since0, b);
            lemma_pull_recs_time_bound(l0, c0, b);
            lemma_pull_recs_time_bound(l1, c1, b);
            lemma_pull_recs_time_bound(l2, c2, b);
            assert(edits_before(p0, b) && edits_before(p1, b) && edits_before(p2, b));
            assert(updates_before(remote.tables@[0]@, b));
            assert(updates_before(remote.tables@[1]@, b));
            assert(updates_before(remote.tables@[2]@, b));
            assert forall|t: int, i: int|
                0 <= t < remote.tables@.len() && 0 <= i < remote.tables@[t]@.len()
                    implies (#[trigger] remote.tables@[t]@[i]).updated_at <= b by {
                if t == 0 {
                    assert(remote.tables@[0]@[i].updated_at <= b);
                } else if t == 1 {
                    assert(remote.tables@[1]@[i].updated_at <= b);
                } else {
                    assert(remote.tables@[2]@[i].updated_at <= b);
                }
            }
            assert(remote_quiet(*remote, b));
            assert forall|t: int|
                0 <= t < local.tables@.len() implies edits_before(
                (#[trigger] local.tables@[t])@,
                b,
            ) by {
                if t == 0 {
                    assert(edits_before(local.tables@[0]@, b));
                } else if t == 1 {
                    assert(edits_before(local.tables@[1]@, b));
                } else {
                    assert(edits_before(local.tables@[2]@, b));
                }
            }
            assert(local_edits_before(*local, b));
        }
    }
    run.finish(cp)
}

/// Law: a push phase over a table whose only dirty record stands at `i`,
/// not tombstoned, confirms exactly that record — it is marked clean at
/// its own latest local change, and the remote gains exactly its payload.
pub proof fn lemma_push_phase_single_dirty(
    s: Seq<RecordView>,
    r: Seq<RemoteRecordView>,
    i: int,
)
    requires
        unique_ids(s),
        0 <= i < s.len(),
        s[i].dirty(),
        !s[i].is_deleted,
        forall|j: int| 0 <= j < s.len() && j != i ==> (#[trigger] s[j]).clean(),
    ensures
        apply_confirmed_from(s, push_actions(s), 0) == s.update(i, s[i].marked_clean()),
        push_remote_from(r, s, push_actions(s), 0) == upserted(r, remote_of(s[i])),
{
    assert(forall|j: int| 0 <= j < s.len() && j != i ==> !(#[trigger] s[j]).dirty());
    lemma_single_dirty_actions(s, i);
    let acts = push_actions(s);
    let a = PushAction { id: s[i].id, tombstone: false };
    assert(acts == seq![a]);
    assert(acts[0] == a);
    assert(contains_id(s, a.id));
    lemma_id_index_unique(s, i);
    assert(apply_one_confirmed(s, a.id) == s.update(i, s[i].marked_clean()));
    assert(apply_confirmed_from(s, acts, 0) == apply_confirmed_from(
        s.update(i, s[i].marked_clean()),
        acts,
        1,
    ));
    assert(push_remote_from(r, s, acts, 0) == push_remote_from(
        upserted(r, remote_of(s[i])),
        s,
        acts,
        1,
    ));
}

/// Law: a pass over a quiet remote is exactly the push phase, whatever
/// the table holds: the pull changes nothing, confirmed tombstones are
/// purged, every other dirty record — a local-authored record included —
/// ends clean with `remote_updated_at` equal to its latest local change,
/// and clean records are untouched.
pub proof fn lemma_run_quiet_remote(l: Seq<RecordView>, r: Seq<RemoteRecordView>, since: u64)
    requires
        unique_ids(l),
        forall|j: int| 0 <= j < r.len() ==> (#[trigger] r[j]).updated_at <= since,
    ensures
        table_after_run(l, r, since) == pushed_state(l),
{
    lemma_no_changes(r, since);
    assert(pull_recs(l, changed_since(r, since)) == l);
    lemma_push_phase_state(l);
}

/// Law: a pass over a quiet remote, from a store whose only dirty record
/// is a local-authored (or locally edited), non-tombstoned row, pushes
/// exactly that record: afterwards it is clean — `remote_updated_at`
/// equals its latest local change — and the remote holds its payload,
/// reported at that same instant.
pub proof fn lemma_run_pushes_single_dirty(
    l: Seq<RecordView>,
    r: Seq<RemoteRecordView>,
    since: u64,
    i: int,
)
    requires
        unique_ids(l),
        0 <= i < l.len(),
        l[i].dirty(),
        !l[i].is_deleted,
        forall|j: int| 0 <= j < l.len() && j != i ==> (#[trigger] l[j]).clean(),
        forall|j: int| 0 <= j < r.len() ==> (#[trigger] r[j]).updated_at <= since,
    ensures
        table_after_run(l, r, since) == l.update(i, l[i].marked_clean()),
        remote_after_run(r, l, since) == upserted(r, remote_of(l[i])),
{
    lemma_no_changes(r, since);
    assert(pull_recs(l, changed_since(r, since)) == l);
    lemma_push_phase_single_dirty(l, r, i);
}

/// Law: a pulled record unknown locally is inserted remote-authored —
/// both sync times equal to the remote's reported update time, so it is
/// clean — and a store that was fully synchronized pushes nothing back.
pub proof fn lemma_run_pulls_new_record(
    l: Seq<RecordView>,
    r: Seq<RemoteRecordView>,
    since: u64,
    rr: RemoteRecordView,
)
    requires
        changed_since(r, since) == seq![rr],
        !rr.is_deleted,
        !contains_id(l, rr.id),
        forall|j: int| 0 <= j < l.len() ==> (#[trigger] l[j]).clean(),
    ensures
        table_after_run(l, r, since) == l.push(stored_record(rr)),
        remote_after_run(r, l, since) == r,
{
    let batch = seq![rr];
    assert(batch.drop_last() =~= Seq::<RemoteRecordView>::empty());
    assert(pull_recs(l, batch.drop_last()) == l);
    assert(batch.last() == rr);
    assert(pull_recs(l, batch) == pull_one(l, rr));
    assert(pull_one(l, rr) == l.push(stored_record(rr)));
    let p = l.push(stored_record(rr));
    assert(stored_record(rr).clean());
    assert forall|j: int| 0 <= j < p.len() implies !(#[trigger] p[j]).dirty() by {
        if j < l.len() {
            assert(p[j] == l[j]);
        } else {
            assert(p[j] == stored_record(rr));
        }
    }
    lemma_actions_empty(p);
    assert(apply_confirmed_from(p, push_actions(p), 0) == p);
    assert(push_remote_from(r, p, push_actions(p), 0) == r);
}

/// Law: one pulled record unknown locally is inserted remote-authored and
/// clean at the remote's reported update time, and the pass then runs the
/// push phase over everything else — whatever the table holds.
pub proof fn lemma_run_new_record_any_rows(
    l: Seq<RecordView>,
    r: Seq<RemoteRecordView>,
    since: u64,
    rr: RemoteRecordView,
)
    requires
        unique_ids(l),
        changed_since(r, since) == seq![rr],
        !rr.is_deleted,
        !contains_id(l, rr.id),
    ensures
        table_after_run(l, r, since) == pushed_state(l).push(stored_record(rr)),
{
    let batch = seq![rr];
    assert(batch.drop_last() =~= Seq::<RemoteRecordView>::empty());
    assert(pull_recs(l, batch.drop_last()) == l);
    assert(batch.last() == rr);
    assert(pull_recs(l, batch) == pull_one(l, rr));
    assert(pull_one(l, rr) == l.push(stored_record(rr)));
    let p = l.push(stored_record(rr));
    assert forall|a: int, b: int| 0 <= a < b < p.len() implies p[a].id != p[b].id by {
        if b == p.len() - 1 {
            assert(p[a] == l[a]);
            assert(p[b] == stored_record(rr));
            assert(contains_id(l, l[a].id));
        } else {
            assert(p[a] == l[a] && p[b] == l[b]);
        }
    }
    lemma_push_phase_state(p);
    assert(p.drop_last() =~= l);
    assert(p.last() == stored_record(rr));
    assert(!p.last().dirty());
    assert(pushed_state(p) =~= pushed_state(l).push(stored_record(rr)));
}

/// Law: when the local copy of the one pulled record is strictly newer,
/// the pull changes nothing (local wins) and the pass is exactly the push
/// phase — whatever else the table holds.
pub proof fn lemma_run_newer_local_any_rows(
    l: Seq<RecordView>,
    r: Seq<RemoteRecordView>,
    since: u64,
    rr: RemoteRecordView,
    i: int,
)
    requires
        unique_ids(l),
        changed_since(r, since) == seq![rr],
        !rr.is_deleted,
        0 <= i < l.len(),
        l[i].id == rr.id,
        l[i].local_updated_at > rr.updated_at,
    ensures
        table_after_run(l, r, since) == pushed_state(l),
{
    let batch = seq![rr];
    assert(batch.drop_last() =~= Seq::<RemoteRecordView>::empty());
    assert(pull_recs(l, batch.drop_last()) == l);
    assert(batch.last() == rr);
    assert(pull_recs(l, batch) == pull_one(l, rr));
    assert(contains_id(l, rr.id));
    lemma_id_index_unique(l, i);
    assert(pull_one(l, rr) == l);
    lemma_push_phase_state(l);
}

/// Law: when the local copy of a pulled record is strictly newer, the
/// pull leaves it untouched (local wins), and — the record still being
/// dirty — the push then confirms it: clean at its own change time, its
/// payload on the remote.
pub proof fn lemma_run_keeps_newer_local(
    l: Seq<RecordView>,
    r: Seq<RemoteRecordView>,
    since: u64,
    rr: RemoteRecordView,
    i: int,
)
    requires
        unique_ids(l),
        changed_since(r, since) == seq![rr],
        !rr.is_deleted,
        0 <= i < l.len(),
        l[i].id == rr.id,
        l[i].local_updated_at > rr.updated_at,
        l[i].dirty(),
        !l[i].is_deleted,
        forall|j: int| 0 <= j < l.len() && j != i ==> (#[trigger] l[j]).clean(),
    ensures
        table_after_run(l, r, since) == l.update(i, l[i].marked_clean()),
        remote_after_run(r, l, since) == upserted(r, remote_of(l[i])),
{
    let batch = seq![rr];
    assert(batch.drop_last() =~= Seq::<RemoteRecordView>::empty());
    assert(pull_recs(l, batch.drop_last()) == l);
    assert(batch.last() == rr);
    assert(pull_recs(l, batch) == pull_one(l, rr));
    assert(contains_id(l, rr.id));
    lemma_id_index_unique(l, i);
    assert(pull_one(l, rr) == l);
    lemma_push_phase_single_dirty(l, r, i);
}

} // verus!

