//! The push phase: selecting dirty records and applying the outcome of
//! each remote write back to the local store.
//!
//! A tombstoned dirty record is removed locally exactly when the remote
//! delete is confirmed; a non-tombstoned dirty record becomes clean
//! (`remote_updated_at == local_updated_at`) exactly when the remote upsert
//! is confirmed.  On any failure the record is left dirty, to be selected
//! again on the next run.

use vstd::prelude::*;
use crate::errors::ErrorKind;
use crate::record::RecordView;
use crate::store::{contains_id, id_index, lemma_id_index_unique, unique_ids, Table};

verus! {

/// One remote write the push phase owes: a keyed delete for a tombstone, an
/// upsert otherwise.
#[derive(Clone, Copy, PartialEq, Eq, Structural, Debug)]
pub struct PushAction {
    pub id: u128,
    pub tombstone: bool,
}

/// The actions owed for a table: one per dirty record, in row order.
pub open spec fn push_actions(s: Seq<RecordView>) -> Seq<PushAction>
    decreases s.len(),
{
    if s.len() == 0 {
        Seq::empty()
    } else {
        push_actions(s.drop_last()) + (if s.last().dirty() {
            seq![PushAction { id: s.last().id, tombstone: s.last().is_deleted }]
        } else {
            Seq::empty()
        })
    }
}

/// Selects the dirty records of a table, in row order.  The selection is
/// computed once per push phase; re-planning after partial application is
/// safe because confirmed records are no longer dirty.
pub fn push_plan(table: &Table) -> (acts: Vec<PushAction>)
    ensures
        acts@ == push_actions(table@),
{
    let mut acts: Vec<PushAction> = Vec::new();
    let mut i: usize = 0;
    proof {
        assert(table@.take(0) =~= Seq::<RecordView>::empty());
        assert(acts@ =~= push_actions(table@.take(0)));
    }
    while i < table.len()
        invariant
            0 <= i <= table@.len(),
            acts@ == push_actions(table@.take(i as int)),
        decreases table@.len() - i,
    {
        proof {
            assert(table@.take(i + 1).drop_last() =~= table@.take(i as int));
            assert(table@.take(i + 1).last() == table@[i as int]);
        }
        let rec = table.record_at(i);
        if rec.is_dirty() {
            acts.push(PushAction { id: rec.id, tombstone: rec.is_deleted });
        }
        proof {
            assert(acts@ =~= push_actions(table@.take(i + 1)));
        }
        i += 1;
    }
    proof {
        assert(table@.take(table@.len() as int) =~= table@);
    }
    acts
}

/// There are never more actions owed than records.
pub proof fn lemma_actions_len(s: Seq<RecordView>)
    ensures
        push_actions(s).len() <= s.len(),
    decreases s.len(),
{
    if s.len() > 0 {
        lemma_actions_len(s.drop_last());
    }
}

/// A table with no dirty record owes no action.
pub proof fn lemma_actions_empty(s: Seq<RecordView>)
    requires
        forall|i: int| 0 <= i < s.len() ==> !(#[trigger] s[i]).dirty(),
    ensures
        push_actions(s) == Seq::<PushAction>::empty(),
    decreases s.len(),
{
    if s.len() > 0 {
        assert(forall|i: int| 0 <= i < s.drop_last().len() ==> !(#[trigger] s.drop_last()[i]).dirty());
        lemma_actions_empty(s.drop_last());
        assert(!s.last().dirty());
        assert(push_actions(s) =~= Seq::<PushAction>::empty());
    } else {
        assert(push_actions(s) =~= Seq::<PushAction>::empty());
    }
}

/// Every dirty record appears in the owed actions.
pub proof fn lemma_dirty_in_actions(s: Seq<RecordView>, i: int)
    requires
        0 <= i < s.len(),
        s[i].dirty(),
    ensures
        exists|n: int|
            0 <= n < push_actions(s).len() && push_actions(s)[n] == (PushAction {
                id: s[i].id,
                tombstone: s[i].is_deleted,
            }),
    decreases s.len(),
{
    if i == s.len() - 1 {
        assert(s.last() == s[i]);
        let n = push_actions(s).len() - 1;
        assert(push_actions(s)[n] == (PushAction { id: s[i].id, tombstone: s[i].is_deleted }));
    } else {
        assert(s.drop_last()[i] == s[i]);
        lemma_dirty_in_actions(s.drop_last(), i);
        let n = choose|n: int|
            0 <= n < push_actions(s.drop_last()).len() && push_actions(s.drop_last())[n]
                == (PushAction { id: s[i].id, tombstone: s[i].is_deleted });
        assert(push_actions(s)[n] == push_actions(s.drop_last())[n]);
    }
}

/// The table contents after the confirmed outcome of the write owed for
/// `id` is absorbed: a confirmed tombstone delete purges the row, a
/// confirmed upsert marks the record clean, and a record that is absent or
/// no longer dirty is left alone.
pub open spec fn apply_one_confirmed(s: Seq<RecordView>, id: u128) -> Seq<RecordView> {
    if !contains_id(s, id) {
        s
    } else {
        let i = id_index(s, id);
        if !s[i].dirty() {
            s
        } else if s[i].is_deleted {
            s.remove(i)
        } else {
            s.update(i, s[i].marked_clean())
        }
    }
}

/// The table contents after the owed writes from position `k` on are all
/// confirmed and absorbed, in order.
pub open spec fn apply_confirmed_from(s: Seq<RecordView>, acts: Seq<PushAction>, k: int) -> Seq<
    RecordView,
>
    decreases acts.len() - k,
    when 0 <= k <= acts.len()
{
    if k >= acts.len() {
        s
    } else {
        apply_confirmed_from(apply_one_confirmed(s, acts[k].id), acts, k + 1)
    }
}

/// A table after its whole push phase is confirmed, record by record:
/// confirmed tombstones are purged, every other dirty record is marked
/// clean, clean records and order are kept.
pub open spec fn pushed_state(s: Seq<RecordView>) -> Seq<RecordView>
    decreases s.len(),
{
    if s.len() == 0 {
        Seq::empty()
    } else {
        pushed_state(s.drop_last()) + (if s.last().dirty() && s.last().is_deleted {
            Seq::empty()
        } else if s.last().dirty() {
            seq![s.last().marked_clean()]
        } else {
            seq![s.last()]
        })
    }
}

/// Absorbing a list of confirmed writes reads only the actions from the
/// starting position on.
pub proof fn lemma_apply_shift(
    y: Seq<RecordView>,
    p: Seq<PushAction>,
    q: Seq<PushAction>,
    j: int,
)
    requires
        0 <= j <= q.len(),
    ensures
        apply_confirmed_from(y, p + q, p.len() + j) == apply_confirmed_from(y, q, j),
    decreases q.len() - j,
{
    if j < q.len() {
        assert((p + q)[p.len() + j] == q[j]);
        lemma_apply_shift(apply_one_confirmed(y, q[j].id), p, q, j + 1);
    }
}

/// Absorbing a concatenated list of confirmed writes is absorbing the
/// first list, then the second.
pub proof fn lemma_apply_concat_at(
    y: Seq<RecordView>,
    p: Seq<PushAction>,
    q: Seq<PushAction>,
    k: int,
)
    requires
        0 <= k <= p.len(),
    ensures
        apply_confirmed_from(y, p + q, k) == apply_confirmed_from(
            apply_confirmed_from(y, p, k),
            q,
            0,
        ),
    decreases p.len() - k,
{
    if k == p.len() {
        lemma_apply_shift(y, p, q, 0);
    } else {
        assert((p + q)[k] == p[k]);
        lemma_apply_concat_at(apply_one_confirmed(y, p[k].id), p, q, k + 1);
    }
}

/// Absorbing one confirmed write keeps ids unique and introduces none.
pub proof fn lemma_apply_one_ids(s: Seq<RecordView>, id: u128, z: u128)
    requires
        unique_ids(s),
    ensures
        unique_ids(apply_one_confirmed(s, id)),
        !contains_id(s, z) ==> !contains_id(apply_one_confirmed(s, id), z),
{
    let t = apply_one_confirmed(s, id);
    if contains_id(s, id) {
        let i = id_index(s, id);
        if s[i].dirty() && s[i].is_deleted {
            assert forall|a: int, b: int| 0 <= a < b < t.len() implies t[a].id != t[b].id by {
                let a0 = if a < i {
                    a
                } else {
                    a + 1
                };
                let b0 = if b < i {
                    b
                } else {
                    b + 1
                };
                assert(t[a] == s[a0] && t[b] == s[b0]);
            }
            if !contains_id(s, z) {
                assert forall|a: int| 0 <= a < t.len() implies t[a].id != z by {
                    let a0 = if a < i {
                        a
                    } else {
                        a + 1
                    };
                    assert(t[a] == s[a0]);
                    assert(contains_id(s, s[a0].id));
                }
                assert(!contains_id(t, z));
            }
        } else if s[i].dirty() {
            assert forall|a: int, b: int| 0 <= a < b < t.len() implies t[a].id != t[b].id by {
                assert(s[a].id != s[b].id);
            }
            if !contains_id(s, z) {
                assert forall|a: int| 0 <= a < t.len() implies t[a].id != z by {
                    assert(t[a].id == s[a].id);
                    assert(contains_id(s, s[a].id));
                }
                assert(!contains_id(t, z));
            }
        }
    }
}

/// A confirmed write for a different id leaves a record appended at the
/// end untouched and in place.
pub proof fn lemma_apply_one_push_commute(d: Seq<RecordView>, x: RecordView, id: u128)
    requires
        unique_ids(d),
        !contains_id(d, x.id),
        x.id != id,
    ensures
        apply_one_confirmed(d.push(x), id) == apply_one_confirmed(d, id).push(x),
{
    let s = d.push(x);
    assert forall|a: int, b: int| 0 <= a < b < s.len() implies s[a].id != s[b].id by {
        if b == s.len() - 1 {
            assert(s[a] == d[a] && s[b] == x);
            assert(contains_id(d, d[a].id));
        } else {
            assert(s[a] == d[a] && s[b] == d[b]);
        }
    }
    if contains_id(s, id) {
        let w = choose|w: int| 0 <= w < s.len() && s[w].id == id;
        assert(w < d.len());
        assert(d[w].id == id);
        assert(contains_id(d, id));
        lemma_id_index_unique(s, w);
        lemma_id_index_unique(d, w);
        assert(id_index(s, id) == w && id_index(d, id) == w);
        if s[w].dirty() && s[w].is_deleted {
            assert(s.remove(w) =~= d.remove(w).push(x));
        } else if s[w].dirty() {
            assert(s.update(w, s[w].marked_clean()) =~= d.update(w, d[w].marked_clean()).push(x));
        }
    } else {
        if contains_id(d, id) {
            let w = choose|w: int| 0 <= w < d.len() && (#[trigger] d[w]).id == id;
            assert(s[w] == d[w]);
            assert(contains_id(s, id));
        }
        assert(!contains_id(d, id));
    }
}

/// Confirmed writes whose ids all differ from an appended record's id
/// leave that record untouched at the end.
pub proof fn lemma_apply_push_commute_list(
    d: Seq<RecordView>,
    x: RecordView,
    acts: Seq<PushAction>,
    k: int,
)
    requires
        unique_ids(d),
        !contains_id(d, x.id),
        0 <= k <= acts.len(),
        forall|n: int| k <= n < acts.len() ==> (#[trigger] acts[n]).id != x.id,
    ensures
        apply_confirmed_from(d.push(x), acts, k) == apply_confirmed_from(d, acts, k).push(x),
    decreases acts.len() - k,
{
    if k < acts.len() {
        lemma_apply_one_push_commute(d, x, acts[k].id);
        lemma_apply_one_ids(d, acts[k].id, x.id);
        lemma_apply_push_commute_list(apply_one_confirmed(d, acts[k].id), x, acts, k + 1);
    }
}

/// The pushed state keeps ids unique and introduces none.
pub proof fn lemma_pushed_state_ids(s: Seq<RecordView>)
    requires
        unique_ids(s),
    ensures
        unique_ids(pushed_state(s)),
        forall|z: u128| #[trigger] contains_id(pushed_state(s), z) ==> contains_id(s, z),
    decreases s.len(),
{
    if s.len() > 0 {
        let d = s.drop_last();
        assert(forall|i: int| 0 <= i < d.len() ==> d[i] == s[i]);
        lemma_pushed_state_ids(d);
        let p = pushed_state(s);
        let pd = pushed_state(d);
        assert forall|z: u128| #[trigger] contains_id(p, z) implies contains_id(s, z) by {
            let w = choose|w: int| 0 <= w < p.len() && (#[trigger] p[w]).id == z;
            if w < pd.len() {
                assert(p[w] == pd[w]);
                assert(contains_id(pd, z));
                let w2 = choose|w2: int| 0 <= w2 < d.len() && (#[trigger] d[w2]).id == z;
                assert(s[w2] == d[w2]);
                assert(contains_id(s, z));
            } else {
                assert(p[w].id == s.last().id);
                assert(s[s.len() - 1] == s.last());
                assert(contains_id(s, z));
            }
        }
        assert forall|a: int, b: int| 0 <= a < b < p.len() implies p[a].id != p[b].id by {
            if b < pd.len() {
                assert(p[a] == pd[a] && p[b] == pd[b]);
            } else {
                assert(p[b].id == s.last().id);
                assert(p[a] == pd[a]);
                assert(contains_id(pd, pd[a].id));
                if p[a].id == s.last().id {
                    assert(contains_id(d, s.last().id));
                    let w2 = choose|w2: int|
                        0 <= w2 < d.len() && (#[trigger] d[w2]).id == s.last().id;
                    assert(s[w2] == d[w2]);
                    assert(s[w2].id != s[s.len() - 1].id);
                    assert(s[s.len() - 1] == s.last());
                }
            }
        }
    }
}

/// Law: confirming a table's whole owed push plan purges exactly the
/// tombstoned dirty records and marks every other dirty record clean —
/// its `remote_updated_at` becomes its `local_updated_at` — keeping clean
/// records untouched and row order intact, whatever else the table holds.
pub proof fn lemma_push_phase_state(s: Seq<RecordView>)
    requires
        unique_ids(s),
    ensures
        apply_confirmed_from(s, push_actions(s), 0) == pushed_state(s),
    decreases s.len(),
{
    if s.len() == 0 {
        assert(pushed_state(s) =~= s);
    } else {
        let d = s.drop_last();
        let x = s.last();
        assert(forall|i: int| 0 <= i < d.len() ==> d[i] == s[i]);
        assert(s[s.len() - 1] == x);
        assert(!contains_id(d, x.id)) by {
            if contains_id(d, x.id) {
                let w = choose|w: int| 0 <= w < d.len() && (#[trigger] d[w]).id == x.id;
                assert(s[w].id != s[s.len() - 1].id);
            }
        }
        lemma_push_phase_state(d);
        lemma_pushed_state_ids(d);
        let acts_d = push_actions(d);
        let tail = if x.dirty() {
            seq![PushAction { id: x.id, tombstone: x.is_deleted }]
        } else {
            Seq::<PushAction>::empty()
        };
        assert(push_actions(s) == acts_d + tail);
        assert forall|n: int| 0 <= n < acts_d.len() implies (#[trigger] acts_d[n]).id != x.id by {
            lemma_action_from_record(d, n);
            let w = choose|w: int|
                0 <= w < d.len() && (#[trigger] d[w]).id == acts_d[n].id && d[w].dirty()
                    && d[w].is_deleted == acts_d[n].tombstone;
            assert(s[w].id != s[s.len() - 1].id);
        }
        assert(s =~= d.push(x));
        lemma_apply_concat_at(s, acts_d, tail, 0);
        lemma_apply_push_commute_list(d, x, acts_d, 0);
        let pd = pushed_state(d);
        let y = pd.push(x);
        assert(apply_confirmed_from(s, acts_d, 0) == y);
        assert(!contains_id(pd, x.id));
        if x.dirty() {
            let a = PushAction { id: x.id, tombstone: x.is_deleted };
            assert(tail[0] == a);
            assert(y[y.len() - 1] == x);
            assert(contains_id(y, x.id));
            assert forall|i: int, j: int| 0 <= i < j < y.len() implies y[i].id != y[j].id by {
                if j < pd.len() {
                    assert(y[i] == pd[i] && y[j] == pd[j]);
                } else {
                    assert(y[j] == x);
                    assert(y[i] == pd[i]);
                    assert(contains_id(pd, pd[i].id));
                }
            }
            lemma_id_index_unique(y, y.len() - 1);
            assert(id_index(y, x.id) == y.len() - 1);
            if x.is_deleted {
                assert(apply_one_confirmed(y, a.id) =~= pd);
                assert(pushed_state(s) =~= pd);
            } else {
                assert(apply_one_confirmed(y, a.id) =~= pd.push(x.marked_clean()));
                assert(pushed_state(s) =~= pd.push(x.marked_clean()));
            }
            assert(apply_confirmed_from(y, tail, 0) == apply_confirmed_from(
                apply_one_confirmed(y, a.id),
                tail,
                1,
            ));
        } else {
            assert(apply_confirmed_from(y, tail, 0) == y);
            assert(pushed_state(s) =~= pd.push(x));
        }
    }
}

/// A table whose only dirty record stands at `i` owes exactly one action.
pub proof fn lemma_single_dirty_actions(s: Seq<RecordView>, i: int)
    requires
        0 <= i < s.len(),
        s[i].dirty(),
        forall|j: int| 0 <= j < s.len() && j != i ==> !(#[trigger] s[j]).dirty(),
    ensures
        push_actions(s) == seq![PushAction { id: s[i].id, tombstone: s[i].is_deleted }],
    decreases s.len(),
{
    if i == s.len() - 1 {
        assert(forall|j: int|
            0 <= j < s.drop_last().len() ==> !(#[trigger] s.drop_last()[j]).dirty());
        lemma_actions_empty(s.drop_last());
        assert(s.last() == s[i]);
        assert(push_actions(s) =~= seq![
            PushAction { id: s[i].id, tombstone: s[i].is_deleted },
        ]);
    } else {
        assert(!s[s.len() - 1].dirty());
        assert(s.last() == s[s.len() - 1]);
        assert(s.drop_last()[i] == s[i]);
        assert(forall|j: int|
            0 <= j < s.drop_last().len() && j != i ==> !(#[trigger] s.drop_last()[j]).dirty());
        lemma_single_dirty_actions(s.drop_last(), i);
        assert(push_actions(s) =~= seq![
            PushAction { id: s[i].id, tombstone: s[i].is_deleted },
        ]);
    }
}

/// Every owed action points at a dirty record carrying its id and kind.
pub proof fn lemma_action_from_record(s: Seq<RecordView>, n: int)
    requires
        0 <= n < push_actions(s).len(),
    ensures
        exists|i: int|
            0 <= i < s.len() && (#[trigger] s[i]).id == push_actions(s)[n].id && s[i].dirty()
                && s[i].is_deleted == push_actions(s)[n].tombstone,
    decreases s.len(),
{
    let acts = push_actions(s);
    let prefix = push_actions(s.drop_last());
    if n < prefix.len() {
        lemma_action_from_record(s.drop_last(), n);
        let i = choose|i: int|
            0 <= i < s.drop_last().len() && (#[trigger] s.drop_last()[i]).id == prefix[n].id
                && s.drop_last()[i].dirty() && s.drop_last()[i].is_deleted == prefix[n].tombstone;
        assert(s[i] == s.drop_last()[i]);
        assert(acts[n] == prefix[n]);
    } else {
        let i = s.len() - 1;
        assert(s[i] == s.last());
        assert(acts[n] == (PushAction { id: s.last().id, tombstone: s.last().is_deleted }));
    }
}

/// Under unique record ids, no two owed actions share an id.
pub proof fn lemma_action_ids_unique(s: Seq<RecordView>)
    requires
        forall|i: int, j: int| 0 <= i < j < s.len() ==> s[i].id != s[j].id,
    ensures
        forall|n1: int, n2: int|
            0 <= n1 < n2 < push_actions(s).len() ==> (#[trigger] push_actions(s)[n1]).id
                != (#[trigger] push_actions(s)[n2]).id,
    decreases s.len(),
{
    if s.len() > 0 {
        let d = s.drop_last();
        assert(forall|i: int, j: int| 0 <= i < j < d.len() ==> d[i].id != d[j].id) by {
            assert(forall|i: int| 0 <= i < d.len() ==> d[i] == s[i]);
        }
        lemma_action_ids_unique(d);
        let acts = push_actions(s);
        let prefix = push_actions(d);
        assert forall|n1: int, n2: int|
            0 <= n1 < n2 < acts.len() implies (#[trigger] acts[n1]).id
            != (#[trigger] acts[n2]).id by {
            if n2 < prefix.len() {
                assert(acts[n1] == prefix[n1] && acts[n2] == prefix[n2]);
            } else {
                assert(s.last().dirty());
                assert(acts[n2] == (PushAction { id: s.last().id, tombstone: s.last().is_deleted }));
                assert(acts[n1] == prefix[n1]);
                lemma_action_from_record(d, n1);
                let i = choose|i: int|
                    0 <= i < d.len() && (#[trigger] d[i]).id == prefix[n1].id && d[i].dirty()
                        && d[i].is_deleted == prefix[n1].tombstone;
                assert(s[i] == d[i]);
                assert(s[i].id != s[s.len() - 1].id);
                assert(s.last() == s[s.len() - 1]);
            }
        }
    }
}

/// How one push outcome was absorbed by the local store.
#[derive(Clone, Copy, PartialEq, Eq, Structural, Debug)]
pub enum PushApplied {
    /// No record with that id exists locally.
    NotFound,
    /// The record is no longer dirty; nothing was owed.
    NotDirty,
    /// The remote write was confirmed: the tombstone was purged, or the
    /// record was marked clean.
    Confirmed,
    /// The remote write failed; the record is left dirty for the next run.
    Failed,
}

/// Applies the outcome of one remote write to the record it was for.
pub fn apply_push_result(table: &mut Table, id: u128, outcome: Result<(), ErrorKind>) -> (r:
    PushApplied)
    requires
        old(table).wf(),
    ensures
        final(table).wf(),
        ({
            let s = old(table)@;
            if !contains_id(s, id) {
                r == PushApplied::NotFound && final(table)@ == s
            } else {
                let i = id_index(s, id);
                if !s[i].dirty() {
                    r == PushApplied::NotDirty && final(table)@ == s
                } else if outcome is Err {
                    r == PushApplied::Failed && final(table)@ == s
                } else if s[i].is_deleted {
                    r == PushApplied::Confirmed && final(table)@ == s.remove(i)
                } else {
                    r == PushApplied::Confirmed && final(table)@ == s.update(i, s[i].marked_clean())
                }
            }
        }),
{
    match table.find(id) {
        None => PushApplied::NotFound,
        Some(i) => {
            proof {
                lemma_id_index_unique(old(table)@, i as int);
            }
            if !table.record_at(i).is_dirty() {
                PushApplied::NotDirty
            } else {
                match outcome {
                    Err(_) => PushApplied::Failed,
                    Ok(_) => {
                        if table.record_at(i).is_deleted {
                            table.remove_at(i);
                            PushApplied::Confirmed
                        } else {
                            let row = &mut table.rows[i];
                            row.remote_updated_at = row.local_updated_at;
                            proof {
                                assert(final(table)@ =~= old(table)@.update(
                                    i as int,
                                    old(table)@[i as int].marked_clean(),
                                ));
                                assert forall|a: int, b: int|
                                    0 <= a < b < final(table)@.len() implies final(table)@[a].id
                                    != final(table)@[b].id by {
                                    assert(old(table)@[a].id != old(table)@[b].id);
                                }
                            }
                            PushApplied::Confirmed
                        }
                    },
                }
            }
        },
    }
}

/// Copies a column vector (the payload handed to a remote upsert).
pub fn clone_columns(c: &Vec<Option<String>>) -> (r: Vec<Option<String>>)
    ensures
        r@ == c@,
{
    let mut r: Vec<Option<String>> = Vec::new();
    let mut i: usize = 0;
    while i < c.len()
        invariant
            0 <= i <= c@.len(),
            r@ =~= c@.take(i as int),
        decreases c@.len() - i,
    {
        let col = match &c[i] {
            Some(s) => Some(s.clone()),
            None => None,
        };
        assert(col == c@[i as int]);
        r.push(col);
        proof {
            assert(r@ =~= c@.take(i + 1));
        }
        i += 1;
    }
    proof {
        assert(c@.take(c@.len() as int) =~= c@);
    }
    r
}

} // verus!
