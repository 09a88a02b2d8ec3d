use pos_sync::engine::{sync_run, Checkpoint, SyncRun};
use pos_sync::errors::ErrorKind;
use pos_sync::push::push_plan;
use pos_sync::record::Record;
use pos_sync::remote::RemoteRecord;
use pos_sync::remote_store::RemoteStore;
use pos_sync::store::{LocalStore, Table};
use pos_sync::tables::TableId;

fn local_record(id: u128, name: &str, arity: usize, local: u64, remote: u64, deleted: bool) -> Record {
    let mut columns: Vec<Option<String>> = vec![Some(name.to_string())];
    while columns.len() < arity {
        columns.push(None);
    }
    Record {
        id,
        columns,
        created_at: if remote > 0 { remote } else { local },
        local_updated_at: local,
        remote_updated_at: remote,
        is_deleted: deleted,
    }
}

fn remote_record(id: u128, name: &str, arity: usize, updated: u64) -> RemoteRecord {
    let mut columns: Vec<Option<String>> = vec![Some(name.to_string())];
    while columns.len() < arity {
        columns.push(None);
    }
    RemoteRecord { id, created_at: updated, updated_at: updated, is_deleted: false, columns }
}

#[test]
fn local_only_product_is_pushed() {
    // A product authored locally at t1, never synced, is pushed: afterwards
    // its remote_updated_at equals t1 and the remote holds it.
    let t1: u64 = 1000;
    let mut local = LocalStore::new();
    local.tables[1].rows.push(local_record(7, "Cola", 9, t1, 0, false));
    let mut remote = RemoteStore::new();
    let mut cp = Checkpoint::new();

    let r = sync_run(&mut local, &mut remote, &mut cp, 2000);

    assert!(r.success);
    assert!(r.pushed >= 1);
    assert_eq!(local.tables[1].rows.len(), 1);
    assert_eq!(local.tables[1].rows[0].remote_updated_at, t1);
    assert_eq!(local.tables[1].rows[0].local_updated_at, t1);
    assert_eq!(remote.tables[1].rows.len(), 1);
    assert_eq!(remote.tables[1].rows[0].id, 7);
    assert_eq!(remote.tables[1].rows[0].updated_at, t1);
}

#[test]
fn remote_only_category_is_pulled() {
    // A category only the remote knows, updated at t5, appears locally with
    // both sync times equal to t5.
    let t5: u64 = 500;
    let mut local = LocalStore::new();
    let mut remote = RemoteStore::new();
    remote.tables[0].rows.push(remote_record(5, "Drinks", 2, t5));
    let mut cp = Checkpoint::new();

    let r = sync_run(&mut local, &mut remote, &mut cp, 2000);

    assert!(r.success);
    assert!(r.pulled >= 1);
    assert_eq!(local.tables[0].rows.len(), 1);
    let rec = &local.tables[0].rows[0];
    assert_eq!(rec.id, 5);
    assert_eq!(rec.local_updated_at, t5);
    assert_eq!(rec.remote_updated_at, t5);
    assert_eq!(rec.columns[0].as_deref(), Some("Drinks"));
}

#[test]
fn newer_local_customer_wins_pull_then_is_pushed() {
    // The local customer was edited at t10; the remote copy reports t8.
    // The pull keeps the local fields, and the push then confirms them:
    // remote_updated_at becomes t10.
    let t2: u64 = 2000;
    let t8: u64 = 8000;
    let t10: u64 = 10000;
    let mut local = LocalStore::new();
    let mut rec = local_record(9, "Ali", 5, t10, t2, false);
    rec.created_at = t2;
    local.tables[2].rows.push(rec);
    let mut remote = RemoteStore::new();
    remote.tables[2].rows.push(remote_record(9, "Someone Else", 5, t8));
    let mut cp = Checkpoint::new();

    let r = sync_run(&mut local, &mut remote, &mut cp, 20000);

    assert!(r.success);
    assert!(r.pulled >= 1);
    assert!(r.pushed >= 1);
    assert_eq!(local.tables[2].rows.len(), 1);
    let rec = &local.tables[2].rows[0];
    assert_eq!(rec.columns[0].as_deref(), Some("Ali"));
    assert_eq!(rec.local_updated_at, t10);
    assert_eq!(rec.remote_updated_at, t10);
    assert_eq!(remote.tables[2].rows[0].updated_at, t10);
    assert_eq!(remote.tables[2].rows[0].columns[0].as_deref(), Some("Ali"));
}

#[test]
fn failed_tombstone_delete_stays_dirty() {
    // A tombstoned record whose remote delete fails with a network error
    // stays locally, still tombstoned, is reported in the errors, and is
    // selected again by the next plan.
    let mut table = Table::new();
    table.rows.push(local_record(3, "Old debt", 5, 5000, 1000, true));
    let started = SyncRun::begin(Some(0), 9000);
    let mut run = match started {
        Ok(run) => run,
        Err(_) => panic!("checkpoint read was given"),
    };

    run.push_record(&mut table, TableId::Customers, 3, Err(ErrorKind::Network));

    assert_eq!(table.rows.len(), 1);
    assert!(table.rows[0].is_deleted);
    assert!(table.rows[0].local_updated_at > table.rows[0].remote_updated_at);
    assert_eq!(run.errors.len(), 1);
    assert_eq!(run.errors[0].table, TableId::Customers);
    assert_eq!(run.errors[0].kind, ErrorKind::Network);
    assert_eq!(run.errors[0].record_id, Some(3));

    let again = push_plan(&table);
    assert_eq!(again.len(), 1);
    assert_eq!(again[0].id, 3);
    assert!(again[0].tombstone);

    let mut cp = Checkpoint::new();
    let result = run.finish(&mut cp);
    assert!(!result.success);
    assert_eq!(result.pushed, 0);
    assert_eq!(cp.last_synced_at, 9000);
}

#[test]
fn confirmed_tombstone_delete_purges_row() {
    let mut table = Table::new();
    table.rows.push(local_record(3, "Old debt", 5, 5000, 1000, true));
    let mut run = SyncRun::begin(Some(0), 9000).ok().unwrap();

    run.push_record(&mut table, TableId::Customers, 3, Ok(()));

    assert_eq!(table.rows.len(), 0);
    assert_eq!(run.pushed, 1);
    assert_eq!(run.errors.len(), 0);
}

#[test]
fn confirmed_upsert_marks_record_clean() {
    let mut table = Table::new();
    table.rows.push(local_record(4, "Pen", 9, 7000, 2000, false));
    let mut run = SyncRun::begin(Some(0), 9000).ok().unwrap();

    run.push_record(&mut table, TableId::Products, 4, Ok(()));

    assert_eq!(table.rows.len(), 1);
    assert_eq!(table.rows[0].remote_updated_at, 7000);
    assert_eq!(table.rows[0].local_updated_at, 7000);
    assert_eq!(run.pushed, 1);
}

#[test]
fn mixed_table_pushes_dirty_and_purges_confirmed_tombstones() {
    // One clean, one dirty, one tombstoned record side by side: the run
    // leaves the clean one untouched, confirms the dirty one, and purges
    // the tombstone, keeping row order.
    let mut local = LocalStore::new();
    local.tables[1].rows.push(local_record(1, "Kept", 9, 400, 400, false));
    local.tables[1].rows.push(local_record(2, "Pushed", 9, 700, 200, false));
    local.tables[1].rows.push(local_record(3, "Purged", 9, 800, 300, true));
    let mut remote = RemoteStore::new();
    remote.tables[1].rows.push(remote_record(3, "Purged", 9, 300));
    let mut cp = Checkpoint { last_synced_at: 350 };

    let r = sync_run(&mut local, &mut remote, &mut cp, 1000);

    assert!(r.success);
    assert_eq!(r.pulled, 0);
    assert_eq!(r.pushed, 2);
    assert_eq!(local.tables[1].rows.len(), 2);
    assert_eq!(local.tables[1].rows[0].id, 1);
    assert_eq!(local.tables[1].rows[0].remote_updated_at, 400);
    assert_eq!(local.tables[1].rows[1].id, 2);
    assert_eq!(local.tables[1].rows[1].remote_updated_at, 700);
    assert_eq!(local.tables[1].rows[1].local_updated_at, 700);
    // the remote lost the deleted row and gained the pushed one
    assert!(remote.tables[1].rows.iter().all(|rec| rec.id != 3));
    let pushed = remote.tables[1].rows.iter().find(|rec| rec.id == 2).unwrap();
    assert_eq!(pushed.updated_at, 700);
    assert_eq!(pushed.columns[0].as_deref(), Some("Pushed"));
}

#[test]
fn second_run_without_changes_does_nothing() {
    // Idempotence: two consecutive runs with no mutation in between; the
    // second pulls nothing, pushes nothing, and succeeds.
    let mut local = LocalStore::new();
    local.tables[1].rows.push(local_record(7, "Cola", 9, 1000, 0, false));
    let mut remote = RemoteStore::new();
    remote.tables[0].rows.push(remote_record(5, "Drinks", 2, 500));
    let mut cp = Checkpoint::new();

    let first = sync_run(&mut local, &mut remote, &mut cp, 2000);
    assert!(first.success);
    assert!(first.pulled >= 1);
    assert!(first.pushed >= 1);

    let second = sync_run(&mut local, &mut remote, &mut cp, 3000);
    assert!(second.success);
    assert_eq!(second.pulled, 0);
    assert_eq!(second.pushed, 0);
    assert_eq!(second.errors.len(), 0);
}

#[test]
fn checkpoint_never_decreases() {
    // Even a run started with a clock behind the checkpoint leaves the
    // checkpoint where it was.
    let mut local = LocalStore::new();
    let mut remote = RemoteStore::new();
    let mut cp = Checkpoint { last_synced_at: 5000 };

    let r = sync_run(&mut local, &mut remote, &mut cp, 1000);

    assert!(r.success);
    assert_eq!(cp.last_synced_at, 5000);

    let r = sync_run(&mut local, &mut remote, &mut cp, 8000);
    assert!(r.success);
    assert_eq!(cp.last_synced_at, 8000);
}

#[test]
fn checkpoint_advances_on_partial_failure() {
    // A failed table pull is recorded, but the checkpoint still advances
    // to the captured start of the run.
    let mut table = Table::new();
    let mut run = SyncRun::begin(Some(100), 900).ok().unwrap();
    run.pull_table(&mut table, TableId::Categories, Err(ErrorKind::Network));

    let mut cp = Checkpoint { last_synced_at: 100 };
    let result = run.finish(&mut cp);

    assert!(!result.success);
    assert_eq!(result.errors.len(), 1);
    assert_eq!(result.errors[0].kind, ErrorKind::Network);
    assert_eq!(result.errors[0].record_id, None);
    assert_eq!(cp.last_synced_at, 900);
}

#[test]
fn failed_checkpoint_read_aborts_run() {
    let started = SyncRun::begin(None, 900);
    assert!(started.is_err());
}

#[test]
fn persistence_failure_is_recorded() {
    let mut table = Table::new();
    let mut run = SyncRun::begin(Some(0), 900).ok().unwrap();
    run.pull_table(&mut table, TableId::Products, Err(ErrorKind::Persistence));
    assert_eq!(run.errors.len(), 1);
    assert_eq!(run.errors[0].kind, ErrorKind::Persistence);
    assert_eq!(run.errors[0].table, TableId::Products);
}
