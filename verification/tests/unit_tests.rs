use pos_sync::category::Category;
use pos_sync::debt::{apply_debt_payment, DebtStatus};
use pos_sync::engine::SyncRun;
use pos_sync::errors::ErrorKind;
use pos_sync::record::Record;
use pos_sync::remote::{validate, RemoteRecord, RemoteRow};
use pos_sync::remote_store::RemoteTable;
use pos_sync::resolver::{resolve, Decision};
use pos_sync::store::Table;
use pos_sync::tables::{registry, TableId};
use pos_sync::timestamp::{format_timestamp, parse_timestamp};

const JAN_2024_MILLIS: u64 = 1704067200000;

fn raw_row(id: Option<u128>, updated_at: Option<&str>, name: &str) -> RemoteRow {
    RemoteRow {
        id,
        created_at: None,
        updated_at: updated_at.map(|s| s.to_string()),
        is_deleted: false,
        columns: vec![Some(name.to_string()), None],
    }
}

#[test]
fn rfc3339_parse_gives_exact_millis() {
    assert_eq!(parse_timestamp("2024-01-01T00:00:00Z"), Some(JAN_2024_MILLIS));
    assert_eq!(parse_timestamp("2024-01-01T00:00:00.250Z"), Some(JAN_2024_MILLIS + 250));
    assert_eq!(parse_timestamp("2024-01-01T01:00:00+01:00"), Some(JAN_2024_MILLIS));
    assert_eq!(parse_timestamp("not a timestamp"), None);
    // instants at or before the epoch are rejected
    assert_eq!(parse_timestamp("1969-12-31T23:59:59Z"), None);
    assert_eq!(parse_timestamp("1970-01-01T00:00:00Z"), None);
}

#[test]
fn rfc3339_round_trip() {
    for t in [1u64, 1000, JAN_2024_MILLIS, JAN_2024_MILLIS + 123] {
        let s = format_timestamp(t);
        assert_eq!(parse_timestamp(&s), Some(t));
    }
}

#[test]
fn validate_accepts_a_full_row() {
    let row = raw_row(Some(5), Some("2024-01-01T00:00:00Z"), "Drinks");
    let rec = validate(row).unwrap();
    assert_eq!(rec.id, 5);
    assert_eq!(rec.updated_at, JAN_2024_MILLIS);
    assert_eq!(rec.created_at, JAN_2024_MILLIS);
    assert!(!rec.is_deleted);
    assert_eq!(rec.columns[0].as_deref(), Some("Drinks"));
}

#[test]
fn validate_rejects_missing_or_malformed_fields() {
    assert!(validate(raw_row(None, Some("2024-01-01T00:00:00Z"), "x")).is_none());
    assert!(validate(raw_row(Some(1), None, "x")).is_none());
    assert!(validate(raw_row(Some(1), Some("yesterday"), "x")).is_none());
    let mut bad_created = raw_row(Some(1), Some("2024-01-01T00:00:00Z"), "x");
    bad_created.created_at = Some("not a date".to_string());
    assert!(validate(bad_created).is_none());
}

#[test]
fn pull_records_validation_errors_and_applies_valid_rows() {
    let mut table = Table::new();
    let mut run = SyncRun::begin(Some(0), 9000).ok().unwrap();
    let rows = vec![
        raw_row(Some(1), Some("2024-01-01T00:00:00Z"), "Drinks"),
        raw_row(None, Some("2024-01-01T00:00:00Z"), "NoId"),
        raw_row(Some(2), Some("garbage"), "BadTime"),
    ];
    run.pull_table(&mut table, TableId::Categories, Ok(rows));

    // every fetched record counts as attempted
    assert_eq!(run.pulled, 3);
    assert_eq!(run.errors.len(), 2);
    assert_eq!(run.errors[0].kind, ErrorKind::Validation);
    assert_eq!(run.errors[0].record_id, None);
    assert_eq!(run.errors[1].kind, ErrorKind::Validation);
    assert_eq!(run.errors[1].record_id, Some(2));
    assert_eq!(table.rows.len(), 1);
    assert_eq!(table.rows[0].id, 1);
    assert_eq!(table.rows[0].local_updated_at, JAN_2024_MILLIS);
    assert_eq!(table.rows[0].remote_updated_at, JAN_2024_MILLIS);
}

#[test]
fn pull_keeps_strictly_newer_local_record() {
    let mut table = Table::new();
    table.rows.push(Record {
        id: 1,
        columns: vec![Some("Local name".to_string()), None],
        created_at: 100,
        local_updated_at: JAN_2024_MILLIS + 1,
        remote_updated_at: 100,
        is_deleted: false,
    });
    let mut run = SyncRun::begin(Some(0), 9000).ok().unwrap();
    let rows = vec![raw_row(Some(1), Some("2024-01-01T00:00:00Z"), "Remote name")];
    run.pull_table(&mut table, TableId::Categories, Ok(rows));

    assert_eq!(run.pulled, 1);
    assert!(run.errors.is_empty());
    assert_eq!(table.rows[0].columns[0].as_deref(), Some("Local name"));
    assert_eq!(table.rows[0].local_updated_at, JAN_2024_MILLIS + 1);
}

#[test]
fn pull_overwrites_older_local_record() {
    let mut table = Table::new();
    table.rows.push(Record {
        id: 1,
        columns: vec![Some("Local name".to_string()), None],
        created_at: 100,
        local_updated_at: 200,
        remote_updated_at: 100,
        is_deleted: false,
    });
    let mut run = SyncRun::begin(Some(0), 9000).ok().unwrap();
    let rows = vec![raw_row(Some(1), Some("2024-01-01T00:00:00Z"), "Remote name")];
    run.pull_table(&mut table, TableId::Categories, Ok(rows));

    assert_eq!(table.rows[0].columns[0].as_deref(), Some("Remote name"));
    assert_eq!(table.rows[0].local_updated_at, JAN_2024_MILLIS);
    assert_eq!(table.rows[0].remote_updated_at, JAN_2024_MILLIS);
    // the creation time is immutable
    assert_eq!(table.rows[0].created_at, 100);
}

#[test]
fn pull_applies_remote_deletion_as_purge() {
    let mut table = Table::new();
    table.rows.push(Record {
        id: 1,
        columns: vec![Some("Doomed".to_string()), None],
        created_at: 100,
        local_updated_at: 200,
        remote_updated_at: 100,
        is_deleted: false,
    });
    let mut run = SyncRun::begin(Some(0), 9000).ok().unwrap();
    let mut row = raw_row(Some(1), Some("2024-01-01T00:00:00Z"), "Doomed");
    row.is_deleted = true;
    run.pull_table(&mut table, TableId::Categories, Ok(vec![row]));

    assert_eq!(table.rows.len(), 0);
    assert!(run.errors.is_empty());
}

#[test]
fn fetch_round_trips_through_validation() {
    // What the in-memory remote hands out decodes back to exactly the
    // stored record.
    let mut rt = RemoteTable::new();
    rt.rows.push(RemoteRecord {
        id: 42,
        created_at: 1000,
        updated_at: 123456789,
        is_deleted: false,
        columns: vec![Some("Pens".to_string()), None],
    });
    let rows = rt.fetch_since(0);
    assert_eq!(rows.len(), 1);
    let rec = validate(rows.into_iter().next().unwrap()).unwrap();
    assert_eq!(rec.id, 42);
    assert_eq!(rec.created_at, 1000);
    assert_eq!(rec.updated_at, 123456789);
    assert_eq!(rec.columns[0].as_deref(), Some("Pens"));

    // the filter bound is exclusive
    assert_eq!(rt.fetch_since(123456789).len(), 0);
    assert_eq!(rt.fetch_since(123456788).len(), 1);
}

#[test]
fn resolver_prefers_remote_without_local_copy() {
    let rec = RemoteRecord {
        id: 1,
        created_at: 500,
        updated_at: 500,
        is_deleted: false,
        columns: vec![],
    };
    assert_eq!(resolve(None, &rec), Decision::ApplyRemote);
}

#[test]
fn resolver_compares_update_times() {
    let remote = RemoteRecord {
        id: 1,
        created_at: 500,
        updated_at: 500,
        is_deleted: false,
        columns: vec![],
    };
    let mut local = Record {
        id: 1,
        columns: vec![],
        created_at: 100,
        local_updated_at: 501,
        remote_updated_at: 100,
        is_deleted: false,
    };
    assert_eq!(resolve(Some(&local), &remote), Decision::KeepLocal);
    local.local_updated_at = 500;
    assert_eq!(resolve(Some(&local), &remote), Decision::ApplyRemote);
    local.local_updated_at = 499;
    assert_eq!(resolve(Some(&local), &remote), Decision::ApplyRemote);
}

#[test]
fn category_round_trips_through_record() {
    let c = Category {
        id: 8,
        name: "Snacks".to_string(),
        description: Some("Salty things".to_string()),
        created_at: 100,
        local_updated_at: 200,
        remote_updated_at: 100,
        is_deleted: false,
    };
    let rec = c.into_record();
    assert_eq!(rec.id, 8);
    assert_eq!(rec.columns.len(), 2);
    let back = Category::from_record(rec).unwrap();
    assert_eq!(back.name, "Snacks");
    assert_eq!(back.description.as_deref(), Some("Salty things"));
    assert_eq!(back.local_updated_at, 200);
}

#[test]
fn category_rejects_wrong_payload() {
    let rec = Record {
        id: 8,
        columns: vec![Some("Only one".to_string())],
        created_at: 100,
        local_updated_at: 200,
        remote_updated_at: 100,
        is_deleted: false,
    };
    assert!(Category::from_record(rec).is_none());
    let rec = Record {
        id: 8,
        columns: vec![None, None],
        created_at: 100,
        local_updated_at: 200,
        remote_updated_at: 100,
        is_deleted: false,
    };
    assert!(Category::from_record(rec).is_none());
}

#[test]
fn registry_lists_tables_in_dependency_order() {
    let r = registry();
    assert_eq!(r.len(), 3);
    assert_eq!(r[0], TableId::Categories);
    assert_eq!(r[1], TableId::Products);
    assert_eq!(r[2], TableId::Customers);
    assert_eq!(TableId::Categories.columns().len(), 2);
    assert_eq!(TableId::Products.columns().len(), 9);
    assert_eq!(TableId::Customers.columns().len(), 5);
    assert_eq!(TableId::Products.name(), "products");
}

#[test]
fn local_mutations_drive_the_dirty_cycle() {
    let mut table = Table::new();
    assert!(table.insert_new(1, vec![Some("A".to_string()), None], 100));
    // duplicate ids are refused
    assert!(!table.insert_new(1, vec![Some("B".to_string()), None], 150));
    assert_eq!(table.rows.len(), 1);
    assert_eq!(table.rows[0].local_updated_at, 100);
    assert_eq!(table.rows[0].remote_updated_at, 0);
    assert!(table.rows[0].local_updated_at > table.rows[0].remote_updated_at);

    assert!(table.update_record(1, vec![Some("B".to_string()), None], 200));
    assert_eq!(table.rows[0].columns[0].as_deref(), Some("B"));
    assert_eq!(table.rows[0].local_updated_at, 200);

    assert!(table.tombstone_record(1, 300));
    assert!(table.rows[0].is_deleted);
    assert_eq!(table.rows[0].local_updated_at, 300);

    assert!(!table.update_record(99, vec![], 400));
}

#[test]
fn debt_payments_move_the_status() {
    assert_eq!(apply_debt_payment(1000, 0, 0), (0, DebtStatus::Pending));
    assert_eq!(apply_debt_payment(1000, 0, 400), (400, DebtStatus::Partial));
    assert_eq!(apply_debt_payment(1000, 400, 600), (1000, DebtStatus::Paid));
    assert_eq!(apply_debt_payment(1000, 400, 700), (1100, DebtStatus::Paid));
    // a zero-amount debt is settled from the start
    assert_eq!(apply_debt_payment(0, 0, 0), (0, DebtStatus::Paid));
}

#[test]
fn created_records_get_distinct_ids() {
    let mut table = Table::new();
    let a = table.create_record(vec![Some("A".to_string()), None], 100).unwrap();
    let b = table.create_record(vec![Some("B".to_string()), None], 200).unwrap();
    assert_ne!(a, b);
    assert_eq!(table.rows.len(), 2);
    assert!(table.find(a).is_some());
    assert!(table.find(b).is_some());
}
