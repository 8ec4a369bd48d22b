//! The report store: creation, lookup, update, listing.

use logjuicer_db::rows::ReportRow;
use logjuicer_db::status::{parse_status, ReportStatus};
use logjuicer_db::store::Db;

fn fresh_db(version: i64) -> Db {
    let (db, stale) = Db::new(Vec::new(), Vec::new(), version);
    assert!(stale.is_empty());
    db
}

#[test]
fn initialize_report_starts_pending() {
    let mut db = fresh_db(1);
    let id = db.initialize_report("target-a", "baseline-b", 100);
    assert_eq!(id, 1);
    assert_eq!(db.get_report_status(id), Some(ReportStatus::Pending));
}

#[test]
fn lookup_report_finds_initialized_pair() {
    let mut db = fresh_db(1);
    let id = db.initialize_report("target-a", "baseline-b", 100);
    assert_eq!(
        db.lookup_report("target-a", "baseline-b"),
        Some((id, ReportStatus::Pending))
    );
    assert_eq!(db.lookup_report("target-a", "other"), None);
    assert_eq!(db.lookup_report("other", "baseline-b"), None);
}

#[test]
fn ids_are_assigned_in_order() {
    let mut db = fresh_db(1);
    assert_eq!(db.initialize_report("a", "b", 1), 1);
    assert_eq!(db.initialize_report("c", "d", 2), 2);
    assert_eq!(db.initialize_report("e", "f", 3), 3);
}

#[test]
fn update_then_listing_shows_result() {
    let mut db = fresh_db(1);
    let id = db.initialize_report("A", "B", 100);
    assert_eq!(id, 1);
    assert_eq!(db.get_report_status(id), Some(ReportStatus::Pending));
    db.update_report(1, 3, &ReportStatus::Completed, 4096, 200);
    assert_eq!(db.get_report_status(1), Some(ReportStatus::Completed));
    let rows = db.get_reports();
    assert_eq!(rows.len(), 1);
    assert_eq!(rows[0].id, 1);
    assert_eq!(rows[0].anomaly_count, 3);
    assert_eq!(rows[0].status, ReportStatus::Completed);
    assert_eq!(rows[0].bytes_size, 4096);
    assert_eq!(rows[0].target, "A");
    assert_eq!(rows[0].baseline, "B");
    assert_eq!(rows[0].created_at, 100);
    assert_eq!(rows[0].updated_at, 200);
}

#[test]
fn update_unknown_id_is_silent_noop() {
    let mut db = fresh_db(1);
    let id = db.initialize_report("a", "b", 10);
    db.update_report(999, 7, &ReportStatus::Completed, 1, 20);
    assert_eq!(db.get_report_status(id), Some(ReportStatus::Pending));
    assert_eq!(db.get_report_status(999), None);
}

#[test]
fn terminal_report_is_immutable() {
    let mut db = fresh_db(1);
    let id = db.initialize_report("a", "b", 10);
    db.update_report(id, 2, &ReportStatus::Error, 64, 20);
    assert_eq!(db.get_report_status(id), Some(ReportStatus::Error));
    db.update_report(id, 9, &ReportStatus::Completed, 128, 30);
    let rows = db.get_reports();
    assert_eq!(rows.len(), 1);
    assert_eq!(rows[0].status, ReportStatus::Error);
    assert_eq!(rows[0].anomaly_count, 2);
    assert_eq!(rows[0].bytes_size, 64);
    assert_eq!(rows[0].updated_at, 20);
}

#[test]
fn listing_is_newest_first() {
    let mut db = fresh_db(1);
    db.initialize_report("a", "b", 1);
    db.initialize_report("c", "d", 2);
    db.initialize_report("e", "f", 3);
    let rows = db.get_reports();
    assert_eq!(rows.len(), 3);
    assert_eq!(rows[0].id, 3);
    assert_eq!(rows[1].id, 2);
    assert_eq!(rows[2].id, 1);
}

#[test]
fn lookup_report_prefers_latest_duplicate() {
    let mut db = fresh_db(1);
    let first = db.initialize_report("a", "b", 1);
    let second = db.initialize_report("a", "b", 2);
    assert!(second > first);
    db.update_report(second, 1, &ReportStatus::Completed, 10, 3);
    assert_eq!(
        db.lookup_report("a", "b"),
        Some((second, ReportStatus::Completed))
    );
}

#[test]
fn empty_store_observers() {
    let db = fresh_db(1);
    assert_eq!(db.get_report_status(1), None);
    assert_eq!(db.lookup_report("a", "b"), None);
    assert!(db.get_reports().is_empty());
    assert!(db.get_models().is_empty());
    assert!(!db.lookup_model("cid"));
}

#[test]
fn status_codec_round_trips() {
    for st in [
        ReportStatus::Pending,
        ReportStatus::Completed,
        ReportStatus::Error,
    ] {
        assert_eq!(parse_status(st.as_str()), Some(st));
    }
    assert_eq!(ReportStatus::Pending.as_str(), "pending");
    assert_eq!(ReportStatus::Completed.as_str(), "completed");
    assert_eq!(ReportStatus::Error.as_str(), "error");
    assert_eq!(parse_status("running"), None);
    assert_eq!(parse_status(""), None);
}

#[test]
fn pending_rows_are_purged_at_construction() {
    let rows = vec![
        ReportRow {
            id: 1,
            created_at: 10,
            updated_at: 11,
            target: "a".to_string(),
            baseline: "b".to_string(),
            anomaly_count: 4,
            status: ReportStatus::Completed,
            bytes_size: 100,
        },
        ReportRow {
            id: 2,
            created_at: 12,
            updated_at: 12,
            target: "c".to_string(),
            baseline: "d".to_string(),
            anomaly_count: 0,
            status: ReportStatus::Pending,
            bytes_size: 0,
        },
        ReportRow {
            id: 3,
            created_at: 13,
            updated_at: 14,
            target: "e".to_string(),
            baseline: "f".to_string(),
            anomaly_count: 1,
            status: ReportStatus::Error,
            bytes_size: 7,
        },
    ];
    let (db, stale) = Db::new(rows, Vec::new(), 1);
    assert!(stale.is_empty());
    assert_eq!(db.get_report_status(2), None);
    assert_eq!(db.get_report_status(1), Some(ReportStatus::Completed));
    assert_eq!(db.get_report_status(3), Some(ReportStatus::Error));
    let listing = db.get_reports();
    assert_eq!(listing.len(), 2);
    assert_eq!(listing[0].id, 3);
    assert_eq!(listing[1].id, 1);
    assert_eq!(db.lookup_report("c", "d"), None);
}

#[test]
fn next_id_continues_past_survivors() {
    let rows = vec![ReportRow {
        id: 7,
        created_at: 10,
        updated_at: 11,
        target: "a".to_string(),
        baseline: "b".to_string(),
        anomaly_count: 4,
        status: ReportStatus::Completed,
        bytes_size: 100,
    }];
    let (mut db, _) = Db::new(rows, Vec::new(), 1);
    assert_eq!(db.initialize_report("x", "y", 20), 8);
}
