//! The model cache index and its garbage collection.

use logjuicer_db::rows::ModelRow;
use logjuicer_db::status::ReportStatus;
use logjuicer_db::store::{Db, StoreError};

fn model(cid: &str, version: i64, created_at: i64, size: i64) -> ModelRow {
    ModelRow {
        content_id: cid.to_string(),
        version,
        created_at,
        bytes_size: size,
    }
}

#[test]
fn add_model_then_lookup() {
    let (mut db, _) = Db::new(Vec::new(), Vec::new(), 2);
    assert!(!db.lookup_model("cid-1"));
    assert_eq!(db.add_model("cid-1", 512, 100), Ok(()));
    assert!(db.lookup_model("cid-1"));
    assert!(!db.lookup_model("cid-2"));
}

#[test]
fn duplicate_add_model_fails() {
    let (mut db, _) = Db::new(Vec::new(), Vec::new(), 2);
    assert_eq!(db.add_model("cid-1", 512, 100), Ok(()));
    assert_eq!(db.add_model("cid-1", 512, 101), Err(StoreError::QueryFailed));
    assert_eq!(db.get_models().len(), 1);
}

#[test]
fn added_model_carries_current_version() {
    let (mut db, _) = Db::new(Vec::new(), Vec::new(), 5);
    db.add_model("cid-1", 512, 100).unwrap();
    let models = db.get_models();
    assert_eq!(models.len(), 1);
    assert_eq!(models[0].content_id, "cid-1");
    assert_eq!(models[0].version, 5);
    assert_eq!(models[0].created_at, 100);
    assert_eq!(models[0].bytes_size, 512);
}

#[test]
fn stale_models_are_purged_at_construction() {
    let rows = vec![
        model("old-1", 1, 10, 100),
        model("cur-1", 2, 11, 200),
        model("old-2", 1, 12, 300),
    ];
    let (db, stale) = Db::new(Vec::new(), rows, 2);
    assert_eq!(stale, vec!["old-1".to_string(), "old-2".to_string()]);
    assert!(!db.lookup_model("old-1"));
    assert!(!db.lookup_model("old-2"));
    assert!(db.lookup_model("cur-1"));
    let kept = db.get_models();
    assert_eq!(kept.len(), 1);
    assert_eq!(kept[0].content_id, "cur-1");
}

#[test]
fn version_bump_invalidates_cached_model() {
    // First run: the engine is at version 1 and caches a model.
    let (mut db, stale) = Db::new(Vec::new(), Vec::new(), 1);
    assert!(stale.is_empty());
    db.add_model("cid-1", 512, 100).unwrap();
    assert!(db.lookup_model("cid-1"));
    let persisted = db.get_models();

    // Restart with the engine's format version bumped to 2: the old
    // row is gone and its artifact is asked to be deleted exactly once.
    let (mut db, stale) = Db::new(Vec::new(), persisted, 2);
    assert_eq!(stale, vec!["cid-1".to_string()]);
    assert!(!db.lookup_model("cid-1"));

    // Re-adding under the new version is the expected, common path.
    assert_eq!(db.add_model("cid-1", 600, 200), Ok(()));
    assert!(db.lookup_model("cid-1"));
    assert_eq!(db.get_models()[0].version, 2);
}

#[test]
fn deprecate_then_clean_removes_everything() {
    let (mut db, _) = Db::new(Vec::new(), Vec::new(), 3);
    db.add_model("cid-1", 512, 100).unwrap();
    db.add_model("cid-2", 256, 101).unwrap();
    db.deprecate_models();
    let stale = db.test_clean_old_models();
    assert_eq!(stale, vec!["cid-1".to_string(), "cid-2".to_string()]);
    assert!(!db.lookup_model("cid-1"));
    assert!(!db.lookup_model("cid-2"));
    assert!(db.get_models().is_empty());
}

#[test]
fn clean_with_nothing_stale_is_a_silent_noop() {
    let (mut db, _) = Db::new(Vec::new(), Vec::new(), 3);
    db.add_model("cid-1", 512, 100).unwrap();
    let stale = db.test_clean_old_models();
    assert!(stale.is_empty());
    assert!(db.lookup_model("cid-1"));
}

#[test]
fn recovery_leaves_reports_and_models_independent() {
    let rows = vec![model("old-1", 1, 10, 100)];
    let (mut db, stale) = Db::new(Vec::new(), rows, 2);
    assert_eq!(stale.len(), 1);
    let id = db.initialize_report("a", "b", 50);
    assert_eq!(db.get_report_status(id), Some(ReportStatus::Pending));
    assert!(db.get_models().is_empty());
}

#[test]
fn store_error_descriptions() {
    assert_eq!(StoreError::StorageUnavailable.describe(), "storage unavailable");
    assert_eq!(StoreError::MigrationFailed.describe(), "migration failed");
    assert_eq!(StoreError::QueryFailed.describe(), "query failed");
}
