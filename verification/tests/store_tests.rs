use homework_store::homework::Homework;
use homework_store::store::{MutationOutcome, Store, StoreError};

fn hw(id: Option<u64>, name: &str, code: &str, due: i64) -> Homework {
    Homework { id, name: name.to_string(), course_code: code.to_string(), due_date: due }
}

#[test]
fn scenario_a_create_lab1() {
    let mut s = Store::new();
    let r = s.create_or_update(hw(None, "Lab1", "COMP7082", 9999999999));
    assert_eq!(r, Ok(MutationOutcome::Created));
    let listed = s.list(0);
    assert_eq!(listed.len(), 1);
    assert!(listed[0].id.unwrap() >= 1);
    assert_eq!(listed[0].name, "Lab1");
    assert_eq!(listed[0].course_code, "COMP7082");
    assert_eq!(listed[0].due_date, 9999999999);
}

#[test]
fn scenario_b_invalid_code_rejected() {
    let mut s = Store::new();
    let r = s.create_or_update(hw(None, "Lab1", "BOGUS", 9999999999));
    assert_eq!(r, Err(StoreError::InvalidInput));
    let listed = s.list(0);
    assert!(listed.is_empty());
}

#[test]
fn scenario_c_deleted_id_not_reused() {
    let mut s = Store::new();
    assert_eq!(s.create_or_update(hw(None, "A", "COMP7035", 9999999999)), Ok(MutationOutcome::Created));
    assert_eq!(s.create_or_update(hw(None, "B", "COMP7035", 9999999999)), Ok(MutationOutcome::Created));
    assert_eq!(s.delete(1), Ok(MutationOutcome::Deleted));
    assert_eq!(s.create_or_update(hw(None, "C", "COMP7035", 9999999999)), Ok(MutationOutcome::Created));
    let ids: Vec<u64> = s.list(0).iter().map(|h| h.id.unwrap()).collect();
    assert_eq!(ids, vec![2, 3]);
}

#[test]
fn scenario_d_update_missing_id_not_found() {
    let mut s = Store::new();
    let r = s.create_or_update(hw(Some(5), "X", "COMP7071", 123));
    assert_eq!(r, Err(StoreError::NotFound));
    assert!(s.list(0).is_empty());
}

#[test]
fn update_replaces_all_fields_and_keeps_id() {
    let mut s = Store::new();
    assert_eq!(s.create_or_update(hw(None, "Old", "COMP7003", 100)), Ok(MutationOutcome::Created));
    let r = s.create_or_update(hw(Some(1), "New", "MATH7808", 9999999999));
    assert_eq!(r, Ok(MutationOutcome::Updated));
    let listed = s.list(0);
    assert_eq!(listed.len(), 1);
    assert_eq!(listed[0].id, Some(1));
    assert_eq!(listed[0].name, "New");
    assert_eq!(listed[0].course_code, "MATH7808");
    assert_eq!(listed[0].due_date, 9999999999);
}

#[test]
fn update_with_invalid_code_changes_nothing() {
    let mut s = Store::new();
    assert_eq!(s.create_or_update(hw(None, "Keep", "OTHER", 500)), Ok(MutationOutcome::Created));
    let before = s.list(0);
    assert_eq!(s.create_or_update(hw(Some(1), "New", "BOGUS", 1)), Err(StoreError::InvalidInput));
    let after = s.list(0);
    assert_eq!(before, after);
}

#[test]
fn delete_missing_fails_every_retry() {
    let mut s = Store::new();
    assert_eq!(s.delete(7), Err(StoreError::NotFound));
    assert_eq!(s.delete(7), Err(StoreError::NotFound));
    assert_eq!(s.delete(7), Err(StoreError::NotFound));
}

#[test]
fn delete_request_parsing() {
    let mut s = Store::new();
    assert_eq!(s.delete_request(None), Err(StoreError::InvalidInput));
    assert_eq!(s.delete_request(Some("abc")), Err(StoreError::InvalidInput));
    assert_eq!(s.delete_request(Some("")), Err(StoreError::InvalidInput));
    assert_eq!(s.delete_request(Some("-3")), Err(StoreError::InvalidInput));
    assert_eq!(s.delete_request(Some("9")), Err(StoreError::NotFound));
    assert_eq!(s.create_or_update(hw(None, "A", "OTHER", 10)), Ok(MutationOutcome::Created));
    assert_eq!(s.delete_request(Some("1")), Ok(MutationOutcome::Deleted));
    assert!(s.list(0).is_empty());
    assert_eq!(s.delete_request(Some("+2")), Err(StoreError::NotFound));
}

#[test]
fn expiry_boundary_on_list() {
    let t: i64 = 1_000_000;
    let mut s = Store::new();
    assert_eq!(s.create_or_update(hw(None, "past", "OTHER", t - 1)), Ok(MutationOutcome::Created));
    assert_eq!(s.create_or_update(hw(None, "exact", "OTHER", t)), Ok(MutationOutcome::Created));
    assert_eq!(s.create_or_update(hw(None, "future", "OTHER", t + 1)), Ok(MutationOutcome::Created));
    let listed = s.list(t);
    let names: Vec<String> = listed.iter().map(|h| h.name.clone()).collect();
    assert_eq!(names, vec!["exact".to_string(), "future".to_string()]);
}

#[test]
fn expiry_purge_is_destructive() {
    let t: i64 = 50;
    let mut s = Store::new();
    assert_eq!(s.create_or_update(hw(None, "old", "OTHER", t - 10)), Ok(MutationOutcome::Created));
    let first = s.list(t);
    assert!(first.is_empty());
    // the expired record is gone from the collection itself: listing
    // with an earlier reference time can no longer bring it back
    let second = s.list(0);
    assert!(second.is_empty());
}

#[test]
fn ids_unique_and_increasing_across_deletes() {
    let mut s = Store::new();
    let mut seen: Vec<u64> = Vec::new();
    for round in 0..5u64 {
        assert_eq!(
            s.create_or_update(hw(None, "r", "COMP7082", 9999999999)),
            Ok(MutationOutcome::Created)
        );
        let ids: Vec<u64> = s.list(0).iter().map(|h| h.id.unwrap()).collect();
        let newest = *ids.last().unwrap();
        for prior in &seen {
            assert!(newest > *prior);
        }
        seen.push(newest);
        if round % 2 == 0 {
            assert_eq!(s.delete(newest), Ok(MutationOutcome::Deleted));
        }
    }
    assert_eq!(seen, vec![1, 2, 3, 4, 5]);
}

#[test]
fn snapshot_round_trip_restores_collection_and_seeds_allocator() {
    let mut s = Store::new();
    assert_eq!(s.create_or_update(hw(None, "A", "COMP7082", 9999999999)), Ok(MutationOutcome::Created));
    assert_eq!(s.create_or_update(hw(None, "B", "COMP7035", 9999999999)), Ok(MutationOutcome::Created));
    assert_eq!(s.create_or_update(hw(None, "C", "OTHER", 9999999999)), Ok(MutationOutcome::Created));
    assert_eq!(s.delete(2), Ok(MutationOutcome::Deleted));
    let saved = s.list(0);
    let mut restored = Store::from_snapshot(saved.clone());
    assert_eq!(restored.list(0), saved);
    // allocator is seeded above the maximum stored id (3), not at the
    // deleted gap
    assert_eq!(
        restored.create_or_update(hw(None, "D", "OTHER", 9999999999)),
        Ok(MutationOutcome::Created)
    );
    let ids: Vec<u64> = restored.list(0).iter().map(|h| h.id.unwrap()).collect();
    assert_eq!(ids, vec![1, 3, 4]);
}

#[test]
fn snapshot_with_duplicate_ids_starts_empty() {
    let records = vec![hw(Some(1), "A", "OTHER", 10), hw(Some(1), "B", "OTHER", 10)];
    let mut s = Store::from_snapshot(records);
    assert!(s.list(0).is_empty());
    assert_eq!(s.create_or_update(hw(None, "C", "OTHER", 10)), Ok(MutationOutcome::Created));
    assert_eq!(s.list(0)[0].id, Some(1));
}

#[test]
fn snapshot_with_missing_id_starts_empty() {
    let records = vec![hw(None, "A", "OTHER", 10)];
    let mut s = Store::from_snapshot(records);
    assert!(s.list(0).is_empty());
}

#[test]
fn snapshot_empty_seeds_allocator_at_one() {
    let mut s = Store::from_snapshot(Vec::new());
    assert_eq!(s.create_or_update(hw(None, "A", "OTHER", 10)), Ok(MutationOutcome::Created));
    assert_eq!(s.list(0)[0].id, Some(1));
}
