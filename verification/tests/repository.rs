use uuid::Uuid;

use lifeos::changelog::{create_event, ChangeLog, OperationType};
use lifeos::clock::Timestamp;
use lifeos::errors::{DatabaseError, RepositoryError};
use lifeos::models::{Entry, SyncState};
use lifeos::repository::Repository;

fn at(seconds: i64) -> Timestamp {
    Timestamp { seconds, nanos: 0 }
}

fn entry(id: u128, version: i64, title: &str, updated: i64) -> Entry {
    Entry {
        id,
        version,
        device_id: 77,
        title: title.to_string(),
        content: format!("content of {}", title),
        created_at: at(1),
        updated_at: at(updated),
    }
}

fn change(operation_id: u128, entity_id: u128, operation: OperationType) -> ChangeLog {
    ChangeLog { sequence: 0, operation_id, device_id: 77, entity_id, operation, timestamp: at(5) }
}

fn text(id: u128) -> String {
    Uuid::from_u128(id).to_string()
}

#[test]
fn create_entry_refuses_a_stored_id() {
    let mut repo = Repository::new();
    repo.create_entry(&entry(1, 1, "a", 1)).unwrap();
    let again = repo.create_entry(&entry(1, 2, "b", 2));
    assert_eq!(again, Err(RepositoryError::Database(DatabaseError::ConstraintViolation)));
    let stored = repo.get_entry(&text(1)).unwrap();
    assert_eq!(stored.title, "a");
    assert_eq!(stored.version, 1);
}

#[test]
fn save_change_numbers_events_from_one() {
    let mut repo = Repository::new();
    let mut first = change(10, 1, OperationType::Create);
    first.sequence = 99;
    repo.save_change(&first).unwrap();
    repo.save_change(&change(11, 1, OperationType::Update)).unwrap();
    repo.save_change(&change(12, 1, OperationType::Delete)).unwrap();
    let logs = repo.get_changes().unwrap();
    let sequences: Vec<i64> = logs.iter().map(|c| c.sequence).collect();
    assert_eq!(sequences, vec![1, 2, 3]);
    assert_eq!(logs[0].operation_id, 10);
    assert_eq!(logs[2].operation, OperationType::Delete);
    assert_eq!(repo.last_sequence(), 3);
}

#[test]
fn save_change_refuses_a_logged_operation_id() {
    let mut repo = Repository::new();
    repo.save_change(&change(10, 1, OperationType::Create)).unwrap();
    let again = repo.save_change(&change(10, 2, OperationType::Update));
    assert_eq!(again, Err(RepositoryError::Database(DatabaseError::ConstraintViolation)));
    assert_eq!(repo.get_changes().unwrap().len(), 1);
    assert_eq!(repo.operation_exists(10), Ok(true));
    assert_eq!(repo.operation_exists(11), Ok(false));
}

#[test]
fn save_change_fails_when_sequence_numbers_run_out() {
    let mut repo = Repository::from_rows(vec![], vec![], vec![], i64::MAX).unwrap();
    let r = repo.save_change(&change(10, 1, OperationType::Create));
    assert_eq!(r, Err(RepositoryError::Database(DatabaseError::SequenceExhausted)));
    assert_eq!(repo.get_changes().unwrap().len(), 0);
}

#[test]
fn get_changes_after_returns_only_later_events() {
    let mut repo = Repository::new();
    for op in 10..13u128 {
        repo.save_change(&change(op, 1, OperationType::Update)).unwrap();
    }
    assert_eq!(repo.get_changes_after(0).unwrap().len(), 3);
    let after_two = repo.get_changes_after(2).unwrap();
    assert_eq!(after_two.len(), 1);
    assert_eq!(after_two[0].sequence, 3);
    assert_eq!(after_two[0].operation_id, 12);
    assert!(repo.get_changes_after(3).unwrap().is_empty());
    assert_eq!(repo.get_changes_after(-5).unwrap().len(), 3);
}

#[test]
fn get_entry_matches_the_hyphenated_lowercase_text() {
    let id = 0x67e5504410b1426f9247bb680e5fe0c8u128;
    let mut repo = Repository::new();
    repo.create_entry(&entry(id, 1, "a", 1)).unwrap();
    let found = repo.get_entry("67e55044-10b1-426f-9247-bb680e5fe0c8").unwrap();
    assert_eq!(found.id, id);
    assert_eq!(
        repo.get_entry("67E55044-10B1-426F-9247-BB680E5FE0C8").err(),
        Some(RepositoryError::EntryNotFound)
    );
    assert_eq!(
        repo.get_entry("67e5504410b1426f9247bb680e5fe0c8").err(),
        Some(RepositoryError::EntryNotFound)
    );
}

#[test]
fn update_entry_bumps_the_version_and_logs_it() {
    let mut repo = Repository::new();
    repo.create_entry(&entry(1, 3, "a", 1)).unwrap();
    let mut edited = entry(1, 3, "b", 1);
    repo.update_entry(&mut edited, 9).unwrap();
    assert_eq!(edited.version, 4);
    let stored = repo.get_entry(&text(1)).unwrap();
    assert_eq!(stored.version, 4);
    assert_eq!(stored.title, "b");
    assert_eq!(stored.updated_at, edited.updated_at);
    assert_eq!(stored.created_at, at(1));
    let logs = repo.get_changes().unwrap();
    assert_eq!(logs.len(), 1);
    assert_eq!(logs[0].operation, OperationType::Update);
    assert_eq!(logs[0].device_id, 9);
    assert_eq!(logs[0].entity_id, 1);
}

#[test]
fn update_entry_of_an_unknown_id_still_logs() {
    let mut repo = Repository::new();
    let mut ghost_entry = entry(5, 1, "x", 1);
    repo.update_entry(&mut ghost_entry, 9).unwrap();
    assert!(repo.get_entry(&text(5)).is_err());
    assert_eq!(repo.get_changes().unwrap().len(), 1);
}

#[test]
fn delete_entry_removes_and_logs() {
    let mut repo = Repository::new();
    repo.create_entry(&entry(1, 1, "a", 1)).unwrap();
    repo.create_entry(&entry(2, 1, "b", 1)).unwrap();
    repo.delete_entry(1, 9).unwrap();
    assert!(repo.get_entry(&text(1)).is_err());
    assert!(repo.get_entry(&text(2)).is_ok());
    let logs = repo.get_changes().unwrap();
    assert_eq!(logs.len(), 1);
    assert_eq!(logs[0].operation, OperationType::Delete);
    assert_eq!(logs[0].entity_id, 1);
}

#[test]
fn get_all_entries_lists_newest_first() {
    let mut repo = Repository::new();
    repo.create_entry(&entry(1, 1, "old", 10)).unwrap();
    repo.create_entry(&entry(2, 1, "new", 30)).unwrap();
    repo.create_entry(&entry(3, 1, "mid", 20)).unwrap();
    let all = repo.get_all_entries().unwrap();
    let titles: Vec<&str> = all.iter().map(|e| e.title.as_str()).collect();
    assert_eq!(titles, vec!["new", "mid", "old"]);
}

#[test]
fn get_all_entries_orders_by_nanoseconds_within_a_second() {
    let mut repo = Repository::new();
    let mut a = entry(1, 1, "a", 10);
    a.updated_at = Timestamp { seconds: 10, nanos: 5 };
    let mut b = entry(2, 1, "b", 10);
    b.updated_at = Timestamp { seconds: 10, nanos: 500 };
    repo.create_entry(&a).unwrap();
    repo.create_entry(&b).unwrap();
    let all = repo.get_all_entries().unwrap();
    assert_eq!(all[0].title, "b");
    assert_eq!(all[1].title, "a");
}

#[test]
fn sync_state_is_saved_and_replaced() {
    let mut repo = Repository::new();
    assert_eq!(repo.get_sync_state(1), Ok(None));
    let first = SyncState { device_id: 1, last_seen_operation: None, last_seen_sequence: 0 };
    let other = SyncState { device_id: 2, last_seen_operation: Some(40), last_seen_sequence: 7 };
    repo.save_sync_state(&first).unwrap();
    repo.save_sync_state(&other).unwrap();
    assert_eq!(repo.get_sync_state(1), Ok(Some(first)));
    let replaced = SyncState { device_id: 1, last_seen_operation: Some(41), last_seen_sequence: 999 };
    repo.save_sync_state(&replaced).unwrap();
    assert_eq!(repo.get_sync_state(1), Ok(Some(replaced)));
    assert_eq!(repo.get_sync_state(2), Ok(Some(other)));
    assert_eq!(repo.sync_state_rows().len(), 2);
}

#[test]
fn apply_remote_create_is_all_or_nothing() {
    let mut repo = Repository::new();
    repo.save_change(&change(10, 1, OperationType::Create)).unwrap();
    let r = repo.apply_remote_create(&entry(2, 1, "b", 1), &change(10, 2, OperationType::Create));
    assert_eq!(r, Err(RepositoryError::Database(DatabaseError::ConstraintViolation)));
    assert!(repo.get_entry(&text(2)).is_err());
    repo.apply_remote_create(&entry(2, 1, "b", 1), &change(11, 2, OperationType::Create)).unwrap();
    assert!(repo.get_entry(&text(2)).is_ok());
    assert_eq!(repo.get_changes().unwrap().len(), 2);
    let dup = repo.apply_remote_create(&entry(2, 1, "c", 1), &change(12, 2, OperationType::Create));
    assert_eq!(dup, Err(RepositoryError::Database(DatabaseError::ConstraintViolation)));
    assert_eq!(repo.get_changes().unwrap().len(), 2);
}

#[test]
fn apply_remote_update_refuses_an_older_version_of_a_stored_entry() {
    let mut repo = Repository::new();
    let missing = repo.apply_remote_update(&entry(1, 2, "a", 1), &change(10, 1, OperationType::Update));
    assert_eq!(missing, Err(RepositoryError::EntryNotFound));
    repo.create_entry(&entry(1, 2, "a", 1)).unwrap();
    let older = repo.apply_remote_update(&entry(1, 1, "b", 2), &change(10, 1, OperationType::Update));
    assert_eq!(older, Err(RepositoryError::VersionConflict));
    assert_eq!(repo.get_changes().unwrap().len(), 0);
    assert_eq!(repo.get_entry(&text(1)).unwrap().title, "a");
    repo.apply_remote_update(&entry(1, 2, "same", 2), &change(11, 1, OperationType::Update)).unwrap();
    assert_eq!(repo.get_entry(&text(1)).unwrap().title, "same");
    let mut newer = entry(1, 3, "c", 3);
    newer.device_id = 1234;
    newer.created_at = at(100);
    repo.apply_remote_update(&newer, &change(12, 1, OperationType::Update)).unwrap();
    let stored = repo.get_entry(&text(1)).unwrap();
    assert_eq!(stored.version, 3);
    assert_eq!(stored.title, "c");
    assert_eq!(stored.content, "content of c");
    assert_eq!(stored.updated_at, at(3));
    assert_eq!(stored.device_id, 77);
    assert_eq!(stored.created_at, at(1));
    assert_eq!(repo.get_changes().unwrap().len(), 2);
}

#[test]
fn apply_remote_delete_of_a_missing_entry_logs_nothing() {
    let mut repo = Repository::new();
    let r = repo.apply_remote_delete(&change(10, 1, OperationType::Delete));
    assert_eq!(r, Err(RepositoryError::EntryNotFound));
    assert!(repo.get_changes().unwrap().is_empty());
}

#[test]
fn entries_for_changes_lists_each_live_entry_once() {
    let mut repo = Repository::new();
    repo.create_entry(&entry(1, 1, "a", 1)).unwrap();
    repo.create_entry(&entry(2, 1, "b", 1)).unwrap();
    let changes = vec![
        change(10, 2, OperationType::Create),
        change(11, 3, OperationType::Delete),
        change(12, 2, OperationType::Update),
        change(13, 1, OperationType::Update),
    ];
    let entries = repo.get_entries_for_changes(&changes).unwrap();
    let ids: Vec<u128> = entries.iter().map(|e| e.id).collect();
    assert_eq!(ids, vec![2, 1]);
}

#[test]
fn from_rows_checks_keys_and_ordering() {
    let good = Repository::from_rows(
        vec![entry(1, 1, "a", 1)],
        vec![
            ChangeLog { sequence: 1, ..change(10, 1, OperationType::Create) },
            ChangeLog { sequence: 4, ..change(11, 1, OperationType::Update) },
        ],
        vec![SyncState { device_id: 1, last_seen_operation: None, last_seen_sequence: 0 }],
        4,
    );
    assert!(good.is_some());
    let mut good = good.unwrap();
    good.save_change(&change(12, 1, OperationType::Update)).unwrap();
    assert_eq!(good.get_changes().unwrap()[2].sequence, 5);

    let duplicate_entry =
        Repository::from_rows(vec![entry(1, 1, "a", 1), entry(1, 2, "b", 1)], vec![], vec![], 0);
    assert!(duplicate_entry.is_none());
    let unordered = Repository::from_rows(
        vec![],
        vec![
            ChangeLog { sequence: 2, ..change(10, 1, OperationType::Create) },
            ChangeLog { sequence: 1, ..change(11, 1, OperationType::Update) },
        ],
        vec![],
        2,
    );
    assert!(unordered.is_none());
    let beyond_last = Repository::from_rows(
        vec![],
        vec![ChangeLog { sequence: 3, ..change(10, 1, OperationType::Create) }],
        vec![],
        2,
    );
    assert!(beyond_last.is_none());
    let same_device = Repository::from_rows(
        vec![],
        vec![],
        vec![
            SyncState { device_id: 1, last_seen_operation: None, last_seen_sequence: 0 },
            SyncState { device_id: 1, last_seen_operation: None, last_seen_sequence: 1 },
        ],
        0,
    );
    assert!(same_device.is_none());
}

#[test]
fn create_event_is_unsequenced_and_fresh() {
    let a = create_event(1, 2, OperationType::Create);
    let b = create_event(1, 2, OperationType::Create);
    assert_eq!(a.sequence, 0);
    assert_eq!(a.device_id, 1);
    assert_eq!(a.entity_id, 2);
    assert_eq!(a.operation, OperationType::Create);
    assert_ne!(a.operation_id, b.operation_id);
    assert!(a.timestamp.nanos < 1_000_000_000);
}

#[test]
fn create_entry_with_log_records_a_create() {
    let mut repo = Repository::new();
    repo.create_entry_with_log(&entry(1, 1, "a", 1), 9).unwrap();
    let logs = repo.get_changes().unwrap();
    assert_eq!(logs.len(), 1);
    assert_eq!(logs[0].sequence, 1);
    assert_eq!(logs[0].operation, OperationType::Create);
    assert_eq!(logs[0].device_id, 9);
    let again = repo.create_entry_with_log(&entry(1, 1, "a", 1), 9);
    assert!(again.is_err());
    assert_eq!(repo.get_changes().unwrap().len(), 1);
}

#[test]
fn a_refused_statement_converts_to_a_repository_error() {
    let e: RepositoryError = DatabaseError::SequenceExhausted.into();
    assert_eq!(e, RepositoryError::Database(DatabaseError::SequenceExhausted));
}

#[test]
fn logged_events_carry_a_version_4_operation_id() {
    let mut repo = Repository::new();
    repo.create_entry_with_log(&entry(1, 1, "a", 1), 9).unwrap();
    let id = repo.get_changes().unwrap()[0].operation_id;
    assert_eq!(
        id & 0x0000_0000_0000_f000_c000_0000_0000_0000u128,
        0x0000_0000_0000_4000_8000_0000_0000_0000u128
    );
    let e = create_event(1, 2, OperationType::Update);
    assert_ne!(e.operation_id, 0);
    assert!(e.timestamp.seconds >= 0);
}
