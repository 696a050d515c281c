use chrono::Utc;
use uuid::Uuid;

use lifeos::api::PushRequest;
use lifeos::changelog::{ChangeLog, OperationType};
use lifeos::clock::Timestamp;
use lifeos::error::SyncError;
use lifeos::models::Entry;
use lifeos::processor::Processor;
use lifeos::repository::Repository;

fn now() -> Timestamp {
    let n = Utc::now();
    Timestamp { seconds: n.timestamp(), nanos: n.timestamp_subsec_nanos() }
}

fn new_id() -> u128 {
    Uuid::new_v4().as_u128()
}

fn text(id: u128) -> String {
    Uuid::from_u128(id).to_string()
}

fn create_test_repository() -> Repository {
    Repository::new()
}

#[test]
fn test_remote_update_success() {
    let mut repository = create_test_repository();
    let processor = Processor::new();

    let device_id = new_id();
    let entity_id = new_id();

    let original = Entry {
        id: entity_id,
        version: 1,
        device_id,
        title: "Original".to_string(),
        content: "Version 1".to_string(),
        created_at: now(),
        updated_at: now(),
    };

    repository.create_entry(&original).unwrap();

    let updated = Entry {
        id: entity_id,
        version: 2,
        device_id,
        title: "Updated".to_string(),
        content: "Version 2".to_string(),
        created_at: original.created_at,
        updated_at: now(),
    };

    let change = ChangeLog {
        sequence: 0,
        operation_id: new_id(),
        device_id,
        entity_id,
        operation: OperationType::Update,
        timestamp: now(),
    };

    let request = PushRequest { device_id, changes: vec![change], entries: vec![updated] };

    processor.process_push(&mut repository, &request).unwrap();

    let result = repository.get_entry(&text(entity_id)).unwrap();

    assert_eq!(result.title, "Updated");
    assert_eq!(result.version, 2);

    let logs = repository.get_changes().unwrap();

    assert_eq!(logs.len(), 1);
    assert_eq!(logs[0].operation, OperationType::Update);
}

#[test]
fn test_update_version_conflict() {
    let mut repository = create_test_repository();
    let processor = Processor::new();

    let device_id = new_id();
    let entity_id = new_id();

    // Existing entry in database
    let original = Entry {
        id: entity_id,
        version: 5,
        device_id,
        title: "Current".to_string(),
        content: "Database Version".to_string(),
        created_at: now(),
        updated_at: now(),
    };

    repository.create_entry(&original).unwrap();

    // Incoming stale update
    let stale = Entry {
        id: entity_id,
        version: 4,
        device_id,
        title: "Old Update".to_string(),
        content: "Should Not Win".to_string(),
        created_at: original.created_at,
        updated_at: now(),
    };

    let change = ChangeLog {
        sequence: 0,
        operation_id: new_id(),
        device_id,
        entity_id,
        operation: OperationType::Update,
        timestamp: now(),
    };

    let request = PushRequest { device_id, changes: vec![change], entries: vec![stale] };

    // Should fail
    let result = processor.process_push(&mut repository, &request);

    assert!(matches!(result, Err(SyncError::ConflictDetected)));

    // Database should be unchanged
    let current = repository.get_entry(&text(entity_id)).unwrap();

    assert_eq!(current.version, 5);
    assert_eq!(current.title, "Current");
    assert_eq!(current.content, "Database Version");

    // No changelog should be added
    let logs = repository.get_changes().unwrap();

    assert_eq!(logs.len(), 0);
}

#[test]
fn test_remote_delete_success() {
    let mut repository = create_test_repository();
    let processor = Processor::new();

    let device_id = new_id();
    let entity_id = new_id();

    // Insert entry into database
    let entry = Entry {
        id: entity_id,
        version: 1,
        device_id,
        title: "Delete Me".to_string(),
        content: "Temporary".to_string(),
        created_at: now(),
        updated_at: now(),
    };

    repository.create_entry(&entry).unwrap();

    // Create DELETE change
    let change = ChangeLog {
        sequence: 0,
        operation_id: new_id(),
        device_id,
        entity_id,
        operation: OperationType::Delete,
        timestamp: now(),
    };

    let request = PushRequest { device_id, changes: vec![change], entries: vec![] };

    // Execute DELETE
    processor.process_push(&mut repository, &request).unwrap();

    // Verify entry no longer exists
    let result = repository.get_entry(&text(entity_id));

    assert!(result.is_err());

    // Verify changelog recorded
    let logs = repository.get_changes().unwrap();

    assert_eq!(logs.len(), 1);
    assert_eq!(logs[0].operation, OperationType::Delete);
    assert_eq!(logs[0].entity_id, entity_id);
}
