use uuid::Uuid;

use lifeos::api::{PullRequest, PushRequest, PushResponse};
use lifeos::changelog::{ChangeLog, OperationType};
use lifeos::clock::Timestamp;
use lifeos::error::SyncError;
use lifeos::models::Entry;
use lifeos::processor::Processor;
use lifeos::pull_processor::PullProcessor;
use lifeos::repository::Repository;
use lifeos::sync_engine::SyncEngine;
use lifeos::validator::Validator;

fn at(seconds: i64) -> Timestamp {
    Timestamp { seconds, nanos: 0 }
}

fn entry(id: u128, version: i64, title: &str) -> Entry {
    Entry {
        id,
        version,
        device_id: 77,
        title: title.to_string(),
        content: String::new(),
        created_at: at(1),
        updated_at: at(2),
    }
}

fn change(operation_id: u128, entity_id: u128, operation: OperationType) -> ChangeLog {
    ChangeLog { sequence: 0, operation_id, device_id: 77, entity_id, operation, timestamp: at(5) }
}

fn text(id: u128) -> String {
    Uuid::from_u128(id).to_string()
}

#[test]
fn validator_refuses_the_nil_device() {
    let nil = PushRequest { device_id: 0, entries: vec![], changes: vec![] };
    assert!(matches!(Validator::validate_push(&nil), Err(SyncError::InvalidDeviceId)));
    let named = PushRequest { device_id: 1, entries: vec![], changes: vec![] };
    assert!(Validator::validate_push(&named).is_ok());
}

#[test]
fn engine_refuses_a_push_from_the_nil_device_and_applies_nothing() {
    let mut engine = SyncEngine::new(Repository::new());
    let request = PushRequest {
        device_id: 0,
        entries: vec![entry(1, 1, "a")],
        changes: vec![change(10, 1, OperationType::Create)],
    };
    assert!(matches!(engine.apply_push(request), Err(SyncError::InvalidDeviceId)));
    assert!(engine.repository().get_changes().unwrap().is_empty());
}

#[test]
fn engine_answers_success_and_pull_sees_the_push() {
    let mut engine = SyncEngine::new(Repository::new());
    let request = PushRequest {
        device_id: 5,
        entries: vec![entry(1, 1, "a"), entry(2, 1, "b")],
        changes: vec![change(10, 1, OperationType::Create), change(11, 2, OperationType::Create)],
    };
    let answer = engine.apply_push(request).unwrap();
    assert_eq!(answer, PushResponse { success: true, latest_sequence: 0 });
    let pulled = engine.process_pull(PullRequest { device_id: 6, last_seen_sequence: 0 }).unwrap();
    assert_eq!(pulled.changes.len(), 2);
    assert_eq!(pulled.entries.len(), 2);
    assert_eq!(pulled.latest_sequence, 2);
    let nothing = engine.process_pull(PullRequest { device_id: 6, last_seen_sequence: 2 }).unwrap();
    assert!(nothing.changes.is_empty());
    assert!(nothing.entries.is_empty());
    assert_eq!(nothing.latest_sequence, 2);
}

#[test]
fn create_without_its_entry_is_a_validation_error() {
    let mut repo = Repository::new();
    let id = 0x0123456789abcdef0123456789abcdefu128;
    let request = PushRequest {
        device_id: 5,
        entries: vec![],
        changes: vec![change(10, id, OperationType::Create)],
    };
    match Processor::new().process_push(&mut repo, &request) {
        Err(SyncError::ValidationError(message)) => {
            assert_eq!(message, "Entry 01234567-89ab-cdef-0123-456789abcdef not found")
        }
        other => panic!("unexpected {:?}", other),
    }
    assert!(repo.get_changes().unwrap().is_empty());
}

#[test]
fn update_of_an_unknown_entry_is_a_validation_error() {
    let mut repo = Repository::new();
    let request = PushRequest {
        device_id: 5,
        entries: vec![entry(3, 2, "x")],
        changes: vec![change(10, 3, OperationType::Update)],
    };
    match Processor::new().process_push(&mut repo, &request) {
        Err(SyncError::ValidationError(message)) => {
            assert_eq!(message, format!("Entry {} does not exist", text(3)))
        }
        other => panic!("unexpected {:?}", other),
    }
}

#[test]
fn create_of_a_stored_id_is_a_repository_error() {
    let mut repo = Repository::new();
    repo.create_entry(&entry(1, 1, "a")).unwrap();
    let request = PushRequest {
        device_id: 5,
        entries: vec![entry(1, 1, "b")],
        changes: vec![change(10, 1, OperationType::Create)],
    };
    assert!(matches!(
        Processor::new().process_push(&mut repo, &request),
        Err(SyncError::RepositoryError)
    ));
    assert!(repo.get_changes().unwrap().is_empty());
}

#[test]
fn delete_of_a_missing_entry_counts_as_done() {
    let mut repo = Repository::new();
    let request = PushRequest {
        device_id: 5,
        entries: vec![],
        changes: vec![change(10, 1, OperationType::Delete)],
    };
    assert!(Processor::new().process_push(&mut repo, &request).is_ok());
    assert!(repo.get_changes().unwrap().is_empty());
}

#[test]
fn push_stops_at_the_first_failure_and_keeps_what_came_before() {
    let mut repo = Repository::new();
    let request = PushRequest {
        device_id: 5,
        entries: vec![entry(1, 1, "a"), entry(3, 1, "c")],
        changes: vec![
            change(10, 1, OperationType::Create),
            change(11, 2, OperationType::Create),
            change(12, 3, OperationType::Create),
        ],
    };
    let r = Processor::new().process_push(&mut repo, &request);
    assert!(matches!(r, Err(SyncError::ValidationError(_))));
    assert!(repo.get_entry(&text(1)).is_ok());
    assert!(repo.get_entry(&text(3)).is_err());
    assert_eq!(repo.get_changes().unwrap().len(), 1);
}

#[test]
fn the_first_entry_with_the_id_is_applied() {
    let mut repo = Repository::new();
    let request = PushRequest {
        device_id: 5,
        entries: vec![entry(1, 1, "first"), entry(1, 1, "second")],
        changes: vec![change(10, 1, OperationType::Create)],
    };
    Processor::new().process_push(&mut repo, &request).unwrap();
    assert_eq!(repo.get_entry(&text(1)).unwrap().title, "first");
}

#[test]
fn replaying_a_push_changes_nothing() {
    let mut repo = Repository::new();
    let request = PushRequest {
        device_id: 5,
        entries: vec![entry(1, 1, "a"), entry(1, 2, "a2")],
        changes: vec![change(10, 1, OperationType::Create)],
    };
    Processor::new().process_push(&mut repo, &request).unwrap();
    let update = PushRequest {
        device_id: 5,
        entries: vec![entry(1, 2, "a2")],
        changes: vec![change(11, 1, OperationType::Update)],
    };
    Processor::new().process_push(&mut repo, &update).unwrap();
    Processor::new().process_push(&mut repo, &request).unwrap();
    Processor::new().process_push(&mut repo, &update).unwrap();
    let logs = repo.get_changes().unwrap();
    assert_eq!(logs.len(), 2);
    let stored = repo.get_entry(&text(1)).unwrap();
    assert_eq!(stored.version, 2);
    assert_eq!(stored.title, "a2");
}

#[test]
fn pull_of_a_deleted_entry_carries_the_event_but_no_entry() {
    let mut repo = Repository::new();
    repo.create_entry_with_log(&entry(1, 1, "a"), 5).unwrap();
    repo.delete_entry(1, 5).unwrap();
    let pulled = PullProcessor::new()
        .process_pull(&repo, &PullRequest { device_id: 6, last_seen_sequence: 0 })
        .unwrap();
    assert_eq!(pulled.changes.len(), 2);
    assert_eq!(pulled.changes[1].operation, OperationType::Delete);
    assert!(pulled.entries.is_empty());
    assert_eq!(pulled.latest_sequence, 2);
}

#[test]
fn a_push_only_appends_to_the_log() {
    let mut repo = Repository::new();
    repo.create_entry_with_log(&entry(1, 1, "a"), 5).unwrap();
    let before = repo.get_changes().unwrap();
    let request = PushRequest {
        device_id: 5,
        entries: vec![entry(1, 2, "a2"), entry(2, 1, "b")],
        changes: vec![
            change(20, 1, OperationType::Update),
            change(21, 2, OperationType::Create),
            change(22, 1, OperationType::Delete),
        ],
    };
    Processor::new().process_push(&mut repo, &request).unwrap();
    let after = repo.get_changes().unwrap();
    assert_eq!(after.len(), 4);
    assert_eq!(&after[..1], &before[..]);
    let sequences: Vec<i64> = after.iter().map(|c| c.sequence).collect();
    assert_eq!(sequences, vec![1, 2, 3, 4]);
    assert_eq!(after[3].operation_id, 22);
}

#[test]
fn distinct_ids_read_differently() {
    let mut repo = Repository::new();
    repo.create_entry(&entry(1, 1, "one")).unwrap();
    repo.create_entry(&entry(1 << 64, 1, "big")).unwrap();
    assert_eq!(repo.get_entry(&text(1)).unwrap().title, "one");
    assert_eq!(repo.get_entry(&text(1 << 64)).unwrap().title, "big");
    assert_eq!(text(1), "00000000-0000-0000-0000-000000000001");
}

#[test]
fn a_pull_never_answers_an_earlier_sequence() {
    let repo = Repository::new();
    let pulled = PullProcessor::new()
        .process_pull(&repo, &PullRequest { device_id: 6, last_seen_sequence: 5 })
        .unwrap();
    assert!(pulled.changes.is_empty());
    assert_eq!(pulled.latest_sequence, 5);
}

#[test]
fn a_pushed_create_is_logged_once() {
    let mut repo = Repository::new();
    let request = PushRequest {
        device_id: 5,
        entries: vec![entry(1, 1, "a")],
        changes: vec![change(10, 1, OperationType::Create), change(10, 1, OperationType::Create)],
    };
    Processor::new().process_push(&mut repo, &request).unwrap();
    let logs = repo.get_changes().unwrap();
    assert_eq!(logs.iter().filter(|c| c.operation_id == 10).count(), 1);
}

#[test]
fn replaying_an_unlogged_delete_before_its_create_removes_the_entry() {
    let mut repo = Repository::new();
    let request = PushRequest {
        device_id: 5,
        entries: vec![entry(1, 1, "a")],
        changes: vec![change(10, 1, OperationType::Delete), change(11, 1, OperationType::Create)],
    };
    Processor::new().process_push(&mut repo, &request).unwrap();
    assert!(repo.get_entry(&text(1)).is_ok());
    assert_eq!(repo.get_changes().unwrap().len(), 1);
    Processor::new().process_push(&mut repo, &request).unwrap();
    assert!(repo.get_entry(&text(1)).is_err());
    assert_eq!(repo.get_changes().unwrap().len(), 2);
}

#[test]
fn an_update_of_the_same_version_is_applied() {
    let mut repo = Repository::new();
    repo.create_entry(&entry(1, 3, "a")).unwrap();
    let request = PushRequest {
        device_id: 5,
        entries: vec![entry(1, 3, "b")],
        changes: vec![change(10, 1, OperationType::Update)],
    };
    Processor::new().process_push(&mut repo, &request).unwrap();
    assert_eq!(repo.get_entry(&text(1)).unwrap().title, "b");
}
