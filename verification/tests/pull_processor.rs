use chrono::Utc;
use uuid::Uuid;

use lifeos::api::PullRequest;
use lifeos::changelog::OperationType;
use lifeos::clock::Timestamp;
use lifeos::models::Entry;
use lifeos::pull_processor::PullProcessor;
use lifeos::repository::Repository;

fn now() -> Timestamp {
    let n = Utc::now();
    Timestamp { seconds: n.timestamp(), nanos: n.timestamp_subsec_nanos() }
}

fn create_test_repository() -> Repository {
    Repository::new()
}

#[test]
fn test_pull_returns_incremental_changes() {
    let mut repository = create_test_repository();
    let processor = PullProcessor::new();

    let device_id = Uuid::new_v4().as_u128();

    // Entry 1
    let entry1 = Entry {
        id: Uuid::new_v4().as_u128(),
        version: 1,
        device_id,
        title: "First".into(),
        content: "Hello".into(),
        created_at: now(),
        updated_at: now(),
    };

    repository.create_entry_with_log(&entry1, device_id).unwrap();

    // Entry 2
    let entry2 = Entry {
        id: Uuid::new_v4().as_u128(),
        version: 1,
        device_id,
        title: "Second".into(),
        content: "World".into(),
        created_at: now(),
        updated_at: now(),
    };

    repository.create_entry_with_log(&entry2, device_id).unwrap();

    // Pull after sequence 1
    let request = PullRequest { device_id, last_seen_sequence: 1 };

    let response = processor.process_pull(&repository, &request).unwrap();

    // Should only receive sequence 2
    assert_eq!(response.changes.len(), 1);
    assert_eq!(response.changes[0].sequence, 2);
    assert_eq!(response.changes[0].operation, OperationType::Create);

    // Only the second entry should be returned
    assert_eq!(response.entries.len(), 1);
    assert_eq!(response.entries[0].title, "Second");
    assert_eq!(response.latest_sequence, 2);
}
