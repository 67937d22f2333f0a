use chrono::Utc;
use uuid::Uuid;

use eventstore::aggregate::Aggregate;
use eventstore::client::{Client, ClientBuilder, ClientError, IssueError};
use eventstore::command::Command;
use eventstore::commit::{Commit, CommitAttempt};
use eventstore::dispatch::DispatchDelegate;
use eventstore::events::{EncodingError, Event, Metadata};
use eventstore::store::memory::MemoryStore;
use eventstore::store::{StorageCommitConflict, StoreError, StoreErrorType};

struct MockDispatcher {
    dispatched_id: Option<u128>,
}

impl DispatchDelegate for MockDispatcher {
    fn dispatch(&mut self, commit: &Commit) -> Result<(), String> {
        self.dispatched_id = Some(commit.commit_id);
        Ok(())
    }
}

#[derive(Debug)]
enum MockEvent {
    IncrementVersion,
}

impl Event for MockEvent {
    fn encode_all(events: &Vec<MockEvent>) -> Result<Vec<u8>, EncodingError> {
        let mut bytes = Vec::new();
        bytes.push(b'[');
        for (i, _event) in events.iter().enumerate() {
            if i > 0 {
                bytes.push(b',');
            }
            bytes.extend_from_slice(b"\"IncrementVersion\"");
        }
        bytes.push(b']');
        Ok(bytes)
    }

    fn decode_all(bytes: &Vec<u8>) -> Result<Vec<MockEvent>, EncodingError> {
        let doc: serde_json::Value =
            serde_json::from_slice(bytes.as_slice()).map_err(|_| EncodingError::Malformed)?;
        let entries = doc.as_array().ok_or(EncodingError::Malformed)?;
        Ok(entries.iter().map(|_| MockEvent::IncrementVersion).collect())
    }
}

#[derive(Clone)]
struct MockAggregate {
    id: u128,
    version: i64,
}

impl Aggregate for MockAggregate {
    type Event = MockEvent;

    fn with_id(id: u128) -> Self {
        MockAggregate { id, version: 0 }
    }

    fn apply(&self, _event: &Self::Event) -> MockAggregate {
        MockAggregate {
            id: self.id,
            version: self.version + 1,
        }
    }

    fn version(&self) -> i64 {
        self.version
    }

    fn id(&self) -> u128 {
        self.id
    }
}

#[derive(Clone, Debug)]
struct MockCommand;

impl Command for MockCommand {
    type Aggregate = MockAggregate;
    type Error = String;

    fn apply(&self, _aggregate: &MockAggregate) -> Result<Vec<MockEvent>, String> {
        Ok(vec![MockEvent::IncrementVersion])
    }
}

#[derive(Clone, Debug)]
struct RefusedCommand;

impl Command for RefusedCommand {
    type Aggregate = MockAggregate;
    type Error = String;

    fn apply(&self, _aggregate: &MockAggregate) -> Result<Vec<MockEvent>, String> {
        Err(String::from("refused"))
    }
}

struct MockMetadata;

impl Metadata for MockMetadata {
    fn encode(&self) -> Result<Vec<u8>, EncodingError> {
        Ok(String::from("\"metadata\"").into_bytes())
    }
}

#[test]
fn it_requires_store_and_dispatcher() {
    assert!(ClientBuilder::<MockDispatcher, MemoryStore>::default()
        .finish()
        .is_err());
    let dispatch_delegate = MockDispatcher {
        dispatched_id: None,
    };
    assert_eq!(
        "Cannot build a client; missing a store.",
        ClientBuilder::<MockDispatcher, MemoryStore>::default()
            .with_dispatch_delegate(dispatch_delegate)
            .finish()
            .err()
            .unwrap()
    );
    assert_eq!(
        "Cannot build a client; missing a dispatcher.",
        ClientBuilder::<MockDispatcher, MemoryStore>::default()
            .with_store(MemoryStore::new())
            .finish()
            .err()
            .unwrap()
    );
}

#[test]
fn it_dispatches() {
    let dispatch_delegate = MockDispatcher {
        dispatched_id: None,
    };
    let store = MemoryStore::new();
    let mut client = ClientBuilder::<MockDispatcher, MemoryStore>::default()
        .with_store(store)
        .with_dispatch_delegate(dispatch_delegate)
        .finish()
        .unwrap();
    let commit_id = Uuid::new_v4().as_u128();
    let commit_attempt = CommitAttempt {
        aggregate_id: Uuid::new_v4().as_u128(),
        aggregate_version: 0,
        commit_id,
        commit_sequence: 0,
        commit_timestamp: Utc::now().timestamp_millis(),
        events_count: 1,
        serialized_metadata: String::from("\"metadata\"").into_bytes(),
        serialized_events: String::from("[\"hi\"]").into_bytes(),
    };
    assert!(client.commit(&commit_attempt).is_ok());
    assert_eq!(
        Some(commit_id),
        client.dispatcher.dispatch_delegate.dispatched_id
    );
}

fn new_client(store: MemoryStore) -> Client<MockDispatcher, MemoryStore> {
    ClientBuilder::default()
        .with_store(store)
        .with_dispatch_delegate(MockDispatcher {
            dispatched_id: None,
        })
        .finish()
        .unwrap()
}

#[test]
fn command_then_replay_grows_version_by_events_produced() {
    let aggregate_id = Uuid::new_v4().as_u128();
    let mut client = new_client(MemoryStore::new());
    let aggregate: MockAggregate = client.fetch_latest(aggregate_id).unwrap();
    assert_eq!(aggregate.version, 0);
    let commit = client
        .issue_command(&aggregate, &MockCommand, &MockMetadata)
        .unwrap();
    assert_eq!(commit.aggregate_id, aggregate_id);
    assert_eq!(commit.aggregate_version, 0);
    assert_eq!(commit.commit_sequence, 1);
    assert_eq!(commit.commit_number, 1);
    assert_eq!(commit.events_count, 1);
    assert_eq!(commit.serialized_events, b"[\"IncrementVersion\"]".to_vec());
    // The session watermark was 0, so the same session replays the whole
    // history: the pre-command version plus the one produced event.
    let replayed: MockAggregate = client.fetch_latest(aggregate_id).unwrap();
    assert_eq!(replayed.version, 1);

    // A second command, issued against the fresh replay, lands at the
    // next sequence; a brand-new session then sees both events.
    let commit2 = client
        .issue_command(&replayed, &MockCommand, &MockMetadata)
        .unwrap();
    assert_eq!(commit2.aggregate_version, 1);
    assert_eq!(commit2.commit_sequence, 2);
    let mut fresh = new_client(client.store);
    let replayed2: MockAggregate = fresh.fetch_latest(aggregate_id).unwrap();
    assert_eq!(replayed2.version, 2);
}

#[test]
fn a_stale_issuer_sees_a_sequence_conflict_and_recovers() {
    let aggregate_id = Uuid::new_v4().as_u128();
    let mut client = new_client(MemoryStore::new());
    let aggregate: MockAggregate = client.fetch_latest(aggregate_id).unwrap();
    client
        .issue_command(&aggregate, &MockCommand, &MockMetadata)
        .unwrap();
    // The watermark was not advanced, so a second issue reuses the same
    // sequence and loses the optimistic concurrency race.
    let refused = client.issue_command(&aggregate, &MockCommand, &MockMetadata);
    match refused {
        Err(IssueError::Client(ClientError::StoreError(e))) => {
            assert_eq!(
                e.error_type(),
                StoreErrorType::DuplicateWriteError(StorageCommitConflict::CommitSequenceConflict)
            );
        }
        _ => panic!("expected a sequence conflict"),
    }
    // Re-replaying advances the watermark; the retry wins.
    let replayed: MockAggregate = client.fetch_latest(aggregate_id).unwrap();
    let commit = client
        .issue_command(&replayed, &MockCommand, &MockMetadata)
        .unwrap();
    assert_eq!(commit.commit_sequence, 2);
    assert_eq!(commit.aggregate_version, 1);
}

#[test]
fn a_refused_command_reaches_the_caller_without_a_store_write() {
    let aggregate_id = Uuid::new_v4().as_u128();
    let mut client = new_client(MemoryStore::new());
    let aggregate: MockAggregate = client.fetch_latest(aggregate_id).unwrap();
    let refused = client.issue_command(&aggregate, &RefusedCommand, &MockMetadata);
    match refused {
        Err(IssueError::Command(message)) => assert_eq!(message, "refused"),
        _ => panic!("expected the command's own error"),
    }
    let replayed: MockAggregate = client.fetch_latest(aggregate_id).unwrap();
    assert_eq!(replayed.version, 0);
}

#[test]
fn a_malformed_payload_is_fatal_for_the_fetch() {
    let mut client = new_client(MemoryStore::new());
    let aggregate_id = Uuid::new_v4().as_u128();
    let commit_attempt = CommitAttempt {
        aggregate_id,
        aggregate_version: 0,
        commit_id: Uuid::new_v4().as_u128(),
        commit_sequence: 1,
        commit_timestamp: Utc::now().timestamp_millis(),
        events_count: 1,
        serialized_metadata: String::from("\"metadata\"").into_bytes(),
        serialized_events: String::from("not a document").into_bytes(),
    };
    client.commit(&commit_attempt).unwrap();
    let fetched: Result<MockAggregate, _> = client.fetch_latest(aggregate_id);
    match fetched {
        Err(ClientError::SerializationError(EncodingError::Malformed)) => {}
        _ => panic!("expected a serialization error"),
    }
}
