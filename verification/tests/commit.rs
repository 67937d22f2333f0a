use chrono::Utc;
use uuid::Uuid;

use eventstore::commit::Commit;

fn sample_commit(serialized_events: Vec<u8>, serialized_metadata: Vec<u8>) -> Commit {
    Commit {
        aggregate_id: Uuid::new_v4().as_u128(),
        aggregate_version: 18,
        commit_id: Uuid::new_v4().as_u128(),
        commit_sequence: 101,
        commit_number: 198,
        commit_timestamp: Utc::now().timestamp_millis(),
        serialized_events,
        serialized_metadata,
        events_count: 4,
        dispatched: true,
    }
}

#[test]
fn deserialize() {
    let serialized_events = b"[{\"foo\": \"bar\"}, {\"baz\": \"bat\"}]".to_vec();
    let serialized_metadata = "[{\"foo2\": \"bar2\", \"baz2\": \"bat2\"}]".as_bytes().to_vec();
    let commit = sample_commit(serialized_events, serialized_metadata);

    let deserialized = commit.deserialize();

    assert_eq!(deserialized.aggregate_id, commit.aggregate_id);
    assert_eq!(deserialized.aggregate_version, commit.aggregate_version);
    assert_eq!(deserialized.commit_id, commit.commit_id);
    assert_eq!(deserialized.commit_sequence, commit.commit_sequence);
    assert_eq!(deserialized.commit_number, commit.commit_number);
    assert_eq!(deserialized.commit_timestamp, commit.commit_timestamp);
    assert_eq!(deserialized.events_count, commit.events_count);
    assert_eq!(deserialized.dispatched, commit.dispatched);

    let events_array = deserialized.events.as_array().unwrap();
    assert_eq!(events_array.len(), 2);
    assert_eq!(events_array[0].as_object().unwrap()["foo"], "bar");
    assert_eq!(events_array[1].as_object().unwrap()["baz"], "bat");

    let metadata_obj = deserialized.metadata.as_array().unwrap()[0].as_object().unwrap();
    assert_eq!(metadata_obj.len(), 2);
    assert_eq!(metadata_obj["foo2"], "bar2");
    assert_eq!(metadata_obj["baz2"], "bat2");
    assert_eq!(events_array[0].as_object().unwrap()["foo"], "bar");
}

#[test]
fn try_deserialize_accepts_well_formed_payloads() {
    let commit = sample_commit(b"[\"hi\"]".to_vec(), b"\"m\"".to_vec());
    let derived = commit.try_deserialize().unwrap();
    assert_eq!(derived.events.as_array().unwrap()[0], "hi");
    assert_eq!(derived.metadata.as_str().unwrap(), "m");
}

#[test]
fn try_deserialize_rejects_malformed_payloads() {
    let bad_events = sample_commit(b"not a document".to_vec(), b"\"m\"".to_vec());
    assert!(bad_events.try_deserialize().is_none());
    let bad_metadata = sample_commit(b"[\"hi\"]".to_vec(), b"{broken".to_vec());
    assert!(bad_metadata.try_deserialize().is_none());
}

#[test]
fn a_commit_clone_preserves_every_field() {
    let commit = sample_commit(b"[\"hi\"]".to_vec(), b"\"m\"".to_vec());
    let copy = commit.clone();
    assert_eq!(copy.aggregate_id, commit.aggregate_id);
    assert_eq!(copy.commit_id, commit.commit_id);
    assert_eq!(copy.serialized_events, commit.serialized_events);
    assert_eq!(copy.serialized_metadata, commit.serialized_metadata);
    assert_eq!(copy.dispatched, commit.dispatched);
}
