use chrono::Utc;
use uuid::Uuid;

use eventstore::commit::CommitAttempt;
use eventstore::store::memory::MemoryStore;
use eventstore::store::sqlite::classify_constraint_message;
use eventstore::store::{StorageCommitConflict, Store, StoreError, StoreErrorType};

fn attempt(
    aggregate_id: u128,
    aggregate_version: i64,
    commit_id: u128,
    commit_sequence: i64,
    events: &str,
) -> CommitAttempt {
    CommitAttempt {
        aggregate_id,
        aggregate_version,
        commit_id,
        commit_timestamp: Utc::now().timestamp_millis(),
        commit_sequence,
        serialized_metadata: String::from("\"metadata\"").into_bytes(),
        serialized_events: String::from(events).into_bytes(),
        events_count: 1,
    }
}

#[test]
fn it_allows_storing_and_retrieving_commits() {
    let mut s = MemoryStore::new();
    let commit_attempt = attempt(
        Uuid::new_v4().as_u128(),
        0,
        Uuid::new_v4().as_u128(),
        0,
        "[\"hi\"]",
    );
    assert_eq!(s.commit(&commit_attempt).unwrap(), 1);
    let commits = s.get_range(commit_attempt.aggregate_id, 0, 2).unwrap();
    assert_eq!(
        commits
            .iter()
            .map(|c| c.serialized_events.clone())
            .collect::<Vec<Vec<u8>>>(),
        vec![String::from("[\"hi\"]").into_bytes()]
    );

    let commit_attempt2 = attempt(
        commit_attempt.aggregate_id,
        commit_attempt.aggregate_version + 1,
        Uuid::new_v4().as_u128(),
        commit_attempt.commit_sequence + 1,
        "[\"there\"]",
    );
    assert_eq!(s.commit(&commit_attempt2).unwrap(), 2);

    let commits = s.get_range(commit_attempt.aggregate_id, 0, 2).unwrap();
    assert_eq!(
        commits
            .iter()
            .map(|c| c.serialized_events.clone())
            .collect::<Vec<Vec<u8>>>(),
        vec![
            String::from("[\"hi\"]").into_bytes(),
            String::from("[\"there\"]").into_bytes(),
        ]
    )
}

#[test]
fn it_does_not_allow_double_commits_by_sequence() {
    let mut s = MemoryStore::new();
    let commit_attempt = attempt(
        Uuid::new_v4().as_u128(),
        0,
        Uuid::new_v4().as_u128(),
        0,
        "[\"hi\"]",
    );
    assert_eq!(s.commit(&commit_attempt).unwrap(), 1);
    let commits = s.get_range(commit_attempt.aggregate_id, 0, 2).unwrap();
    assert_eq!(
        commits
            .iter()
            .map(|c| c.serialized_events.clone())
            .collect::<Vec<Vec<u8>>>(),
        vec![String::from("[\"hi\"]").into_bytes()]
    );

    let commit_attempt2 = attempt(
        commit_attempt.aggregate_id,
        commit_attempt.aggregate_version + 1,
        Uuid::new_v4().as_u128(),
        commit_attempt.commit_sequence,
        "[\"there\"]",
    );
    assert_eq!(
        StoreErrorType::DuplicateWriteError(StorageCommitConflict::CommitSequenceConflict),
        s.commit(&commit_attempt2).err().unwrap().error_type()
    );
}

#[test]
fn it_does_not_allow_double_commits_by_aggregate_version() {
    let mut s = MemoryStore::new();
    let commit_attempt = attempt(
        Uuid::new_v4().as_u128(),
        0,
        Uuid::new_v4().as_u128(),
        0,
        "[\"hi\"]",
    );
    assert_eq!(s.commit(&commit_attempt).unwrap(), 1);
    let commits = s.get_range(commit_attempt.aggregate_id, 0, 2).unwrap();
    assert_eq!(
        commits
            .iter()
            .map(|c| c.serialized_events.clone())
            .collect::<Vec<Vec<u8>>>(),
        vec![String::from("[\"hi\"]").into_bytes()]
    );

    let commit_attempt2 = attempt(
        commit_attempt.aggregate_id,
        commit_attempt.aggregate_version,
        Uuid::new_v4().as_u128(),
        commit_attempt.commit_sequence + 1,
        "[\"there\"]",
    );
    assert_eq!(
        StoreErrorType::DuplicateWriteError(StorageCommitConflict::AggregateVersionConflict),
        s.commit(&commit_attempt2).err().unwrap().error_type()
    );
}

#[test]
fn it_does_not_allow_double_commits_by_commit_id() {
    let mut s = MemoryStore::new();
    let commit_attempt = attempt(
        Uuid::new_v4().as_u128(),
        0,
        Uuid::new_v4().as_u128(),
        0,
        "[\"hi\"]",
    );
    assert_eq!(s.commit(&commit_attempt).unwrap(), 1);
    let commits = s.get_range(commit_attempt.aggregate_id, 0, 2).unwrap();
    assert_eq!(
        commits
            .iter()
            .map(|c| c.serialized_events.clone())
            .collect::<Vec<Vec<u8>>>(),
        vec![String::from("[\"hi\"]").into_bytes()]
    );

    let commit_attempt2 = attempt(
        commit_attempt.aggregate_id,
        commit_attempt.aggregate_version + 1,
        commit_attempt.commit_id,
        commit_attempt.commit_sequence + 1,
        "[\"there\"]",
    );
    assert_eq!(
        StoreErrorType::DuplicateWriteError(StorageCommitConflict::CommitIdConflict),
        s.commit(&commit_attempt2).err().unwrap().error_type()
    );
}

#[test]
fn get_range_sorts_out_of_order_appends() {
    let mut s = MemoryStore::new();
    let aggregate_id = Uuid::new_v4().as_u128();
    // Appends need not arrive in sequence order; reads come back sorted.
    let late = attempt(aggregate_id, 0, Uuid::new_v4().as_u128(), 2, "[\"late\"]");
    let early = attempt(aggregate_id, 1, Uuid::new_v4().as_u128(), 0, "[\"early\"]");
    assert_eq!(s.commit(&late).unwrap(), 1);
    assert_eq!(s.commit(&early).unwrap(), 2);
    let commits = s.get_range(aggregate_id, 0, 5).unwrap();
    assert_eq!(
        commits
            .iter()
            .map(|c| c.commit_sequence)
            .collect::<Vec<i64>>(),
        vec![0, 2]
    );
    assert_eq!(commits[0].serialized_events, b"[\"early\"]".to_vec());
    assert_eq!(commits[1].serialized_events, b"[\"late\"]".to_vec());
}

#[test]
fn get_range_returns_exactly_the_window() {
    let mut s = MemoryStore::new();
    let aggregate_id = Uuid::new_v4().as_u128();
    let other_id = Uuid::new_v4().as_u128();
    for seq in 0..4i64 {
        let a = attempt(aggregate_id, seq, Uuid::new_v4().as_u128(), seq, "[\"x\"]");
        s.commit(&a).unwrap();
    }
    let foreign = attempt(other_id, 1, Uuid::new_v4().as_u128(), 1, "[\"y\"]");
    s.commit(&foreign).unwrap();
    let commits = s.get_range(aggregate_id, 1, 2).unwrap();
    assert_eq!(
        commits
            .iter()
            .map(|c| c.commit_sequence)
            .collect::<Vec<i64>>(),
        vec![1, 2]
    );
    assert!(s.get_range(aggregate_id, 4, 10).unwrap().is_empty());
}

#[test]
fn undispatched_commits_come_back_in_commit_number_order() {
    let mut s = MemoryStore::new();
    let first = attempt(Uuid::new_v4().as_u128(), 0, Uuid::new_v4().as_u128(), 0, "[\"a\"]");
    let second = attempt(Uuid::new_v4().as_u128(), 0, Uuid::new_v4().as_u128(), 0, "[\"b\"]");
    s.commit(&first).unwrap();
    s.commit(&second).unwrap();
    let undispatched = s.get_undispatched_commits().unwrap();
    assert_eq!(
        undispatched
            .iter()
            .map(|c| c.commit_number)
            .collect::<Vec<i64>>(),
        vec![1, 2]
    );
    assert!(undispatched.iter().all(|c| !c.dispatched));
}

#[test]
fn marking_dispatched_is_permanent_and_idempotent() {
    let mut s = MemoryStore::new();
    let first = attempt(Uuid::new_v4().as_u128(), 0, Uuid::new_v4().as_u128(), 0, "[\"a\"]");
    let second = attempt(Uuid::new_v4().as_u128(), 0, Uuid::new_v4().as_u128(), 0, "[\"b\"]");
    s.commit(&first).unwrap();
    s.commit(&second).unwrap();
    s.mark_commit_as_dispatched(first.commit_id).unwrap();
    let after_one = s.get_undispatched_commits().unwrap();
    assert!(after_one.iter().all(|c| c.commit_id != first.commit_id));
    assert_eq!(after_one.len(), 1);
    // Marking the same commit again leaves the store as it was.
    s.mark_commit_as_dispatched(first.commit_id).unwrap();
    let after_two = s.get_undispatched_commits().unwrap();
    assert_eq!(
        after_one
            .iter()
            .map(|c| c.commit_id)
            .collect::<Vec<u128>>(),
        after_two
            .iter()
            .map(|c| c.commit_id)
            .collect::<Vec<u128>>()
    );
    // Marking an unknown commit is a no-op.
    s.mark_commit_as_dispatched(Uuid::new_v4().as_u128()).unwrap();
    assert_eq!(s.get_undispatched_commits().unwrap().len(), 1);
}

#[test]
fn get_commit_finds_a_commit_by_id() {
    let mut s = MemoryStore::new();
    let a = attempt(Uuid::new_v4().as_u128(), 7, Uuid::new_v4().as_u128(), 3, "[\"hi\"]");
    s.commit(&a).unwrap();
    let found = s.get_commit(&a.commit_id).unwrap();
    assert_eq!(found.commit_id, a.commit_id);
    assert_eq!(found.aggregate_id, a.aggregate_id);
    assert_eq!(found.aggregate_version, 7);
    assert_eq!(found.commit_sequence, 3);
    assert_eq!(found.commit_number, 1);
    assert!(!found.dispatched);

    let missing = s.get_commit(&Uuid::new_v4().as_u128());
    assert_eq!(
        missing.err().unwrap().error_type(),
        StoreErrorType::UnknownError
    );
}

#[test]
fn a_commit_must_group_at_least_one_event() {
    let mut s = MemoryStore::new();
    let mut a = attempt(Uuid::new_v4().as_u128(), 0, Uuid::new_v4().as_u128(), 0, "[]");
    a.events_count = 0;
    assert_eq!(
        s.commit(&a).err().unwrap().error_type(),
        StoreErrorType::UnknownError
    );
    assert!(s.get_undispatched_commits().unwrap().is_empty());
}

#[test]
fn successive_appends_keep_sequences_dense() {
    let mut s = MemoryStore::new();
    let aggregate_id = Uuid::new_v4().as_u128();
    for seq in 1..=3i64 {
        let a = attempt(
            aggregate_id,
            seq - 1,
            Uuid::new_v4().as_u128(),
            seq,
            "[\"x\"]",
        );
        s.commit(&a).unwrap();
    }
    let commits = s.get_range(aggregate_id, 1, i64::MAX).unwrap();
    assert_eq!(
        commits
            .iter()
            .map(|c| c.commit_sequence)
            .collect::<Vec<i64>>(),
        vec![1, 2, 3]
    );
}

#[test]
fn backend_constraint_messages_classify_into_the_taxonomy() {
    assert_eq!(
        classify_constraint_message(
            "UNIQUE constraint failed: commits.aggregate_id, commits.commit_sequence"
        ),
        StoreErrorType::DuplicateWriteError(StorageCommitConflict::CommitSequenceConflict)
    );
    assert_eq!(
        classify_constraint_message(
            "UNIQUE constraint failed: commits.aggregate_id, commits.aggregate_version"
        ),
        StoreErrorType::DuplicateWriteError(StorageCommitConflict::AggregateVersionConflict)
    );
    assert_eq!(
        classify_constraint_message("UNIQUE constraint failed: commits.commit_id"),
        StoreErrorType::DuplicateWriteError(StorageCommitConflict::CommitIdConflict)
    );
    assert_eq!(
        classify_constraint_message("database is locked"),
        StoreErrorType::UnknownError
    );
}
