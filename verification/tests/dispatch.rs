use chrono::Utc;
use uuid::Uuid;

use eventstore::commit::{Commit, CommitAttempt};
use eventstore::dispatch::{DispatchDelegate, Dispatcher, NullDispatcher};
use eventstore::store::memory::MemoryStore;
use eventstore::store::Store;

fn attempt(aggregate_id: u128, commit_sequence: i64) -> CommitAttempt {
    CommitAttempt {
        aggregate_id,
        aggregate_version: commit_sequence,
        commit_id: Uuid::new_v4().as_u128(),
        commit_timestamp: Utc::now().timestamp_millis(),
        commit_sequence,
        serialized_metadata: String::from("\"metadata\"").into_bytes(),
        serialized_events: String::from("[\"hi\"]").into_bytes(),
        events_count: 1,
    }
}

struct FlakyDelegate {
    calls: usize,
    reject_first: bool,
}

impl DispatchDelegate for FlakyDelegate {
    fn dispatch(&mut self, _commit: &Commit) -> Result<(), String> {
        self.calls += 1;
        if self.reject_first && self.calls == 1 {
            Err(String::from("not yet"))
        } else {
            Ok(())
        }
    }
}

struct RecordingDelegate {
    numbers: Vec<i64>,
}

impl DispatchDelegate for RecordingDelegate {
    fn dispatch(&mut self, commit: &Commit) -> Result<(), String> {
        self.numbers.push(commit.commit_number);
        Ok(())
    }
}

#[test]
fn a_failed_drain_leaves_the_commit_for_the_next_one() {
    let mut store = MemoryStore::new();
    let a = attempt(Uuid::new_v4().as_u128(), 0);
    store.commit(&a).unwrap();
    let mut dispatcher = Dispatcher::new(FlakyDelegate {
        calls: 0,
        reject_first: true,
    });

    // The delegate rejects the first delivery: the drain halts and the
    // commit stays undispatched.
    assert!(dispatcher.dispatch(&mut store).is_err());
    let undispatched = store.get_undispatched_commits().unwrap();
    assert_eq!(undispatched.len(), 1);
    assert_eq!(undispatched[0].commit_id, a.commit_id);

    // The next drain delivers it again and marks it dispatched.
    assert!(dispatcher.dispatch(&mut store).is_ok());
    assert_eq!(dispatcher.dispatch_delegate.calls, 2);
    assert!(store.get_undispatched_commits().unwrap().is_empty());

    // A third drain has nothing left to deliver.
    assert!(dispatcher.dispatch(&mut store).is_ok());
    assert_eq!(dispatcher.dispatch_delegate.calls, 2);
}

#[test]
fn a_drain_delivers_in_commit_number_order() {
    let mut store = MemoryStore::new();
    for _ in 0..3 {
        let a = attempt(Uuid::new_v4().as_u128(), 0);
        store.commit(&a).unwrap();
    }
    let mut dispatcher = Dispatcher::new(RecordingDelegate { numbers: Vec::new() });
    assert!(dispatcher.dispatch(&mut store).is_ok());
    assert_eq!(dispatcher.dispatch_delegate.numbers, vec![1, 2, 3]);
    // A repeated drain delivers nothing new.
    assert!(dispatcher.dispatch(&mut store).is_ok());
    assert_eq!(dispatcher.dispatch_delegate.numbers, vec![1, 2, 3]);
}

#[test]
fn the_null_delegate_accepts_everything() {
    let mut store = MemoryStore::new();
    let a = attempt(Uuid::new_v4().as_u128(), 0);
    store.commit(&a).unwrap();
    let mut dispatcher = Dispatcher::new(NullDispatcher);
    assert!(dispatcher.dispatch(&mut store).is_ok());
    assert!(store.get_undispatched_commits().unwrap().is_empty());
}
