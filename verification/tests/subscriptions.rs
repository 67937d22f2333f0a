use chrono::Utc;
use uuid::Uuid;

use eventstore::commit::Commit;
use eventstore::subscriptions::{encode_published, SubscriberHub};

fn sample_commit(aggregate_id: u128, events: &str, metadata: &str) -> Commit {
    Commit {
        aggregate_id,
        aggregate_version: 0,
        commit_id: Uuid::new_v4().as_u128(),
        commit_timestamp: Utc::now().timestamp_millis(),
        commit_sequence: 1,
        commit_number: 1,
        serialized_events: events.as_bytes().to_vec(),
        serialized_metadata: metadata.as_bytes().to_vec(),
        events_count: 1,
        dispatched: true,
    }
}

#[test]
fn fan_out_reaches_exactly_the_current_subscribers() {
    let mut hub = SubscriberHub::new();
    let aggregate_id = Uuid::new_v4().as_u128();
    let first = hub.subscribe(aggregate_id);
    let second = hub.subscribe(aggregate_id);
    assert_ne!(first, second);

    let commit = sample_commit(aggregate_id, "[\"hi\"]", "\"m\"");
    let (recipients, message) = hub.prepare_publish(&commit).unwrap();
    assert_eq!(recipients.len(), 2);
    assert!(recipients.contains(&first));
    assert!(recipients.contains(&second));

    let doc: serde_json::Value = serde_json::from_slice(&message).unwrap();
    assert_eq!(doc["events"].as_array().unwrap()[0], "hi");
    assert_eq!(doc["metadata"], "m");
    assert_eq!(
        doc["aggregate_id"].as_str().unwrap(),
        Uuid::from_u128(aggregate_id).to_string()
    );

    // One subscriber disconnects; the next publish reaches only the
    // other.
    hub.disconnect(aggregate_id, first);
    let next = sample_commit(aggregate_id, "[\"there\"]", "\"m\"");
    let (recipients, _message) = hub.prepare_publish(&next).unwrap();
    assert_eq!(recipients, vec![second]);
}

#[test]
fn publishing_without_subscribers_is_a_successful_no_op() {
    let hub = SubscriberHub::new();
    let commit = sample_commit(Uuid::new_v4().as_u128(), "[\"hi\"]", "\"m\"");
    let (recipients, message) = hub.prepare_publish(&commit).unwrap();
    assert!(recipients.is_empty());
    assert!(!message.is_empty());
}

#[test]
fn a_malformed_payload_is_fatal_for_the_derived_form() {
    let mut hub = SubscriberHub::new();
    let aggregate_id = Uuid::new_v4().as_u128();
    hub.subscribe(aggregate_id);
    let bad_events = sample_commit(aggregate_id, "not a document", "\"m\"");
    assert!(hub.prepare_publish(&bad_events).is_err());
    let bad_metadata = sample_commit(aggregate_id, "[\"hi\"]", "{broken");
    assert!(hub.prepare_publish(&bad_metadata).is_err());
}

#[test]
fn subscriber_ids_are_assigned_monotonically_across_aggregates() {
    let mut hub = SubscriberHub::new();
    let a = Uuid::new_v4().as_u128();
    let b = Uuid::new_v4().as_u128();
    assert_eq!(hub.subscribe(a), 1);
    assert_eq!(hub.subscribe(b), 2);
    assert_eq!(hub.subscribe(a), 3);
    let for_a = hub.recipients(a);
    assert_eq!(for_a.len(), 2);
    assert!(for_a.contains(&1) && for_a.contains(&3));
    assert_eq!(hub.recipients(b), vec![2]);
}

#[test]
fn disconnecting_an_unknown_subscriber_changes_nothing() {
    let mut hub = SubscriberHub::new();
    let aggregate_id = Uuid::new_v4().as_u128();
    let sid = hub.subscribe(aggregate_id);
    hub.disconnect(aggregate_id, sid + 7);
    hub.disconnect(Uuid::new_v4().as_u128(), sid);
    assert_eq!(hub.recipients(aggregate_id), vec![sid]);
}

#[test]
fn the_published_message_is_the_exact_derived_document() {
    let aggregate_id = 0x0123456789abcdef0123456789abcdefu128;
    let mut commit = sample_commit(aggregate_id, "[\"hi\"]", "{\"k\":7}");
    commit.aggregate_version = 18;
    commit.commit_sequence = 101;
    commit.commit_number = 198;
    commit.commit_timestamp = -45;
    commit.events_count = 4;
    commit.dispatched = false;
    let message = encode_published(&commit);
    let text = String::from_utf8(message).unwrap();
    let commit_id_text = Uuid::from_u128(commit.commit_id).to_string();
    let expected = format!(
        "{{\"aggregate_id\":\"01234567-89ab-cdef-0123-456789abcdef\",\
         \"aggregate_version\":18,\
         \"commit_id\":\"{}\",\
         \"commit_timestamp\":-45,\
         \"commit_sequence\":101,\
         \"commit_number\":198,\
         \"events\":[\"hi\"],\
         \"metadata\":{{\"k\":7}},\
         \"events_count\":4,\
         \"dispatched\":false}}",
        commit_id_text
    );
    assert_eq!(text, expected);
}
