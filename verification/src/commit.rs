//! The commit record and its variants.
//!
//! A commit is an atomic group of one or more events appended for a single
//! aggregate at a specific sequence.  Identifiers are 128-bit values and
//! timestamps are UTC instants in milliseconds since the epoch, so that every
//! field the engine reasons about is a plain value.

use vstd::prelude::*;

verus! {

/// A durable commit, as the store hands it back.
pub struct Commit {
    pub aggregate_id: u128,
    pub aggregate_version: i64,
    pub commit_id: u128,
    pub commit_timestamp: i64,
    pub commit_sequence: i64,
    pub commit_number: i64,
    pub serialized_events: Vec<u8>,
    pub serialized_metadata: Vec<u8>,
    pub events_count: i64,
    pub dispatched: bool,
}

/// A commit attempt: the pending form submitted to the store.  Identical to
/// [`Commit`] minus the store-assigned `commit_number` and the `dispatched`
/// flag.
pub struct CommitAttempt {
    pub aggregate_id: u128,
    pub aggregate_version: i64,
    pub commit_id: u128,
    pub commit_timestamp: i64,
    pub commit_sequence: i64,
    pub serialized_metadata: Vec<u8>,
    pub serialized_events: Vec<u8>,
    pub events_count: i64,
}

/// The mathematical image of a durable commit, used throughout the
/// contracts of the store, the dispatcher and the client.
#[verifier::ext_equal]
pub ghost struct CommitView {
    pub aggregate_id: u128,
    pub aggregate_version: int,
    pub commit_id: u128,
    pub commit_timestamp: int,
    pub commit_sequence: int,
    pub commit_number: int,
    pub serialized_events: Seq<u8>,
    pub serialized_metadata: Seq<u8>,
    pub events_count: int,
    pub dispatched: bool,
}

/// The mathematical image of a commit attempt.
#[verifier::ext_equal]
pub ghost struct AttemptView {
    pub aggregate_id: u128,
    pub aggregate_version: int,
    pub commit_id: u128,
    pub commit_timestamp: int,
    pub commit_sequence: int,
    pub serialized_metadata: Seq<u8>,
    pub serialized_events: Seq<u8>,
    pub events_count: int,
}

impl View for Commit {
    type V = CommitView;

    open spec fn view(&self) -> CommitView {
        CommitView {
            aggregate_id: self.aggregate_id,
            aggregate_version: self.aggregate_version as int,
            commit_id: self.commit_id,
            commit_timestamp: self.commit_timestamp as int,
            commit_sequence: self.commit_sequence as int,
            commit_number: self.commit_number as int,
            serialized_events: self.serialized_events@,
            serialized_metadata: self.serialized_metadata@,
            events_count: self.events_count as int,
            dispatched: self.dispatched,
        }
    }
}

impl DeepView for Commit {
    type V = CommitView;

    open spec fn deep_view(&self) -> CommitView {
        self.view()
    }
}

impl View for CommitAttempt {
    type V = AttemptView;

    open spec fn view(&self) -> AttemptView {
        AttemptView {
            aggregate_id: self.aggregate_id,
            aggregate_version: self.aggregate_version as int,
            commit_id: self.commit_id,
            commit_timestamp: self.commit_timestamp as int,
            commit_sequence: self.commit_sequence as int,
            serialized_metadata: self.serialized_metadata@,
            serialized_events: self.serialized_events@,
            events_count: self.events_count as int,
        }
    }
}

impl AttemptView {
    /// The durable commit that persisting this attempt under the global
    /// commit number `n` produces.  A freshly appended commit is not yet
    /// dispatched.
    pub open spec fn committed(self, n: int) -> CommitView {
        CommitView {
            aggregate_id: self.aggregate_id,
            aggregate_version: self.aggregate_version,
            commit_id: self.commit_id,
            commit_timestamp: self.commit_timestamp,
            commit_sequence: self.commit_sequence,
            commit_number: n,
            serialized_events: self.serialized_events,
            serialized_metadata: self.serialized_metadata,
            events_count: self.events_count,
            dispatched: false,
        }
    }
}

impl Clone for Commit {
    fn clone(&self) -> (res: Self)
        ensures
            res@ == self@,
    {
        let res = Commit {
            aggregate_id: self.aggregate_id,
            aggregate_version: self.aggregate_version,
            commit_id: self.commit_id,
            commit_timestamp: self.commit_timestamp,
            commit_sequence: self.commit_sequence,
            commit_number: self.commit_number,
            serialized_events: self.serialized_events.clone(),
            serialized_metadata: self.serialized_metadata.clone(),
            events_count: self.events_count,
            dispatched: self.dispatched,
        };
        proof {
            assert(res.serialized_events@ =~= self.serialized_events@);
            assert(res.serialized_metadata@ =~= self.serialized_metadata@);
        }
        res
    }
}

impl Clone for CommitAttempt {
    fn clone(&self) -> (res: Self)
        ensures
            res@ == self@,
    {
        let res = CommitAttempt {
            aggregate_id: self.aggregate_id,
            aggregate_version: self.aggregate_version,
            commit_id: self.commit_id,
            commit_timestamp: self.commit_timestamp,
            commit_sequence: self.commit_sequence,
            serialized_metadata: self.serialized_metadata.clone(),
            serialized_events: self.serialized_events.clone(),
            events_count: self.events_count,
        };
        proof {
            assert(res.serialized_events@ =~= self.serialized_events@);
            assert(res.serialized_metadata@ =~= self.serialized_metadata@);
        }
        res
    }
}

#[verifier::external_type_specification]
#[verifier::external_body]
pub struct ExValue(serde_json::Value);

#[verifier::external_type_specification]
#[verifier::external_body]
pub struct ExJsonError(serde_json::Error);

/// Whether a byte payload is a well-formed textual document.
pub uninterp spec fn json_accepts(bytes: Seq<u8>) -> bool;

/// Relies on serde_json's `from_slice::<Value>`: it parses a byte payload
/// into a structured document, succeeding exactly on the well-formed
/// documents, and the outcome depends on the bytes alone.
#[verifier::external_body]
pub(crate) fn parse_document(bytes: &[u8]) -> (r: Result<serde_json::Value, serde_json::Error>)
    ensures
        r is Ok <==> json_accepts(bytes@),
{
    serde_json::from_slice::<serde_json::Value>(bytes)
}

/// The derived form of a commit: the byte payloads replaced by parsed
/// structured documents, for publishing and for the external read
/// surface.
pub struct DeserializedCommit {
    pub aggregate_id: u128,
    pub aggregate_version: i64,
    pub commit_id: u128,
    pub commit_timestamp: i64,
    pub commit_sequence: i64,
    pub commit_number: i64,
    pub events: serde_json::Value,
    pub metadata: serde_json::Value,
    pub events_count: i64,
    pub dispatched: bool,
}

impl Commit {
    /// The derived form of this commit.  Both payloads must be
    /// well-formed documents; [`Commit::try_deserialize`] checks that
    /// first.
    pub fn deserialize(&self) -> (d: DeserializedCommit)
        requires
            json_accepts(self@.serialized_events),
            json_accepts(self@.serialized_metadata),
        ensures
            d.aggregate_id == self.aggregate_id,
            d.aggregate_version == self.aggregate_version,
            d.commit_id == self.commit_id,
            d.commit_timestamp == self.commit_timestamp,
            d.commit_sequence == self.commit_sequence,
            d.commit_number == self.commit_number,
            d.events_count == self.events_count,
            d.dispatched == self.dispatched,
    {
        let events = match parse_document(self.serialized_events.as_slice()) {
            Ok(v) => v,
            Err(_) => {
                proof {
                    assert(false);
                }
                vstd::pervasive::unreached()
            },
        };
        let metadata = match parse_document(self.serialized_metadata.as_slice()) {
            Ok(v) => v,
            Err(_) => {
                proof {
                    assert(false);
                }
                vstd::pervasive::unreached()
            },
        };
        DeserializedCommit {
            aggregate_id: self.aggregate_id,
            aggregate_version: self.aggregate_version,
            commit_id: self.commit_id,
            commit_timestamp: self.commit_timestamp,
            commit_number: self.commit_number,
            commit_sequence: self.commit_sequence,
            events,
            metadata,
            events_count: self.events_count,
            dispatched: self.dispatched,
        }
    }

    /// The derived form of this commit, if both payloads parse; `None`
    /// exactly when one of them is malformed.
    pub fn try_deserialize(&self) -> (r: Option<DeserializedCommit>)
        ensures
            r is Some <==> json_accepts(self@.serialized_events) && json_accepts(
                self@.serialized_metadata,
            ),
            r matches Some(d) ==> {
                &&& d.aggregate_id == self.aggregate_id
                &&& d.aggregate_version == self.aggregate_version
                &&& d.commit_id == self.commit_id
                &&& d.commit_timestamp == self.commit_timestamp
                &&& d.commit_sequence == self.commit_sequence
                &&& d.commit_number == self.commit_number
                &&& d.events_count == self.events_count
                &&& d.dispatched == self.dispatched
            },
    {
        let events_ok = parse_document(self.serialized_events.as_slice()).is_ok();
        let metadata_ok = parse_document(self.serialized_metadata.as_slice()).is_ok();
        if events_ok && metadata_ok {
            Some(self.deserialize())
        } else {
            None
        }
    }
}

impl CommitAttempt {
    /// The durable commit that persisting this attempt under the global
    /// commit number `commit_number` produces.
    pub fn committed(&self, commit_number: i64) -> (c: Commit)
        ensures
            c@ == self@.committed(commit_number as int),
    {
        let c = Commit {
            aggregate_id: self.aggregate_id,
            aggregate_version: self.aggregate_version,
            commit_id: self.commit_id,
            commit_timestamp: self.commit_timestamp,
            commit_sequence: self.commit_sequence,
            commit_number,
            serialized_events: self.serialized_events.clone(),
            serialized_metadata: self.serialized_metadata.clone(),
            events_count: self.events_count,
            dispatched: false,
        };
        proof {
            assert(c.serialized_events@ =~= self.serialized_events@);
            assert(c.serialized_metadata@ =~= self.serialized_metadata@);
        }
        c
    }
}

} // verus!
