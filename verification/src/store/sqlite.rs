//! Classification of the relational embedded backend's uniqueness
//! violations into the abstract conflict taxonomy.
//!
//! The reference schema guards the three store invariants with one unique
//! index each; the backend reports a violation with a message naming the
//! index's columns.  The adapter around the backend hands such messages
//! here and gets the abstract error back, so that no backend error type
//! leaks to callers.

use vstd::prelude::*;
use vstd::string::StringSliceAdditionalSpecFns;

use crate::store::{StorageCommitConflict, StoreErrorType};

verus! {

/// The taxonomy entry a backend constraint message stands for: one of the
/// three unique indexes of the reference schema, or an unrecognised
/// failure.
pub open spec fn spec_classified_conflict(message: Seq<u8>) -> StoreErrorType {
    if message == "UNIQUE constraint failed: commits.aggregate_id, commits.commit_sequence".spec_bytes() {
        StoreErrorType::DuplicateWriteError(StorageCommitConflict::CommitSequenceConflict)
    } else if message
        == "UNIQUE constraint failed: commits.aggregate_id, commits.aggregate_version".spec_bytes() {
        StoreErrorType::DuplicateWriteError(StorageCommitConflict::AggregateVersionConflict)
    } else if message == "UNIQUE constraint failed: commits.commit_id".spec_bytes() {
        StoreErrorType::DuplicateWriteError(StorageCommitConflict::CommitIdConflict)
    } else {
        StoreErrorType::UnknownError
    }
}

/// Byte-for-byte equality of two slices.
fn bytes_equal(a: &[u8], b: &[u8]) -> (r: bool)
    ensures
        r == (a@ == b@),
{
    if a.len() != b.len() {
        return false;
    }
    let mut i: usize = 0;
    while i < a.len()
        invariant
            a@.len() == b@.len(),
            i <= a@.len(),
            forall|k: int| 0 <= k < i ==> a@[k] == b@[k],
        decreases a.len() - i,
    {
        if a[i] != b[i] {
            return false;
        }
        i += 1;
    }
    proof {
        assert(a@ =~= b@);
    }
    true
}

/// Classifies a backend constraint-violation message into the abstract
/// conflict taxonomy.
pub fn classify_constraint_message(message: &str) -> (t: StoreErrorType)
    ensures
        t == spec_classified_conflict(message.spec_bytes()),
{
    let bytes = message.as_bytes();
    if bytes_equal(
        bytes,
        "UNIQUE constraint failed: commits.aggregate_id, commits.commit_sequence".as_bytes(),
    ) {
        StoreErrorType::DuplicateWriteError(StorageCommitConflict::CommitSequenceConflict)
    } else if bytes_equal(
        bytes,
        "UNIQUE constraint failed: commits.aggregate_id, commits.aggregate_version".as_bytes(),
    ) {
        StoreErrorType::DuplicateWriteError(StorageCommitConflict::AggregateVersionConflict)
    } else if bytes_equal(bytes, "UNIQUE constraint failed: commits.commit_id".as_bytes()) {
        StoreErrorType::DuplicateWriteError(StorageCommitConflict::CommitIdConflict)
    } else {
        StoreErrorType::UnknownError
    }
}

} // verus!
