//! A verified in-memory store: the reference implementation of the store
//! contract.
//!
//! The log lives in a vector ordered by append; commit numbers are handed
//! out strictly increasing.  Conflict detection scans the log, classifying
//! commit-id collisions first, then sequence collisions, then version
//! collisions.

use vstd::prelude::*;

use crate::commit::{Commit, CommitAttempt, CommitView};
use crate::store::{
    conflicts, id_conflict, in_range, log_wf, mark_dispatched, seq_in_range,
    sequence_conflict, sorted_by_sequence, undispatched, version_conflict, with_dispatched,
    StorageCommitConflict, Store, StoreError, StoreErrorType,
};

verus! {

broadcast use {
    vstd::seq_lib::group_filter_ensures,
    vstd::seq_lib::group_to_multiset_ensures,
    vstd::seq::Seq::lemma_filter_push,
    vstd::seq::Seq::lemma_filter_contains_rev,
};

/// An error of the in-memory store.  The in-memory store has no backend
/// that can fail, so apart from an exhausted commit-number space every
/// error is a classified duplicate write.
#[derive(Debug)]
pub struct MemoryStoreError {
    pub error_type: StoreErrorType,
}

impl StoreError for MemoryStoreError {
    open spec fn spec_error_type(&self) -> StoreErrorType {
        self.error_type
    }

    fn error_type(&self) -> (t: StoreErrorType) {
        self.error_type
    }

    fn describe(&self) -> String {
        match self.error_type {
            StoreErrorType::DuplicateWriteError(StorageCommitConflict::CommitIdConflict) => {
                "DuplicateWriteError(CommitIdConflict)".to_owned()
            },
            StoreErrorType::DuplicateWriteError(StorageCommitConflict::CommitSequenceConflict) => {
                "DuplicateWriteError(CommitSequenceConflict)".to_owned()
            },
            StoreErrorType::DuplicateWriteError(StorageCommitConflict::AggregateVersionConflict) => {
                "DuplicateWriteError(AggregateVersionConflict)".to_owned()
            },
            StoreErrorType::UnknownError => "UnknownError".to_owned(),
        }
    }
}

/// Inserting an element anywhere in a sequence adds exactly that element
/// to its multiset.
proof fn lemma_insert_to_multiset(s: Seq<CommitView>, pos: int, x: CommitView)
    requires
        0 <= pos <= s.len(),
    ensures
        s.insert(pos, x).to_multiset() == s.to_multiset().insert(x),
{
    let t = s.insert(pos, x);
    s.insert_ensures(pos, x);
    assert(t.remove(pos) =~= s);
    assert(t[pos] == x);
    assert(t.remove(pos).to_multiset() =~= t.to_multiset().remove(x));
    assert(t.contains(x)) by {
        assert(t[pos] == x);
    }
    assert(t.to_multiset().count(x) > 0);
    assert(t.to_multiset() =~= s.to_multiset().insert(x));
}

/// An append-only in-memory commit log.
pub struct MemoryStore {
    commits: Vec<Commit>,
}

impl MemoryStore {
    /// A fresh, empty store.
    pub fn new() -> (s: Self)
        ensures
            s.commits() == Seq::<CommitView>::empty(),
            log_wf(s.commits()),
    {
        let s = MemoryStore { commits: Vec::new() };
        proof {
            assert(s.commits.deep_view() =~= Seq::<CommitView>::empty());
        }
        s
    }

    /// The index of the commit bearing `commit_id`, if the log holds one.
    fn find_by_commit_id(&self, commit_id: u128) -> (r: Option<usize>)
        ensures
            match r {
                Some(i) => i < self.commits().len() && self.commits()[i as int].commit_id
                    == commit_id,
                None => forall|k: int|
                    0 <= k < self.commits().len() ==> (#[trigger] self.commits()[k]).commit_id
                        != commit_id,
            },
    {
        let mut i: usize = 0;
        while i < self.commits.len()
            invariant
                i <= self.commits.len(),
                forall|k: int|
                    0 <= k < i ==> (#[trigger] self.commits.deep_view()[k]).commit_id != commit_id,
            decreases self.commits.len() - i,
        {
            if self.commits[i].commit_id == commit_id {
                return Some(i);
            }
            i += 1;
        }
        None
    }

    /// Whether the log holds a commit of `aggregate_id` at `commit_sequence`.
    fn has_sequence(&self, aggregate_id: u128, commit_sequence: i64) -> (b: bool)
        ensures
            b == exists|k: int|
                0 <= k < self.commits().len() && (#[trigger] self.commits()[k]).aggregate_id
                    == aggregate_id && self.commits()[k].commit_sequence == commit_sequence,
    {
        let mut i: usize = 0;
        while i < self.commits.len()
            invariant
                i <= self.commits.len(),
                forall|k: int|
                    0 <= k < i ==> !((#[trigger] self.commits.deep_view()[k]).aggregate_id
                        == aggregate_id && self.commits.deep_view()[k].commit_sequence
                        == commit_sequence),
            decreases self.commits.len() - i,
        {
            if self.commits[i].aggregate_id == aggregate_id && self.commits[i].commit_sequence
                == commit_sequence {
                proof {
                    assert((#[trigger] self.commits()[i as int]).aggregate_id == aggregate_id
                        && self.commits()[i as int].commit_sequence == commit_sequence);
                }
                return true;
            }
            i += 1;
        }
        false
    }

    /// Whether the log holds a commit of `aggregate_id` at
    /// `aggregate_version`.
    fn has_version(&self, aggregate_id: u128, aggregate_version: i64) -> (b: bool)
        ensures
            b == exists|k: int|
                0 <= k < self.commits().len() && (#[trigger] self.commits()[k]).aggregate_id
                    == aggregate_id && self.commits()[k].aggregate_version == aggregate_version,
    {
        let mut i: usize = 0;
        while i < self.commits.len()
            invariant
                i <= self.commits.len(),
                forall|k: int|
                    0 <= k < i ==> !((#[trigger] self.commits.deep_view()[k]).aggregate_id
                        == aggregate_id && self.commits.deep_view()[k].aggregate_version
                        == aggregate_version),
            decreases self.commits.len() - i,
        {
            if self.commits[i].aggregate_id == aggregate_id && self.commits[i].aggregate_version
                == aggregate_version {
                proof {
                    assert((#[trigger] self.commits()[i as int]).aggregate_id == aggregate_id
                        && self.commits()[i as int].aggregate_version == aggregate_version);
                }
                return true;
            }
            i += 1;
        }
        false
    }
}

impl Store for MemoryStore {
    type Connection = ();

    type Error = MemoryStoreError;

    closed spec fn commits(&self) -> Seq<CommitView> {
        self.commits.deep_view()
    }

    fn with_connection(_connection: ()) -> (s: Self)
        ensures
            s.commits() == Seq::<CommitView>::empty(),
    {
        let s = MemoryStore { commits: Vec::new() };
        proof {
            assert(s.commits.deep_view() =~= Seq::<CommitView>::empty());
        }
        s
    }

    fn commit(&mut self, commit_attempt: &CommitAttempt) -> (r: Result<i64, MemoryStoreError>)
        ensures
            match r {
                Ok(n) => n as int == if old(self).commits().len() == 0 {
                    1int
                } else {
                    old(self).commits().last().commit_number + 1
                },
                Err(_) => conflicts(old(self).commits(), commit_attempt@) || commit_attempt@.events_count
                    < 1 || (old(self).commits().len() > 0
                    && old(self).commits().last().commit_number == i64::MAX),
            },
    {
        let ghost log0 = self.commits();
        let ghost a = commit_attempt@;
        if let Some(j) = self.find_by_commit_id(commit_attempt.commit_id) {
            proof {
                assert(id_conflict(log0, a)) by {
                    assert(log0[j as int].commit_id == a.commit_id);
                }
            }
            return Err(
                MemoryStoreError {
                    error_type: StoreErrorType::DuplicateWriteError(
                        StorageCommitConflict::CommitIdConflict,
                    ),
                },
            );
        }
        proof {
            assert(!id_conflict(log0, a));
        }
        if self.has_sequence(commit_attempt.aggregate_id, commit_attempt.commit_sequence) {
            proof {
                assert(sequence_conflict(log0, a));
            }
            return Err(
                MemoryStoreError {
                    error_type: StoreErrorType::DuplicateWriteError(
                        StorageCommitConflict::CommitSequenceConflict,
                    ),
                },
            );
        }
        if self.has_version(commit_attempt.aggregate_id, commit_attempt.aggregate_version) {
            proof {
                assert(version_conflict(log0, a));
            }
            return Err(
                MemoryStoreError {
                    error_type: StoreErrorType::DuplicateWriteError(
                        StorageCommitConflict::AggregateVersionConflict,
                    ),
                },
            );
        }
        proof {
            assert(!conflicts(log0, a));
        }
        if commit_attempt.events_count < 1 {
            return Err(MemoryStoreError { error_type: StoreErrorType::UnknownError });
        }
        let len = self.commits.len();
        let commit_number: i64 = if len == 0 {
            1
        } else {
            let last_number = self.commits[len - 1].commit_number;
            if last_number == i64::MAX {
                return Err(MemoryStoreError { error_type: StoreErrorType::UnknownError });
            }
            last_number + 1
        };
        let c = commit_attempt.committed(commit_number);
        self.commits.push(c);
        proof {
            assert(self.commits() =~= log0.push(a.committed(commit_number as int)));
            let log1 = self.commits();
            let m = log0.len() as int;
            assert forall|i: int, j: int| 0 <= i < j < log1.len() implies (#[trigger] log1[i]).commit_number
                < (#[trigger] log1[j]).commit_number by {
                if j == m && m > 0 {
                    assert(log1[j].commit_number == commit_number as int);
                    if i < m - 1 {
                        assert(log0[i].commit_number < log0[m - 1].commit_number);
                    }
                }
            }
            assert(log_wf(log1));
        }
        Ok(commit_number)
    }

    fn get_range(&self, aggregate_id: u128, min_sequence: i64, max_sequence: i64) -> (r: Result<
        Vec<Commit>,
        MemoryStoreError,
    >)
        ensures
            r is Ok,
    {
        let ghost log = self.commits();
        let ghost lo = min_sequence as int;
        let ghost hi = max_sequence as int;
        let mut out: Vec<Commit> = Vec::new();
        proof {
            assert(log.take(0) =~= Seq::<CommitView>::empty());
            assert(in_range(log.take(0), aggregate_id, lo, hi).to_multiset() =~= out.deep_view().to_multiset()) by {
                reveal(Seq::filter);
                assert(out.deep_view() =~= Seq::<CommitView>::empty());
            }
        }
        let mut i: usize = 0;
        while i < self.commits.len()
            invariant
                log == self.commits(),
                log_wf(log),
                lo == min_sequence as int,
                hi == max_sequence as int,
                i <= self.commits.len(),
                sorted_by_sequence(out.deep_view()),
                forall|k: int|
                    0 <= k < out.deep_view().len() ==> seq_in_range(
                        #[trigger] out.deep_view()[k],
                        aggregate_id,
                        lo,
                        hi,
                    ),
                out.deep_view().to_multiset() == in_range(
                    log.take(i as int),
                    aggregate_id,
                    lo,
                    hi,
                ).to_multiset(),
            decreases self.commits.len() - i,
        {
            let ghost prefix = log.take(i as int);
            let c_matches = self.commits[i].aggregate_id == aggregate_id && min_sequence
                <= self.commits[i].commit_sequence && self.commits[i].commit_sequence
                <= max_sequence;
            let ghost cv = log[i as int];
            if c_matches {
                let mut pos: usize = 0;
                while pos < out.len() && out[pos].commit_sequence < self.commits[i].commit_sequence
                    invariant
                        pos <= out.len(),
                        i < self.commits.len(),
                        cv == log[i as int],
                        log == self.commits(),
                        forall|k: int|
                            0 <= k < pos ==> (#[trigger] out.deep_view()[k]).commit_sequence
                                < cv.commit_sequence,
                    decreases out.len() - pos,
                {
                    pos += 1;
                }
                proof {
                    // Every element already gathered comes from an earlier
                    // log position with the same aggregate, so the store
                    // invariant makes its sequence differ from `cv`'s.
                    if pos < out.len() {
                        let ov = out.deep_view()[pos as int];
                        assert(out.deep_view().contains(ov)) by {
                            assert(out.deep_view()[pos as int] == ov);
                        }
                        assert(out.deep_view().to_multiset().count(ov) > 0);
                        assert(in_range(prefix, aggregate_id, lo, hi).to_multiset().count(ov) > 0);
                        assert(in_range(prefix, aggregate_id, lo, hi).contains(ov));
                        assert(prefix.contains(ov));
                        let j = choose|j: int| 0 <= j < prefix.len() && prefix[j] == ov;
                        assert(log[j] == ov);
                        assert(ov.commit_sequence != cv.commit_sequence) by {
                            assert(log[j].aggregate_id == log[i as int].aggregate_id);
                        }
                        assert(ov.commit_sequence > cv.commit_sequence);
                    }
                }
                let ghost out0 = out.deep_view();
                let entry = self.commits[i].clone();
                out.insert(pos, entry);
                proof {
                    assert(out.deep_view() =~= out0.insert(pos as int, cv)) by {
                        out0.insert_ensures(pos as int, cv);
                    }
                    lemma_insert_to_multiset(out0, pos as int, cv);
                    out0.insert_ensures(pos as int, cv);
                    assert(sorted_by_sequence(out.deep_view()));
                    assert(seq_in_range(cv, aggregate_id, lo, hi));
                }
            }
            proof {
                let pushed = prefix.push(cv);
                assert(log.take(i + 1) =~= pushed);
                if c_matches {
                    assert(seq_in_range(cv, aggregate_id, lo, hi));
                    assert(in_range(pushed, aggregate_id, lo, hi) == in_range(
                        prefix,
                        aggregate_id,
                        lo,
                        hi,
                    ).push(cv));
                    assert(in_range(prefix, aggregate_id, lo, hi).push(cv).to_multiset()
                        == in_range(prefix, aggregate_id, lo, hi).to_multiset().insert(cv));
                } else {
                    assert(!seq_in_range(cv, aggregate_id, lo, hi));
                    assert(in_range(pushed, aggregate_id, lo, hi) == in_range(
                        prefix,
                        aggregate_id,
                        lo,
                        hi,
                    ));
                }
                assert(out.deep_view().to_multiset() == in_range(
                    log.take(i + 1),
                    aggregate_id,
                    lo,
                    hi,
                ).to_multiset());
            }
            i += 1;
        }
        proof {
            assert(log.take(log.len() as int) =~= log);
        }
        Ok(out)
    }

    fn get_undispatched_commits(&mut self) -> (r: Result<Vec<Commit>, MemoryStoreError>)
        ensures
            r is Ok,
    {
        let ghost log = self.commits();
        let mut out: Vec<Commit> = Vec::new();
        proof {
            assert(log.take(0) =~= Seq::<CommitView>::empty());
            assert(undispatched(log.take(0)) =~= out.deep_view()) by {
                reveal(Seq::filter);
                assert(out.deep_view() =~= Seq::<CommitView>::empty());
            }
        }
        let mut i: usize = 0;
        while i < self.commits.len()
            invariant
                log == self.commits(),
                i <= self.commits.len(),
                out.deep_view() == undispatched(log.take(i as int)),
            decreases self.commits.len() - i,
        {
            let ghost cv = log[i as int];
            let ghost out0 = out.deep_view();
            if !self.commits[i].dispatched {
                let entry = self.commits[i].clone();
                out.push(entry);
                proof {
                    assert(out.deep_view() =~= out0.push(cv));
                }
            }
            proof {
                let pushed = log.take(i as int).push(cv);
                assert(log.take(i + 1) =~= pushed);
                if !cv.dispatched {
                    assert(undispatched(pushed) == undispatched(log.take(i as int)).push(cv));
                } else {
                    assert(undispatched(pushed) == undispatched(log.take(i as int)));
                }
                assert(out.deep_view() == undispatched(log.take(i + 1)));
            }
            i += 1;
        }
        proof {
            assert(log.take(log.len() as int) =~= log);
        }
        Ok(out)
    }

    fn mark_commit_as_dispatched(&mut self, commit_id: u128) -> (r: Result<(), MemoryStoreError>)
        ensures
            r is Ok,
    {
        let ghost log0 = self.commits();
        let mut i: usize = 0;
        while i < self.commits.len()
            invariant
                self.commits.deep_view().len() == log0.len(),
                i <= self.commits.len(),
                forall|k: int|
                    0 <= k < i ==> #[trigger] self.commits.deep_view()[k] == (
                    if log0[k].commit_id == commit_id {
                        with_dispatched(log0[k])
                    } else {
                        log0[k]
                    }),
                forall|k: int|
                    i <= k < log0.len() ==> #[trigger] self.commits.deep_view()[k] == log0[k],
            decreases self.commits.len() - i,
        {
            if self.commits[i].commit_id == commit_id {
                let mut entry = self.commits[i].clone();
                proof {
                    assert(self.commits.deep_view()[i as int] == self.commits@[i as int].deep_view());
                    assert(entry@ == log0[i as int]);
                }
                entry.dispatched = true;
                let ghost before = self.commits.deep_view();
                self.commits.set(i, entry);
                proof {
                    assert(entry@ =~= with_dispatched(log0[i as int]));
                    assert forall|k: int| 0 <= k < log0.len() implies #[trigger] self.commits.deep_view()[k]
                        == (if k == i as int {
                        with_dispatched(log0[k])
                    } else {
                        before[k]
                    }) by {}
                }
            }
            i += 1;
        }
        proof {
            assert(self.commits() =~= mark_dispatched(log0, commit_id));
            let log1 = self.commits();
            assert forall|k: int| 0 <= k < log1.len() implies (#[trigger] log1[k]).commit_id
                == log0[k].commit_id && log1[k].aggregate_id == log0[k].aggregate_id
                && log1[k].commit_sequence == log0[k].commit_sequence && log1[k].aggregate_version
                == log0[k].aggregate_version && log1[k].commit_number == log0[k].commit_number
                && log1[k].events_count == log0[k].events_count by {}
            assert(log_wf(log1));
        }
        Ok(())
    }

    fn get_commit(&mut self, commit_id: &u128) -> (r: Result<Commit, MemoryStoreError>)
        ensures
            r is Ok <==> exists|k: int|
                0 <= k < old(self).commits().len() && (#[trigger] old(
                    self,
                ).commits()[k]).commit_id == *commit_id,
    {
        match self.find_by_commit_id(*commit_id) {
            Some(i) => {
                let c = self.commits[i].clone();
                proof {
                    assert(self.commits().contains(c@)) by {
                        assert(self.commits()[i as int] == c@);
                    }
                }
                Ok(c)
            },
            None => Err(MemoryStoreError { error_type: StoreErrorType::UnknownError }),
        }
    }
}

} // verus!
