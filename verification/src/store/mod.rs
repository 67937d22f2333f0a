//! The store contract: a durable append-only log of commits keyed by
//! aggregate, enforcing three uniqueness constraints.
//!
//! The mathematical model of a store is the sequence of commit views in
//! append order.  [`log_wf`] captures the invariants every conforming store
//! maintains: unique commit ids, unique `(aggregate_id, commit_sequence)`
//! pairs, unique `(aggregate_id, aggregate_version)` pairs, strictly
//! monotonic commit numbers, and at least one event per commit.

pub mod memory;
pub mod sqlite;

use vstd::prelude::*;

use crate::commit::{AttemptView, Commit, CommitAttempt, CommitView};

verus! {

broadcast use {
    vstd::seq_lib::group_filter_ensures,
    vstd::seq::Seq::lemma_filter_contains_rev,
};

/// Which uniqueness constraint an append ran into.
#[derive(Clone, Copy, Debug, PartialEq, Eq, Structural)]
pub enum StorageCommitConflict {
    CommitIdConflict,
    CommitSequenceConflict,
    AggregateVersionConflict,
}

/// The abstract error taxonomy every store adapter translates its backend
/// errors into.
#[derive(Clone, Copy, Debug, PartialEq, Eq, Structural)]
pub enum StoreErrorType {
    DuplicateWriteError(StorageCommitConflict),
    UnknownError,
}

/// An error a store adapter reports.  Every concrete error classifies
/// itself into the abstract taxonomy.
pub trait StoreError: Sized {
    /// The classification of this error, as a spec-level value.  An
    /// implementation may leave it unspecified.
    open spec fn spec_error_type(&self) -> StoreErrorType {
        arbitrary()
    }

    /// The classification of this error.
    fn error_type(&self) -> (t: StoreErrorType)
        ensures
            t == self.spec_error_type(),
    ;

    /// A human-readable rendering of the error.
    fn describe(&self) -> String;
}

/// A stored commit would collide with the attempt on `commit_id`.
pub open spec fn id_conflict(log: Seq<CommitView>, a: AttemptView) -> bool {
    exists|i: int| 0 <= i < log.len() && (#[trigger] log[i]).commit_id == a.commit_id
}

/// A stored commit would collide with the attempt on
/// `(aggregate_id, commit_sequence)`.
pub open spec fn sequence_conflict(log: Seq<CommitView>, a: AttemptView) -> bool {
    exists|i: int|
        0 <= i < log.len() && (#[trigger] log[i]).aggregate_id == a.aggregate_id
            && log[i].commit_sequence == a.commit_sequence
}

/// A stored commit would collide with the attempt on
/// `(aggregate_id, aggregate_version)`.
pub open spec fn version_conflict(log: Seq<CommitView>, a: AttemptView) -> bool {
    exists|i: int|
        0 <= i < log.len() && (#[trigger] log[i]).aggregate_id == a.aggregate_id
            && log[i].aggregate_version == a.aggregate_version
}

/// Appending the attempt would violate one of the three uniqueness
/// constraints.
pub open spec fn conflicts(log: Seq<CommitView>, a: AttemptView) -> bool {
    id_conflict(log, a) || sequence_conflict(log, a) || version_conflict(log, a)
}

/// The deterministic classification of a conflicting attempt: commit id
/// collisions are reported first, then sequence collisions, then version
/// collisions.
pub open spec fn classify_conflict(log: Seq<CommitView>, a: AttemptView) -> StorageCommitConflict {
    if id_conflict(log, a) {
        StorageCommitConflict::CommitIdConflict
    } else if sequence_conflict(log, a) {
        StorageCommitConflict::CommitSequenceConflict
    } else {
        StorageCommitConflict::AggregateVersionConflict
    }
}

/// No two stored commits share a commit id.
pub open spec fn unique_commit_ids(log: Seq<CommitView>) -> bool {
    forall|i: int, j: int|
        0 <= i < j < log.len() ==> (#[trigger] log[i]).commit_id != (#[trigger] log[j]).commit_id
}

/// No two stored commits of one aggregate share a commit sequence.
pub open spec fn unique_sequences(log: Seq<CommitView>) -> bool {
    forall|i: int, j: int|
        0 <= i < j < log.len() ==> !((#[trigger] log[i]).aggregate_id == (
        #[trigger] log[j]).aggregate_id && log[i].commit_sequence == log[j].commit_sequence)
}

/// No two stored commits of one aggregate share an aggregate version.
pub open spec fn unique_versions(log: Seq<CommitView>) -> bool {
    forall|i: int, j: int|
        0 <= i < j < log.len() ==> !((#[trigger] log[i]).aggregate_id == (
        #[trigger] log[j]).aggregate_id && log[i].aggregate_version == log[j].aggregate_version)
}

/// Commit numbers grow strictly in append order.
pub open spec fn increasing_numbers(log: Seq<CommitView>) -> bool {
    forall|i: int, j: int|
        0 <= i < j < log.len() ==> (#[trigger] log[i]).commit_number < (
        #[trigger] log[j]).commit_number
}

/// Every stored commit groups at least one event.
pub open spec fn positive_events(log: Seq<CommitView>) -> bool {
    forall|i: int| 0 <= i < log.len() ==> (#[trigger] log[i]).events_count >= 1
}

/// The store invariants, over the append-ordered log of commits.
pub open spec fn log_wf(log: Seq<CommitView>) -> bool {
    &&& unique_commit_ids(log)
    &&& unique_sequences(log)
    &&& unique_versions(log)
    &&& increasing_numbers(log)
    &&& positive_events(log)
}

/// Whether a commit belongs to `aggregate_id` with a sequence in `[lo, hi]`.
pub open spec fn seq_in_range(c: CommitView, aggregate_id: u128, lo: int, hi: int) -> bool {
    c.aggregate_id == aggregate_id && lo <= c.commit_sequence && c.commit_sequence <= hi
}

/// The commits of one aggregate whose sequence lies in `[lo, hi]`, in
/// append order.
pub open spec fn in_range(log: Seq<CommitView>, aggregate_id: u128, lo: int, hi: int) -> Seq<
    CommitView,
> {
    log.filter(|c: CommitView| seq_in_range(c, aggregate_id, lo, hi))
}

/// The commits not yet handed to a dispatch delegate, in append order.
pub open spec fn undispatched(log: Seq<CommitView>) -> Seq<CommitView> {
    log.filter(|c: CommitView| !c.dispatched)
}

/// The same commit with its `dispatched` flag set.
pub open spec fn with_dispatched(c: CommitView) -> CommitView {
    CommitView { dispatched: true, ..c }
}

/// The log after marking every commit bearing `commit_id` as dispatched.
/// With unique commit ids this touches at most one commit; marking an
/// already-dispatched commit is a no-op.
pub open spec fn mark_dispatched(log: Seq<CommitView>, commit_id: u128) -> Seq<CommitView> {
    log.map_values(
        |c: CommitView|
            if c.commit_id == commit_id {
                with_dispatched(c)
            } else {
                c
            },
    )
}

/// Strictly ascending by `commit_sequence`.
pub open spec fn sorted_by_sequence(cs: Seq<CommitView>) -> bool {
    forall|i: int, j: int|
        0 <= i < j < cs.len() ==> (#[trigger] cs[i]).commit_sequence < (
        #[trigger] cs[j]).commit_sequence
}

/// Strictly ascending by `commit_number`.
pub open spec fn sorted_by_number(cs: Seq<CommitView>) -> bool {
    forall|i: int, j: int|
        0 <= i < j < cs.len() ==> (#[trigger] cs[i]).commit_number < (
        #[trigger] cs[j]).commit_number
}

/// The commit sequences stored for one aggregate.
pub open spec fn sequences_of(log: Seq<CommitView>, aggregate_id: u128) -> Set<int> {
    Set::new(
        |s: int|
            exists|i: int|
                0 <= i < log.len() && (#[trigger] log[i]).aggregate_id == aggregate_id
                    && log[i].commit_sequence == s,
    )
}

/// The `n` consecutive integers starting at `s0`.
pub open spec fn contiguous_range(s0: int, n: nat) -> Set<int> {
    Set::new(|x: int| s0 <= x < s0 + n)
}

/// No two stored commits share a commit id, stated pairwise.
pub proof fn lemma_no_shared_commit_id(log: Seq<CommitView>, i: int, j: int)
    requires
        log_wf(log),
        0 <= i < log.len(),
        0 <= j < log.len(),
        i != j,
    ensures
        log[i].commit_id != log[j].commit_id,
{
}

/// For any aggregate, the stored aggregate versions are pairwise
/// distinct.
pub proof fn lemma_no_shared_aggregate_version(log: Seq<CommitView>, i: int, j: int)
    requires
        log_wf(log),
        0 <= i < log.len(),
        0 <= j < log.len(),
        i != j,
        log[i].aggregate_id == log[j].aggregate_id,
    ensures
        log[i].aggregate_version != log[j].aggregate_version,
{
}

/// What a range read holds: exactly the stored commits of the aggregate
/// whose sequence lies in the window, whatever order the log keeps them
/// in.
pub proof fn lemma_range_contents(
    log: Seq<CommitView>,
    aggregate_id: u128,
    lo: int,
    hi: int,
    result: Seq<CommitView>,
)
    requires
        result.to_multiset() == in_range(log, aggregate_id, lo, hi).to_multiset(),
    ensures
        forall|x: CommitView|
            #[trigger] result.contains(x) <==> (log.contains(x) && seq_in_range(
                x,
                aggregate_id,
                lo,
                hi,
            )),
{
    broadcast use vstd::seq_lib::group_to_multiset_ensures;

    let filtered = in_range(log, aggregate_id, lo, hi);
    assert forall|x: CommitView| #[trigger] result.contains(x) <==> (log.contains(x)
        && seq_in_range(x, aggregate_id, lo, hi)) by {
        assert(result.contains(x) <==> result.to_multiset().count(x) > 0);
        assert(filtered.contains(x) <==> filtered.to_multiset().count(x) > 0);
        if filtered.contains(x) {
            let i = choose|i: int| 0 <= i < filtered.len() && filtered[i] == x;
            assert(seq_in_range(filtered[i], aggregate_id, lo, hi));
            assert(log.contains(x));
        }
        if log.contains(x) && seq_in_range(x, aggregate_id, lo, hi) {
            let i = choose|i: int| 0 <= i < log.len() && log[i] == x;
            assert(filtered.contains(log[i]));
        }
    }
}

/// The undispatched commits come out strictly ascending by commit
/// number, because a filter keeps the append order and commit numbers
/// grow along it.
pub proof fn lemma_undispatched_sorted_by_number(log: Seq<CommitView>)
    requires
        increasing_numbers(log),
    ensures
        sorted_by_number(undispatched(log)),
    decreases log.len(),
{
    reveal(Seq::filter);
    if log.len() > 0 {
        let prefix = log.drop_last();
        let last = log.last();
        assert(increasing_numbers(prefix)) by {
            assert forall|i: int, j: int|
                0 <= i < j < prefix.len() implies (#[trigger] prefix[i]).commit_number < (
            #[trigger] prefix[j]).commit_number by {
                assert(prefix[i] == log[i] && prefix[j] == log[j]);
            }
        }
        lemma_undispatched_sorted_by_number(prefix);
        if !last.dispatched {
            assert(undispatched(log) == undispatched(prefix).push(last));
            let u0 = undispatched(prefix);
            let u = u0.push(last);
            assert forall|i: int, j: int|
                0 <= i < j < u.len() implies (#[trigger] u[i]).commit_number < (
            #[trigger] u[j]).commit_number by {
                if j < u0.len() {
                    assert(u[i] == u0[i] && u[j] == u0[j]);
                } else {
                    assert(u[j] == last);
                    assert(u[i] == u0[i]);
                    assert(u0.contains(u0[i])) by {
                        assert(u0[i] == u0[i]);
                    }
                    assert(prefix.contains(u0[i]));
                    let p = choose|p: int| 0 <= p < prefix.len() && prefix[p] == u0[i];
                    assert(log[p] == u0[i]);
                    assert(log[p].commit_number < log[log.len() - 1].commit_number);
                }
            }
        } else {
            assert(undispatched(log) == undispatched(prefix));
        }
    }
}

/// After marking a commit dispatched, no undispatched commit bears its
/// id any more.
pub proof fn lemma_marked_commit_not_undispatched(log: Seq<CommitView>, commit_id: u128)
    ensures
        forall|i: int|
            0 <= i < undispatched(mark_dispatched(log, commit_id)).len() ==> (
            #[trigger] undispatched(mark_dispatched(log, commit_id))[i]).commit_id != commit_id,
{
    let marked = mark_dispatched(log, commit_id);
    assert forall|i: int|
        0 <= i < undispatched(marked).len() implies (#[trigger] undispatched(
        marked,
    )[i]).commit_id != commit_id by {
        let u = undispatched(marked);
        assert(!u[i].dispatched);
        assert(u.contains(u[i])) by {
            assert(u[i] == u[i]);
        }
        assert(marked.contains(u[i]));
        let p = choose|p: int| 0 <= p < marked.len() && marked[p] == u[i];
        assert(marked[p] == if log[p].commit_id == commit_id {
            with_dispatched(log[p])
        } else {
            log[p]
        });
    }
}

/// Marking a commit dispatched twice leaves the log exactly as marking
/// it once does.
pub proof fn lemma_mark_dispatched_idempotent(log: Seq<CommitView>, commit_id: u128)
    ensures
        mark_dispatched(mark_dispatched(log, commit_id), commit_id) == mark_dispatched(
            log,
            commit_id,
        ),
{
    let once = mark_dispatched(log, commit_id);
    let twice = mark_dispatched(once, commit_id);
    assert forall|i: int| 0 <= i < log.len() implies twice[i] == once[i] by {
        assert(with_dispatched(with_dispatched(log[i])) =~= with_dispatched(log[i]));
    }
    assert(twice =~= once);
}

/// Appending at the next sequence keeps an aggregate's stored sequences
/// gap-free: if they formed `{s0, …, s0 + n − 1}` and the new commit's
/// sequence is `s0 + n`, they now form `{s0, …, s0 + n}`.
pub proof fn lemma_append_next_sequence_keeps_density(
    log: Seq<CommitView>,
    c: CommitView,
    s0: int,
    n: nat,
)
    requires
        sequences_of(log, c.aggregate_id) == contiguous_range(s0, n),
        c.commit_sequence == s0 + n,
    ensures
        sequences_of(log.push(c), c.aggregate_id) == contiguous_range(s0, n + 1),
{
    let pushed = log.push(c);
    let aggregate_id = c.aggregate_id;
    assert forall|x: int| #[trigger] sequences_of(pushed, aggregate_id).contains(x)
        implies contiguous_range(s0, n + 1).contains(x) by {
        let i = choose|i: int|
            0 <= i < pushed.len() && (#[trigger] pushed[i]).aggregate_id == aggregate_id
                && pushed[i].commit_sequence == x;
        if i < log.len() {
            assert(sequences_of(log, aggregate_id).contains(x)) by {
                assert(log[i].aggregate_id == aggregate_id && log[i].commit_sequence == x);
            }
            assert(contiguous_range(s0, n).contains(x));
        } else {
            assert(pushed[i] == c);
        }
    }
    assert forall|x: int| contiguous_range(s0, n + 1).contains(x)
        implies #[trigger] sequences_of(pushed, aggregate_id).contains(x) by {
        if x < s0 + n {
            assert(contiguous_range(s0, n).contains(x));
            assert(sequences_of(log, aggregate_id).contains(x));
            let i = choose|i: int|
                0 <= i < log.len() && (#[trigger] log[i]).aggregate_id == aggregate_id
                    && log[i].commit_sequence == x;
            assert((#[trigger] pushed[i]).aggregate_id == aggregate_id && pushed[i].commit_sequence
                == x);
        } else {
            assert(x == s0 + n);
            assert((#[trigger] pushed[log.len() as int]).aggregate_id == aggregate_id
                && pushed[log.len() as int].commit_sequence == x);
        }
    }
    assert(sequences_of(pushed, aggregate_id) =~= contiguous_range(s0, n + 1));
}

/// The store contract.  A conforming adapter persists commit attempts
/// atomically, detects and classifies uniqueness conflicts, serves ordered
/// reads, and drives the dispatched flag forward.
pub trait Store: Sized {
    type Connection;

    type Error: StoreError;

    /// The durable log, in append order.  An implementation may leave
    /// the model unspecified; the contracts below then promise nothing
    /// useful of it.
    open spec fn commits(&self) -> Seq<CommitView> {
        arbitrary()
    }

    /// Wraps an already-established backend connection.
    fn with_connection(connection: Self::Connection) -> (s: Self)
        ensures
            log_wf(s.commits()),
    ;

    /// Atomically persists the attempt and returns the assigned global
    /// commit number.  A conflicting attempt is rejected untouched and the
    /// conflict is classified deterministically; a non-conflicting attempt
    /// may still fail with `UnknownError` when the backend does.
    fn commit(&mut self, commit_attempt: &CommitAttempt) -> (r: Result<i64, Self::Error>)
        requires
            log_wf(old(self).commits()),
        ensures
            log_wf(final (self).commits()),
            match r {
                Ok(n) => {
                    &&& commit_attempt@.events_count >= 1
                    &&& !conflicts(old(self).commits(), commit_attempt@)
                    &&& final (self).commits() == old(self).commits().push(
                        commit_attempt@.committed(n as int),
                    )
                },
                Err(e) => {
                    &&& final (self).commits() == old(self).commits()
                    &&& conflicts(old(self).commits(), commit_attempt@)
                        ==> e.spec_error_type() == StoreErrorType::DuplicateWriteError(
                        classify_conflict(old(self).commits(), commit_attempt@),
                    )
                    &&& e.spec_error_type() is DuplicateWriteError ==> conflicts(
                        old(self).commits(),
                        commit_attempt@,
                    )
                },
            },
    ;

    /// All durable commits of `aggregate_id` whose sequence lies in
    /// `[min_sequence, max_sequence]`, strictly ascending by sequence.
    fn get_range(&self, aggregate_id: u128, min_sequence: i64, max_sequence: i64) -> (r: Result<
        Vec<Commit>,
        Self::Error,
    >)
        requires
            log_wf(self.commits()),
        ensures
            r matches Ok(v) ==> {
                &&& sorted_by_sequence(v.deep_view())
                &&& v.deep_view().to_multiset() == in_range(
                    self.commits(),
                    aggregate_id,
                    min_sequence as int,
                    max_sequence as int,
                ).to_multiset()
            },
    ;

    /// All commits not yet dispatched, strictly ascending by commit number.
    fn get_undispatched_commits(&mut self) -> (r: Result<Vec<Commit>, Self::Error>)
        requires
            log_wf(old(self).commits()),
        ensures
            final (self).commits() == old(self).commits(),
            r matches Ok(v) ==> v.deep_view() == undispatched(old(self).commits()),
    ;

    /// Marks the commit bearing `commit_id` as dispatched.  Idempotent: an
    /// already-dispatched commit is left as it is.
    fn mark_commit_as_dispatched(&mut self, commit_id: u128) -> (r: Result<(), Self::Error>)
        requires
            log_wf(old(self).commits()),
        ensures
            log_wf(final (self).commits()),
            match r {
                Ok(()) => final (self).commits() == mark_dispatched(
                    old(self).commits(),
                    commit_id,
                ),
                Err(_) => final (self).commits() == old(self).commits(),
            },
    ;

    /// Retrieves one durable commit by its id.  A read never reports a
    /// uniqueness conflict: a failure here is a backend failure or a
    /// missing commit.
    fn get_commit(&mut self, commit_id: &u128) -> (r: Result<Commit, Self::Error>)
        requires
            log_wf(old(self).commits()),
        ensures
            final (self).commits() == old(self).commits(),
            match r {
                Ok(c) => old(self).commits().contains(c@) && c@.commit_id == *commit_id,
                Err(e) => e.spec_error_type() == StoreErrorType::UnknownError,
            },
    ;
}

} // verus!
