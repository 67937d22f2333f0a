//! The client: the aggregate replay engine and the command pipeline.
//!
//! A client owns a store and a dispatcher and keeps a session watermark,
//! the highest commit sequence it has replayed.  `fetch_latest` folds the
//! commits past the watermark into a fresh aggregate; `issue_command`
//! turns a command's events into a commit attempt at the next sequence,
//! appends it, opportunistically drains the dispatcher, and hands back the
//! durable commit.

use vstd::prelude::*;

use crate::aggregate::Aggregate;
use crate::command::Command;
use crate::commit::{AttemptView, Commit, CommitAttempt, CommitView};
use crate::dispatch::{mark_first, same_except_dispatched, DispatchDelegate, Dispatcher};
use crate::dispatch::lemma_mark_first_relaxes;
use crate::events::{EncodingError, Event, Metadata};
use crate::store::{
    classify_conflict, conflicts, id_conflict, in_range, log_wf, seq_in_range, undispatched,
    Store, StoreError, StoreErrorType,
};

verus! {

broadcast use {
    vstd::seq_lib::group_filter_ensures,
    vstd::seq_lib::group_to_multiset_ensures,
    vstd::seq::Seq::lemma_filter_contains_rev,
    vstd::seq::Seq::lemma_filter_push,
};

/// An error of a client operation: either a payload could not be encoded
/// or decoded, or the store failed.
#[derive(Debug)]
pub enum ClientError<Se> {
    SerializationError(EncodingError),
    StoreError(Se),
}

/// What `issue_command` can fail with: a client error, or the caller's
/// own command error, surfaced verbatim.
#[derive(Debug)]
pub enum IssueError<Se, Ce> {
    Client(ClientError<Se>),
    Command(Ce),
}

/// Relies on uuid's `Uuid::new_v4`, taken as its 128-bit value, for a
/// freshly generated commit identifier.  The value is random: nothing is
/// assumed of it, and the store's uniqueness check is what rules out a
/// collision.
#[verifier::external_body]
fn fresh_commit_id() -> u128 {
    uuid::Uuid::new_v4().as_u128()
}

/// Relies on chrono's `Utc::now`, rendered by `timestamp_millis` as
/// milliseconds since the Unix epoch.  The clock can read anything:
/// nothing is assumed of the value.
#[verifier::external_body]
fn current_timestamp_millis() -> i64 {
    chrono::Utc::now().timestamp_millis()
}

/// Whether a stored payload decodes to an event list.
pub open spec fn decodable<E: Event>(c: CommitView) -> bool {
    E::decoded(c.serialized_events) is Some
}

/// How many events a stored payload decodes to.
pub open spec fn decoded_count<E: Event>(c: CommitView) -> int {
    match E::decoded(c.serialized_events) {
        Some(events) => events.len() as int,
        None => 0,
    }
}

/// Every commit of the batch carries a well-formed payload.
pub open spec fn all_decodable<E: Event>(cs: Seq<CommitView>) -> bool {
    forall|i: int| 0 <= i < cs.len() ==> decodable::<E>(#[trigger] cs[i])
}

/// The number of events a batch of commits replays.
pub open spec fn total_decoded<E: Event>(cs: Seq<CommitView>) -> int
    decreases cs.len(),
{
    if cs.len() == 0 {
        0
    } else {
        total_decoded::<E>(cs.drop_last()) + decoded_count::<E>(cs.last())
    }
}

/// Removing one commit from a batch removes exactly its events from the
/// total.
proof fn lemma_total_decoded_remove<E: Event>(s: Seq<CommitView>, j: int)
    requires
        0 <= j < s.len(),
    ensures
        total_decoded::<E>(s) == total_decoded::<E>(s.remove(j)) + decoded_count::<E>(s[j]),
    decreases s.len(),
{
    if j == s.len() - 1 {
        assert(s.remove(j) =~= s.drop_last());
    } else {
        let t = s.drop_last();
        lemma_total_decoded_remove::<E>(t, j);
        assert(s.remove(j).drop_last() =~= t.remove(j));
        assert(s.remove(j).last() == s.last());
        assert(t[j] == s[j]);
    }
}

/// The total is a property of the batch's contents, not of their order.
pub proof fn lemma_total_decoded_permutation<E: Event>(a: Seq<CommitView>, b: Seq<CommitView>)
    requires
        a.to_multiset() == b.to_multiset(),
    ensures
        total_decoded::<E>(a) == total_decoded::<E>(b),
    decreases a.len(),
{
    if a.len() == 0 {
        assert(b.to_multiset().len() == 0);
        assert(b.len() == 0);
    } else {
        let x = a.last();
        assert(a.contains(x)) by {
            assert(a[a.len() - 1] == x);
        }
        assert(b.to_multiset().count(x) > 0);
        assert(b.contains(x));
        let j = choose|j: int| 0 <= j < b.len() && b[j] == x;
        assert(a.drop_last().to_multiset() == b.remove(j).to_multiset()) by {
            assert(a =~= a.drop_last().push(x));
            assert(a.drop_last().push(x).to_multiset() == a.drop_last().to_multiset().insert(x));
            assert(b.remove(j).to_multiset() == b.to_multiset().remove(b[j]));
            assert(a.drop_last().to_multiset().insert(x).remove(x) =~= a.drop_last().to_multiset());
            assert(b.to_multiset().remove(x) =~= a.drop_last().to_multiset());
        }
        lemma_total_decoded_permutation::<E>(a.drop_last(), b.remove(j));
        lemma_total_decoded_remove::<E>(b, j);
    }
}

/// Two batches with the same contents hold the same commits.
pub proof fn lemma_multiset_eq_members(a: Seq<CommitView>, b: Seq<CommitView>)
    requires
        a.to_multiset() == b.to_multiset(),
    ensures
        forall|x: CommitView| a.contains(x) <==> b.contains(x),
{
    assert forall|x: CommitView| a.contains(x) <==> b.contains(x) by {
        assert(a.contains(x) <==> a.to_multiset().count(x) > 0);
        assert(b.contains(x) <==> b.to_multiset().count(x) > 0);
    }
}

/// A batch replays at least as many events as any of its prefixes: event
/// counts are never negative.
proof fn lemma_total_decoded_take_bound<E: Event>(s: Seq<CommitView>, k: int)
    requires
        0 <= k <= s.len(),
    ensures
        total_decoded::<E>(s.take(k)) <= total_decoded::<E>(s),
    decreases s.len() - k,
{
    if k == s.len() {
        assert(s.take(k) =~= s);
    } else {
        lemma_total_decoded_take_bound::<E>(s, k + 1);
        assert(s.take(k + 1).drop_last() =~= s.take(k));
        assert(s.take(k + 1).last() == s[k]);
        assert(total_decoded::<E>(s.take(k + 1)) == total_decoded::<E>(s.take(k))
            + decoded_count::<E>(s[k]));
    }
}

/// The step a replay loop takes: one more commit adds its events to the
/// total.
proof fn lemma_total_decoded_take_succ<E: Event>(s: Seq<CommitView>, k: int)
    requires
        0 <= k < s.len(),
    ensures
        total_decoded::<E>(s.take(k + 1)) == total_decoded::<E>(s.take(k)) + decoded_count::<E>(
            s[k],
        ),
{
    assert(s.take(k + 1).drop_last() =~= s.take(k));
    assert(s.take(k + 1).last() == s[k]);
}

/// The round trip of the command pipeline and the replay engine: after a
/// commit is appended for an aggregate past a watermark, a replay of that
/// aggregate past any watermark at most as high sees exactly the events
/// it saw before, plus the events of the new commit.  With the version
/// accounting of `fetch_latest`, the replayed aggregate's version is the
/// pre-command version plus the number of events the command produced.
pub proof fn lemma_command_replay_round_trip<E: Event>(
    log: Seq<CommitView>,
    c: CommitView,
    aggregate_id: u128,
    w: int,
)
    requires
        c.aggregate_id == aggregate_id,
        w < c.commit_sequence <= i64::MAX,
    ensures
        total_decoded::<E>(in_range(log.push(c), aggregate_id, w + 1, i64::MAX as int))
            == total_decoded::<E>(in_range(log, aggregate_id, w + 1, i64::MAX as int))
            + decoded_count::<E>(c),
{
    let base = in_range(log, aggregate_id, w + 1, i64::MAX as int);
    assert(seq_in_range(c, aggregate_id, w + 1, i64::MAX as int));
    assert(in_range(log.push(c), aggregate_id, w + 1, i64::MAX as int) == base.push(c));
    assert(base.push(c).drop_last() =~= base);
    assert(base.push(c).last() == c);
}

/// The attempt a durable commit arose from.
pub open spec fn attempt_of(c: CommitView) -> AttemptView {
    AttemptView {
        aggregate_id: c.aggregate_id,
        aggregate_version: c.aggregate_version,
        commit_id: c.commit_id,
        commit_timestamp: c.commit_timestamp,
        commit_sequence: c.commit_sequence,
        serialized_metadata: c.serialized_metadata,
        serialized_events: c.serialized_events,
        events_count: c.events_count,
    }
}

/// The same commit with its dispatched flag cleared: the form in which it
/// was appended.
pub open spec fn undispatched_form(c: CommitView) -> CommitView {
    CommitView { dispatched: false, ..c }
}

/// Assembles a client from a store and a dispatch delegate.
pub struct ClientBuilder<D: DispatchDelegate, S: Store> {
    pub store: Option<S>,
    pub dispatcher: Option<Dispatcher<D>>,
}

/// A session against one store: the replay engine and command pipeline,
/// with the session's watermark.
pub struct Client<D: DispatchDelegate, S: Store> {
    pub dispatcher: Dispatcher<D>,
    pub store: S,
    pub commit_sequence: i64,
}

impl<D: DispatchDelegate, S: Store> Default for ClientBuilder<D, S> {
    fn default() -> (b: ClientBuilder<D, S>)
        ensures
            b.store is None,
            b.dispatcher is None,
    {
        ClientBuilder { dispatcher: None, store: None }
    }
}

impl<D: DispatchDelegate, S: Store> ClientBuilder<D, S> {
    pub fn with_store(self, s: S) -> (b: ClientBuilder<D, S>)
        ensures
            b.store == Some(s),
            b.dispatcher == self.dispatcher,
    {
        ClientBuilder { store: Some(s), dispatcher: self.dispatcher }
    }

    pub fn with_dispatch_delegate(self, delegate: D) -> (b: ClientBuilder<D, S>)
        ensures
            b.store == self.store,
            b.dispatcher matches Some(d) && d.dispatch_delegate == delegate,
    {
        ClientBuilder { store: self.store, dispatcher: Some(Dispatcher::new(delegate)) }
    }

    /// Finishes the build.  Both a store and a dispatcher are required;
    /// the new session's watermark starts at zero.
    pub fn finish(self) -> (r: Result<Client<D, S>, &'static str>)
        ensures
            match r {
                Ok(c) => {
                    &&& self.store matches Some(s) && c.store == s
                    &&& self.dispatcher matches Some(d) && c.dispatcher == d
                    &&& c.commit_sequence == 0
                },
                Err(m) => {
                    &&& self.store is None || self.dispatcher is None
                    &&& self.store is None ==> m@ == "Cannot build a client; missing a store."@
                    &&& self.store is Some ==> m@
                        == "Cannot build a client; missing a dispatcher."@
                },
            },
    {
        if self.store.is_none() {
            return Err("Cannot build a client; missing a store.");
        }
        if self.dispatcher.is_none() {
            return Err("Cannot build a client; missing a dispatcher.");
        }
        Ok(
            Client {
                store: self.store.unwrap(),
                dispatcher: self.dispatcher.unwrap(),
                commit_sequence: 0,
            },
        )
    }
}

impl<D: DispatchDelegate, S: Store> Client<D, S> {
    /// Persists one commit attempt and opportunistically drains the
    /// dispatcher.  The drain's outcome is ignored: durability is already
    /// established by the append, and delivery stays at-least-once through
    /// later drains.
    pub fn commit(&mut self, commit_attempt: &CommitAttempt) -> (r: Result<i64, S::Error>)
        requires
            log_wf(old(self).store.commits()),
        ensures
            log_wf(final (self).store.commits()),
            final (self).commit_sequence == old(self).commit_sequence,
            match r {
                Ok(n) => {
                    &&& commit_attempt@.events_count >= 1
                    &&& !conflicts(old(self).store.commits(), commit_attempt@)
                    &&& same_except_dispatched(
                        old(self).store.commits().push(commit_attempt@.committed(n as int)),
                        final (self).store.commits(),
                    )
                },
                Err(e) => {
                    &&& final (self).store.commits() == old(self).store.commits()
                    &&& conflicts(old(self).store.commits(), commit_attempt@)
                        ==> e.spec_error_type() == StoreErrorType::DuplicateWriteError(
                        classify_conflict(old(self).store.commits(), commit_attempt@),
                    )
                    &&& e.spec_error_type() is DuplicateWriteError ==> conflicts(
                        old(self).store.commits(),
                        commit_attempt@,
                    )
                },
            },
    {
        let commit_number = match self.store.commit(commit_attempt) {
            Ok(n) => n,
            Err(e) => {
                return Err(e);
            },
        };
        let ghost pushed = self.store.commits();
        let dispatch_result = self.dispatcher.dispatch(&mut self.store);
        proof {
            if dispatch_result is Ok {
                lemma_mark_first_relaxes(pushed, undispatched(pushed).len() as int);
            } else {
                let k = choose|k: int|
                    0 <= k <= undispatched(pushed).len() && self.store.commits()
                        == #[trigger] mark_first(pushed, k);
                lemma_mark_first_relaxes(pushed, k);
            }
            assert(same_except_dispatched(pushed, self.store.commits()));
        }
        Ok(commit_number)
    }

    /// Replays the commits past the session watermark into a fresh
    /// aggregate bound to `aggregate_id`, and advances the watermark to
    /// the highest sequence seen.  A payload that does not decode, or a
    /// replay that would overflow the version counter, is fatal for the
    /// fetch and leaves the session unchanged.
    pub fn fetch_latest<A: Aggregate>(&mut self, aggregate_id: u128) -> (r: Result<
        A,
        ClientError<S::Error>,
    >)
        requires
            log_wf(old(self).store.commits()),
            old(self).commit_sequence < i64::MAX,
        ensures
            final (self).store == old(self).store,
            final (self).dispatcher == old(self).dispatcher,
            log_wf(final (self).store.commits()),
            ({
                let fetched = in_range(
                    old(self).store.commits(),
                    aggregate_id,
                    old(self).commit_sequence + 1,
                    i64::MAX as int,
                );
                match r {
                    Ok(a) => {
                        &&& a.spec_id() == aggregate_id
                        &&& all_decodable::<A::Event>(fetched)
                        &&& a.spec_version() == total_decoded::<A::Event>(fetched)
                        &&& total_decoded::<A::Event>(fetched) <= i64::MAX
                        &&& fetched.len() == 0 ==> final (self).commit_sequence == old(
                            self,
                        ).commit_sequence
                        &&& fetched.len() > 0 ==> (exists|i: int|
                            0 <= i < fetched.len() && (#[trigger] fetched[i]).commit_sequence
                                == final (self).commit_sequence) && (forall|i: int|
                            0 <= i < fetched.len() ==> (#[trigger] fetched[i]).commit_sequence
                                <= final (self).commit_sequence)
                    },
                    Err(e) => {
                        &&& final (self).commit_sequence == old(self).commit_sequence
                        &&& e is SerializationError ==> !(all_decodable::<A::Event>(fetched)
                            && total_decoded::<A::Event>(fetched) <= i64::MAX)
                    },
                }
            }),
    {
        let ghost log0 = self.store.commits();
        let ghost w0 = self.commit_sequence as int;
        let ghost fetched = in_range(log0, aggregate_id, w0 + 1, i64::MAX as int);
        let min_sequence = self.commit_sequence + 1;
        let commits = match self.store.get_range(aggregate_id, min_sequence, i64::MAX) {
            Ok(cs) => cs,
            Err(e) => {
                return Err(ClientError::StoreError(e));
            },
        };
        let ghost sorted = commits.deep_view();
        proof {
            lemma_multiset_eq_members(sorted, fetched);
            assert(sorted.len() == fetched.len()) by {
                assert(sorted.to_multiset().len() == sorted.len());
                assert(fetched.to_multiset().len() == fetched.len());
            }
        }
        let mut aggregate = A::with_id(aggregate_id);
        let mut watermark = self.commit_sequence;
        let mut i: usize = 0;
        proof {
            assert(sorted.take(0) =~= Seq::<CommitView>::empty());
        }
        while i < commits.len()
            invariant
                log0 == old(self).store.commits(),
                w0 == old(self).commit_sequence as int,
                fetched == in_range(log0, aggregate_id, w0 + 1, i64::MAX as int),
                self.store == old(self).store,
                self.dispatcher == old(self).dispatcher,
                self.commit_sequence == old(self).commit_sequence,
                log_wf(log0),
                sorted == commits.deep_view(),
                crate::store::sorted_by_sequence(sorted),
                sorted.to_multiset() == fetched.to_multiset(),
                sorted.len() == fetched.len(),
                i <= commits.len(),
                aggregate.spec_id() == aggregate_id,
                all_decodable::<A::Event>(sorted.take(i as int)),
                aggregate.spec_version() == total_decoded::<A::Event>(sorted.take(i as int)),
                0 <= aggregate.spec_version() <= i64::MAX,
                watermark as int == if i == 0 {
                    w0
                } else {
                    sorted[i - 1].commit_sequence
                },
            decreases commits.len() - i,
        {
            let ghost prefix = sorted.take(i as int);
            proof {
                assert(commits.deep_view()[i as int] == commits@[i as int].deep_view());
            }
            let events = match A::Event::decode_all(&commits[i].serialized_events) {
                Ok(evs) => evs,
                Err(e) => {
                    proof {
                        lemma_multiset_eq_members(sorted, fetched);
                        assert(!decodable::<A::Event>(sorted[i as int]));
                        assert(sorted.contains(sorted[i as int])) by {
                            assert(sorted[i as int] == sorted[i as int]);
                        }
                        assert(fetched.contains(sorted[i as int]));
                        let p = choose|p: int|
                            0 <= p < fetched.len() && fetched[p] == sorted[i as int];
                        assert(!all_decodable::<A::Event>(fetched)) by {
                            assert(!decodable::<A::Event>(fetched[p]));
                        }
                    }
                    return Err(ClientError::SerializationError(e));
                },
            };
            proof {
                assert(decoded_count::<A::Event>(sorted[i as int]) == events@.len());
            }
            let mut j: usize = 0;
            while j < events.len()
                invariant
                    log0 == old(self).store.commits(),
                    w0 == old(self).commit_sequence as int,
                    fetched == in_range(log0, aggregate_id, w0 + 1, i64::MAX as int),
                    self.store == old(self).store,
                    self.dispatcher == old(self).dispatcher,
                    self.commit_sequence == old(self).commit_sequence,
                    log_wf(log0),
                    sorted == commits.deep_view(),
                    sorted.to_multiset() == fetched.to_multiset(),
                    i < commits.len(),
                    j <= events.len(),
                    aggregate.spec_id() == aggregate_id,
                    all_decodable::<A::Event>(sorted.take(i as int)),
                    decoded_count::<A::Event>(sorted[i as int]) == events@.len(),
                    aggregate.spec_version() == total_decoded::<A::Event>(sorted.take(i as int))
                        + j,
                    0 <= aggregate.spec_version() <= i64::MAX,
                decreases events.len() - j,
            {
                if aggregate.version() == i64::MAX {
                    proof {
                        lemma_total_decoded_take_succ::<A::Event>(sorted, i as int);
                        lemma_total_decoded_take_bound::<A::Event>(sorted, i as int + 1);
                        assert(total_decoded::<A::Event>(sorted) > i64::MAX);
                        lemma_total_decoded_permutation::<A::Event>(sorted, fetched);
                    }
                    return Err(ClientError::SerializationError(EncodingError::Overflow));
                }
                aggregate = aggregate.apply(&events[j]);
                j += 1;
            }
            proof {
                lemma_total_decoded_take_succ::<A::Event>(sorted, i as int);
                assert(decodable::<A::Event>(sorted[i as int]));
                assert(all_decodable::<A::Event>(sorted.take(i as int + 1))) by {
                    assert(forall|k: int|
                        0 <= k < i as int + 1 ==> sorted.take(i as int + 1)[k] == sorted.take(
                            i as int,
                        ).push(sorted[i as int])[k]);
                    assert(sorted.take(i as int + 1) =~= sorted.take(i as int).push(
                        sorted[i as int],
                    ));
                }
            }
            watermark = commits[i].commit_sequence;
            i += 1;
        }
        proof {
            assert(sorted.take(sorted.len() as int) =~= sorted);
            lemma_total_decoded_permutation::<A::Event>(sorted, fetched);
            assert forall|k: int| 0 <= k < fetched.len() implies decodable::<A::Event>(
                #[trigger] fetched[k],
            ) by {
                assert(fetched.contains(fetched[k])) by {
                    assert(fetched[k] == fetched[k]);
                }
                assert(sorted.contains(fetched[k]));
                let p = choose|p: int| 0 <= p < sorted.len() && sorted[p] == fetched[k];
                assert(decodable::<A::Event>(sorted[p]));
            }
            if fetched.len() > 0 {
                let last = sorted[sorted.len() - 1];
                assert(watermark as int == last.commit_sequence);
                assert(sorted.contains(last)) by {
                    assert(sorted[sorted.len() - 1] == last);
                }
                assert(fetched.contains(last));
                assert(exists|k: int|
                    0 <= k < fetched.len() && (#[trigger] fetched[k]).commit_sequence
                        == watermark as int) by {
                    let p = choose|p: int| 0 <= p < fetched.len() && fetched[p] == last;
                    assert(fetched[p].commit_sequence == watermark as int);
                }
                assert forall|k: int| 0 <= k < fetched.len() implies (
                #[trigger] fetched[k]).commit_sequence <= watermark as int by {
                    assert(fetched.contains(fetched[k])) by {
                        assert(fetched[k] == fetched[k]);
                    }
                    assert(sorted.contains(fetched[k]));
                    let p = choose|p: int| 0 <= p < sorted.len() && sorted[p] == fetched[k];
                    if p < sorted.len() - 1 {
                        assert(sorted[p].commit_sequence < last.commit_sequence);
                    }
                }
            }
        }
        self.commit_sequence = watermark;
        Ok(aggregate)
    }

    /// Applies the command to the given replayed aggregate, encodes the
    /// resulting events and the metadata, appends a commit attempt at the
    /// next session sequence, and retrieves the durable commit.  A
    /// conflicting append is rejected untouched, so the caller can
    /// re-replay and retry.
    pub fn issue_command<C: Command, M: Metadata>(
        &mut self,
        aggregate: &C::Aggregate,
        command: &C,
        metadata: &M,
    ) -> (r: Result<Commit, IssueError<S::Error, C::Error>>)
        requires
            log_wf(old(self).store.commits()),
            old(self).commit_sequence < i64::MAX,
        ensures
            log_wf(final (self).store.commits()),
            final (self).commit_sequence == old(self).commit_sequence,
            match r {
                Ok(c) => {
                    &&& c@.aggregate_id == aggregate.spec_id()
                    &&& c@.aggregate_version == aggregate.spec_version()
                    &&& c@.commit_sequence == old(self).commit_sequence + 1
                    &&& decodable::<<C::Aggregate as Aggregate>::Event>(c@)
                    &&& c@.events_count == decoded_count::<<C::Aggregate as Aggregate>::Event>(c@)
                    &&& 1 <= c@.events_count
                    &&& !conflicts(old(self).store.commits(), attempt_of(c@))
                    &&& same_except_dispatched(
                        old(self).store.commits().push(undispatched_form(c@)),
                        final (self).store.commits(),
                    )
                },
                Err(e) => match e {
                    IssueError::Command(_) => {
                        &&& final (self).store.commits() == old(self).store.commits()
                    },
                    IssueError::Client(ClientError::SerializationError(_)) => {
                        &&& final (self).store.commits() == old(self).store.commits()
                    },
                    IssueError::Client(ClientError::StoreError(se)) => {
                        &&& se.spec_error_type() matches StoreErrorType::DuplicateWriteError(k)
                            ==> {
                            &&& final (self).store.commits() == old(self).store.commits()
                            &&& exists|a: AttemptView|
                                {
                                    &&& #[trigger] conflicts(old(self).store.commits(), a)
                                    &&& a.aggregate_id == aggregate.spec_id()
                                    &&& a.aggregate_version == aggregate.spec_version()
                                    &&& a.commit_sequence == old(self).commit_sequence + 1
                                    &&& classify_conflict(old(self).store.commits(), a) == k
                                }
                        }
                    },
                },
            },
    {
        let ghost log0 = self.store.commits();
        let events = match command.apply(aggregate) {
            Ok(events) => events,
            Err(e) => {
                return Err(IssueError::Command(e));
            },
        };
        let events_count = events.len() as i64;
        let serialized_events = match <C::Aggregate as Aggregate>::Event::encode_all(&events) {
            Ok(bytes) => bytes,
            Err(e) => {
                return Err(IssueError::Client(ClientError::SerializationError(e)));
            },
        };
        let serialized_metadata = match metadata.encode() {
            Ok(bytes) => bytes,
            Err(e) => {
                return Err(IssueError::Client(ClientError::SerializationError(e)));
            },
        };
        let commit_attempt = CommitAttempt {
            aggregate_id: aggregate.id(),
            aggregate_version: aggregate.version(),
            commit_id: fresh_commit_id(),
            commit_timestamp: current_timestamp_millis(),
            commit_sequence: self.commit_sequence + 1,
            serialized_metadata,
            serialized_events,
            events_count,
        };
        let commit_id = commit_attempt.commit_id;
        let ghost av = commit_attempt@;
        let commit_number = match self.commit(&commit_attempt) {
            Ok(n) => n,
            Err(e) => {
                proof {
                    if e.spec_error_type() is DuplicateWriteError {
                        assert(conflicts(log0, av));
                    }
                }
                return Err(IssueError::Client(ClientError::StoreError(e)));
            },
        };
        let ghost pushed = log0.push(av.committed(commit_number as int));
        match self.store.get_commit(&commit_id) {
            Ok(c) => {
                proof {
                    let log1 = self.store.commits();
                    assert(log1.contains(c@));
                    let q = choose|q: int| 0 <= q < log1.len() && log1[q] == c@;
                    assert(log1[q] == pushed[q] || log1[q] == crate::store::with_dispatched(
                        pushed[q],
                    ));
                    assert(pushed[q].commit_id == commit_id);
                    if q < log0.len() {
                        assert(id_conflict(log0, av)) by {
                            assert(log0[q].commit_id == av.commit_id);
                        }
                        assert(false);
                    }
                    assert(pushed[q] == av.committed(commit_number as int));
                    assert(undispatched_form(c@) =~= av.committed(commit_number as int));
                    assert(attempt_of(c@) =~= av);
                    assert(same_except_dispatched(log0.push(undispatched_form(c@)), log1)) by {
                        assert(log0.push(undispatched_form(c@)) =~= pushed);
                    }
                }
                Ok(c)
            },
            Err(e) => {
                proof {
                    assert(e.spec_error_type() == StoreErrorType::UnknownError);
                }
                Err(IssueError::Client(ClientError::StoreError(e)))
            },
        }
    }
}

} // verus!
