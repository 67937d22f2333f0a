//! The dispatcher: drains undispatched commits to a delegate in commit
//! number order, marking each one dispatched only after the delegate
//! accepts it.
//!
//! A drain that halts on a delegate failure leaves exactly the accepted
//! prefix marked; the rest stays undispatched and is offered again on the
//! next drain, which is what makes delivery at-least-once.

use vstd::multiset::Multiset;
use vstd::prelude::*;

use crate::commit::{Commit, CommitView};
use crate::store::{log_wf, mark_dispatched, undispatched, with_dispatched, Store, StoreError};

verus! {

broadcast use {
    vstd::seq_lib::group_filter_ensures,
    vstd::seq_lib::group_to_multiset_ensures,
    vstd::seq::Seq::lemma_filter_contains_rev,
};

/// A consumer invoked once per commit during a drain.
pub trait DispatchDelegate: Sized {
    fn dispatch(&mut self, commit: &Commit) -> (r: Result<(), String>);
}

/// The log after a drain has delivered and marked the first `k` commits of
/// its undispatched snapshot.
pub open spec fn mark_first(log: Seq<CommitView>, k: int) -> Seq<CommitView> {
    log.map_values(
        |c: CommitView|
            if exists|j: int|
                0 <= j < k && (#[trigger] undispatched(log)[j]).commit_id == c.commit_id {
                with_dispatched(c)
            } else {
                c
            },
    )
}

/// The two logs hold the same commits in the same order; the second may
/// have raised some dispatched flags.
pub open spec fn same_except_dispatched(a: Seq<CommitView>, b: Seq<CommitView>) -> bool {
    &&& b.len() == a.len()
    &&& forall|i: int|
        0 <= i < a.len() ==> #[trigger] b[i] == a[i] || b[i] == with_dispatched(a[i])
}

/// A partial drain changes nothing but dispatched flags.
pub proof fn lemma_mark_first_relaxes(log: Seq<CommitView>, k: int)
    ensures
        same_except_dispatched(log, mark_first(log, k)),
{
    lemma_mark_first_frame(log, k);
}

/// A drain that has delivered nothing has changed nothing.
pub proof fn lemma_mark_first_zero(log: Seq<CommitView>)
    ensures
        mark_first(log, 0) == log,
{
    assert(mark_first(log, 0) =~= log);
}

/// Every commit of a partially drained log is the original commit, at most
/// with its dispatched flag raised; the key fields never change.
pub proof fn lemma_mark_first_frame(log: Seq<CommitView>, k: int)
    ensures
        mark_first(log, k).len() == log.len(),
        forall|i: int|
            0 <= i < log.len() ==> #[trigger] mark_first(log, k)[i] == log[i] || mark_first(
                log,
                k,
            )[i] == with_dispatched(log[i]),
{
}

/// Partial drains preserve the store invariants: the dispatched flag is
/// the only field they touch.
pub proof fn lemma_mark_first_wf(log: Seq<CommitView>, k: int)
    requires
        log_wf(log),
    ensures
        log_wf(mark_first(log, k)),
{
    let marked = mark_first(log, k);
    lemma_mark_first_frame(log, k);
    assert forall|i: int| 0 <= i < log.len() implies (#[trigger] marked[i]).commit_id
        == log[i].commit_id && marked[i].aggregate_id == log[i].aggregate_id
        && marked[i].commit_sequence == log[i].commit_sequence && marked[i].aggregate_version
        == log[i].aggregate_version && marked[i].commit_number == log[i].commit_number
        && marked[i].events_count == log[i].events_count by {
        assert(marked[i] == log[i] || marked[i] == with_dispatched(log[i]));
    }
}

/// Marking the next undispatched commit of the snapshot extends the
/// drained prefix by one.
pub proof fn lemma_mark_first_step(log: Seq<CommitView>, k: int)
    requires
        log_wf(log),
        0 <= k < undispatched(log).len(),
    ensures
        mark_dispatched(mark_first(log, k), undispatched(log)[k].commit_id) == mark_first(
            log,
            k + 1,
        ),
{
    let u = undispatched(log);
    let id = u[k].commit_id;
    let lhs = mark_dispatched(mark_first(log, k), id);
    let rhs = mark_first(log, k + 1);
    assert forall|i: int| 0 <= i < log.len() implies lhs[i] == rhs[i] by {
        let c = log[i];
        let hit_k = exists|j: int|
            0 <= j < k && (#[trigger] undispatched(log)[j]).commit_id == c.commit_id;
        assert(mark_first(log, k)[i] == if hit_k {
            with_dispatched(c)
        } else {
            c
        });
        if hit_k || c.commit_id == id {
            assert(exists|j: int|
                0 <= j < k + 1 && (#[trigger] undispatched(log)[j]).commit_id == c.commit_id);
            assert(with_dispatched(with_dispatched(c)) =~= with_dispatched(c));
            assert(lhs[i] == with_dispatched(c));
        } else {
            assert(forall|j: int|
                0 <= j < k + 1 ==> (#[trigger] undispatched(log)[j]).commit_id != c.commit_id);
            assert(lhs[i] == c);
        }
    }
    assert(lhs =~= rhs);
}

/// No two undispatched commits share a commit id, because no two stored
/// commits do.
pub proof fn lemma_undispatched_ids_distinct(log: Seq<CommitView>)
    requires
        log_wf(log),
    ensures
        forall|i: int, j: int|
            0 <= i < j < undispatched(log).len() ==> (#[trigger] undispatched(
                log,
            )[i]).commit_id != (#[trigger] undispatched(log)[j]).commit_id,
{
    assert forall|i: int, j: int|
        0 <= i < j < undispatched(log).len() implies (#[trigger] undispatched(log)[i]).commit_id
        != (#[trigger] undispatched(log)[j]).commit_id by {
        let u = undispatched(log);
        if u[i].commit_id == u[j].commit_id {
            assert(u.contains(u[i])) by {
                assert(u[i] == u[i]);
            }
            assert(u.contains(u[j])) by {
                assert(u[j] == u[j]);
            }
            assert(log.contains(u[i]) && log.contains(u[j]));
            let p = choose|p: int| 0 <= p < log.len() && log[p] == u[i];
            let q = choose|q: int| 0 <= q < log.len() && log[q] == u[j];
            if p != q {
                assert(log[p].commit_id != log[q].commit_id) by {
                    if p < q {
                        assert(log[p].commit_id != log[q].commit_id);
                    } else {
                        assert(log[q].commit_id != log[p].commit_id);
                    }
                }
                assert(false);
            } else {
                assert(u[i] == u[j]);
                lemma_undispatched_no_duplicate_values(log, u[i]);
                assert(u.to_multiset().count(u[i]) >= 2) by {
                    u.remove_ensures(i);
                    assert(u.remove(i)[j - 1] == u[j]);
                    assert(u.remove(i).contains(u[j])) by {
                        assert(u.remove(i)[j - 1] == u[j]);
                    }
                    assert(u.remove(i).to_multiset().count(u[j]) > 0);
                    assert(u.to_multiset().remove(u[i]).count(u[j]) > 0);
                }
                assert(false);
            }
        }
    }
}

/// A commit appears at most once in a well-formed log, and therefore at
/// most once among the undispatched commits.
proof fn lemma_undispatched_no_duplicate_values(log: Seq<CommitView>, c: CommitView)
    requires
        crate::store::unique_commit_ids(log),
    ensures
        undispatched(log).to_multiset().count(c) <= 1,
    decreases log.len(),
{
    reveal(Seq::filter);
    if log.len() == 0 {
        assert(undispatched(log).to_multiset() =~= Multiset::<CommitView>::empty());
    } else {
        let prefix = log.drop_last();
        let last = log.last();
        assert(crate::store::unique_commit_ids(prefix)) by {
            assert forall|i: int, j: int|
                0 <= i < j < prefix.len() implies (#[trigger] prefix[i]).commit_id != (
            #[trigger] prefix[j]).commit_id by {
                assert(prefix[i] == log[i] && prefix[j] == log[j]);
            }
        }
        lemma_undispatched_no_duplicate_values(prefix, c);
        if !last.dispatched {
            assert(undispatched(log) == undispatched(prefix).push(last));
            assert(undispatched(log).to_multiset() == undispatched(prefix).to_multiset().insert(
                last,
            ));
            if c == last {
                // `last` cannot already sit among the undispatched commits
                // of the prefix: its commit id is new.
                if undispatched(prefix).to_multiset().count(c) > 0 {
                    assert(undispatched(prefix).contains(c));
                    assert(prefix.contains(c));
                    let p = choose|p: int| 0 <= p < prefix.len() && prefix[p] == c;
                    assert(log[p].commit_id == log[log.len() - 1].commit_id);
                    assert(false);
                }
            }
        } else {
            assert(undispatched(log) == undispatched(prefix));
        }
    }
}

/// A commit that a halted drain did not reach stays undispatched: the next
/// drain is offered it again.  Together with the drain order this is the
/// at-least-once delivery guarantee.
pub proof fn lemma_unreached_commit_stays_undispatched(log: Seq<CommitView>, k: int, i: int)
    requires
        log_wf(log),
        0 <= k <= i < undispatched(log).len(),
    ensures
        undispatched(mark_first(log, k)).contains(undispatched(log)[i]),
{
    let u = undispatched(log);
    let c = u[i];
    assert(u.contains(c));
    assert(log.contains(c));
    let p = choose|p: int| 0 <= p < log.len() && log[p] == c;
    lemma_undispatched_ids_distinct(log);
    assert(forall|j: int| 0 <= j < k ==> (#[trigger] u[j]).commit_id != c.commit_id);
    assert(mark_first(log, k)[p] == c);
    assert(!c.dispatched);
    assert(undispatched(mark_first(log, k)).contains(mark_first(log, k)[p]));
}

/// The delegate observes commits in strictly ascending commit number
/// order: what a drain delivers is a prefix of the undispatched snapshot,
/// which the store serves sorted.
pub proof fn lemma_delivery_order(log: Seq<CommitView>, d: int)
    requires
        log_wf(log),
        0 <= d <= undispatched(log).len(),
    ensures
        crate::store::sorted_by_number(undispatched(log).take(d)),
{
    crate::store::lemma_undispatched_sorted_by_number(log);
    let u = undispatched(log);
    assert forall|i: int, j: int| 0 <= i < j < d implies (#[trigger] u.take(d)[i]).commit_number
        < (#[trigger] u.take(d)[j]).commit_number by {
        assert(u.take(d)[i] == u[i] && u.take(d)[j] == u[j]);
    }
}

/// The dispatcher.  It owns the delegate; a single drain loop at a time
/// hands commits over in commit number order.  The ghost delivery log
/// records every commit the delegate has accepted, in delivery order.
pub struct Dispatcher<D: DispatchDelegate> {
    pub dispatch_delegate: D,
    pub delivered: Ghost<Seq<CommitView>>,
}

impl<D: DispatchDelegate> Dispatcher<D> {
    pub fn new(delegate: D) -> (d: Dispatcher<D>)
        ensures
            d.dispatch_delegate == delegate,
            d.delivered@ == Seq::<CommitView>::empty(),
    {
        Dispatcher { dispatch_delegate: delegate, delivered: Ghost(Seq::empty()) }
    }

    /// Drains the store: every undispatched commit is handed to the
    /// delegate in commit number order and marked dispatched once the
    /// delegate accepts it.  A failure halts the drain with exactly the
    /// accepted prefix marked; a commit the delegate accepted but whose
    /// marking failed stays undispatched and may be delivered again — the
    /// accepted prefix runs at most one commit past the marked one.
    pub fn dispatch<S: Store>(&mut self, store: &mut S) -> (r: Result<(), String>)
        requires
            log_wf(old(store).commits()),
        ensures
            log_wf(final (store).commits()),
            exists|k: int, d: int|
                {
                    &&& 0 <= k <= d <= undispatched(old(store).commits()).len()
                    &&& d <= k + 1
                    &&& final (store).commits() == #[trigger] mark_first(
                        old(store).commits(),
                        k,
                    )
                    &&& final (self).delivered@ == old(self).delivered@ + #[trigger] undispatched(
                        old(store).commits(),
                    ).take(d)
                    &&& (r is Ok ==> k == undispatched(old(store).commits()).len() && d == k)
                },
    {
        let ghost log0 = store.commits();
        let ghost delivered0 = self.delivered@;
        let commits = match store.get_undispatched_commits() {
            Ok(cs) => cs,
            Err(e) => {
                proof {
                    lemma_mark_first_zero(log0);
                    assert(self.delivered@ =~= delivered0 + undispatched(log0).take(0));
                }
                return Err(e.describe());
            },
        };
        let mut i: usize = 0;
        proof {
            lemma_mark_first_zero(log0);
        }
        while i < commits.len()
            invariant
                log0 == old(store).commits(),
                delivered0 == old(self).delivered@,
                log_wf(log0),
                commits.deep_view() == undispatched(log0),
                i <= commits.len(),
                store.commits() == mark_first(log0, i as int),
                log_wf(store.commits()),
                self.delivered@ == delivered0 + undispatched(log0).take(i as int),
            decreases commits.len() - i,
        {
            match self.dispatch_delegate.dispatch(&commits[i]) {
                Ok(()) => {},
                Err(msg) => {
                    proof {
                        assert(commits.deep_view().len() == undispatched(log0).len());
                        assert(store.commits() == mark_first(log0, i as int));
                        assert(0 <= i as int <= undispatched(log0).len());
                    }
                    return Err(msg);
                },
            }
            proof {
                assert(commits.deep_view()[i as int] == commits@[i as int].deep_view());
                assert(undispatched(log0).take(i as int + 1) =~= undispatched(log0).take(
                    i as int,
                ).push(undispatched(log0)[i as int]));
                self.delivered@ = delivered0 + undispatched(log0).take(i as int + 1);
                assert(self.delivered@ =~= (delivered0 + undispatched(log0).take(i as int)).push(
                    undispatched(log0)[i as int],
                ));
            }
            let commit_id = commits[i].commit_id;
            proof {
                assert(commit_id == undispatched(log0)[i as int].commit_id);
            }
            match store.mark_commit_as_dispatched(commit_id) {
                Ok(()) => {},
                Err(e) => {
                    proof {
                        assert(commits.deep_view().len() == undispatched(log0).len());
                        assert(store.commits() == mark_first(log0, i as int));
                        assert(0 <= i as int <= i as int + 1 <= undispatched(log0).len());
                    }
                    return Err(e.describe());
                },
            }
            proof {
                lemma_mark_first_step(log0, i as int);
            }
            i += 1;
        }
        Ok(())
    }
}

/// A delegate that accepts every commit and does nothing with it.
pub struct NullDispatcher;

impl DispatchDelegate for NullDispatcher {
    fn dispatch(&mut self, _commit: &Commit) -> (r: Result<(), String>) {
        Ok(())
    }
}

} // verus!
