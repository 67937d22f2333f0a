//! The subscription hub: the fan-out state and the publish decision.
//!
//! The hub maps each aggregate to its set of live subscribers, every
//! subscriber carrying a process-unique identifier handed out
//! monotonically.  Publishing a commit means deriving its structured form
//! once, encoding it once as a textual message, and naming the current
//! subscribers of the commit's aggregate; the transport that carries the
//! message to each subscriber lives outside the hub, and a send failure
//! only ever drops that one subscriber.

use vstd::prelude::*;
use vstd::string::StringSliceAdditionalSpecFns;

use crate::commit::{json_accepts, parse_document, Commit, CommitView};
use crate::events::EncodingError;
use crate::textual::{
    append_i64_decimal, append_id_text, append_literal, dec_text, id_text,
};

verus! {

/// The one textual message published for a dispatched commit: its derived
/// form as a document, with the already-encoded payloads spliced in
/// verbatim.
pub open spec fn published_message(c: CommitView) -> Seq<u8> {
    "{\"aggregate_id\":\"".spec_bytes() + id_text(c.aggregate_id)
        + "\",\"aggregate_version\":".spec_bytes() + dec_text(c.aggregate_version)
        + ",\"commit_id\":\"".spec_bytes() + id_text(c.commit_id)
        + "\",\"commit_timestamp\":".spec_bytes() + dec_text(c.commit_timestamp)
        + ",\"commit_sequence\":".spec_bytes() + dec_text(c.commit_sequence)
        + ",\"commit_number\":".spec_bytes() + dec_text(c.commit_number)
        + ",\"events\":".spec_bytes() + c.serialized_events + ",\"metadata\":".spec_bytes()
        + c.serialized_metadata + ",\"events_count\":".spec_bytes() + dec_text(c.events_count)
        + ",\"dispatched\":".spec_bytes() + (if c.dispatched {
        "true".spec_bytes()
    } else {
        "false".spec_bytes()
    }) + "}".spec_bytes()
}

/// Renders the published message for a commit.
pub fn encode_published(c: &Commit) -> (r: Vec<u8>)
    ensures
        r@ == published_message(c@),
{
    let mut out: Vec<u8> = Vec::new();
    append_literal(&mut out, "{\"aggregate_id\":\"");
    append_id_text(&mut out, c.aggregate_id);
    append_literal(&mut out, "\",\"aggregate_version\":");
    append_i64_decimal(&mut out, c.aggregate_version);
    append_literal(&mut out, ",\"commit_id\":\"");
    append_id_text(&mut out, c.commit_id);
    append_literal(&mut out, "\",\"commit_timestamp\":");
    append_i64_decimal(&mut out, c.commit_timestamp);
    append_literal(&mut out, ",\"commit_sequence\":");
    append_i64_decimal(&mut out, c.commit_sequence);
    append_literal(&mut out, ",\"commit_number\":");
    append_i64_decimal(&mut out, c.commit_number);
    append_literal(&mut out, ",\"events\":");
    crate::textual::append_slice(&mut out, c.serialized_events.as_slice());
    append_literal(&mut out, ",\"metadata\":");
    crate::textual::append_slice(&mut out, c.serialized_metadata.as_slice());
    append_literal(&mut out, ",\"events_count\":");
    append_i64_decimal(&mut out, c.events_count);
    append_literal(&mut out, ",\"dispatched\":");
    if c.dispatched {
        append_literal(&mut out, "true");
    } else {
        append_literal(&mut out, "false");
    }
    append_literal(&mut out, "}");
    proof {
        assert(out@ =~= published_message(c@));
    }
    out
}

/// The live subscribers of one aggregate.
struct AggregateSubscribers {
    aggregate_id: u128,
    subscriber_ids: Vec<usize>,
}

/// The fan-out state: each aggregate's set of live subscribers, and the
/// counter that hands out process-unique subscriber identifiers.
pub struct SubscriberHub {
    next_subscriber_id: usize,
    entries: Vec<AggregateSubscribers>,
}

/// A hub never lists an identifier its counter has not handed out yet.
proof fn lemma_counter_bound_not_member(h: SubscriberHub, aggregate_id: u128, sid: usize)
    requires
        h.wf(),
        sid >= h.next_subscriber_id,
    ensures
        !h.subscribers_of(aggregate_id).contains(sid),
{
    if h.subscribers_of(aggregate_id).contains(sid) {
        let j = choose|j: int|
            0 <= j < h.entries@.len() && (#[trigger] h.entries@[j]).aggregate_id == aggregate_id
                && h.entries@[j].subscriber_ids@.contains(sid);
        let k = choose|k: int|
            0 <= k < h.entries@[j].subscriber_ids@.len() && h.entries@[j].subscriber_ids@[k]
                == sid;
        assert(h.entries@[j].subscriber_ids@[k] < h.next_subscriber_id);
        assert(false);
    }
}

/// Two hubs whose entries differ only on one aggregate's entry have the
/// same subscribers for every other aggregate.
proof fn lemma_untouched_aggregates(h0: SubscriberHub, h1: SubscriberHub, aggregate_id: u128)
    requires
        h0.entries@.len() <= h1.entries@.len(),
        forall|j: int|
            0 <= j < h0.entries@.len() ==> #[trigger] h1.entries@[j] == h0.entries@[j] || (
            h1.entries@[j].aggregate_id == aggregate_id && h0.entries@[j].aggregate_id
                == aggregate_id),
        forall|j: int|
            h0.entries@.len() <= j < h1.entries@.len() ==> (
            #[trigger] h1.entries@[j]).aggregate_id == aggregate_id,
    ensures
        forall|other: u128|
            other != aggregate_id ==> #[trigger] h1.subscribers_of(other) == h0.subscribers_of(
                other,
            ),
{
    assert forall|other: u128| other != aggregate_id implies #[trigger] h1.subscribers_of(other)
        == h0.subscribers_of(other) by {
        assert forall|x: usize| #[trigger] h1.subscribers_of(other).contains(x)
            <==> h0.subscribers_of(other).contains(x) by {
            if h1.subscribers_of(other).contains(x) {
                let j = choose|j: int|
                    0 <= j < h1.entries@.len() && (#[trigger] h1.entries@[j]).aggregate_id == other
                        && h1.entries@[j].subscriber_ids@.contains(x);
                assert(j < h0.entries@.len());
                assert(h1.entries@[j] == h0.entries@[j]);
                assert(h0.subscribers_of(other).contains(x)) by {
                    assert((#[trigger] h0.entries@[j]).aggregate_id == other
                        && h0.entries@[j].subscriber_ids@.contains(x));
                }
            }
            if h0.subscribers_of(other).contains(x) {
                let j = choose|j: int|
                    0 <= j < h0.entries@.len() && (#[trigger] h0.entries@[j]).aggregate_id == other
                        && h0.entries@[j].subscriber_ids@.contains(x);
                assert(h1.entries@[j] == h0.entries@[j]);
                assert(h1.subscribers_of(other).contains(x)) by {
                    assert((#[trigger] h1.entries@[j]).aggregate_id == other
                        && h1.entries@[j].subscriber_ids@.contains(x));
                }
            }
        }
        assert(h1.subscribers_of(other) =~= h0.subscribers_of(other));
    }
}

impl SubscriberHub {
    /// The identifier the next subscriber will receive.
    pub closed spec fn next_id(&self) -> usize {
        self.next_subscriber_id
    }

    /// The set of live subscribers of one aggregate.
    pub closed spec fn subscribers_of(&self, aggregate_id: u128) -> Set<usize> {
        Set::new(
            |sid: usize|
                exists|i: int|
                    0 <= i < self.entries@.len() && (#[trigger] self.entries@[i]).aggregate_id
                        == aggregate_id && self.entries@[i].subscriber_ids@.contains(sid),
        )
    }

    /// The hub's invariant: one entry per aggregate, no subscriber listed
    /// twice, and every identifier already handed out below the counter.
    pub closed spec fn wf(&self) -> bool {
        &&& forall|i: int, j: int|
            0 <= i < j < self.entries@.len() ==> (#[trigger] self.entries@[i]).aggregate_id != (
            #[trigger] self.entries@[j]).aggregate_id
        &&& forall|i: int|
            0 <= i < self.entries@.len() ==> (
            #[trigger] self.entries@[i]).subscriber_ids@.no_duplicates()
        &&& forall|i: int, k: int|
            0 <= i < self.entries@.len() && 0 <= k < self.entries@[i].subscriber_ids@.len() ==> (
            #[trigger] self.entries@[i].subscriber_ids@[k]) < self.next_subscriber_id
    }

    /// An empty hub.  Subscriber identifiers start at one.
    pub fn new() -> (h: SubscriberHub)
        ensures
            h.wf(),
            h.next_id() == 1,
            forall|aggregate_id: u128|
                #[trigger] h.subscribers_of(aggregate_id) == Set::<usize>::empty(),
    {
        let h = SubscriberHub { next_subscriber_id: 1, entries: Vec::new() };
        proof {
            assert forall|aggregate_id: u128| #[trigger] h.subscribers_of(aggregate_id) == Set::<
                usize,
            >::empty() by {
                assert(h.subscribers_of(aggregate_id) =~= Set::<usize>::empty());
            }
        }
        h
    }

    /// The index of the entry for `aggregate_id`, if one exists.
    fn find_entry(&self, aggregate_id: u128) -> (r: Option<usize>)
        ensures
            match r {
                Some(i) => i < self.entries@.len() && self.entries@[i as int].aggregate_id
                    == aggregate_id,
                None => forall|i: int|
                    0 <= i < self.entries@.len() ==> (#[trigger] self.entries@[i]).aggregate_id
                        != aggregate_id,
            },
    {
        let mut i: usize = 0;
        while i < self.entries.len()
            invariant
                i <= self.entries.len(),
                forall|k: int|
                    0 <= k < i ==> (#[trigger] self.entries@[k]).aggregate_id != aggregate_id,
            decreases self.entries.len() - i,
        {
            if self.entries[i].aggregate_id == aggregate_id {
                return Some(i);
            }
            i += 1;
        }
        None
    }

    /// Registers a new subscriber for `aggregate_id` and returns its
    /// fresh, process-unique identifier.
    pub fn subscribe(&mut self, aggregate_id: u128) -> (sid: usize)
        requires
            old(self).wf(),
            old(self).next_id() < usize::MAX,
        ensures
            final (self).wf(),
            sid == old(self).next_id(),
            final (self).next_id() == old(self).next_id() + 1,
            !old(self).subscribers_of(aggregate_id).contains(sid),
            final (self).subscribers_of(aggregate_id) == old(self).subscribers_of(
                aggregate_id,
            ).insert(sid),
            forall|other: u128|
                other != aggregate_id ==> #[trigger] final (self).subscribers_of(other) == old(
                    self,
                ).subscribers_of(other),
    {
        let ghost self0 = *self;
        let sid = self.next_subscriber_id;
        proof {
            lemma_counter_bound_not_member(self0, aggregate_id, sid);
        }
        match self.find_entry(aggregate_id) {
            Some(i) => {
                let mut ids = self.entries[i].subscriber_ids.clone();
                proof {
                    assert(ids@ =~= self0.entries@[i as int].subscriber_ids@);
                }
                ids.push(sid);
                let entry = AggregateSubscribers { aggregate_id, subscriber_ids: ids };
                self.entries.set(i, entry);
                self.next_subscriber_id = self.next_subscriber_id + 1;
                proof {
                    let e0 = self0.entries@;
                    let e1 = self.entries@;
                    let ii = i as int;
                    let l0 = e0[ii].subscriber_ids@;
                    assert(e1[ii].subscriber_ids@ == l0.push(sid));
                    assert(self.wf()) by {
                        assert forall|a: int|
                            0 <= a < e1.len() implies (
                        #[trigger] e1[a]).subscriber_ids@.no_duplicates() by {
                            if a == ii {
                                assert forall|p: int, q: int|
                                    0 <= p < q < l0.push(sid).len() implies l0.push(sid)[p] != l0.push(
                                    sid,
                                )[q] by {
                                    if q == l0.len() {
                                        assert(l0[p] < self0.next_subscriber_id);
                                    }
                                }
                            } else {
                                assert(e1[a] == e0[a]);
                            }
                        }
                        assert forall|a: int, k: int|
                            0 <= a < e1.len() && 0 <= k < e1[a].subscriber_ids@.len() implies (
                        #[trigger] e1[a].subscriber_ids@[k]) < self.next_subscriber_id by {
                            if a == ii {
                                if k < l0.len() {
                                    assert(l0[k] < self0.next_subscriber_id);
                                }
                            } else {
                                assert(e1[a] == e0[a]);
                            }
                        }
                        assert forall|a: int, b: int|
                            0 <= a < b < e1.len() implies (#[trigger] e1[a]).aggregate_id != (
                        #[trigger] e1[b]).aggregate_id by {
                            assert(e1[a].aggregate_id == e0[a].aggregate_id);
                            assert(e1[b].aggregate_id == e0[b].aggregate_id);
                        }
                    }
                    assert forall|x: usize| #[trigger] self.subscribers_of(aggregate_id).contains(
                        x,
                    ) <==> (self0.subscribers_of(aggregate_id).contains(x) || x == sid) by {
                        if self.subscribers_of(aggregate_id).contains(x) {
                            let j = choose|j: int|
                                0 <= j < e1.len() && (#[trigger] e1[j]).aggregate_id == aggregate_id
                                    && e1[j].subscriber_ids@.contains(x);
                            if j == ii {
                                let k = choose|k: int|
                                    0 <= k < l0.push(sid).len() && l0.push(sid)[k] == x;
                                if k < l0.len() {
                                    assert(l0[k] == x);
                                    assert(l0.contains(x)) by {
                                        assert(l0[k] == x);
                                    }
                                    assert(self0.subscribers_of(aggregate_id).contains(x)) by {
                                        assert((#[trigger] e0[ii]).aggregate_id == aggregate_id
                                            && e0[ii].subscriber_ids@.contains(x));
                                    }
                                } else {
                                    assert(x == sid);
                                }
                            } else {
                                assert(e1[j] == e0[j]);
                                assert(false);
                            }
                        }
                        if x == sid {
                            assert(l0.push(sid)[l0.len() as int] == sid);
                            assert(e1[ii].subscriber_ids@.contains(sid)) by {
                                assert(l0.push(sid)[l0.len() as int] == sid);
                            }
                            assert(self.subscribers_of(aggregate_id).contains(sid)) by {
                                assert((#[trigger] e1[ii]).aggregate_id == aggregate_id
                                    && e1[ii].subscriber_ids@.contains(sid));
                            }
                        } else if self0.subscribers_of(aggregate_id).contains(x) {
                            let j = choose|j: int|
                                0 <= j < e0.len() && (#[trigger] e0[j]).aggregate_id == aggregate_id
                                    && e0[j].subscriber_ids@.contains(x);
                            if j == ii {
                                let k = choose|k: int| 0 <= k < l0.len() && l0[k] == x;
                                assert(l0.push(sid)[k] == x);
                                assert(e1[ii].subscriber_ids@.contains(x)) by {
                                    assert(l0.push(sid)[k] == x);
                                }
                                assert(self.subscribers_of(aggregate_id).contains(x)) by {
                                    assert((#[trigger] e1[ii]).aggregate_id == aggregate_id
                                        && e1[ii].subscriber_ids@.contains(x));
                                }
                            } else {
                                assert(false);
                            }
                        }
                    }
                    assert(self.subscribers_of(aggregate_id) =~= self0.subscribers_of(
                        aggregate_id,
                    ).insert(sid));
                    lemma_untouched_aggregates(self0, *self, aggregate_id);
                }
                sid
            },
            None => {
                let mut ids: Vec<usize> = Vec::new();
                ids.push(sid);
                let entry = AggregateSubscribers { aggregate_id, subscriber_ids: ids };
                self.entries.push(entry);
                self.next_subscriber_id = self.next_subscriber_id + 1;
                proof {
                    let e0 = self0.entries@;
                    let e1 = self.entries@;
                    let ii = e0.len() as int;
                    assert(e1 == e0.push(entry));
                    assert(e1[ii].subscriber_ids@ =~= seq![sid]);
                    assert(self.wf()) by {
                        assert forall|a: int|
                            0 <= a < e1.len() implies (
                        #[trigger] e1[a]).subscriber_ids@.no_duplicates() by {
                            if a < ii {
                                assert(e1[a] == e0[a]);
                            }
                        }
                        assert forall|a: int, k: int|
                            0 <= a < e1.len() && 0 <= k < e1[a].subscriber_ids@.len() implies (
                        #[trigger] e1[a].subscriber_ids@[k]) < self.next_subscriber_id by {
                            if a < ii {
                                assert(e1[a] == e0[a]);
                            }
                        }
                        assert forall|a: int, b: int|
                            0 <= a < b < e1.len() implies (#[trigger] e1[a]).aggregate_id != (
                        #[trigger] e1[b]).aggregate_id by {
                            if b == ii {
                                assert(e1[a] == e0[a]);
                                assert(e0[a].aggregate_id != aggregate_id);
                            }
                        }
                    }
                    assert forall|x: usize| #[trigger] self.subscribers_of(aggregate_id).contains(
                        x,
                    ) <==> (self0.subscribers_of(aggregate_id).contains(x) || x == sid) by {
                        if self.subscribers_of(aggregate_id).contains(x) {
                            let j = choose|j: int|
                                0 <= j < e1.len() && (#[trigger] e1[j]).aggregate_id == aggregate_id
                                    && e1[j].subscriber_ids@.contains(x);
                            if j == ii {
                                assert(x == sid);
                            } else {
                                assert(e1[j] == e0[j]);
                                assert(false);
                            }
                        }
                        if x == sid {
                            assert(self.subscribers_of(aggregate_id).contains(sid)) by {
                                assert(e1[ii].subscriber_ids@.contains(sid)) by {
                                    assert(e1[ii].subscriber_ids@[0] == sid);
                                }
                                assert((#[trigger] e1[ii]).aggregate_id == aggregate_id
                                    && e1[ii].subscriber_ids@.contains(sid));
                            }
                        } else if self0.subscribers_of(aggregate_id).contains(x) {
                            let j = choose|j: int|
                                0 <= j < e0.len() && (#[trigger] e0[j]).aggregate_id == aggregate_id
                                    && e0[j].subscriber_ids@.contains(x);
                            assert(false);
                        }
                    }
                    assert(self.subscribers_of(aggregate_id) =~= self0.subscribers_of(
                        aggregate_id,
                    ).insert(sid));
                    lemma_untouched_aggregates(self0, *self, aggregate_id);
                }
                sid
            },
        }
    }

    /// The position of `subscriber_id` in a subscriber list.
    fn find_subscriber(ids: &Vec<usize>, subscriber_id: usize) -> (r: Option<usize>)
        ensures
            match r {
                Some(p) => p < ids@.len() && ids@[p as int] == subscriber_id,
                None => !ids@.contains(subscriber_id),
            },
    {
        let mut k: usize = 0;
        while k < ids.len()
            invariant
                k <= ids.len(),
                forall|q: int| 0 <= q < k ==> ids@[q] != subscriber_id,
            decreases ids.len() - k,
        {
            if ids[k] == subscriber_id {
                return Some(k);
            }
            k += 1;
        }
        proof {
            assert(!ids@.contains(subscriber_id)) by {
                if ids@.contains(subscriber_id) {
                    let q = choose|q: int| 0 <= q < ids@.len() && ids@[q] == subscriber_id;
                    assert(false);
                }
            }
        }
        None
    }

    /// Removes one subscriber of `aggregate_id`.  Removing an unknown
    /// subscriber, or one of an unknown aggregate, changes nothing.
    pub fn disconnect(&mut self, aggregate_id: u128, subscriber_id: usize)
        requires
            old(self).wf(),
        ensures
            final (self).wf(),
            final (self).next_id() == old(self).next_id(),
            final (self).subscribers_of(aggregate_id) == old(self).subscribers_of(
                aggregate_id,
            ).remove(subscriber_id),
            forall|other: u128|
                other != aggregate_id ==> #[trigger] final (self).subscribers_of(other) == old(
                    self,
                ).subscribers_of(other),
    {
        let ghost self0 = *self;
        match self.find_entry(aggregate_id) {
            Some(i) => {
                let mut ids = self.entries[i].subscriber_ids.clone();
                proof {
                    assert(ids@ =~= self0.entries@[i as int].subscriber_ids@);
                }
                match Self::find_subscriber(&ids, subscriber_id) {
                    Some(p) => {
                        let ghost ids0 = ids@;
                        ids.remove(p);
                        proof {
                            ids0.remove_ensures(p as int);
                            assert forall|x: usize| #[trigger] ids@.contains(x) <==> (
                            ids0.contains(x) && x != subscriber_id) by {
                                if ids@.contains(x) {
                                    let q = choose|q: int| 0 <= q < ids@.len() && ids@[q] == x;
                                    let q0: int = if q < p {
                                        q
                                    } else {
                                        q + 1
                                    };
                                    assert(ids0[q0] == x);
                                    assert(ids0.contains(x)) by {
                                        assert(ids0[q0] == x);
                                    }
                                    if x == subscriber_id {
                                        assert(ids0[q0] == subscriber_id && ids0[p as int]
                                            == subscriber_id && q0 != p);
                                        assert(false);
                                    }
                                }
                                if ids0.contains(x) && x != subscriber_id {
                                    let q = choose|q: int| 0 <= q < ids0.len() && ids0[q] == x;
                                    assert(q != p);
                                    if q < p {
                                        assert(ids@[q] == x);
                                        assert(ids@.contains(x)) by {
                                            assert(ids@[q] == x);
                                        }
                                    } else {
                                        assert(ids@[q - 1] == x);
                                        assert(ids@.contains(x)) by {
                                            assert(ids@[q - 1] == x);
                                        }
                                    }
                                }
                            }
                            assert(ids@.no_duplicates()) by {
                                assert forall|a: int, b: int|
                                    0 <= a < b < ids@.len() implies ids@[a] != ids@[b] by {
                                    let a0: int = if a < p {
                                        a
                                    } else {
                                        a + 1
                                    };
                                    let b0: int = if b < p {
                                        b
                                    } else {
                                        b + 1
                                    };
                                    assert(ids0[a0] == ids@[a] && ids0[b0] == ids@[b]);
                                }
                            }
                        }
                        let entry = AggregateSubscribers { aggregate_id, subscriber_ids: ids };
                        self.entries.set(i, entry);
                        proof {
                            let e0 = self0.entries@;
                            let e1 = self.entries@;
                            let ii = i as int;
                            assert(self.wf()) by {
                                assert forall|a: int, k: int|
                                    0 <= a < e1.len() && 0 <= k < e1[a].subscriber_ids@.len()
                                    implies (#[trigger] e1[a].subscriber_ids@[k])
                                    < self.next_subscriber_id by {
                                    if a == ii {
                                        assert(e1[a].subscriber_ids@.contains(
                                            e1[a].subscriber_ids@[k],
                                        )) by {
                                            assert(e1[a].subscriber_ids@[k]
                                                == e1[a].subscriber_ids@[k]);
                                        }
                                        let q = choose|q: int|
                                            0 <= q < ids0.len() && ids0[q]
                                                == e1[a].subscriber_ids@[k];
                                        assert(e0[ii].subscriber_ids@[q]
                                            < self0.next_subscriber_id);
                                    } else {
                                        assert(e1[a] == e0[a]);
                                    }
                                }
                                assert forall|a: int, b: int|
                                    0 <= a < b < e1.len() implies (#[trigger] e1[a]).aggregate_id
                                    != (#[trigger] e1[b]).aggregate_id by {
                                    assert(e1[a].aggregate_id == e0[a].aggregate_id);
                                    assert(e1[b].aggregate_id == e0[b].aggregate_id);
                                }
                                assert forall|a: int|
                                    0 <= a < e1.len() implies (
                                #[trigger] e1[a]).subscriber_ids@.no_duplicates() by {
                                    if a != ii {
                                        assert(e1[a] == e0[a]);
                                    }
                                }
                            }
                            assert forall|x: usize| #[trigger] self.subscribers_of(
                                aggregate_id,
                            ).contains(x) <==> (self0.subscribers_of(aggregate_id).contains(x)
                                && x != subscriber_id) by {
                                if self.subscribers_of(aggregate_id).contains(x) {
                                    let j = choose|j: int|
                                        0 <= j < e1.len() && (#[trigger] e1[j]).aggregate_id
                                            == aggregate_id && e1[j].subscriber_ids@.contains(x);
                                    if j == ii {
                                        assert(ids0.contains(x) && x != subscriber_id);
                                        assert(self0.subscribers_of(aggregate_id).contains(x)) by {
                                            assert((#[trigger] e0[ii]).aggregate_id == aggregate_id
                                                && e0[ii].subscriber_ids@.contains(x));
                                        }
                                    } else {
                                        assert(e1[j] == e0[j]);
                                        assert(false);
                                    }
                                }
                                if self0.subscribers_of(aggregate_id).contains(x) && x
                                    != subscriber_id {
                                    let j = choose|j: int|
                                        0 <= j < e0.len() && (#[trigger] e0[j]).aggregate_id
                                            == aggregate_id && e0[j].subscriber_ids@.contains(x);
                                    if j == ii {
                                        assert(ids@.contains(x));
                                        assert(self.subscribers_of(aggregate_id).contains(x)) by {
                                            assert((#[trigger] e1[ii]).aggregate_id == aggregate_id
                                                && e1[ii].subscriber_ids@.contains(x));
                                        }
                                    } else {
                                        assert(false);
                                    }
                                }
                            }
                            assert(self.subscribers_of(aggregate_id) =~= self0.subscribers_of(
                                aggregate_id,
                            ).remove(subscriber_id));
                            lemma_untouched_aggregates(self0, *self, aggregate_id);
                        }
                    },
                    None => {
                        proof {
                            assert(!self0.subscribers_of(aggregate_id).contains(subscriber_id))
                                by {
                                if self0.subscribers_of(aggregate_id).contains(subscriber_id) {
                                    let j = choose|j: int|
                                        0 <= j < self0.entries@.len() && (
                                        #[trigger] self0.entries@[j]).aggregate_id == aggregate_id
                                            && self0.entries@[j].subscriber_ids@.contains(
                                            subscriber_id,
                                        );
                                    if j == i as int {
                                        assert(false);
                                    } else {
                                        assert(false);
                                    }
                                }
                            }
                            assert(self.subscribers_of(aggregate_id) =~= self0.subscribers_of(
                                aggregate_id,
                            ).remove(subscriber_id));
                        }
                    },
                }
            },
            None => {
                proof {
                    assert(!self0.subscribers_of(aggregate_id).contains(subscriber_id)) by {
                        if self0.subscribers_of(aggregate_id).contains(subscriber_id) {
                            let j = choose|j: int|
                                0 <= j < self0.entries@.len() && (
                                #[trigger] self0.entries@[j]).aggregate_id == aggregate_id
                                    && self0.entries@[j].subscriber_ids@.contains(subscriber_id);
                            assert(false);
                        }
                    }
                    assert(self.subscribers_of(aggregate_id) =~= self0.subscribers_of(
                        aggregate_id,
                    ).remove(subscriber_id));
                }
            },
        }
    }

    /// The current subscribers of one aggregate, each exactly once.
    pub fn recipients(&self, aggregate_id: u128) -> (r: Vec<usize>)
        requires
            self.wf(),
        ensures
            r@.no_duplicates(),
            forall|sid: usize|
                #[trigger] r@.contains(sid) <==> self.subscribers_of(aggregate_id).contains(sid),
    {
        match self.find_entry(aggregate_id) {
            Some(i) => {
                let ids = self.entries[i].subscriber_ids.clone();
                proof {
                    assert(ids@ =~= self.entries@[i as int].subscriber_ids@);
                    assert forall|sid: usize| #[trigger] ids@.contains(sid) <==> self.subscribers_of(
                        aggregate_id,
                    ).contains(sid) by {
                        if self.subscribers_of(aggregate_id).contains(sid) {
                            let j = choose|j: int|
                                0 <= j < self.entries@.len() && (
                                #[trigger] self.entries@[j]).aggregate_id == aggregate_id
                                    && self.entries@[j].subscriber_ids@.contains(sid);
                            if j != i as int {
                                assert(false);
                            }
                        }
                    }
                }
                ids
            },
            None => {
                let ids: Vec<usize> = Vec::new();
                proof {
                    assert forall|sid: usize| #[trigger] ids@.contains(sid) <==> self.subscribers_of(
                        aggregate_id,
                    ).contains(sid) by {
                        assert(!ids@.contains(sid));
                        if self.subscribers_of(aggregate_id).contains(sid) {
                            assert(false);
                        }
                    }
                }
                ids
            },
        }
    }

    /// The publish decision for one dispatched commit: derives its
    /// structured form, encodes the message once, and names the current
    /// subscribers to send it to.  No subscribers is a successful no-op
    /// with an empty recipient list; a malformed payload is fatal for the
    /// derived form only.
    pub fn prepare_publish(&self, commit: &Commit) -> (r: Result<
        (Vec<usize>, Vec<u8>),
        EncodingError,
    >)
        requires
            self.wf(),
        ensures
            match r {
                Ok((recipients, message)) => {
                    &&& json_accepts(commit@.serialized_events)
                    &&& json_accepts(commit@.serialized_metadata)
                    &&& message@ == published_message(commit@)
                    &&& recipients@.no_duplicates()
                    &&& forall|sid: usize|
                        #[trigger] recipients@.contains(sid) <==> self.subscribers_of(
                            commit@.aggregate_id,
                        ).contains(sid)
                },
                Err(_) => !(json_accepts(commit@.serialized_events) && json_accepts(
                    commit@.serialized_metadata,
                )),
            },
    {
        let events_ok = parse_document(commit.serialized_events.as_slice()).is_ok();
        let metadata_ok = parse_document(commit.serialized_metadata.as_slice()).is_ok();
        if !(events_ok && metadata_ok) {
            return Err(EncodingError::Malformed);
        }
        let message = encode_published(commit);
        let recipients = self.recipients(commit.aggregate_id);
        Ok((recipients, message))
    }
}

} // verus!
