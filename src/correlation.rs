use vstd::prelude::*;

use crate::error::ClusterError;

verus! {

/// The abstract state of the correlation table of one connection.
pub struct TableView {
    /// Whether the connection still takes requests.
    pub open: bool,
    /// The id that the next request will carry.
    pub next_id: i64,
    /// Each in-flight request's correlation id, mapped to the time it was sent.
    pub pending: Map<i64, u64>,
}

/// What becomes of an inbound response.
#[derive(Clone, Copy, Debug, PartialEq, Eq, Structural)]
pub enum Delivery {
    /// The response completes the pending request with this id.
    Resolve(i64),
    /// No pending request has the response's id; it is discarded.
    Drop,
}

/// What the table does with a response carrying `id`.
pub open spec fn delivery_outcome(v: TableView, id: i64) -> Delivery {
    if v.pending.contains_key(id) {
        Delivery::Resolve(id)
    } else {
        Delivery::Drop
    }
}

/// The table after a response carrying `id` arrived.
pub open spec fn after_delivery(v: TableView, id: i64) -> TableView {
    TableView { open: v.open, next_id: v.next_id, pending: v.pending.remove(id) }
}

/// The table after responses carrying `ids` arrived, in that order.
pub open spec fn after_deliveries(v: TableView, ids: Seq<i64>) -> TableView
    decreases ids.len(),
{
    if ids.len() == 0 {
        v
    } else {
        after_delivery(after_deliveries(v, ids.drop_last()), ids.last())
    }
}

/// A request sent at `sent` has waited `timeout` or longer at `now`.
pub open spec fn overdue(sent: u64, now: u64, timeout: u64) -> bool {
    sent as int + timeout as int <= now as int
}

/// The requests in flight on one connection, keyed by correlation id.
///
/// Ids are handed out in increasing order from 1, so a fresh id never
/// collides with a pending one.
pub struct CorrelationTable {
    open: bool,
    next_id: i64,
    pending: Vec<(i64, u64)>,
    contents: Ghost<Map<i64, u64>>,
}

impl View for CorrelationTable {
    type V = TableView;

    closed spec fn view(&self) -> TableView {
        TableView { open: self.open, next_id: self.next_id, pending: self.contents@ }
    }
}

impl CorrelationTable {
    /// Each id is pending once, below the next id, and the entries are
    /// exactly the map.
    pub closed spec fn wf(&self) -> bool {
        &&& 1 <= self.next_id
        &&& forall|i: int, j: int|
            0 <= i < j < self.pending@.len() ==> self.pending@[i].0 != self.pending@[j].0
        &&& forall|i: int|
            0 <= i < self.pending@.len() ==> {
                &&& #[trigger] self.contents@.contains_key(self.pending@[i].0)
                &&& self.contents@[self.pending@[i].0] == self.pending@[i].1
            }
        &&& forall|k: i64|
            #[trigger] self.contents@.contains_key(k) ==> exists|i: int|
                0 <= i < self.pending@.len() && self.pending@[i].0 == k
        &&& forall|k: i64| #[trigger] self.contents@.contains_key(k) ==> 1 <= k < self.next_id
    }

    /// A table for a freshly opened connection.
    pub fn new() -> (r: Self)
        ensures
            r.wf(),
            r@.open,
            r@.next_id == 1,
            r@.pending == Map::<i64, u64>::empty(),
    {
        CorrelationTable { open: true, next_id: 1, pending: Vec::new(), contents: Ghost(Map::empty()) }
    }

    /// Whether the connection still takes requests.
    pub fn is_open(&self) -> (r: bool)
        ensures
            r == self@.open,
    {
        self.open
    }

    /// The number of requests in flight.
    pub fn pending_count(&self) -> (r: usize)
        requires
            self.wf(),
        ensures
            r as int == self@.pending.dom().len(),
    {
        proof {
            self.lemma_len_matches();
        }
        self.pending.len()
    }

    /// Whether a request with `id` is in flight.
    pub fn is_pending(&self, id: i64) -> (r: bool)
        requires
            self.wf(),
        ensures
            r == self@.pending.contains_key(id),
    {
        self.find(id).is_some()
    }

    proof fn lemma_len_matches(&self)
        requires
            self.wf(),
        ensures
            self.pending@.len() == self.contents@.dom().len(),
    {
        let ids = self.pending@.map_values(|p: (i64, u64)| p.0);
        assert(ids.no_duplicates()) by {
            assert forall|i: int, j: int| 0 <= i < ids.len() && 0 <= j < ids.len() && i != j
                implies ids[i] != ids[j] by {
                if i < j {
                    assert(self.pending@[i].0 != self.pending@[j].0);
                } else {
                    assert(self.pending@[j].0 != self.pending@[i].0);
                }
            }
        }
        assert(ids.to_set() =~= self.contents@.dom()) by {
            assert forall|k: i64| self.contents@.dom().contains(k) implies ids.to_set().contains(k) by {
                assert(self.contents@.contains_key(k));
                let i = choose|i: int| 0 <= i < self.pending@.len() && self.pending@[i].0 == k;
                assert(ids[i] == k);
            }
            assert forall|k: i64| ids.to_set().contains(k) implies self.contents@.dom().contains(k) by {
                let i = choose|i: int| 0 <= i < ids.len() && ids[i] == k;
                assert(self.contents@.contains_key(self.pending@[i].0));
            }
        }
        ids.unique_seq_to_set();
    }

    fn find(&self, id: i64) -> (r: Option<usize>)
        requires
            self.wf(),
        ensures
            match r {
                Some(i) => i < self.pending@.len() && self.pending@[i as int].0 == id
                    && self@.pending.contains_key(id),
                None => !self@.pending.contains_key(id),
            },
    {
        let mut i: usize = 0;
        while i < self.pending.len()
            invariant
                self.wf(),
                i <= self.pending@.len(),
                forall|j: int| 0 <= j < i ==> self.pending@[j].0 != id,
            decreases self.pending@.len() - i,
        {
            if self.pending[i].0 == id {
                proof {
                    assert(self.contents@.contains_key(self.pending@[i as int].0));
                }
                return Some(i);
            }
            i = i + 1;
        }
        None
    }

    fn remove_at(&mut self, i: usize) -> (id: i64)
        requires
            old(self).wf(),
            i < old(self).pending@.len(),
        ensures
            final(self).wf(),
            id == old(self).pending@[i as int].0,
            final(self).pending@ == old(self).pending@.remove(i as int),
            final(self)@ == after_delivery(old(self)@, id),
    {
        let id = self.pending[i].0;
        let ghost before = self.pending@;
        let ghost target = self.contents@.remove(id);
        self.pending.remove(i);
        self.contents = Ghost(target);
        assert(forall|j: int| 0 <= j < self.pending@.len() ==>
            #[trigger] self.pending@[j] == before[if j < i { j } else { j + 1 }]);
        assert forall|a: int, b: int| 0 <= a < b < self.pending@.len() implies
            self.pending@[a].0 != self.pending@[b].0 by {
            let a2 = if a < i { a } else { a + 1 };
            let b2 = if b < i { b } else { b + 1 };
            assert(self.pending@[a] == before[a2]);
            assert(self.pending@[b] == before[b2]);
        }
        assert forall|j: int| 0 <= j < self.pending@.len() implies {
            &&& #[trigger] self.contents@.contains_key(self.pending@[j].0)
            &&& self.contents@[self.pending@[j].0] == self.pending@[j].1
        } by {
            let j2 = if j < i { j } else { j + 1 };
            assert(self.pending@[j] == before[j2]);
            assert(before[j2].0 != before[i as int].0);
            assert(old(self).contents@.contains_key(old(self).pending@[j2].0));
        }
        assert forall|k: i64| #[trigger] self.contents@.contains_key(k) implies exists|j: int|
            0 <= j < self.pending@.len() && self.pending@[j].0 == k by {
            let w = choose|w: int| 0 <= w < before.len() && before[w].0 == k;
            if w < i {
                assert(self.pending@[w].0 == k);
            } else {
                assert(self.pending@[w - 1].0 == k);
            }
        }
        assert(self@ =~= after_delivery(old(self)@, id));
        id
    }

    /// Takes a fresh correlation id for a request sent at `now` and records
    /// the request as pending. A closed connection takes no request.
    pub fn begin(&mut self, now: u64) -> (r: Result<i64, ClusterError>)
        requires
            old(self).wf(),
        ensures
            final(self).wf(),
            !old(self)@.open ==> r == Err::<i64, ClusterError>(ClusterError::ConnectionClosed),
            old(self)@.open && old(self)@.next_id == i64::MAX ==> r == Err::<i64, ClusterError>(
                ClusterError::IdsExhausted,
            ),
            old(self)@.open && old(self)@.next_id < i64::MAX ==> r == Ok::<i64, ClusterError>(
                old(self)@.next_id,
            ),
            match r {
                Ok(id) => {
                    &&& !old(self)@.pending.contains_key(id)
                    &&& final(self)@ == (TableView {
                        open: true,
                        next_id: (id + 1) as i64,
                        pending: old(self)@.pending.insert(id, now),
                    })
                },
                Err(_) => final(self)@ == old(self)@,
            },
    {
        if !self.open {
            return Err(ClusterError::ConnectionClosed);
        }
        if self.next_id == i64::MAX {
            return Err(ClusterError::IdsExhausted);
        }
        let id = self.next_id;
        let ghost before = self.pending@;
        let ghost target = self.contents@.insert(id, now);
        self.pending.push((id, now));
        self.next_id = id + 1;
        self.contents = Ghost(target);
        assert(forall|j: int| 0 <= j < before.len() ==> #[trigger] self.pending@[j] == before[j]);
        assert forall|j: int| 0 <= j < before.len() implies before[j].0 != id by {
            assert(old(self).contents@.contains_key(before[j].0));
        }
        assert forall|k: i64| #[trigger] self.contents@.contains_key(k) implies exists|j: int|
            0 <= j < self.pending@.len() && self.pending@[j].0 == k by {
            if k == id {
                assert(self.pending@[self.pending@.len() - 1].0 == k);
            } else {
                let w = choose|w: int| 0 <= w < before.len() && before[w].0 == k;
                assert(self.pending@[w].0 == k);
            }
        }
        Ok(id)
    }

    /// Marks a new connection open; pending requests and the next id are
    /// kept.
    pub fn reopen(&mut self)
        requires
            old(self).wf(),
        ensures
            final(self).wf(),
            final(self)@.open,
            final(self)@.next_id == old(self)@.next_id,
            final(self)@.pending == old(self)@.pending,
    {
        self.open = true;
        assert(self.pending@ == old(self).pending@ && self.contents@ == old(self).contents@);
        assert(self.next_id == old(self).next_id);
    }

    /// Forgets the request with `id`: its send failed, its caller gave up,
    /// or its deadline passed. Returns whether it was pending.
    pub fn abandon(&mut self, id: i64) -> (r: bool)
        requires
            old(self).wf(),
        ensures
            final(self).wf(),
            r == old(self)@.pending.contains_key(id),
            final(self)@ == after_delivery(old(self)@, id),
    {
        match self.find(id) {
            Some(i) => {
                self.remove_at(i);
                true
            },
            None => {
                assert(self@.pending =~= after_delivery(old(self)@, id).pending);
                false
            },
        }
    }

    /// Routes a response carrying `id`: it completes the pending request
    /// with the same id, whatever order responses arrive in, and is dropped
    /// when no such request is pending.
    pub fn deliver(&mut self, id: i64) -> (r: Delivery)
        requires
            old(self).wf(),
        ensures
            final(self).wf(),
            r == delivery_outcome(old(self)@, id),
            final(self)@ == after_delivery(old(self)@, id),
    {
        if self.abandon(id) {
            Delivery::Resolve(id)
        } else {
            Delivery::Drop
        }
    }

    /// Removes every request sent `timeout` or longer before `now`, and
    /// returns their ids, each once.
    pub fn expire_overdue(&mut self, now: u64, timeout: u64) -> (r: Vec<i64>)
        requires
            old(self).wf(),
        ensures
            final(self).wf(),
            final(self)@.open == old(self)@.open,
            final(self)@.next_id == old(self)@.next_id,
            r@.no_duplicates(),
            forall|id: i64|
                r@.contains(id) <==> old(self)@.pending.contains_key(id) && overdue(
                    old(self)@.pending[id],
                    now,
                    timeout,
                ),
            final(self)@.pending == old(self)@.pending.remove_keys(r@.to_set()),
    {
        let mut expired: Vec<i64> = Vec::new();
        let mut i: usize = 0;
        while i < self.pending.len()
            invariant
                self.wf(),
                i <= self.pending@.len(),
                self@.open == old(self)@.open,
                self@.next_id == old(self)@.next_id,
                expired@.no_duplicates(),
                forall|j: int| 0 <= j < i ==> !overdue(#[trigger] self.pending@[j].1, now, timeout),
                forall|id: i64|
                    expired@.contains(id) ==> old(self)@.pending.contains_key(id) && overdue(
                        old(self)@.pending[id],
                        now,
                        timeout,
                    ),
                forall|id: i64|
                    #[trigger] self@.pending.contains_key(id) <==> old(self)@.pending.contains_key(id)
                        && !expired@.contains(id),
                forall|id: i64|
                    #[trigger] self@.pending.contains_key(id) ==> self@.pending[id]
                        == old(self)@.pending[id],
            decreases self.pending@.len() - i,
        {
            let (id, sent) = self.pending[i];
            if sent <= now && now - sent >= timeout {
                let ghost before = self@;
                let ghost old_exp = expired@;
                proof {
                    assert(self.contents@.contains_key(self.pending@[i as int].0));
                    assert(before.pending.contains_key(id));
                    assert(before.pending[id] == sent);
                    assert(old(self)@.pending.contains_key(id));
                    assert(overdue(old(self)@.pending[id], now, timeout));
                    assert(!old_exp.contains(id));
                }
                self.remove_at(i);
                expired.push(id);
                assert(expired@ == old_exp.push(id));
                assert forall|x: i64| #[trigger] expired@.contains(x) implies old(self)@.pending.contains_key(
                    x,
                ) && overdue(old(self)@.pending[x], now, timeout) by {
                    if x != id {
                        let w = choose|w: int| 0 <= w < expired@.len() && expired@[w] == x;
                        assert(old_exp[w] == x);
                        assert(old_exp.contains(x));
                    }
                }
                assert forall|x: i64| #[trigger] self@.pending.contains_key(x) <==> old(self)@.pending.contains_key(x)
                    && !expired@.contains(x) by {
                    if x != id && expired@.contains(x) {
                        let w = choose|w: int| 0 <= w < expired@.len() && expired@[w] == x;
                        assert(old_exp[w] == x);
                        assert(old_exp.contains(x));
                    }
                    if x != id && old_exp.contains(x) {
                        let w = choose|w: int| 0 <= w < old_exp.len() && old_exp[w] == x;
                        assert(expired@[w] == x);
                    }
                    if x == id {
                        assert(expired@[expired@.len() - 1] == x);
                    }
                }
            } else {
                i = i + 1;
            }
        }
        assert forall|id: i64|
            old(self)@.pending.contains_key(id) && overdue(
                old(self)@.pending[id],
                now,
                timeout,
            ) implies expired@.contains(id) by {
            if !expired@.contains(id) {
                assert(self@.pending.contains_key(id));
                let w = choose|w: int| 0 <= w < self.pending@.len() && self.pending@[w].0 == id;
                assert(!overdue(self.pending@[w].1, now, timeout));
            }
        }
        assert(self@.pending =~= old(self)@.pending.remove_keys(expired@.to_set()));
        expired
    }

    /// Marks the connection closed and removes every pending request.
    /// Returns the ids of all of them, each once: each fails with
    /// `ConnectionClosed`.
    pub fn close(&mut self) -> (r: Vec<i64>)
        requires
            old(self).wf(),
        ensures
            final(self).wf(),
            !final(self)@.open,
            final(self)@.next_id == old(self)@.next_id,
            final(self)@.pending == Map::<i64, u64>::empty(),
            r@.no_duplicates(),
            r@.len() == old(self)@.pending.dom().len(),
            forall|id: i64| r@.contains(id) <==> old(self)@.pending.contains_key(id),
    {
        proof {
            self.lemma_len_matches();
        }
        let mut ids: Vec<i64> = Vec::new();
        let mut i: usize = 0;
        while i < self.pending.len()
            invariant
                self.wf(),
                *self == *old(self),
                i <= self.pending@.len(),
                ids@.len() == i,
                forall|j: int| 0 <= j < i ==> ids@[j] == #[trigger] self.pending@[j].0,
            decreases self.pending@.len() - i,
        {
            ids.push(self.pending[i].0);
            i = i + 1;
        }
        assert forall|a: int, b: int| 0 <= a < ids@.len() && 0 <= b < ids@.len() && a != b
            implies ids@[a] != ids@[b] by {
            if a < b {
                assert(self.pending@[a].0 != self.pending@[b].0);
            } else {
                assert(self.pending@[b].0 != self.pending@[a].0);
            }
        }
        assert forall|id: i64| ids@.contains(id) <==> old(self)@.pending.contains_key(id) by {
            if ids@.contains(id) {
                let w = choose|w: int| 0 <= w < ids@.len() && ids@[w] == id;
                assert(self.contents@.contains_key(self.pending@[w].0));
            }
            if old(self)@.pending.contains_key(id) {
                let w = choose|w: int| 0 <= w < self.pending@.len() && self.pending@[w].0 == id;
                assert(ids@[w] == id);
            }
        }
        self.open = false;
        self.pending = Vec::new();
        self.contents = Ghost(Map::empty());
        ids
    }
}

/// After responses carrying `ids` arrived, in any order, the requests still
/// pending are exactly those whose id is not among `ids`; nothing else of
/// the table changes.
pub proof fn lemma_deliveries_remove_their_ids(v: TableView, ids: Seq<i64>)
    ensures
        after_deliveries(v, ids).open == v.open,
        after_deliveries(v, ids).next_id == v.next_id,
        after_deliveries(v, ids).pending == v.pending.remove_keys(ids.to_set()),
    decreases ids.len(),
{
    if ids.len() > 0 {
        let init = ids.drop_last();
        lemma_deliveries_remove_their_ids(v, init);
        assert(ids == init.push(ids.last()));
        assert(ids.to_set() =~= init.to_set().insert(ids.last())) by {
            assert forall|x: i64| ids.to_set().contains(x) implies init.to_set().insert(
                ids.last(),
            ).contains(x) by {
                let w = choose|w: int| 0 <= w < ids.len() && ids[w] == x;
                if w < ids.len() - 1 {
                    assert(init[w] == x);
                }
            }
            assert forall|x: i64| init.to_set().insert(ids.last()).contains(x) implies ids.to_set().contains(
                x,
            ) by {
                if x != ids.last() {
                    let w = choose|w: int| 0 <= w < init.len() && init[w] == x;
                    assert(ids[w] == x);
                } else {
                    assert(ids[ids.len() - 1] == x);
                }
            }
        }
        assert(after_deliveries(v, ids).pending =~= v.pending.remove_keys(ids.to_set()));
    } else {
        assert(v.pending.remove_keys(ids.to_set()) =~= v.pending);
    }
}

/// Responses to distinct requests may arrive in any order: the `k`-th to
/// arrive completes the request with its own id exactly when that request
/// was pending when the responses began to arrive, whatever came before it.
pub proof fn lemma_delivery_matches_own_id(v: TableView, ids: Seq<i64>, k: int)
    requires
        ids.no_duplicates(),
        0 <= k < ids.len(),
    ensures
        delivery_outcome(after_deliveries(v, ids.take(k)), ids[k]) == delivery_outcome(v, ids[k]),
        delivery_outcome(v, ids[k]) == (if v.pending.contains_key(ids[k]) {
            Delivery::Resolve(ids[k])
        } else {
            Delivery::Drop
        }),
{
    lemma_deliveries_remove_their_ids(v, ids.take(k));
    assert(!ids.take(k).to_set().contains(ids[k])) by {
        if ids.take(k).to_set().contains(ids[k]) {
            let w = choose|w: int| 0 <= w < ids.take(k).len() && ids.take(k)[w] == ids[k];
            assert(ids[w] == ids[k]);
        }
    }
}

/// Two orders of arrival of the same responses leave the same table.
pub proof fn lemma_delivery_order_irrelevant(v: TableView, a: Seq<i64>, b: Seq<i64>)
    requires
        a.to_set() == b.to_set(),
    ensures
        after_deliveries(v, a) == after_deliveries(v, b),
{
    lemma_deliveries_remove_their_ids(v, a);
    lemma_deliveries_remove_their_ids(v, b);
}

/// A response whose id matches no pending request is dropped and leaves
/// the table as it was.
pub proof fn lemma_unmatched_response_dropped(v: TableView, id: i64)
    requires
        !v.pending.contains_key(id),
    ensures
        delivery_outcome(v, id) == Delivery::Drop,
        after_delivery(v, id) == v,
{
    assert(v.pending.remove(id) =~= v.pending);
}

} // verus!
