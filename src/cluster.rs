use vstd::prelude::*;

use crate::correlation::{
    after_delivery, delivery_outcome, lemma_unmatched_response_dropped, CorrelationTable, Delivery,
    TableView,
};
use crate::error::ClusterError;
use crate::registry::{registered, ContextRegistry};
use crate::request::{encode_request, request_text, RadiologyImage};

verus! {

/// The abstract state of a cluster client: its contexts and the requests
/// in flight on its connection.
pub struct ClusterView {
    pub contexts: Map<Seq<char>, Seq<char>>,
    pub table: TableView,
}

/// The cluster after a response carrying `id` arrived.
pub open spec fn after_response(c: ClusterView, id: i64) -> ClusterView {
    ClusterView { contexts: c.contexts, table: after_delivery(c.table, id) }
}

/// A response whose id matches no pending request is dropped: no caller
/// is completed, and the whole cluster (contexts, connection state, pending
/// requests, next id) is as before, so every later call behaves as if the
/// response had never come.
pub proof fn lemma_unmatched_response_changes_nothing(c: ClusterView, id: i64)
    requires
        !c.table.pending.contains_key(id),
    ensures
        delivery_outcome(c.table, id) == Delivery::Drop,
        after_response(c, id) == c,
{
    lemma_unmatched_response_dropped(c.table, id);
}

/// A request ready to be written to the connection.
pub struct OutboundRequest {
    /// The id that the response to this request will carry.
    pub correlation_id: i64,
    /// The model that the request's context is bound to.
    pub model_name: String,
    /// The encoded request.
    pub text: String,
}

/// The outcome of one analysis. The confidence is kept in thousandths,
/// from 0 to 1000.
pub struct RadiologyResult {
    pub image_id: String,
    pub findings: String,
    pub confidence_permille: u16,
    pub analysis_date: String,
}

/// The largest confidence, in thousandths.
pub const FULL_CONFIDENCE: u16 = 1000;

impl RadiologyResult {
    /// The confidence lies in [0, 1].
    pub open spec fn wf(&self) -> bool {
        self.confidence_permille <= FULL_CONFIDENCE
    }

    /// A decoded analysis, refused when the confidence lies above 1.
    pub fn new(image_id: String, findings: String, confidence_permille: u16, analysis_date: String) -> (r:
        Result<Self, ClusterError>)
        ensures
            confidence_permille <= FULL_CONFIDENCE <==> r is Ok,
            match r {
                Ok(v) => v.wf() && v.image_id == image_id && v.findings == findings
                    && v.confidence_permille == confidence_permille && v.analysis_date
                    == analysis_date,
                Err(e) => e == ClusterError::Decode,
            },
    {
        if confidence_permille > FULL_CONFIDENCE {
            return Err(ClusterError::Decode);
        }
        Ok(RadiologyResult { image_id, findings, confidence_permille, analysis_date })
    }
}

/// Routes analysis requests of logical contexts to the models they are
/// bound to, over one connection, and matches responses to requests by
/// correlation id.
pub struct RadiologyCluster {
    contexts: ContextRegistry,
    table: CorrelationTable,
}

impl View for RadiologyCluster {
    type V = ClusterView;

    closed spec fn view(&self) -> ClusterView {
        ClusterView { contexts: self.contexts@, table: self.table@ }
    }
}

impl RadiologyCluster {
    pub closed spec fn wf(&self) -> bool {
        self.contexts.wf() && self.table.wf()
    }

    /// A cluster with no contexts, over a freshly opened connection.
    pub fn new() -> (r: Self)
        ensures
            r.wf(),
            r@.contexts == Map::<Seq<char>, Seq<char>>::empty(),
            r@.table.open,
            r@.table.next_id == 1,
            r@.table.pending == Map::<i64, u64>::empty(),
    {
        RadiologyCluster { contexts: ContextRegistry::new(), table: CorrelationTable::new() }
    }

    /// Binds `context_id` to `model_name`, replacing an earlier binding.
    /// Always succeeds.
    pub fn initialize_context(&mut self, context_id: &str, model_name: &str) -> (r: Result<
        (),
        ClusterError,
    >)
        requires
            old(self).wf(),
        ensures
            final(self).wf(),
            r is Ok,
            final(self)@.contexts == registered(old(self)@.contexts, context_id@, model_name@),
            final(self)@.table == old(self)@.table,
    {
        self.contexts.initialize_context(context_id, model_name);
        Ok(())
    }

    /// Removes the binding of `context_id`, if there is one.
    pub fn remove_context(&mut self, context_id: &str)
        requires
            old(self).wf(),
        ensures
            final(self).wf(),
            final(self)@.contexts == old(self)@.contexts.remove(context_id@),
            final(self)@.table == old(self)@.table,
    {
        self.contexts.remove_context(context_id);
    }

    /// The model name bound to `context_id`.
    pub fn resolve(&self, context_id: &str) -> (r: Result<String, ClusterError>)
        requires
            self.wf(),
        ensures
            match r {
                Ok(m) => self@.contexts.contains_key(context_id@) && m@ == self@.contexts[context_id@],
                Err(e) => !self@.contexts.contains_key(context_id@) && e
                    == ClusterError::ContextNotFound,
            },
    {
        self.contexts.resolve(context_id)
    }

    /// Prepares the analysis of `image` in context `context_id`, sent at
    /// `now`: resolves the model, encodes the request and records it as
    /// pending under a fresh correlation id. The caller writes the request
    /// to the connection once and waits for the response with that id.
    ///
    /// It succeeds exactly when the context is registered, the connection
    /// is open and ids remain. An unregistered context fails with
    /// `ContextNotFound` before any request exists; any failure leaves the
    /// cluster as it was.
    pub fn submit_image(&mut self, context_id: &str, image: RadiologyImage, now: u64) -> (r: Result<
        OutboundRequest,
        ClusterError,
    >)
        requires
            old(self).wf(),
        ensures
            final(self).wf(),
            final(self)@.contexts == old(self)@.contexts,
            !old(self)@.contexts.contains_key(context_id@) ==> r
                == Err::<OutboundRequest, ClusterError>(ClusterError::ContextNotFound),
            old(self)@.contexts.contains_key(context_id@) && !old(self)@.table.open ==> r
                == Err::<OutboundRequest, ClusterError>(ClusterError::ConnectionClosed),
            old(self)@.contexts.contains_key(context_id@) && old(self)@.table.open
                && old(self)@.table.next_id == i64::MAX ==> r == Err::<OutboundRequest, ClusterError>(
                ClusterError::IdsExhausted,
            ),
            old(self)@.contexts.contains_key(context_id@) && old(self)@.table.open
                && old(self)@.table.next_id < i64::MAX ==> r is Ok,
            match r {
                Ok(req) => {
                    &&& req.correlation_id == old(self)@.table.next_id
                    &&& !old(self)@.table.pending.contains_key(req.correlation_id)
                    &&& req.model_name@ == old(self)@.contexts[context_id@]
                    &&& req.text@ == request_text(image@.image_id, req.model_name@, image@.metadata)
                    &&& final(self)@.table == (TableView {
                        open: true,
                        next_id: (req.correlation_id + 1) as i64,
                        pending: old(self)@.table.pending.insert(req.correlation_id, now),
                    })
                },
                Err(_) => final(self)@ == old(self)@,
            },
    {
        let model_name = self.contexts.resolve(context_id)?;
        let text = encode_request(&image, model_name.as_str());
        let correlation_id = self.table.begin(now)?;
        Ok(OutboundRequest { correlation_id, model_name, text })
    }

    /// Records that a new connection is open: requests are taken again.
    /// Ids keep counting from where they were, so a late response from the
    /// old connection cannot complete a new request.
    pub fn on_connection_opened(&mut self)
        requires
            old(self).wf(),
        ensures
            final(self).wf(),
            final(self)@.contexts == old(self)@.contexts,
            final(self)@.table.open,
            final(self)@.table.next_id == old(self)@.table.next_id,
            final(self)@.table.pending == old(self)@.table.pending,
    {
        self.table.reopen();
    }

    /// Records that writing the request with `id` to the connection failed:
    /// the request is no longer pending, and its caller fails with
    /// `TransportWrite`.
    pub fn on_send_failed(&mut self, id: i64) -> (r: ClusterError)
        requires
            old(self).wf(),
        ensures
            final(self).wf(),
            r == ClusterError::TransportWrite,
            final(self)@.contexts == old(self)@.contexts,
            final(self)@.table == after_delivery(old(self)@.table, id),
    {
        self.table.abandon(id);
        ClusterError::TransportWrite
    }

    /// Records that the request with `id` ran out of time: it is no longer
    /// pending, and its caller fails with `Timeout`.
    pub fn on_timeout(&mut self, id: i64) -> (r: ClusterError)
        requires
            old(self).wf(),
        ensures
            final(self).wf(),
            r == ClusterError::Timeout,
            final(self)@.contexts == old(self)@.contexts,
            final(self)@.table == after_delivery(old(self)@.table, id),
    {
        self.table.abandon(id);
        ClusterError::Timeout
    }

    /// Routes a response carrying `id` to the caller waiting on that id, or
    /// drops it when none is.
    pub fn on_response(&mut self, id: i64) -> (r: Delivery)
        requires
            old(self).wf(),
        ensures
            final(self).wf(),
            r == delivery_outcome(old(self)@.table, id),
            final(self)@ == after_response(old(self)@, id),
    {
        self.table.deliver(id)
    }

    /// Removes the requests that have waited `timeout` or longer at `now`
    /// and returns their ids, each once; each of their callers fails with
    /// `Timeout`.
    pub fn expire_overdue(&mut self, now: u64, timeout: u64) -> (r: Vec<i64>)
        requires
            old(self).wf(),
        ensures
            final(self).wf(),
            final(self)@.contexts == old(self)@.contexts,
            final(self)@.table.open == old(self)@.table.open,
            final(self)@.table.next_id == old(self)@.table.next_id,
            r@.no_duplicates(),
            forall|id: i64|
                r@.contains(id) <==> old(self)@.table.pending.contains_key(id)
                    && crate::correlation::overdue(old(self)@.table.pending[id], now, timeout),
            final(self)@.table.pending == old(self)@.table.pending.remove_keys(r@.to_set()),
    {
        self.table.expire_overdue(now, timeout)
    }

    /// Records that the connection closed: every pending request fails with
    /// `ConnectionClosed` (their ids are returned, each once), none remains,
    /// and no new request is taken.
    pub fn on_connection_closed(&mut self) -> (r: Vec<i64>)
        requires
            old(self).wf(),
        ensures
            final(self).wf(),
            final(self)@.contexts == old(self)@.contexts,
            !final(self)@.table.open,
            final(self)@.table.next_id == old(self)@.table.next_id,
            final(self)@.table.pending == Map::<i64, u64>::empty(),
            r@.no_duplicates(),
            r@.len() == old(self)@.table.pending.dom().len(),
            forall|id: i64| r@.contains(id) <==> old(self)@.table.pending.contains_key(id),
    {
        self.table.close()
    }

    /// Whether the connection still takes requests.
    pub fn is_open(&self) -> (r: bool)
        ensures
            r == self@.table.open,
    {
        self.table.is_open()
    }

    /// The number of requests in flight.
    pub fn pending_count(&self) -> (r: usize)
        requires
            self.wf(),
        ensures
            r as int == self@.table.pending.dom().len(),
    {
        self.table.pending_count()
    }

    /// Whether the request with `id` is in flight.
    pub fn is_pending(&self, id: i64) -> (r: bool)
        requires
            self.wf(),
        ensures
            r == self@.table.pending.contains_key(id),
    {
        self.table.is_pending(id)
    }

    /// The stored results of `context_id`. No result store is wired into
    /// this client, so the call reports that it is not supported rather
    /// than an empty success.
    pub fn get_results(&self, context_id: &str) -> (r: Result<Vec<RadiologyResult>, ClusterError>)
        ensures
            r == Err::<Vec<RadiologyResult>, ClusterError>(ClusterError::NotSupported),
    {
        Err(ClusterError::NotSupported)
    }
}

} // verus!
