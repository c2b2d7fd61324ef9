//! The embedding queue, modelled as a state machine: submissions append
//! requests and record a status; a worker step takes the next message and
//! decides what outside work to run; completion records the outcome. The
//! surrounding runtime performs the actual embedding and feeds results
//! back, so every decision the queue takes is verified here.

use crate::kvmap::IdMap;
use crate::trusted::fresh_id;
use vstd::prelude::*;

verus! {

/// Status of an embedding request.
#[derive(Debug, PartialEq)]
pub enum RequestStatus {
    Queued,
    Processing,
    Completed,
    Failed(String),
    Cancelled,
}

impl Clone for RequestStatus {
    fn clone(&self) -> (r: Self)
        ensures
            r == *self,
    {
        match self {
            RequestStatus::Queued => RequestStatus::Queued,
            RequestStatus::Processing => RequestStatus::Processing,
            RequestStatus::Completed => RequestStatus::Completed,
            RequestStatus::Failed(m) => RequestStatus::Failed(m.clone()),
            RequestStatus::Cancelled => RequestStatus::Cancelled,
        }
    }
}

/// The transitions the worker itself performs on a request's status.
pub open spec fn spec_worker_step_ok(a: RequestStatus, b: RequestStatus) -> bool {
    ||| a == b
    ||| (a is Queued && (b is Processing || b is Cancelled))
    ||| (a is Processing && (b is Completed || b is Failed))
}

/// Completed, Failed and Cancelled are terminal for the worker: no worker
/// transition leaves them.
pub proof fn lemma_worker_terminal(a: RequestStatus, b: RequestStatus)
    requires
        a is Completed || a is Failed || a is Cancelled,
        spec_worker_step_ok(a, b),
    ensures
        b == a,
{
}

/// A progress report, with an optional percentage.
#[derive(Debug)]
pub struct EmbeddingProgress {
    pub request_id: u128,
    pub status: RequestStatus,
    pub progress_percent: Option<u8>,
    pub message: String,
}

/// A single embedding request.
#[derive(Debug)]
pub struct EmbeddingRequest {
    pub id: u128,
    pub text: String,
    pub chunk_id: Option<u128>,
    pub object_id: Option<u128>,
}

/// A batch embedding request.
#[derive(Debug)]
pub struct BatchEmbeddingRequest {
    pub id: u128,
    pub texts: Vec<String>,
    pub chunk_ids: Vec<Option<u128>>,
    pub object_ids: Vec<Option<u128>>,
}

/// Messages processed by the worker, in submission order.
#[derive(Debug)]
pub enum QueueMessage {
    Single(EmbeddingRequest),
    Batch(BatchEmbeddingRequest),
    Cancel(u128),
    ShutDown,
}

/// Errors surfaced by queue submissions.
#[derive(Debug, Clone, Copy, PartialEq, Eq)]
pub enum QueueError {
    /// The worker has shut down; nothing can be submitted any more.
    ShutDown,
    /// The queue is at its configured bound.
    QueueFull,
    /// A batch was submitted with lists of different lengths.
    LengthMismatch,
}

/// What the surrounding runtime must do after one worker step.
#[derive(Debug)]
pub enum WorkerAction {
    /// Run the embedding for this request and report the outcome.
    EmbedSingle(EmbeddingRequest),
    /// Run the batch embedding and report the outcome.
    EmbedBatch(BatchEmbeddingRequest),
    /// Deliver a cancellation to the request's completion handle.
    DeliverCancelled(u128),
    /// Nothing to do.
    Idle,
    /// The worker loop ends.
    ShutDown,
}

/// One progress event was appended, for this request and with this status.
pub open spec fn spec_emitted(
    before: Seq<EmbeddingProgress>,
    after: Seq<EmbeddingProgress>,
    request_id: u128,
    status: RequestStatus,
) -> bool {
    &&& after.len() == before.len() + 1
    &&& after.drop_last() == before
    &&& after.last().request_id == request_id
    &&& after.last().status == status
}

/// The embedding queue's verified state: pending messages in FIFO order, a
/// status per request, undelivered progress events and the configuration.
#[derive(Debug)]
pub struct EmbeddingQueue {
    pub statuses: IdMap<RequestStatus>,
    pub pending: Vec<QueueMessage>,
    pub progress_events: Vec<EmbeddingProgress>,
    pub max_queue_size: Option<usize>,
    pub shut_down: bool,
}

/// Whether the queue is at its configured bound.
pub open spec fn spec_queue_full(q: EmbeddingQueue) -> bool {
    match q.max_queue_size {
        Some(m) => q.pending@.len() >= m,
        None => false,
    }
}

impl EmbeddingQueue {
    pub open spec fn wf(&self) -> bool {
        self.statuses.wf()
    }

    /// A fresh queue with an optional bound on pending messages.
    pub fn new(max_queue_size: Option<usize>) -> (r: Self)
        ensures
            r.wf(),
            r.statuses@ == Map::<u128, RequestStatus>::empty(),
            r.pending@ == Seq::<QueueMessage>::empty(),
            r.progress_events@ == Seq::<EmbeddingProgress>::empty(),
            r.max_queue_size == max_queue_size,
            !r.shut_down,
    {
        EmbeddingQueue {
            statuses: IdMap::new(),
            pending: Vec::new(),
            progress_events: Vec::new(),
            max_queue_size,
            shut_down: false,
        }
    }

    /// Submits a single text. Wait-free: it records a Queued status and
    /// appends one message, or fails fast when shut down or full.
    pub fn embed_text(
        &mut self,
        text: String,
        chunk_id: Option<u128>,
        object_id: Option<u128>,
    ) -> (r: Result<u128, QueueError>)
        requires
            old(self).wf(),
        ensures
            final(self).wf(),
            old(self).shut_down ==> r == Result::<u128, QueueError>::Err(QueueError::ShutDown)
                && *final(self) == *old(self),
            !old(self).shut_down && spec_queue_full(*old(self)) ==> r == Result::<
                u128,
                QueueError,
            >::Err(QueueError::QueueFull) && *final(self) == *old(self),
            !old(self).shut_down && !spec_queue_full(*old(self)) ==> (r matches Ok(id)
                && final(self).statuses@ == old(self).statuses@.insert(id, RequestStatus::Queued)
                && final(self).pending@ == old(self).pending@.push(
                QueueMessage::Single(EmbeddingRequest { id, text, chunk_id, object_id }),
            ) && final(self).progress_events == old(self).progress_events && final(self).max_queue_size == old(self).max_queue_size && final(self).shut_down == old(self).shut_down),
    {
        if self.shut_down {
            return Err(QueueError::ShutDown);
        }
        match self.max_queue_size {
            Some(m) => {
                if self.pending.len() >= m {
                    return Err(QueueError::QueueFull);
                }
            },
            None => {},
        }
        let id = fresh_id();
        self.statuses.insert(id, RequestStatus::Queued);
        self.pending.push(QueueMessage::Single(EmbeddingRequest { id, text, chunk_id, object_id }));
        Ok(id)
    }

    /// Submits a batch. The three lists must have the same length, or the
    /// call fails synchronously.
    pub fn embed_batch(
        &mut self,
        texts: Vec<String>,
        chunk_ids: Vec<Option<u128>>,
        object_ids: Vec<Option<u128>>,
    ) -> (r: Result<u128, QueueError>)
        requires
            old(self).wf(),
        ensures
            final(self).wf(),
            texts@.len() != chunk_ids@.len() || texts@.len() != object_ids@.len() ==> r == Result::<
                u128,
                QueueError,
            >::Err(QueueError::LengthMismatch) && *final(self) == *old(self),
            texts@.len() == chunk_ids@.len() && texts@.len() == object_ids@.len() && old(self).shut_down ==> r == Result::<u128, QueueError>::Err(QueueError::ShutDown) && *final(self) == *old(self),
            texts@.len() == chunk_ids@.len() && texts@.len() == object_ids@.len() && !old(self).shut_down && spec_queue_full(*old(self)) ==> r == Result::<u128, QueueError>::Err(
                QueueError::QueueFull,
            ) && *final(self) == *old(self),
            texts@.len() == chunk_ids@.len() && texts@.len() == object_ids@.len() && !old(self).shut_down && !spec_queue_full(*old(self)) ==> (r matches Ok(id) && final(self).statuses@ == old(self).statuses@.insert(id, RequestStatus::Queued) && final(self).pending@ == old(self).pending@.push(
                QueueMessage::Batch(BatchEmbeddingRequest { id, texts, chunk_ids, object_ids }),
            ) && final(self).progress_events == old(self).progress_events && final(self).shut_down
                == old(self).shut_down),
    {
        if texts.len() != chunk_ids.len() || texts.len() != object_ids.len() {
            return Err(QueueError::LengthMismatch);
        }
        if self.shut_down {
            return Err(QueueError::ShutDown);
        }
        match self.max_queue_size {
            Some(m) => {
                if self.pending.len() >= m {
                    return Err(QueueError::QueueFull);
                }
            },
            None => {},
        }
        let id = fresh_id();
        self.statuses.insert(id, RequestStatus::Queued);
        self.pending.push(
            QueueMessage::Batch(BatchEmbeddingRequest { id, texts, chunk_ids, object_ids }),
        );
        Ok(id)
    }

    /// Posts a cancellation and unconditionally marks the status Cancelled.
    /// The worker honours it only for requests still queued when it sees
    /// the message; work already running completes regardless.
    pub fn cancel_request(&mut self, request_id: u128) -> (r: Result<(), QueueError>)
        requires
            old(self).wf(),
        ensures
            final(self).wf(),
            old(self).shut_down ==> r == Result::<(), QueueError>::Err(QueueError::ShutDown)
                && *final(self) == *old(self),
            !old(self).shut_down ==> r is Ok && final(self).statuses@ == old(self).statuses@.insert(request_id, RequestStatus::Cancelled) && final(self).pending@ == old(self).pending@.push(QueueMessage::Cancel(request_id)) && final(self).progress_events == old(self).progress_events && final(self).shut_down == old(self).shut_down,
    {
        if self.shut_down {
            return Err(QueueError::ShutDown);
        }
        self.pending.push(QueueMessage::Cancel(request_id));
        self.statuses.insert(request_id, RequestStatus::Cancelled);
        Ok(())
    }

    /// The recorded status of a request.
    pub fn get_request_status(&self, request_id: u128) -> (r: Option<RequestStatus>)
        requires
            self.wf(),
        ensures
            r matches Some(s) ==> self.statuses@.contains_key(request_id) && s
                == self.statuses@[request_id],
            r is None ==> !self.statuses@.contains_key(request_id),
    {
        match self.statuses.get(request_id) {
            Some(s) => Some(s.clone()),
            None => None,
        }
    }

    /// Every recorded request id with its status.
    pub fn get_all_statuses(&self) -> (r: Vec<(u128, RequestStatus)>)
        requires
            self.wf(),
        ensures
            r@.len() == self.statuses.entries@.len(),
            forall|i: int| 0 <= i < r@.len() ==> #[trigger] r@[i] == self.statuses.entries@[i],
    {
        let mut out: Vec<(u128, RequestStatus)> = Vec::new();
        let mut i: usize = 0;
        while i < self.statuses.num_entries()
            invariant
                i <= self.statuses.entries@.len(),
                out@.len() == i,
                forall|j: int| 0 <= j < i ==> #[trigger] out@[j] == self.statuses.entries@[j],
            decreases self.statuses.entries@.len() - i,
        {
            let (k, s) = self.statuses.entry_at(i);
            out.push((k, s.clone()));
            i = i + 1;
        }
        out
    }

    /// Takes the oldest undelivered progress event, if any.
    pub fn try_recv_progress(&mut self) -> (r: Option<EmbeddingProgress>)
        requires
            old(self).wf(),
        ensures
            final(self).wf(),
            old(self).progress_events@.len() == 0 ==> r is None && *final(self) == *old(self),
            old(self).progress_events@.len() > 0 ==> (r matches Some(e) && e == old(self).progress_events@[0]) && final(self).progress_events@ == old(self).progress_events@.drop_first() && final(self).statuses == old(self).statuses && final(self).pending == old(self).pending && final(self).shut_down == old(self).shut_down,
    {
        if self.progress_events.len() == 0 {
            None
        } else {
            let e = self.progress_events.remove(0);
            proof {
                assert(self.progress_events@ =~= old(self).progress_events@.drop_first());
            }
            Some(e)
        }
    }

    /// Posts the shutdown message; the worker drains up to it and exits.
    pub fn shutdown(&mut self) -> (r: Result<(), QueueError>)
        requires
            old(self).wf(),
        ensures
            final(self).wf(),
            old(self).shut_down ==> r == Result::<(), QueueError>::Err(QueueError::ShutDown)
                && *final(self) == *old(self),
            !old(self).shut_down ==> r is Ok && final(self).pending@ == old(self).pending@.push(
                QueueMessage::ShutDown,
            ) && final(self).statuses == old(self).statuses && final(self).progress_events == old(self).progress_events && final(self).shut_down == old(self).shut_down,
    {
        if self.shut_down {
            return Err(QueueError::ShutDown);
        }
        self.pending.push(QueueMessage::ShutDown);
        Ok(())
    }

    /// One worker step: takes the oldest message and decides. A queued
    /// single or batch request moves to Processing and is handed out to be
    /// embedded; one already cancelled is only reported back. A cancel
    /// message takes effect only on requests still queued. Every status it
    /// touches moves along a worker transition.
    pub fn worker_step(&mut self) -> (r: WorkerAction)
        requires
            old(self).wf(),
        ensures
            final(self).wf(),
            final(self).max_queue_size == old(self).max_queue_size,
            old(self).pending@.len() == 0 ==> r is Idle && *final(self) == *old(self),
            old(self).pending@.len() > 0 ==> final(self).pending@ == old(self).pending@.drop_first(),
            forall|k: u128|
                old(self).statuses@.contains_key(k) ==> #[trigger] final(self).statuses@.contains_key(
                    k,
                ),
            forall|k: u128|
                old(self).statuses@.contains_key(k) && (old(self).statuses@[k] is Queued || old(self).statuses@[k] is Cancelled) ==> final(self).statuses@.contains_key(k)
                    && spec_worker_step_ok(
                    old(self).statuses@[k],
                    #[trigger] final(self).statuses@[k],
                ),
            old(self).pending@.len() > 0 ==> match old(self).pending@[0] {
                QueueMessage::Single(req) => {
                    if old(self).statuses@.contains_key(req.id) && old(self).statuses@[req.id]
                        is Cancelled {
                        r == WorkerAction::DeliverCancelled(req.id) && final(self).statuses == old(self).statuses && spec_emitted(
                            old(self).progress_events@,
                            final(self).progress_events@,
                            req.id,
                            RequestStatus::Cancelled,
                        )
                    } else {
                        r == WorkerAction::EmbedSingle(req) && final(self).statuses@ == old(self).statuses@.insert(req.id, RequestStatus::Processing) && spec_emitted(
                            old(self).progress_events@,
                            final(self).progress_events@,
                            req.id,
                            RequestStatus::Processing,
                        )
                    }
                },
                QueueMessage::Batch(req) => {
                    if old(self).statuses@.contains_key(req.id) && old(self).statuses@[req.id]
                        is Cancelled {
                        r == WorkerAction::DeliverCancelled(req.id) && final(self).statuses == old(self).statuses && spec_emitted(
                            old(self).progress_events@,
                            final(self).progress_events@,
                            req.id,
                            RequestStatus::Cancelled,
                        )
                    } else {
                        r == WorkerAction::EmbedBatch(req) && final(self).statuses@ == old(self).statuses@.insert(req.id, RequestStatus::Processing) && spec_emitted(
                            old(self).progress_events@,
                            final(self).progress_events@,
                            req.id,
                            RequestStatus::Processing,
                        ) && final(self).progress_events@.last().progress_percent == Some(0u8)
                    }
                },
                QueueMessage::Cancel(id) => {
                    r is Idle && (if old(self).statuses@.contains_key(id) && old(self).statuses@[id] is Queued {
                        final(self).statuses@ == old(self).statuses@.insert(
                            id,
                            RequestStatus::Cancelled,
                        ) && spec_emitted(
                            old(self).progress_events@,
                            final(self).progress_events@,
                            id,
                            RequestStatus::Cancelled,
                        )
                    } else {
                        final(self).statuses == old(self).statuses && final(self).progress_events
                            == old(self).progress_events
                    })
                },
                QueueMessage::ShutDown => {
                    r is ShutDown && final(self).shut_down && final(self).statuses == old(self).statuses && final(self).progress_events == old(self).progress_events
                },
            },
            old(self).pending@.len() == 0 || !(old(self).pending@[0] is ShutDown) ==> final(self).shut_down == old(self).shut_down,
    {
        if self.pending.len() == 0 {
            return WorkerAction::Idle;
        }
        let ghost pre = self.pending@;
        let msg = self.pending.remove(0);
        proof {
            assert(self.pending@ =~= pre.drop_first());
            assert(msg == pre[0]);
        }
        match msg {
            QueueMessage::Single(req) => {
                let cancelled = match self.statuses.get(req.id) {
                    Some(s) => matches!(s, RequestStatus::Cancelled),
                    None => false,
                };
                if cancelled {
                    self.progress_events.push(
                        EmbeddingProgress {
                            request_id: req.id,
                            status: RequestStatus::Cancelled,
                            progress_percent: None,
                            message: "request cancelled".to_owned(),
                        },
                    );
                    proof {
                        assert(self.progress_events@.drop_last() =~= old(self).progress_events@);
                    }
                    WorkerAction::DeliverCancelled(req.id)
                } else {
                    self.statuses.insert(req.id, RequestStatus::Processing);
                    self.progress_events.push(
                        EmbeddingProgress {
                            request_id: req.id,
                            status: RequestStatus::Processing,
                            progress_percent: None,
                            message: "generating embedding".to_owned(),
                        },
                    );
                    proof {
                        assert(self.progress_events@.drop_last() =~= old(self).progress_events@);
                    }
                    WorkerAction::EmbedSingle(req)
                }
            },
            QueueMessage::Batch(req) => {
                let cancelled = match self.statuses.get(req.id) {
                    Some(s) => matches!(s, RequestStatus::Cancelled),
                    None => false,
                };
                if cancelled {
                    self.progress_events.push(
                        EmbeddingProgress {
                            request_id: req.id,
                            status: RequestStatus::Cancelled,
                            progress_percent: None,
                            message: "request cancelled".to_owned(),
                        },
                    );
                    proof {
                        assert(self.progress_events@.drop_last() =~= old(self).progress_events@);
                    }
                    WorkerAction::DeliverCancelled(req.id)
                } else {
                    self.statuses.insert(req.id, RequestStatus::Processing);
                    self.progress_events.push(
                        EmbeddingProgress {
                            request_id: req.id,
                            status: RequestStatus::Processing,
                            progress_percent: Some(0),
                            message: "processing batch".to_owned(),
                        },
                    );
                    proof {
                        assert(self.progress_events@.drop_last() =~= old(self).progress_events@);
                    }
                    WorkerAction::EmbedBatch(req)
                }
            },
            QueueMessage::Cancel(id) => {
                let queued = match self.statuses.get(id) {
                    Some(s) => matches!(s, RequestStatus::Queued),
                    None => false,
                };
                if queued {
                    self.statuses.insert(id, RequestStatus::Cancelled);
                    self.progress_events.push(
                        EmbeddingProgress {
                            request_id: id,
                            status: RequestStatus::Cancelled,
                            progress_percent: None,
                            message: "request cancelled".to_owned(),
                        },
                    );
                    proof {
                        assert(self.progress_events@.drop_last() =~= old(self).progress_events@);
                    }
                }
                WorkerAction::Idle
            },
            QueueMessage::ShutDown => {
                self.shut_down = true;
                WorkerAction::ShutDown
            },
        }
    }

    /// Records the outcome of embedding work handed out by a worker step:
    /// Completed on success, Failed with the message otherwise, with a
    /// final progress event either way.
    pub fn finish_request(&mut self, request_id: u128, outcome: Result<(), String>)
        requires
            old(self).wf(),
            old(self).statuses@.contains_key(request_id),
            old(self).statuses@[request_id] is Processing,
        ensures
            final(self).wf(),
            outcome is Ok ==> final(self).statuses@ == old(self).statuses@.insert(
                request_id,
                RequestStatus::Completed,
            ),
            outcome matches Err(m) ==> final(self).statuses@ == old(self).statuses@.insert(
                request_id,
                RequestStatus::Failed(m),
            ),
            final(self).progress_events@.len() == old(self).progress_events@.len() + 1,
            final(self).progress_events@.drop_last() == old(self).progress_events@,
            final(self).progress_events@.last().request_id == request_id,
            outcome is Ok ==> final(self).progress_events@.last().status is Completed && final(self).progress_events@.last().progress_percent == Some(100u8),
            outcome is Err ==> final(self).progress_events@.last().status is Failed,
            final(self).pending == old(self).pending,
            final(self).shut_down == old(self).shut_down,
            spec_worker_step_ok(old(self).statuses@[request_id], final(self).statuses@[request_id]),
            forall|k: u128|
                k != request_id && old(self).statuses@.contains_key(k) ==> final(self).statuses@.contains_key(k) && final(self).statuses@[k] == old(self).statuses@[k],
    {
        match outcome {
            Ok(()) => {
                self.statuses.insert(request_id, RequestStatus::Completed);
                self.progress_events.push(
                    EmbeddingProgress {
                        request_id,
                        status: RequestStatus::Completed,
                        progress_percent: Some(100),
                        message: "embedding completed".to_owned(),
                    },
                );
            },
            Err(m) => {
                let status_copy = RequestStatus::Failed(m.clone());
                self.statuses.insert(request_id, RequestStatus::Failed(m));
                self.progress_events.push(
                    EmbeddingProgress {
                        request_id,
                        status: status_copy,
                        progress_percent: None,
                        message: "embedding failed".to_owned(),
                    },
                );
            },
        }
        proof {
            assert(self.progress_events@.drop_last() =~= old(self).progress_events@);
        }
    }
}

/// Builder for configuring an embedding queue.
#[derive(Debug)]
pub struct EmbeddingQueueBuilder {
    pub max_queue_size: Option<usize>,
    pub max_concurrent_requests: Option<usize>,
}

impl EmbeddingQueueBuilder {
    pub fn new() -> (r: Self)
        ensures
            r.max_queue_size is None,
            r.max_concurrent_requests is None,
    {
        EmbeddingQueueBuilder { max_queue_size: None, max_concurrent_requests: None }
    }

    pub fn max_queue_size(self, size: usize) -> (r: Self)
        ensures
            r == (EmbeddingQueueBuilder { max_queue_size: Some(size), ..self }),
    {
        EmbeddingQueueBuilder { max_queue_size: Some(size), ..self }
    }

    pub fn max_concurrent_requests(self, count: usize) -> (r: Self)
        ensures
            r == (EmbeddingQueueBuilder { max_concurrent_requests: Some(count), ..self }),
    {
        EmbeddingQueueBuilder { max_concurrent_requests: Some(count), ..self }
    }

    /// Builds the queue with the configured bound.
    pub fn build(self) -> (r: EmbeddingQueue)
        ensures
            r.wf(),
            r.statuses@ == Map::<u128, RequestStatus>::empty(),
            r.pending@ == Seq::<QueueMessage>::empty(),
            r.progress_events@ == Seq::<EmbeddingProgress>::empty(),
            r.max_queue_size == self.max_queue_size,
            !r.shut_down,
    {
        EmbeddingQueue::new(self.max_queue_size)
    }
}

impl Default for EmbeddingQueueBuilder {
    fn default() -> (r: Self)
        ensures
            r.max_queue_size is None,
            r.max_concurrent_requests is None,
    {
        EmbeddingQueueBuilder::new()
    }
}

} // verus!
