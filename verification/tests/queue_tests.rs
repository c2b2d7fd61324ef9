//! Tests of the embedding queue state machine: submission, the worker
//! step, completion, cancellation, backpressure and shutdown. The tests
//! drive the machine the way the surrounding runtime's worker loop does.

use u_forge_ai::queue::{
    EmbeddingQueue, EmbeddingQueueBuilder, QueueError, RequestStatus, WorkerAction,
};

/// Drives worker steps until the queue is idle, reporting success for
/// every piece of embedding work handed out.
fn drain_ok(queue: &mut EmbeddingQueue) {
    loop {
        match queue.worker_step() {
            WorkerAction::EmbedSingle(req) => {
                queue.finish_request(req.id, Ok(()));
            }
            WorkerAction::EmbedBatch(req) => {
                queue.finish_request(req.id, Ok(()));
            }
            WorkerAction::DeliverCancelled(_) => {}
            WorkerAction::Idle => break,
            WorkerAction::ShutDown => break,
        }
    }
}

#[test]
fn test_single_submission_completes() {
    let mut queue = EmbeddingQueueBuilder::new().build();

    let id = queue
        .embed_text("Test document".to_string(), None, None)
        .unwrap();
    assert_eq!(queue.get_request_status(id), Some(RequestStatus::Queued));

    drain_ok(&mut queue);

    assert_eq!(queue.get_request_status(id), Some(RequestStatus::Completed));
    assert!(queue.try_recv_progress().is_some());
}

#[test]
fn test_batch_length_mismatch() {
    let mut queue = EmbeddingQueueBuilder::new().build();

    let r = queue.embed_batch(
        vec!["First document".to_string(), "Second document".to_string()],
        vec![None],
        vec![None, None],
    );
    assert_eq!(r, Err(QueueError::LengthMismatch));

    let r = queue.embed_batch(
        vec!["First document".to_string(), "Second document".to_string()],
        vec![None, None],
        vec![None, None],
    );
    assert!(r.is_ok());
    drain_ok(&mut queue);
    assert_eq!(
        queue.get_request_status(r.unwrap()),
        Some(RequestStatus::Completed)
    );
}

#[test]
fn test_failed_embedding_is_recorded() {
    let mut queue = EmbeddingQueueBuilder::new().build();
    let id = queue
        .embed_text("Doomed document".to_string(), None, None)
        .unwrap();

    match queue.worker_step() {
        WorkerAction::EmbedSingle(req) => {
            assert_eq!(req.id, id);
            queue.finish_request(req.id, Err("model unavailable".to_string()));
        }
        other => panic!("unexpected action: {:?}", other),
    }

    assert_eq!(
        queue.get_request_status(id),
        Some(RequestStatus::Failed("model unavailable".to_string()))
    );
}

#[test]
fn test_cancel_before_processing() {
    let mut queue = EmbeddingQueueBuilder::new().build();

    let id = queue
        .embed_text("Never embedded".to_string(), None, None)
        .unwrap();
    queue.cancel_request(id).unwrap();
    assert_eq!(queue.get_request_status(id), Some(RequestStatus::Cancelled));

    match queue.worker_step() {
        WorkerAction::DeliverCancelled(cid) => assert_eq!(cid, id),
        other => panic!("unexpected action: {:?}", other),
    }
    assert_eq!(queue.get_request_status(id), Some(RequestStatus::Cancelled));

    // The pickup of an already-cancelled request emits a cancelled event.
    let mut saw_cancelled_event = false;
    while let Some(e) = queue.try_recv_progress() {
        if e.request_id == id && e.status == RequestStatus::Cancelled {
            saw_cancelled_event = true;
        }
    }
    assert!(saw_cancelled_event);
}

#[test]
fn test_queue_full_backpressure() {
    let mut queue = EmbeddingQueueBuilder::new().max_queue_size(1).build();

    queue.embed_text("first".to_string(), None, None).unwrap();
    let r = queue.embed_text("second".to_string(), None, None);
    assert_eq!(r, Err(QueueError::QueueFull));

    drain_ok(&mut queue);
    assert!(queue.embed_text("third".to_string(), None, None).is_ok());
}

#[test]
fn test_shutdown_rejects_submissions() {
    let mut queue = EmbeddingQueueBuilder::new().build();
    queue.shutdown().unwrap();

    loop {
        match queue.worker_step() {
            WorkerAction::ShutDown => break,
            WorkerAction::Idle => panic!("worker went idle before the shutdown message"),
            _ => {}
        }
    }

    let r = queue.embed_text("late".to_string(), None, None);
    assert_eq!(r, Err(QueueError::ShutDown));
}

#[test]
fn test_ten_submissions_all_reach_terminal_status() {
    let mut queue = EmbeddingQueueBuilder::new().build();

    let mut ids = Vec::new();
    for i in 0..10 {
        let id = queue
            .embed_text(format!("document number {}", i), None, None)
            .unwrap();
        ids.push(id);
    }

    drain_ok(&mut queue);

    let statuses = queue.get_all_statuses();
    for id in &ids {
        assert!(statuses.iter().any(|(k, s)| {
            k == id && matches!(s, RequestStatus::Completed | RequestStatus::Failed(_))
        }));
    }
    assert!(statuses.len() >= 10);
}
