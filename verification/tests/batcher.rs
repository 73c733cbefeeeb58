use lm_service::batcher::Batcher;
use lm_service::session::Cache;
use lm_service::session::InferRequest;
use lm_service::session::SessionContext;
use lm_service::session::Task;

fn task(id: u64, handle: u64) -> Task {
    Task {
        ctx: SessionContext::new(Cache { handle }, id),
        infer: InferRequest { prompt: vec![1, 2], channel: id },
    }
}

/// A single drain returns every task enqueued before it, in arrival order,
/// and leaves nothing behind for a second drain to duplicate.
#[test]
fn drain_returns_everything_once() {
    let mut b = Batcher::new();
    b.enq(task(1, 10));
    b.enq(task(2, 20));
    b.enq(task(3, 30));

    let batch = b.deq();
    assert_eq!(batch.len(), 3);
    assert_eq!(batch[0].ctx.id, 1);
    assert_eq!(batch[1].ctx.id, 2);
    assert_eq!(batch[2].ctx.id, 3);

    let second = b.deq();
    assert!(second.is_empty());
}

/// Enqueuing after a drain starts a fresh batch.
#[test]
fn enqueue_after_drain() {
    let mut b = Batcher::new();
    b.enq(task(1, 10));
    assert_eq!(b.deq().len(), 1);
    b.enq(task(2, 20));
    b.enq(task(3, 30));
    let batch = b.deq();
    assert_eq!(batch.len(), 2);
    assert_eq!(batch[0].ctx.id, 2);
    assert_eq!(batch[1].ctx.id, 3);
}
