use std::collections::HashMap;
use std::collections::HashSet;

use lm_service::dispatch::forward;
use lm_service::dispatch::Command;
use lm_service::dispatch::Dispatcher;
use lm_service::dispatch::Message;
use lm_service::dispatch::ProtocolError;
use lm_service::dispatch::Routed;
use lm_service::session::Cache;
use lm_service::session::InferRequest;
use lm_service::session::SessionContext;

const EOS: u32 = 99;

fn dispatcher() -> Dispatcher {
    Dispatcher::new(512, EOS)
}

fn request(prompt: Vec<u32>, channel: u64) -> InferRequest {
    InferRequest { prompt, channel }
}

/// SessionId 7, prompt [1], eos 99: step one samples 5, which is delivered
/// and continued with prompt [5]; step two samples eos, the channel gets
/// nothing and the context returns to idle; a later infer reuses the cache.
#[test]
fn scenario_two_step_generation() {
    let mut d = dispatcher();
    assert!(d.infer(7, request(vec![1], 70)).is_ok());

    d.take_batch();
    let reqs = d.build_requests();
    assert_eq!(reqs.len(), 1);
    assert_eq!(reqs[0].session, 7);
    assert_eq!(reqs[0].prompt, vec![1]);
    assert_eq!(reqs[0].max_seq_len, 512);

    let mut samples: HashMap<u64, u32> = HashMap::new();
    samples.insert(7, 5);
    let closed: HashSet<u64> = HashSet::new();
    let routed = d.route_task(&samples, &closed).unwrap();
    assert_eq!(routed, Routed::Emitted(70, 5));
    assert_eq!(d.batcher.tasks.len(), 1);
    assert_eq!(d.batcher.tasks[0].infer.prompt, vec![5]);
    assert_eq!(d.batcher.tasks[0].ctx.id, 7);

    d.take_batch();
    let mut samples: HashMap<u64, u32> = HashMap::new();
    samples.insert(7, EOS);
    let routed = d.route_task(&samples, &closed).unwrap();
    let ctx = match routed {
        Routed::Finished(ctx) => ctx,
        other => panic!("expected Finished, got {:?}", other),
    };
    assert_eq!(ctx.id, 7);
    assert!(d.batcher.tasks.is_empty());
    assert!(d.inflight.is_empty());

    assert!(d.manage(Message::Ctx(ctx)).is_ok());
    assert!(d.sessions.contains_key(&7));

    // The idle cache is reused: same handle, state retained.
    assert!(d.infer(7, request(vec![2], 70)).is_ok());
    assert_eq!(d.batcher.tasks[0].ctx.cache.handle, 0);
    assert_eq!(d.next_cache, 1);
}

/// Dropping an idle session removes it at once; the next infer for the same
/// id gets a fresh cache handle.
#[test]
fn idle_drop_allocates_fresh_cache() {
    let mut d = dispatcher();
    assert!(d.infer(7, request(vec![1], 70)).is_ok());
    d.take_batch();
    let mut samples: HashMap<u64, u32> = HashMap::new();
    samples.insert(7, EOS);
    let closed: HashSet<u64> = HashSet::new();
    let ctx = match d.route_task(&samples, &closed).unwrap() {
        Routed::Finished(ctx) => ctx,
        other => panic!("expected Finished, got {:?}", other),
    };
    assert!(d.check_in(ctx).is_ok());

    d.drop_session(7);
    assert!(!d.sessions.contains_key(&7));
    assert!(!d.removing.contains(&7));

    assert!(d.infer(7, request(vec![2], 70)).is_ok());
    assert_eq!(d.batcher.tasks[0].ctx.cache.handle, 1);
}

/// Dropping a checked-out session leaves the in-flight work alone; tokens
/// keep flowing, and only when the context returns is it discarded.
#[test]
fn deferred_drop_discards_returning_context() {
    let mut d = dispatcher();
    assert!(d.infer(7, request(vec![1], 70)).is_ok());

    d.drop_session(7);
    assert!(d.removing.contains(&7));
    assert_eq!(d.batcher.tasks.len(), 1, "in-flight task not aborted");

    d.take_batch();
    let mut samples: HashMap<u64, u32> = HashMap::new();
    samples.insert(7, 5);
    let closed: HashSet<u64> = HashSet::new();
    // Generation continues to the original conduit despite the drop.
    assert_eq!(d.route_task(&samples, &closed).unwrap(), Routed::Emitted(70, 5));

    d.take_batch();
    let mut samples: HashMap<u64, u32> = HashMap::new();
    samples.insert(7, EOS);
    let ctx = match d.route_task(&samples, &closed).unwrap() {
        Routed::Finished(ctx) => ctx,
        other => panic!("expected Finished, got {:?}", other),
    };
    assert!(d.check_in(ctx).is_ok());
    assert!(!d.sessions.contains_key(&7), "context discarded, not idle");
    assert!(!d.removing.contains(&7), "deferred entry cleared");

    assert!(d.infer(7, request(vec![2], 70)).is_ok());
    assert_eq!(d.batcher.tasks[0].ctx.cache.handle, 1, "fresh cache");
}

/// An infer for a session whose cache is checked out is a fatal protocol
/// violation and leaves the state untouched.
#[test]
fn duplicate_infer_is_refused() {
    let mut d = dispatcher();
    assert!(d.infer(7, request(vec![1], 70)).is_ok());
    assert_eq!(
        d.infer(7, request(vec![2], 71)),
        Err(ProtocolError::DuplicateInfer)
    );
    assert_eq!(d.batcher.tasks.len(), 1);
    assert_eq!(d.batcher.tasks[0].infer.prompt, vec![1]);
}

/// A sampling result missing for a submitted task is a fatal protocol
/// violation; the state is left untouched.
#[test]
fn missing_sample_is_refused() {
    let mut d = dispatcher();
    assert!(d.infer(7, request(vec![1], 70)).is_ok());
    d.take_batch();
    let samples: HashMap<u64, u32> = HashMap::new();
    let closed: HashSet<u64> = HashSet::new();
    assert_eq!(d.route_task(&samples, &closed), Err(ProtocolError::MissingSample));
    assert_eq!(d.inflight.len(), 1);
}

/// A closed result conduit abandons the task silently: nothing is
/// re-enqueued, nothing returns to the manager, the session is gone, and a
/// teardown deferred for it is resolved by the discard.
#[test]
fn closed_channel_abandons_task() {
    let mut d = dispatcher();
    assert!(d.infer(7, request(vec![1], 70)).is_ok());
    d.drop_session(7);
    assert!(d.removing.contains(&7));
    d.take_batch();
    let mut samples: HashMap<u64, u32> = HashMap::new();
    samples.insert(7, 5);
    let mut closed: HashSet<u64> = HashSet::new();
    closed.insert(70);
    assert_eq!(d.route_task(&samples, &closed).unwrap(), Routed::Abandoned(7, 70));
    assert!(d.batcher.tasks.is_empty());
    assert!(d.inflight.is_empty());
    assert!(!d.sessions.contains_key(&7));
    assert!(!d.removing.contains(&7), "deferred teardown resolved by the discard");

    // The next session under the same id completes normally and goes idle.
    assert!(d.infer(7, request(vec![2], 71)).is_ok());
    d.take_batch();
    let mut samples: HashMap<u64, u32> = HashMap::new();
    samples.insert(7, EOS);
    let open: HashSet<u64> = HashSet::new();
    let ctx = match d.route_task(&samples, &open).unwrap() {
        Routed::Finished(ctx) => ctx,
        other => panic!("expected Finished, got {:?}", other),
    };
    assert!(d.check_in(ctx).is_ok());
    assert!(d.sessions.contains_key(&7), "not silently discarded");
}

/// A context for a still-active session, or with a never-issued cache
/// handle, is refused as stray.
#[test]
fn stray_context_is_refused() {
    let mut d = dispatcher();
    assert!(d.infer(7, request(vec![1], 70)).is_ok());
    d.take_batch();
    let mut samples: HashMap<u64, u32> = HashMap::new();
    samples.insert(7, EOS);
    let closed: HashSet<u64> = HashSet::new();
    let ctx = match d.route_task(&samples, &closed).unwrap() {
        Routed::Finished(ctx) => ctx,
        other => panic!("expected Finished, got {:?}", other),
    };
    let mut bogus = ctx;
    bogus.cache.handle = 17;
    assert_eq!(d.check_in(bogus), Err(ProtocolError::StrayContext));
    assert!(d.check_in(ctx).is_ok());
    // Now the session is idle, so checking the same context in again is stray.
    assert_eq!(d.check_in(ctx), Err(ProtocolError::StrayContext));
}

/// A context for an inactive session is still stray when its cache handle
/// is owned elsewhere: a cache never gains a second owner.
#[test]
fn duplicate_cache_handle_is_refused() {
    let mut d = dispatcher();
    // Session 1 is checked out, owning cache handle 0.
    assert!(d.infer(1, request(vec![1], 70)).is_ok());
    assert_eq!(d.batcher.tasks[0].ctx.cache.handle, 0);
    // Session 2 is inactive and handle 0 was issued, but it is still owned.
    let forged = SessionContext::new(Cache { handle: 0 }, 2);
    assert_eq!(d.check_in(forged), Err(ProtocolError::StrayContext));
    assert!(!d.sessions.contains_key(&2));
    // An idle owner blocks the handle just the same.
    d.take_batch();
    let mut samples: HashMap<u64, u32> = HashMap::new();
    samples.insert(1, EOS);
    let closed: HashSet<u64> = HashSet::new();
    let ctx = match d.route_task(&samples, &closed).unwrap() {
        Routed::Finished(ctx) => ctx,
        other => panic!("expected Finished, got {:?}", other),
    };
    assert!(d.check_in(ctx).is_ok());
    let forged = SessionContext::new(Cache { handle: 0 }, 2);
    assert_eq!(d.check_in(forged), Err(ProtocolError::StrayContext));
}

/// A batch drains every queued session at once; decode requests follow the
/// arrival order.
#[test]
fn batch_covers_all_ready_sessions() {
    let mut d = dispatcher();
    assert!(d.infer(1, request(vec![10], 81)).is_ok());
    assert!(d.infer(2, request(vec![20], 82)).is_ok());
    assert!(d.infer(3, request(vec![30], 83)).is_ok());
    d.take_batch();
    assert!(d.batcher.tasks.is_empty());
    let reqs = d.build_requests();
    assert_eq!(reqs.len(), 3);
    assert_eq!(reqs[0].session, 1);
    assert_eq!(reqs[1].session, 2);
    assert_eq!(reqs[2].session, 3);
    assert_eq!(reqs[1].prompt, vec![20]);
}

/// At every observation point a session lives in exactly one place: store,
/// queue or in-flight batch — never two at once, never twice.
#[test]
fn session_is_never_in_two_places() {
    let mut d = dispatcher();
    let everywhere = |d: &Dispatcher| {
        let in_store = d.sessions.contains_key(&7) as usize;
        let in_queue = d.batcher.tasks.iter().filter(|t| t.ctx.id == 7).count();
        let in_batch = d.inflight.iter().filter(|t| t.ctx.id == 7).count();
        in_store + in_queue + in_batch
    };
    assert_eq!(everywhere(&d), 0);
    assert!(d.infer(7, request(vec![1], 70)).is_ok());
    assert_eq!(everywhere(&d), 1);
    d.take_batch();
    assert_eq!(everywhere(&d), 1);
    let mut samples: HashMap<u64, u32> = HashMap::new();
    samples.insert(7, 5);
    let closed: HashSet<u64> = HashSet::new();
    assert!(d.route_task(&samples, &closed).is_ok());
    assert_eq!(everywhere(&d), 1);
    d.take_batch();
    let mut samples: HashMap<u64, u32> = HashMap::new();
    samples.insert(7, EOS);
    let ctx = match d.route_task(&samples, &closed).unwrap() {
        Routed::Finished(ctx) => ctx,
        other => panic!("expected Finished, got {:?}", other),
    };
    assert_eq!(everywhere(&d), 0);
    assert!(d.check_in(ctx).is_ok());
    assert_eq!(everywhere(&d), 1);
}

/// The command relay republishes commands in submission order.
#[test]
fn forward_preserves_order() {
    let commands = vec![
        Command::Infer(1, request(vec![10], 81)),
        Command::Drop(2),
        Command::Infer(3, request(vec![30], 83)),
    ];
    let msgs = forward(commands);
    assert_eq!(msgs.len(), 3);
    assert!(matches!(msgs[0], Message::Cmd(Command::Infer(1, _))));
    assert!(matches!(msgs[1], Message::Cmd(Command::Drop(2))));
    assert!(matches!(msgs[2], Message::Cmd(Command::Infer(3, _))));
}
