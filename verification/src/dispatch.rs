//! The dispatcher core: session manager, batch queue and decode-loop routing
//! as one verified state machine.
//!
//! A session is, at any instant, in exactly one of four places: absent, idle
//! in the session store, queued in the batch queue, or in the batch currently
//! at the decode step.  The surrounding runtime owns the conduits and the
//! backend; it feeds every control-stream message to [`Dispatcher::manage`],
//! drains batches with [`Dispatcher::take_batch`], hands the backend's
//! sampled tokens to [`Dispatcher::route_task`], and performs the sends that
//! the returned [`Routed`] values call for.

use vstd::prelude::*;
use std::collections::HashMap;
use std::collections::HashSet;
use crate::batcher::Batcher;
use crate::session::Cache;
use crate::session::ChannelId;
use crate::session::InferRequest;
use crate::session::SessionContext;
use crate::session::SessionId;
use crate::session::Task;
use crate::session::Token;

verus! {

broadcast use vstd::std_specs::hash::group_hash_axioms;

/// Externally submitted command: start or continue a generation for a
/// session, or tear the session down.
#[derive(Clone, Debug)]
pub enum Command {
    Infer(SessionId, InferRequest),
    Drop(SessionId),
}

/// Internal control-stream message: an external command, or a completed
/// context returning from the decode loop for check-in.
#[derive(Clone, Debug)]
pub enum Message {
    Cmd(Command),
    Ctx(SessionContext),
}

/// A broken invariant between the session manager and the decode loop.
/// Every variant is fatal to the execution context that sees it: the caller
/// must terminate that loop rather than continue with corrupted state.
#[derive(PartialEq, Eq, Structural, Clone, Copy, Debug)]
pub enum ProtocolError {
    /// `Infer` arrived for a session whose cache is checked out: accepting it
    /// would run two generations against one cache concurrently.
    DuplicateInfer,
    /// A context returned for a session that is still active somewhere, or
    /// carrying a cache handle this dispatcher never issued or one that is
    /// still owned elsewhere: accepting it would duplicate a cache.
    StrayContext,
    /// A task was submitted to decode but sampling returned no token for it.
    MissingSample,
}

/// Outcome of routing one task after a decode-and-sample step.
#[derive(PartialEq, Eq, Structural, Clone, Copy, Debug)]
pub enum Routed {
    /// The sampled token is not end-of-sequence and the caller still
    /// listens: the task was re-enqueued with the single-token prompt, and
    /// the caller of the routing step must push the token onto the channel.
    Emitted(ChannelId, Token),
    /// The sampled token is end-of-sequence: the task was retired and its
    /// context must be returned to the session manager as a [`Message::Ctx`].
    Finished(SessionContext),
    /// The caller closed its result conduit: the task was discarded
    /// silently, cache and all, nothing is delivered or returned, and any
    /// teardown deferred for the session is resolved by the discard.
    Abandoned(SessionId, ChannelId),
}

/// The whole scheduling state of the core.
pub struct Dispatcher {
    /// Idle sessions, keyed by session id: the session store.
    pub sessions: HashMap<SessionId, SessionContext>,
    /// Sessions whose teardown arrived while they were checked out; their
    /// returning context is discarded instead of re-inserted.
    pub removing: HashSet<SessionId>,
    /// Handles of the caches the idle sessions hold, kept in step with the
    /// store so that a returning context whose handle is still owned can be
    /// refused without scanning the store.
    pub idle_caches: HashSet<u64>,
    /// Ready-to-run tasks awaiting the next drain.
    pub batcher: Batcher,
    /// The batch currently at the decode step: drained, not yet routed.
    pub inflight: Vec<Task>,
    /// Lowest cache handle not yet issued.  Fresh caches take handles from
    /// this counter, so a fresh cache never aliases a live one.
    pub next_cache: u64,
    /// Model-supplied maximum sequence length, copied into decode requests.
    pub max_seq_len: usize,
    /// Model-supplied end-of-sequence token.
    pub eos: Token,
}

impl Dispatcher {
    /// The session store: sessions currently idle.
    pub open spec fn idle(self) -> Map<SessionId, SessionContext> {
        self.sessions@
    }

    /// Sessions with a deferred teardown pending.
    pub open spec fn removing_ids(self) -> Set<SessionId> {
        self.removing@
    }

    /// Tasks waiting in the batch queue, in arrival order.
    pub open spec fn queued(self) -> Seq<Task> {
        self.batcher@
    }

    /// Tasks of the batch currently at the decode step.
    pub open spec fn batch(self) -> Seq<Task> {
        self.inflight@
    }

    /// Session ids of the queued tasks.
    pub open spec fn queued_ids(self) -> Seq<SessionId> {
        self.queued().map_values(|t: Task| t.ctx.id)
    }

    /// Session ids of the in-flight batch.
    pub open spec fn batch_ids(self) -> Seq<SessionId> {
        self.batch().map_values(|t: Task| t.ctx.id)
    }

    /// Cache handles of the queued tasks.
    pub open spec fn queued_caches(self) -> Seq<u64> {
        self.queued().map_values(|t: Task| t.ctx.cache.handle)
    }

    /// Cache handles of the in-flight batch.
    pub open spec fn batch_caches(self) -> Seq<u64> {
        self.batch().map_values(|t: Task| t.ctx.cache.handle)
    }

    /// Some idle session holds cache handle `h`.
    pub open spec fn store_has_cache(self, h: u64) -> bool {
        exists|id: SessionId| #[trigger] self.idle().dom().contains(id)
            && self.idle()[id].cache.handle == h
    }

    /// The cache handle is owned somewhere: store, queue or batch.
    pub open spec fn cache_live(self, h: u64) -> bool {
        self.store_has_cache(h) || self.queued_caches().contains(h) || self.batch_caches().contains(
            h,
        )
    }

    /// The session's cache is owned by an in-flight task.
    pub open spec fn checked_out(self, id: SessionId) -> bool {
        self.queued_ids().contains(id) || self.batch_ids().contains(id)
    }

    /// The session exists somewhere: idle or checked out.
    pub open spec fn active(self, id: SessionId) -> bool {
        self.idle().dom().contains(id) || self.checked_out(id)
    }

    /// The context's cache handle was issued by this dispatcher.
    pub open spec fn ctx_ok(self, ctx: SessionContext) -> bool {
        ctx.cache.handle < self.next_cache
    }

    /// Well-formedness: every session is in at most one place, no place
    /// holds a session twice, every live cache handle was issued, every
    /// cache has exactly one owner, and the idle-handle set mirrors the
    /// store.
    pub open spec fn wf(self) -> bool {
        &&& self.queued_ids().no_duplicates()
        &&& self.batch_ids().no_duplicates()
        &&& forall|id: SessionId| #[trigger] self.idle().dom().contains(id)
            ==> !self.checked_out(id) && self.idle()[id].id == id && self.ctx_ok(self.idle()[id])
        &&& forall|id: SessionId| #[trigger] self.queued_ids().contains(id)
            ==> !self.batch_ids().contains(id)
        &&& forall|i: int| 0 <= i < self.queued().len()
            ==> self.ctx_ok(#[trigger] self.queued()[i].ctx)
        &&& forall|i: int| 0 <= i < self.batch().len()
            ==> self.ctx_ok(#[trigger] self.batch()[i].ctx)
        &&& self.queued_caches().no_duplicates()
        &&& self.batch_caches().no_duplicates()
        &&& forall|h: u64| #[trigger] self.queued_caches().contains(h)
            ==> !self.batch_caches().contains(h)
        &&& forall|id: SessionId| #[trigger] self.idle().dom().contains(id)
            ==> !self.queued_caches().contains(self.idle()[id].cache.handle)
                && !self.batch_caches().contains(self.idle()[id].cache.handle)
        &&& forall|id1: SessionId, id2: SessionId|
            #[trigger] self.idle().dom().contains(id1) && #[trigger] self.idle().dom().contains(
                id2,
            ) && id1 != id2 ==> self.idle()[id1].cache.handle != self.idle()[id2].cache.handle
        &&& forall|h: u64|
            #![trigger self.idle_caches@.contains(h)]
            #![trigger self.store_has_cache(h)]
            self.idle_caches@.contains(h) <==> self.store_has_cache(h)
    }
}

/// The cache an accepted `Infer` gives the new task: the idle session's own
/// cache where one exists, else a fresh handle.
pub open spec fn infer_cache(pre: Dispatcher, id: SessionId) -> Cache {
    if pre.idle().dom().contains(id) {
        pre.idle()[id].cache
    } else {
        (Cache { handle: pre.next_cache })
    }
}

/// Transition of an accepted `Infer(id, req)`: the session leaves the store
/// (if it was there), and exactly one task for it joins the queue, reusing
/// the idle cache or taking a fresh one.
pub open spec fn infer_spec(pre: Dispatcher, post: Dispatcher, id: SessionId, req: InferRequest) -> bool {
    let task = (Task { ctx: SessionContext { id, cache: infer_cache(pre, id) }, infer: req });
    &&& post.idle() == pre.idle().remove(id)
    &&& post.removing_ids() == pre.removing_ids()
    &&& post.queued() == pre.queued().push(task)
    &&& post.batch() == pre.batch()
    &&& post.next_cache == if pre.idle().dom().contains(id) {
        pre.next_cache as int
    } else {
        pre.next_cache + 1
    }
    &&& post.max_seq_len == pre.max_seq_len
    &&& post.eos == pre.eos
}

/// Transition of `Drop(id)`: an idle session is removed and discarded at
/// once; otherwise the id is recorded for deferred teardown.  In-flight work
/// is never touched.
pub open spec fn drop_spec(pre: Dispatcher, post: Dispatcher, id: SessionId) -> bool {
    &&& post.idle() == pre.idle().remove(id)
    &&& post.removing_ids() == if pre.idle().dom().contains(id) {
        pre.removing_ids()
    } else {
        pre.removing_ids().insert(id)
    }
    &&& post.queued() == pre.queued()
    &&& post.batch() == pre.batch()
    &&& post.next_cache == pre.next_cache
    &&& post.max_seq_len == pre.max_seq_len
    &&& post.eos == pre.eos
}

/// Transition of an accepted context return: discarded if a teardown was
/// deferred for the session (clearing the entry), re-inserted as idle
/// otherwise.
pub open spec fn check_in_spec(pre: Dispatcher, post: Dispatcher, ctx: SessionContext) -> bool {
    &&& post.idle() == if pre.removing_ids().contains(ctx.id) {
        pre.idle()
    } else {
        pre.idle().insert(ctx.id, ctx)
    }
    &&& post.removing_ids() == pre.removing_ids().remove(ctx.id)
    &&& post.queued() == pre.queued()
    &&& post.batch() == pre.batch()
    &&& post.next_cache == pre.next_cache
    &&& post.max_seq_len == pre.max_seq_len
    &&& post.eos == pre.eos
}

/// The re-submitted task of a continuing generation: same session, same
/// cache, same result conduit, prompt collapsed to the one token just
/// produced.
pub open spec fn is_continuation(next: Task, task: Task, tok: Token) -> bool {
    &&& next.ctx == task.ctx
    &&& next.infer.channel == task.infer.channel
    &&& next.infer.prompt@ == seq![tok]
}

/// Transition of routing the first task of the in-flight batch, given the
/// sampled tokens and the set of result conduits known to be closed.
pub open spec fn route_spec(
    pre: Dispatcher,
    post: Dispatcher,
    samples: Map<SessionId, Token>,
    closed: Set<ChannelId>,
    r: Result<Routed, ProtocolError>,
) -> bool {
    let task = pre.batch()[0];
    &&& post.idle() == pre.idle()
    &&& post.next_cache == pre.next_cache
    &&& post.max_seq_len == pre.max_seq_len
    &&& post.eos == pre.eos
    &&& if !samples.contains_key(task.ctx.id) {
        &&& r == Err::<Routed, ProtocolError>(ProtocolError::MissingSample)
        &&& post.queued() == pre.queued()
        &&& post.batch() == pre.batch()
        &&& post.removing_ids() == pre.removing_ids()
    } else {
        let tok = samples[task.ctx.id];
        &&& post.batch() == pre.batch().drop_first()
        &&& if tok == pre.eos {
            &&& r == Ok::<Routed, ProtocolError>(Routed::Finished(task.ctx))
            &&& post.queued() == pre.queued()
            &&& post.removing_ids() == pre.removing_ids()
        } else if closed.contains(task.infer.channel) {
            &&& r == Ok::<Routed, ProtocolError>(Routed::Abandoned(task.ctx.id, task.infer.channel))
            &&& post.queued() == pre.queued()
            &&& post.removing_ids() == pre.removing_ids().remove(task.ctx.id)
        } else {
            &&& r == Ok::<Routed, ProtocolError>(Routed::Emitted(task.infer.channel, tok))
            &&& post.queued() == pre.queued().push(post.queued().last())
            &&& post.queued().len() == pre.queued().len() + 1
            &&& is_continuation(post.queued().last(), task, tok)
            &&& post.removing_ids() == pre.removing_ids()
        }
    }
}

/// When the store and its mirror set are untouched between `pre` and
/// `post`, the store-related well-formedness clauses carry over.
proof fn lemma_store_unchanged(pre: Dispatcher, post: Dispatcher)
    requires
        pre.wf(),
        post.sessions@ == pre.sessions@,
        post.idle_caches@ == pre.idle_caches@,
    ensures
        forall|h: u64|
            #![trigger post.idle_caches@.contains(h)]
            #![trigger post.store_has_cache(h)]
            post.idle_caches@.contains(h) <==> post.store_has_cache(h),
        forall|id1: SessionId, id2: SessionId|
            #[trigger] post.idle().dom().contains(id1) && #[trigger] post.idle().dom().contains(
                id2,
            ) && id1 != id2 ==> post.idle()[id1].cache.handle != post.idle()[id2].cache.handle,
{
    assert forall|h: u64| post.idle_caches@.contains(h) implies post.store_has_cache(h) by {
        assert(pre.idle_caches@.contains(h));
        assert(pre.store_has_cache(h));
        let wid = choose|wid: SessionId| #![auto]
            pre.idle().dom().contains(wid) && pre.idle()[wid].cache.handle == h;
        assert(post.idle().dom().contains(wid) && post.idle()[wid].cache.handle == h);
    }
    assert forall|h: u64| post.store_has_cache(h) implies post.idle_caches@.contains(h) by {
        let wid = choose|wid: SessionId| #![auto]
            post.idle().dom().contains(wid) && post.idle()[wid].cache.handle == h;
        assert(pre.idle().dom().contains(wid) && pre.idle()[wid].cache.handle == h);
        assert(pre.store_has_cache(h));
    }
    assert forall|id1: SessionId, id2: SessionId|
        post.idle().dom().contains(id1) && post.idle().dom().contains(id2) && id1 != id2 implies
        post.idle()[id1].cache.handle != post.idle()[id2].cache.handle by {
        assert(pre.idle().dom().contains(id1));
        assert(pre.idle().dom().contains(id2));
    }
}

/// True iff some task in `tasks` belongs to session `id`.
fn vec_has_session(tasks: &Vec<Task>, id: SessionId) -> (r: bool)
    ensures
        r == tasks@.map_values(|t: Task| t.ctx.id).contains(id),
{
    let ids = Ghost(tasks@.map_values(|t: Task| t.ctx.id));
    let mut i: usize = 0;
    while i < tasks.len()
        invariant
            i <= tasks@.len(),
            ids@ == tasks@.map_values(|t: Task| t.ctx.id),
            forall|j: int| 0 <= j < i ==> ids@[j] != id,
        decreases tasks@.len() - i,
    {
        if tasks[i].ctx.id == id {
            proof {
                assert(ids@[i as int] == id);
            }
            return true;
        }
        i += 1;
    }
    proof {
        assert forall|j: int| 0 <= j < ids@.len() implies ids@[j] != id by {}
    }
    false
}

/// True iff some task in `tasks` owns cache handle `h`.
fn vec_has_cache(tasks: &Vec<Task>, h: u64) -> (r: bool)
    ensures
        r == tasks@.map_values(|t: Task| t.ctx.cache.handle).contains(h),
{
    let handles = Ghost(tasks@.map_values(|t: Task| t.ctx.cache.handle));
    let mut i: usize = 0;
    while i < tasks.len()
        invariant
            i <= tasks@.len(),
            handles@ == tasks@.map_values(|t: Task| t.ctx.cache.handle),
            forall|j: int| 0 <= j < i ==> handles@[j] != h,
        decreases tasks@.len() - i,
    {
        if tasks[i].ctx.cache.handle == h {
            proof {
                assert(handles@[i as int] == h);
            }
            return true;
        }
        i += 1;
    }
    proof {
        assert forall|j: int| 0 <= j < handles@.len() implies handles@[j] != h by {}
    }
    false
}

impl Dispatcher {
    /// A dispatcher with no sessions and no work, for a model with the given
    /// maximum sequence length and end-of-sequence token.
    pub fn new(max_seq_len: usize, eos: Token) -> (d: Dispatcher)
        ensures
            d.wf(),
            d.idle() == Map::<SessionId, SessionContext>::empty(),
            d.removing_ids() == Set::<SessionId>::empty(),
            d.queued() == Seq::<Task>::empty(),
            d.batch() == Seq::<Task>::empty(),
            d.next_cache == 0,
            d.max_seq_len == max_seq_len,
            d.eos == eos,
    {
        let d = Dispatcher {
            sessions: HashMap::new(),
            removing: HashSet::new(),
            idle_caches: HashSet::new(),
            batcher: Batcher::new(),
            inflight: Vec::new(),
            next_cache: 0,
            max_seq_len,
            eos,
        };
        proof {
            assert(d.queued_ids() =~= Seq::<SessionId>::empty());
            assert(d.batch_ids() =~= Seq::<SessionId>::empty());
            assert(d.queued_caches() =~= Seq::<u64>::empty());
            assert(d.batch_caches() =~= Seq::<u64>::empty());
            assert forall|h: u64| !d.store_has_cache(h) by {}
        }
        d
    }

    /// The session's cache is currently owned by a queued or in-flight task.
    pub fn is_checked_out(&self, id: SessionId) -> (r: bool)
        ensures
            r == self.checked_out(id),
    {
        vec_has_session(&self.batcher.tasks, id) || vec_has_session(&self.inflight, id)
    }

    /// The session exists: idle in the store or checked out.
    pub fn is_active(&self, id: SessionId) -> (r: bool)
        ensures
            r == self.active(id),
    {
        self.sessions.contains_key(&id) || self.is_checked_out(id)
    }

    /// The cache handle is currently owned by an idle session, a queued
    /// task or an in-flight task.
    pub fn is_cache_live(&self, h: u64) -> (r: bool)
        requires
            self.wf(),
        ensures
            r == self.cache_live(h),
    {
        self.idle_caches.contains(&h) || vec_has_cache(&self.batcher.tasks, h) || vec_has_cache(
            &self.inflight,
            h,
        )
    }

    /// `Infer(id, req)`: check the session's cache out of the store (or
    /// allocate a fresh one for an unknown session) and queue exactly one
    /// task for it.  An `Infer` for a session that is already checked out is
    /// a protocol violation: it is refused, the state is untouched, and the
    /// caller must treat it as fatal.
    pub fn infer(&mut self, id: SessionId, req: InferRequest) -> (r: Result<(), ProtocolError>)
        requires
            old(self).wf(),
            !old(self).active(id) ==> old(self).next_cache < u64::MAX,
        ensures
            final(self).wf(),
            old(self).checked_out(id) ==> r == Err::<(), ProtocolError>(
                ProtocolError::DuplicateInfer,
            ) && *final(self) == *old(self),
            !old(self).checked_out(id) ==> r == Ok::<(), ProtocolError>(()) && infer_spec(
                *old(self),
                *final(self),
                id,
                req,
            ),
    {
        if self.is_checked_out(id) {
            return Err(ProtocolError::DuplicateInfer);
        }
        let ctx = match self.sessions.remove(&id) {
            Some(ctx) => {
                self.idle_caches.remove(&ctx.cache.handle);
                ctx
            },
            None => {
                let cache = Cache { handle: self.next_cache };
                self.next_cache = self.next_cache + 1;
                SessionContext::new(cache, id)
            },
        };
        proof {
            assert(ctx == SessionContext { id, cache: infer_cache(*old(self), id) });
        }
        self.batcher.enq(Task { ctx, infer: req });
        proof {
            let pre = *old(self);
            let post = *self;
            let h = ctx.cache.handle;
            assert(post.queued_ids() =~= pre.queued_ids().push(id));
            assert(post.queued_caches() =~= pre.queued_caches().push(h));
            assert forall|x: SessionId| #[trigger] post.queued_ids().contains(x) implies (
                pre.queued_ids().contains(x) || x == id
            ) by {
                let i = choose|i: int| 0 <= i < post.queued_ids().len() && post.queued_ids()[i] == x;
                if i < pre.queued_ids().len() {
                    assert(pre.queued_ids()[i] == x);
                }
            }
            assert forall|x: SessionId| pre.queued_ids().contains(x) implies #[trigger] post
                .queued_ids()
                .contains(x) by {
                let i = choose|i: int| 0 <= i < pre.queued_ids().len() && pre.queued_ids()[i] == x;
                assert(post.queued_ids()[i] == x);
            }
            assert forall|x: u64| #[trigger] post.queued_caches().contains(x) implies (
                pre.queued_caches().contains(x) || x == h
            ) by {
                let i = choose|i: int|
                    0 <= i < post.queued_caches().len() && post.queued_caches()[i] == x;
                if i < pre.queued_caches().len() {
                    assert(pre.queued_caches()[i] == x);
                }
            }
            assert forall|x: u64| pre.queued_caches().contains(x) implies #[trigger] post
                .queued_caches()
                .contains(x) by {
                let i = choose|i: int|
                    0 <= i < pre.queued_caches().len() && pre.queued_caches()[i] == x;
                assert(post.queued_caches()[i] == x);
            }
            // The handle that joins the queue is owned nowhere else.
            if pre.idle().dom().contains(id) {
                assert(ctx == pre.idle()[id]);
                assert(!pre.queued_caches().contains(h));
                assert(!pre.batch_caches().contains(h));
            } else {
                assert(h == pre.next_cache);
                assert forall|i: int| 0 <= i < pre.queued_caches().len() implies pre
                    .queued_caches()[i] != h by {
                    assert(pre.ctx_ok(pre.queued()[i].ctx));
                }
                assert(!pre.queued_caches().contains(h));
                assert forall|i: int| 0 <= i < pre.batch_caches().len() implies pre
                    .batch_caches()[i] != h by {
                    assert(pre.ctx_ok(pre.batch()[i].ctx));
                }
                assert(!pre.batch_caches().contains(h));
            }
            // The store after the removal, and its mirror set.
            assert forall|x: SessionId| #[trigger] post.idle().dom().contains(x) implies pre.idle()
                .dom()
                .contains(x) && post.idle()[x] == pre.idle()[x] && x != id by {
                assert(post.idle() == pre.idle().remove(id));
            }
            assert forall|x: u64| #[trigger] post.idle_caches@.contains(x) implies post
                .store_has_cache(x) by {
                if pre.idle().dom().contains(id) {
                    assert(x != h);
                    assert(pre.store_has_cache(x));
                    let wid = choose|wid: SessionId| #![auto]
                        pre.idle().dom().contains(wid) && pre.idle()[wid].cache.handle == x;
                    assert(wid != id);
                    assert(post.idle().dom().contains(wid));
                } else {
                    assert(pre.store_has_cache(x));
                    let wid = choose|wid: SessionId| #![auto]
                        pre.idle().dom().contains(wid) && pre.idle()[wid].cache.handle == x;
                    assert(wid != id);
                    assert(post.idle().dom().contains(wid));
                }
            }
            assert forall|x: u64| post.store_has_cache(x) implies #[trigger] post
                .idle_caches@
                .contains(x) by {
                let wid = choose|wid: SessionId| #![auto]
                    post.idle().dom().contains(wid) && post.idle()[wid].cache.handle == x;
                assert(pre.idle().dom().contains(wid));
                assert(pre.store_has_cache(x));
                if pre.idle().dom().contains(id) {
                    assert(pre.idle()[wid].cache.handle != pre.idle()[id].cache.handle);
                }
            }
            // Idle sessions own none of the queued or in-flight handles.
            assert forall|x: SessionId| #[trigger] post.idle().dom().contains(x) implies
                !post.queued_caches().contains(post.idle()[x].cache.handle) && !post
                .batch_caches()
                .contains(post.idle()[x].cache.handle) by {
                if pre.idle().dom().contains(id) {
                    assert(pre.idle()[x].cache.handle != pre.idle()[id].cache.handle);
                }
            }
            assert(post.wf());
        }
        Ok(())
    }

    /// `Drop(id)`: an idle session is removed and discarded immediately; any
    /// other id is recorded so that a returning context for it will be
    /// discarded instead of re-inserted.  In-flight work is never aborted.
    pub fn drop_session(&mut self, id: SessionId)
        requires
            old(self).wf(),
        ensures
            final(self).wf(),
            drop_spec(*old(self), *final(self), id),
    {
        match self.sessions.remove(&id) {
            Some(ctx) => {
                self.idle_caches.remove(&ctx.cache.handle);
            },
            None => {
                self.removing.insert(id);
            },
        }
        proof {
            let pre = *old(self);
            assert forall|x: SessionId| #[trigger] self.idle().dom().contains(x) implies pre.idle()
                .dom()
                .contains(x) && self.idle()[x] == pre.idle()[x] && x != id by {
                assert(self.idle() == pre.idle().remove(id));
            }
            assert forall|x: u64| #[trigger] self.idle_caches@.contains(x) implies self
                .store_has_cache(x) by {
                assert(pre.store_has_cache(x));
                let wid = choose|wid: SessionId| #![auto]
                    pre.idle().dom().contains(wid) && pre.idle()[wid].cache.handle == x;
                if pre.idle().dom().contains(id) {
                    assert(x != pre.idle()[id].cache.handle);
                    assert(wid != id);
                } else {
                    assert(wid != id);
                }
                assert(self.idle().dom().contains(wid));
            }
            assert forall|x: u64| self.store_has_cache(x) implies #[trigger] self
                .idle_caches@
                .contains(x) by {
                let wid = choose|wid: SessionId| #![auto]
                    self.idle().dom().contains(wid) && self.idle()[wid].cache.handle == x;
                assert(pre.idle().dom().contains(wid));
                assert(pre.store_has_cache(x));
                if pre.idle().dom().contains(id) {
                    assert(pre.idle()[wid].cache.handle != pre.idle()[id].cache.handle);
                }
            }
            assert(self.wf());
        }
    }

    /// A completed context returns from the decode loop.  If teardown was
    /// deferred for the session, the context is discarded and the entry
    /// cleared; otherwise the session becomes idle again.  A context whose
    /// session is still active somewhere, whose cache handle was never
    /// issued, or whose cache handle is still owned elsewhere is a protocol
    /// violation: refused, state untouched, fatal to the caller.
    pub fn check_in(&mut self, ctx: SessionContext) -> (r: Result<(), ProtocolError>)
        requires
            old(self).wf(),
        ensures
            final(self).wf(),
            (old(self).active(ctx.id) || ctx.cache.handle >= old(self).next_cache || old(
                self,
            ).cache_live(ctx.cache.handle)) ==> r == Err::<(), ProtocolError>(
                ProtocolError::StrayContext,
            ) && *final(self) == *old(self),
            !(old(self).active(ctx.id) || ctx.cache.handle >= old(self).next_cache || old(
                self,
            ).cache_live(ctx.cache.handle)) ==> r == Ok::<(), ProtocolError>(()) && check_in_spec(
                *old(self),
                *final(self),
                ctx,
            ),
    {
        if self.is_active(ctx.id) || ctx.cache.handle >= self.next_cache || self.is_cache_live(
            ctx.cache.handle,
        ) {
            return Err(ProtocolError::StrayContext);
        }
        if !self.removing.remove(&ctx.id) {
            self.sessions.insert(ctx.id, ctx);
            self.idle_caches.insert(ctx.cache.handle);
        }
        proof {
            let pre = *old(self);
            let h = ctx.cache.handle;
            assert(self.removing_ids() =~= pre.removing_ids().remove(ctx.id));
            if pre.removing_ids().contains(ctx.id) {
                assert(self.idle() =~= pre.idle());
            } else {
                assert forall|x: SessionId| #[trigger] self.idle().dom().contains(x) && x != ctx.id
                    implies pre.idle().dom().contains(x) && self.idle()[x] == pre.idle()[x] by {
                    assert(self.idle() == pre.idle().insert(ctx.id, ctx));
                }
                assert forall|x: u64| #[trigger] self.idle_caches@.contains(x) implies self
                    .store_has_cache(x) by {
                    if x == h {
                        assert(self.idle().dom().contains(ctx.id));
                        assert(self.idle()[ctx.id].cache.handle == h);
                    } else {
                        assert(pre.store_has_cache(x));
                        let wid = choose|wid: SessionId| #![auto]
                            pre.idle().dom().contains(wid) && pre.idle()[wid].cache.handle == x;
                        assert(wid != ctx.id);
                        assert(self.idle().dom().contains(wid));
                    }
                }
                assert forall|x: u64| self.store_has_cache(x) implies #[trigger] self
                    .idle_caches@
                    .contains(x) by {
                    let wid = choose|wid: SessionId| #![auto]
                        self.idle().dom().contains(wid) && self.idle()[wid].cache.handle == x;
                    if wid == ctx.id {
                        assert(x == h);
                    } else {
                        assert(pre.idle().dom().contains(wid));
                        assert(pre.store_has_cache(x));
                    }
                }
                assert forall|x1: SessionId, x2: SessionId|
                    #[trigger] self.idle().dom().contains(x1) && #[trigger] self.idle()
                        .dom()
                        .contains(x2) && x1 != x2 implies self.idle()[x1].cache.handle != self
                    .idle()[x2].cache.handle by {
                    if x1 == ctx.id {
                        if pre.idle()[x2].cache.handle == h {
                            assert(pre.store_has_cache(h));
                        }
                    } else if x2 == ctx.id {
                        if pre.idle()[x1].cache.handle == h {
                            assert(pre.store_has_cache(h));
                        }
                    }
                }
            }
            assert(self.wf());
        }
        Ok(())
    }

    /// One step of the session manager: dispatch on the tag of a merged
    /// control-stream message.  Commands and returning contexts are handled
    /// exactly as by [`Dispatcher::infer`], [`Dispatcher::drop_session`] and
    /// [`Dispatcher::check_in`]; an `Err` is fatal to the management loop.
    pub fn manage(&mut self, msg: Message) -> (r: Result<(), ProtocolError>)
        requires
            old(self).wf(),
            match msg {
                Message::Cmd(Command::Infer(id, _)) => !old(self).active(id) ==> old(
                    self,
                ).next_cache < u64::MAX,
                _ => true,
            },
        ensures
            final(self).wf(),
            match msg {
                Message::Cmd(Command::Infer(id, req)) => {
                    &&& old(self).checked_out(id) ==> r == Err::<(), ProtocolError>(
                        ProtocolError::DuplicateInfer,
                    ) && *final(self) == *old(self)
                    &&& !old(self).checked_out(id) ==> r == Ok::<(), ProtocolError>(())
                        && infer_spec(*old(self), *final(self), id, req)
                },
                Message::Cmd(Command::Drop(id)) => r == Ok::<(), ProtocolError>(()) && drop_spec(
                    *old(self),
                    *final(self),
                    id,
                ),
                Message::Ctx(ctx) => {
                    &&& (old(self).active(ctx.id) || ctx.cache.handle >= old(self).next_cache
                        || old(self).cache_live(ctx.cache.handle)) ==> r == Err::<
                        (),
                        ProtocolError,
                    >(ProtocolError::StrayContext) && *final(self) == *old(self)
                    &&& !(old(self).active(ctx.id) || ctx.cache.handle >= old(self).next_cache
                        || old(self).cache_live(ctx.cache.handle)) ==> r == Ok::<
                        (),
                        ProtocolError,
                    >(()) && check_in_spec(*old(self), *final(self), ctx)
                },
            },
    {
        match msg {
            Message::Cmd(Command::Infer(id, req)) => self.infer(id, req),
            Message::Cmd(Command::Drop(id)) => {
                self.drop_session(id);
                Ok(())
            },
            Message::Ctx(ctx) => self.check_in(ctx),
        }
    }

    /// Drain the batch queue: every task queued at this moment becomes the
    /// in-flight batch, in arrival order, and the queue is left empty.  The
    /// single consumer calls this only once the previous batch is fully
    /// routed.
    pub fn take_batch(&mut self)
        requires
            old(self).wf(),
            old(self).batch().len() == 0,
        ensures
            final(self).wf(),
            final(self).batch() == old(self).queued(),
            final(self).queued() == Seq::<Task>::empty(),
            final(self).idle() == old(self).idle(),
            final(self).removing_ids() == old(self).removing_ids(),
            final(self).next_cache == old(self).next_cache,
            final(self).max_seq_len == old(self).max_seq_len,
            final(self).eos == old(self).eos,
    {
        let batch = self.batcher.deq();
        self.inflight = batch;
        proof {
            let pre = *old(self);
            assert(self.batch_ids() =~= pre.queued_ids());
            assert(self.queued_ids() =~= Seq::<SessionId>::empty());
            assert(self.batch_caches() =~= pre.queued_caches());
            assert(self.queued_caches() =~= Seq::<u64>::empty());
            assert forall|id: SessionId| #[trigger] self.idle().dom().contains(id) implies
                !self.checked_out(id) && self.idle()[id].id == id && self.ctx_ok(
                self.idle()[id],
            ) && !self.queued_caches().contains(self.idle()[id].cache.handle) && !self
                .batch_caches()
                .contains(self.idle()[id].cache.handle) by {
                assert(pre.idle().dom().contains(id));
                assert(!pre.checked_out(id));
                assert(!pre.queued_caches().contains(pre.idle()[id].cache.handle));
            }
            assert forall|i: int| 0 <= i < self.batch().len() implies self.ctx_ok(
                #[trigger] self.batch()[i].ctx,
            ) by {
                assert(pre.ctx_ok(pre.queued()[i].ctx));
            }
            lemma_store_unchanged(pre, *self);
            assert(self.wf());
        }
    }

    /// Route the first task of the in-flight batch after a decode-and-sample
    /// step.  `samples` is the backend's sampled token per session;
    /// `closed` is the set of result conduits the surrounding loop knows to
    /// be closed (a failed push reports closure for the following step).
    ///
    /// A sampled token missing for a submitted task is a protocol violation
    /// between decode and sampling; this core makes the fatal choice: the
    /// state is left untouched, and the caller must terminate the loop.
    pub fn route_task(
        &mut self,
        samples: &HashMap<SessionId, Token>,
        closed: &HashSet<ChannelId>,
    ) -> (r: Result<Routed, ProtocolError>)
        requires
            old(self).wf(),
            old(self).batch().len() > 0,
        ensures
            final(self).wf(),
            route_spec(*old(self), *final(self), samples@, closed@, r),
    {
        let id = self.inflight[0].ctx.id;
        let tok = match samples.get(&id) {
            Some(t) => *t,
            None => {
                return Err(ProtocolError::MissingSample);
            },
        };
        let abandoning = tok != self.eos && closed.contains(&self.inflight[0].infer.channel);
        if abandoning {
            self.removing.remove(&self.inflight[0].ctx.id);
        }
        let task = self.inflight.remove(0);
        proof {
            let pre = *old(self);
            assert(self.batch() =~= pre.batch().drop_first());
            assert(self.batch_ids() =~= pre.batch_ids().drop_first());
            assert(self.batch_caches() =~= pre.batch_caches().drop_first());
            assert forall|x: SessionId| #[trigger] self.batch_ids().contains(x) implies pre
                .batch_ids()
                .contains(x) by {
                let i = choose|i: int|
                    0 <= i < self.batch_ids().len() && self.batch_ids()[i] == x;
                assert(pre.batch_ids()[i + 1] == x);
            }
            assert forall|i: int, j: int|
                0 <= i < self.batch_ids().len() && 0 <= j < self.batch_ids().len() && i != j
                implies self.batch_ids()[i] != self.batch_ids()[j] by {
                assert(pre.batch_ids()[i + 1] != pre.batch_ids()[j + 1]);
            }
            assert(self.batch_ids().no_duplicates());
            assert forall|x: u64| #[trigger] self.batch_caches().contains(x) implies pre
                .batch_caches()
                .contains(x) by {
                let i = choose|i: int|
                    0 <= i < self.batch_caches().len() && self.batch_caches()[i] == x;
                assert(pre.batch_caches()[i + 1] == x);
            }
            assert forall|i: int, j: int|
                0 <= i < self.batch_caches().len() && 0 <= j < self.batch_caches().len() && i != j
                implies self.batch_caches()[i] != self.batch_caches()[j] by {
                assert(pre.batch_caches()[i + 1] != pre.batch_caches()[j + 1]);
            }
            assert(self.batch_caches().no_duplicates());
            assert forall|id: SessionId| #[trigger] self.idle().dom().contains(id) implies
                !self.checked_out(id) && self.idle()[id].id == id && self.ctx_ok(
                self.idle()[id],
            ) && !self.queued_caches().contains(self.idle()[id].cache.handle) && !self
                .batch_caches()
                .contains(self.idle()[id].cache.handle) by {
                assert(pre.idle().dom().contains(id));
                assert(!pre.checked_out(id));
                assert(!pre.queued_caches().contains(pre.idle()[id].cache.handle));
                assert(!pre.batch_caches().contains(pre.idle()[id].cache.handle));
            }
            assert forall|i: int| 0 <= i < self.batch().len() implies self.ctx_ok(
                #[trigger] self.batch()[i].ctx,
            ) by {
                assert(pre.ctx_ok(pre.batch()[i + 1].ctx));
            }
            lemma_store_unchanged(pre, *self);
            assert(self.wf());
            assert(pre.batch_ids()[0] == task.ctx.id);
            assert(pre.batch_caches()[0] == task.ctx.cache.handle);
        }
        if tok == self.eos {
            Ok(Routed::Finished(task.ctx))
        } else if abandoning {
            proof {
                let pre = *old(self);
                assert(self.removing_ids() =~= pre.removing_ids().remove(task.ctx.id));
            }
            Ok(Routed::Abandoned(task.ctx.id, task.infer.channel))
        } else {
            let mut prompt: Vec<Token> = Vec::new();
            prompt.push(tok);
            let next = Task {
                ctx: task.ctx,
                infer: InferRequest { prompt, channel: task.infer.channel },
            };
            self.batcher.enq(next);
            proof {
                let pre = *old(self);
                let h = task.ctx.cache.handle;
                assert(next.infer.prompt@ =~= seq![tok]);
                assert(self.batch_ids() =~= pre.batch_ids().drop_first());
                assert(self.batch_caches() =~= pre.batch_caches().drop_first());
                assert(self.queued_ids() =~= pre.queued_ids().push(task.ctx.id));
                assert(self.queued_caches() =~= pre.queued_caches().push(h));
                assert(pre.batch_ids()[0] == task.ctx.id);
                assert(pre.batch_caches()[0] == h);
                assert(!pre.queued_ids().contains(task.ctx.id)) by {
                    assert(pre.batch_ids().contains(task.ctx.id));
                }
                assert(!pre.queued_caches().contains(h)) by {
                    assert(pre.batch_caches().contains(h));
                }
                assert forall|i: int, j: int|
                    0 <= i < self.queued_ids().len() && 0 <= j < self.queued_ids().len() && i != j
                    implies self.queued_ids()[i] != self.queued_ids()[j] by {
                    let n = pre.queued_ids().len() as int;
                    if i < n && j < n {
                        assert(pre.queued_ids()[i] != pre.queued_ids()[j]);
                    } else if i < n {
                        if pre.queued_ids()[i] == task.ctx.id {
                            assert(pre.queued_ids().contains(task.ctx.id));
                        }
                    } else {
                        if pre.queued_ids()[j] == task.ctx.id {
                            assert(pre.queued_ids().contains(task.ctx.id));
                        }
                    }
                }
                assert(self.queued_ids().no_duplicates());
                assert forall|x: SessionId| #[trigger] self.queued_ids().contains(x) implies (
                    pre.queued_ids().contains(x) || x == task.ctx.id
                ) by {
                    let i = choose|i: int|
                        0 <= i < self.queued_ids().len() && self.queued_ids()[i] == x;
                    if i < pre.queued_ids().len() {
                        assert(pre.queued_ids()[i] == x);
                    }
                }
                assert forall|x: SessionId| #[trigger] self.batch_ids().contains(x) implies pre
                    .batch_ids()
                    .contains(x) by {
                    let i = choose|i: int|
                        0 <= i < self.batch_ids().len() && self.batch_ids()[i] == x;
                    assert(pre.batch_ids()[i + 1] == x);
                }
                assert(!self.batch_ids().contains(task.ctx.id)) by {
                    if self.batch_ids().contains(task.ctx.id) {
                        let i = choose|i: int|
                            0 <= i < self.batch_ids().len() && self.batch_ids()[i] == task.ctx.id;
                        assert(pre.batch_ids()[i + 1] == task.ctx.id);
                        assert(pre.batch_ids()[0] == task.ctx.id);
                    }
                }
                assert forall|id: SessionId| #[trigger] self.queued_ids().contains(id) implies
                    !self.batch_ids().contains(id) by {
                    if pre.queued_ids().contains(id) {
                        assert(!pre.batch_ids().contains(id));
                    }
                }
                assert forall|i: int, j: int|
                    0 <= i < self.queued_caches().len() && 0 <= j < self.queued_caches().len()
                    && i != j implies self.queued_caches()[i] != self.queued_caches()[j] by {
                    let n = pre.queued_caches().len() as int;
                    if i < n && j < n {
                        assert(pre.queued_caches()[i] != pre.queued_caches()[j]);
                    } else if i < n {
                        if pre.queued_caches()[i] == h {
                            assert(pre.queued_caches().contains(h));
                        }
                    } else {
                        if pre.queued_caches()[j] == h {
                            assert(pre.queued_caches().contains(h));
                        }
                    }
                }
                assert(self.queued_caches().no_duplicates());
                assert forall|x: u64| #[trigger] self.queued_caches().contains(x) implies (
                    pre.queued_caches().contains(x) || x == h
                ) by {
                    let i = choose|i: int|
                        0 <= i < self.queued_caches().len() && self.queued_caches()[i] == x;
                    if i < pre.queued_caches().len() {
                        assert(pre.queued_caches()[i] == x);
                    }
                }
                assert forall|x: u64| #[trigger] self.batch_caches().contains(x) implies pre
                    .batch_caches()
                    .contains(x) by {
                    let i = choose|i: int|
                        0 <= i < self.batch_caches().len() && self.batch_caches()[i] == x;
                    assert(pre.batch_caches()[i + 1] == x);
                }
                assert(!self.batch_caches().contains(h)) by {
                    if self.batch_caches().contains(h) {
                        let i = choose|i: int|
                            0 <= i < self.batch_caches().len() && self.batch_caches()[i] == h;
                        assert(pre.batch_caches()[i + 1] == h);
                        assert(pre.batch_caches()[0] == h);
                    }
                }
                assert forall|x: u64| #[trigger] self.queued_caches().contains(x) implies
                    !self.batch_caches().contains(x) by {
                    if pre.queued_caches().contains(x) {
                        assert(!pre.batch_caches().contains(x));
                    }
                }
                assert forall|id: SessionId| #[trigger] self.idle().dom().contains(id) implies
                    !self.checked_out(id) && self.idle()[id].id == id && self.ctx_ok(
                    self.idle()[id],
                ) && !self.queued_caches().contains(self.idle()[id].cache.handle) && !self
                    .batch_caches()
                    .contains(self.idle()[id].cache.handle) by {
                    assert(pre.idle().dom().contains(id));
                    assert(!pre.checked_out(id));
                    assert(!pre.queued_caches().contains(pre.idle()[id].cache.handle));
                    assert(!pre.batch_caches().contains(pre.idle()[id].cache.handle));
                    assert(pre.batch_caches().contains(h));
                }
                assert forall|i: int| 0 <= i < self.queued().len() implies self.ctx_ok(
                    #[trigger] self.queued()[i].ctx,
                ) by {
                    if i < pre.queued().len() {
                        assert(pre.ctx_ok(pre.queued()[i].ctx));
                    } else {
                        assert(pre.ctx_ok(pre.batch()[0].ctx));
                    }
                }
                assert forall|i: int| 0 <= i < self.batch().len() implies self.ctx_ok(
                    #[trigger] self.batch()[i].ctx,
                ) by {
                    assert(pre.ctx_ok(pre.batch()[i + 1].ctx));
                }
                lemma_store_unchanged(pre, *self);
                assert(self.wf());
                assert(self.queued().last() == next);
            }
            Ok(Routed::Emitted(task.infer.channel, tok))
        }
    }
}

/// A backend decode request: one session's cache and current prompt, with
/// the model-supplied maximum sequence length.
pub struct DecodeRequest {
    pub session: SessionId,
    pub cache: Cache,
    pub prompt: Vec<Token>,
    pub max_seq_len: usize,
}

/// `r` is the decode request built for task `t`.
pub open spec fn request_matches(r: DecodeRequest, t: Task, max_seq_len: usize) -> bool {
    &&& r.session == t.ctx.id
    &&& r.cache == t.ctx.cache
    &&& r.prompt@ == t.infer.prompt@
    &&& r.max_seq_len == max_seq_len
}

/// A copy of a token sequence.
fn copy_tokens(v: &Vec<Token>) -> (r: Vec<Token>)
    ensures
        r@ == v@,
{
    let mut r: Vec<Token> = Vec::new();
    let mut i: usize = 0;
    proof {
        assert(r@ =~= v@.subrange(0, 0));
    }
    while i < v.len()
        invariant
            i <= v@.len(),
            r@ == v@.subrange(0, i as int),
        decreases v@.len() - i,
    {
        r.push(v[i]);
        proof {
            assert(r@ =~= v@.subrange(0, i + 1));
        }
        i += 1;
    }
    proof {
        assert(r@ =~= v@);
    }
    r
}

impl Dispatcher {
    /// Build the ordered backend request batch for the in-flight tasks:
    /// exactly one request per task, pairing its cache and current prompt
    /// with the model's maximum sequence length.
    pub fn build_requests(&self) -> (reqs: Vec<DecodeRequest>)
        ensures
            reqs@.len() == self.batch().len(),
            forall|i: int| 0 <= i < reqs@.len() ==> request_matches(
                #[trigger] reqs@[i],
                self.batch()[i],
                self.max_seq_len,
            ),
    {
        let mut reqs: Vec<DecodeRequest> = Vec::new();
        let mut i: usize = 0;
        while i < self.inflight.len()
            invariant
                i <= self.batch().len(),
                reqs@.len() == i,
                forall|j: int| 0 <= j < i ==> request_matches(
                    #[trigger] reqs@[j],
                    self.batch()[j],
                    self.max_seq_len,
                ),
            decreases self.batch().len() - i,
        {
            let t = &self.inflight[i];
            reqs.push(DecodeRequest {
                session: t.ctx.id,
                cache: t.ctx.cache,
                prompt: copy_tokens(&t.infer.prompt),
                max_seq_len: self.max_seq_len,
            });
            i += 1;
        }
        reqs
    }
}

/// The command relay: republish externally submitted commands onto the
/// internal control stream, preserving arrival order.
pub fn forward(commands: Vec<Command>) -> (msgs: Vec<Message>)
    ensures
        msgs@.len() == commands@.len(),
        forall|i: int| 0 <= i < commands@.len() ==> msgs@[i] == Message::Cmd(#[trigger] commands@[i]),
{
    let ghost orig = commands@;
    let mut commands = commands;
    let mut msgs: Vec<Message> = Vec::new();
    while commands.len() > 0
        invariant
            msgs@.len() + commands@.len() == orig.len(),
            commands@ == orig.subrange(msgs@.len() as int, orig.len() as int),
            forall|i: int| 0 <= i < msgs@.len() ==> msgs@[i] == Message::Cmd(#[trigger] orig[i]),
        decreases commands@.len(),
    {
        let c = commands.remove(0);
        proof {
            assert(c == orig[msgs@.len() as int]);
            assert(commands@ =~= orig.subrange(msgs@.len() as int + 1, orig.len() as int));
        }
        msgs.push(Message::Cmd(c));
    }
    msgs
}

} // verus!
