//! The scheduling laws the dispatcher obeys, stated over the transition
//! relations that its operations ensure and proved once and for all.

use vstd::prelude::*;
use crate::dispatch::check_in_spec;
use crate::dispatch::drop_spec;
use crate::dispatch::infer_spec;
use crate::dispatch::route_spec;
use crate::dispatch::Dispatcher;
use crate::dispatch::ProtocolError;
use crate::dispatch::Routed;
use crate::session::ChannelId;
use crate::session::InferRequest;
use crate::session::SessionContext;
use crate::session::SessionId;
use crate::session::Token;

verus! {

/// Uniqueness: in a well-formed dispatcher, a session is present in at most
/// one of the session store, the batch queue and the in-flight batch, and
/// never twice within either of the latter — there is never a duplicate
/// task for one session.
pub proof fn lemma_uniqueness(d: Dispatcher, id: SessionId)
    requires
        d.wf(),
    ensures
        !(d.idle().dom().contains(id) && d.queued_ids().contains(id)),
        !(d.idle().dom().contains(id) && d.batch_ids().contains(id)),
        !(d.queued_ids().contains(id) && d.batch_ids().contains(id)),
        d.queued_ids().no_duplicates(),
        d.batch_ids().no_duplicates(),
{
    if d.idle().dom().contains(id) {
        assert(!d.checked_out(id));
    }
}

/// Cache ownership: in a well-formed dispatcher every cache has exactly one
/// owner at any instant — a handle held by an idle session is held by no
/// task, no handle is both queued and in flight, no place holds a handle
/// twice, and no two idle sessions share one.
pub proof fn lemma_cache_exclusivity(d: Dispatcher, h: u64)
    requires
        d.wf(),
    ensures
        !(d.store_has_cache(h) && d.queued_caches().contains(h)),
        !(d.store_has_cache(h) && d.batch_caches().contains(h)),
        !(d.queued_caches().contains(h) && d.batch_caches().contains(h)),
        d.queued_caches().no_duplicates(),
        d.batch_caches().no_duplicates(),
        forall|id1: SessionId, id2: SessionId|
            #![auto]
            d.idle().dom().contains(id1) && d.idle().dom().contains(id2) && id1 != id2
                ==> d.idle()[id1].cache.handle != d.idle()[id2].cache.handle,
{
    if d.store_has_cache(h) {
        let wid = choose|wid: SessionId| #![auto]
            d.idle().dom().contains(wid) && d.idle()[wid].cache.handle == h;
        assert(d.idle().dom().contains(wid));
    }
}

/// Idle-drop: a `Drop` for an idle session removes it immediately — the id
/// is active nowhere afterwards — and a subsequent `Infer` for the same id
/// builds its task around a fresh cache, not the one just discarded.
pub proof fn lemma_idle_drop(
    d0: Dispatcher,
    d1: Dispatcher,
    d2: Dispatcher,
    id: SessionId,
    req: InferRequest,
)
    requires
        d0.wf(),
        d0.idle().dom().contains(id),
        drop_spec(d0, d1, id),
        infer_spec(d1, d2, id, req),
    ensures
        !d1.active(id),
        d2.queued().last().ctx.id == id,
        d2.queued().last().ctx.cache.handle == d1.next_cache,
        d2.queued().last().ctx.cache != d0.idle()[id].cache,
{
    assert(!d0.checked_out(id));
    assert(!d1.idle().dom().contains(id));
    assert(d0.ctx_ok(d0.idle()[id]));
}

/// Deferred-drop, arrival: a `Drop` for a checked-out session does not
/// interrupt the in-flight generation — queue, batch and store are all
/// untouched, so by the routing contract tokens keep flowing to the
/// original conduit — and the id is only recorded for deferred teardown.
pub proof fn lemma_deferred_drop(d0: Dispatcher, d1: Dispatcher, id: SessionId)
    requires
        d0.wf(),
        d0.checked_out(id),
        drop_spec(d0, d1, id),
    ensures
        d1.queued() == d0.queued(),
        d1.batch() == d0.batch(),
        d1.idle() == d0.idle(),
        d1.removing_ids().contains(id),
{
    if d0.idle().dom().contains(id) {
        assert(!d0.checked_out(id));
    }
    assert(d1.idle() =~= d0.idle());
}

/// Deferred-drop, completion: when the dropped session's context finally
/// returns it is discarded, not made idle again, and the deferred entry is
/// cleared; a subsequent `Infer` for the id builds its task around a fresh
/// cache, not the discarded one.
pub proof fn lemma_deferred_drop_completion(
    d1: Dispatcher,
    d2: Dispatcher,
    d3: Dispatcher,
    ctx: SessionContext,
    req: InferRequest,
)
    requires
        d1.removing_ids().contains(ctx.id),
        !d1.idle().dom().contains(ctx.id),
        ctx.cache.handle < d1.next_cache,
        check_in_spec(d1, d2, ctx),
        infer_spec(d2, d3, ctx.id, req),
    ensures
        d2.idle() == d1.idle(),
        !d2.removing_ids().contains(ctx.id),
        d3.queued().last().ctx.id == ctx.id,
        d3.queued().last().ctx.cache.handle == d2.next_cache,
        d3.queued().last().ctx.cache != ctx.cache,
{
    assert(!d2.idle().dom().contains(ctx.id));
}

/// Continuation: when the decode step samples, for the head of the batch, a
/// token that is not end-of-sequence while the caller still listens, that
/// token is delivered on the task's own conduit and the re-submitted task
/// carries the same context with its prompt collapsed to exactly that one
/// token.
pub proof fn lemma_continuation(
    d0: Dispatcher,
    d1: Dispatcher,
    samples: Map<SessionId, Token>,
    closed: Set<ChannelId>,
    r: Result<Routed, ProtocolError>,
)
    requires
        d0.wf(),
        d0.batch().len() > 0,
        samples.contains_key(d0.batch()[0].ctx.id),
        samples[d0.batch()[0].ctx.id] != d0.eos,
        !closed.contains(d0.batch()[0].infer.channel),
        route_spec(d0, d1, samples, closed, r),
    ensures
        r == Ok::<Routed, ProtocolError>(
            Routed::Emitted(d0.batch()[0].infer.channel, samples[d0.batch()[0].ctx.id]),
        ),
        d1.queued().len() == d0.queued().len() + 1,
        d1.queued().last().ctx == d0.batch()[0].ctx,
        d1.queued().last().infer.channel == d0.batch()[0].infer.channel,
        d1.queued().last().infer.prompt@ == seq![samples[d0.batch()[0].ctx.id]],
{
}

/// After the end-of-sequence routing step the finished session is active
/// nowhere — not idle, not queued, not in the remaining batch — its cache
/// handle was issued by the dispatcher and is owned nowhere any more, so
/// the returning context is guaranteed to be accepted for check-in rather
/// than refused as stray.
pub proof fn lemma_finished_context_checks_in(
    d0: Dispatcher,
    d1: Dispatcher,
    samples: Map<SessionId, Token>,
    closed: Set<ChannelId>,
    r: Result<Routed, ProtocolError>,
)
    requires
        d0.wf(),
        d0.batch().len() > 0,
        samples.contains_key(d0.batch()[0].ctx.id),
        samples[d0.batch()[0].ctx.id] == d0.eos,
        route_spec(d0, d1, samples, closed, r),
    ensures
        !d1.active(d0.batch()[0].ctx.id),
        d0.batch()[0].ctx.cache.handle < d1.next_cache,
        !d1.cache_live(d0.batch()[0].ctx.cache.handle),
{
    let id = d0.batch()[0].ctx.id;
    let h = d0.batch()[0].ctx.cache.handle;
    assert(d0.batch_ids()[0] == id);
    assert(d0.batch_ids().contains(id));
    assert(d0.batch_caches()[0] == h);
    assert(d0.batch_caches().contains(h));
    if d1.idle().dom().contains(id) {
        assert(!d0.checked_out(id));
    }
    if d1.queued_ids().contains(id) {
        assert(d0.queued_ids().contains(id));
        assert(!d0.batch_ids().contains(id));
    }
    assert(d1.batch() == d0.batch().drop_first());
    if d1.batch_ids().contains(id) {
        let i = choose|i: int| 0 <= i < d1.batch_ids().len() && d1.batch_ids()[i] == id;
        assert(d1.batch()[i] == d0.batch()[i + 1]);
        assert(d0.batch_ids()[i + 1] == id);
    }
    assert(d0.ctx_ok(d0.batch()[0].ctx));
    if d1.store_has_cache(h) {
        let wid = choose|wid: SessionId| #![auto]
            d1.idle().dom().contains(wid) && d1.idle()[wid].cache.handle == h;
        assert(d0.idle().dom().contains(wid));
        assert(!d0.batch_caches().contains(d0.idle()[wid].cache.handle));
    }
    if d1.queued_caches().contains(h) {
        assert(d0.queued_caches().contains(h));
        assert(!d0.batch_caches().contains(h));
    }
    if d1.batch_caches().contains(h) {
        let i = choose|i: int| 0 <= i < d1.batch_caches().len() && d1.batch_caches()[i] == h;
        assert(d1.batch()[i] == d0.batch()[i + 1]);
        assert(d0.batch_caches()[i + 1] == h);
    }
}

/// Termination: re-enqueuing stops exactly at the step whose sampled token
/// is the end-of-sequence marker — nothing joins the queue — and once the
/// returned context checks in (no teardown deferred), the session is idle
/// again with the very cache it generated with, ready for reuse.
pub proof fn lemma_termination(
    d0: Dispatcher,
    d1: Dispatcher,
    d2: Dispatcher,
    samples: Map<SessionId, Token>,
    closed: Set<ChannelId>,
    r: Result<Routed, ProtocolError>,
)
    requires
        d0.wf(),
        d0.batch().len() > 0,
        samples.contains_key(d0.batch()[0].ctx.id),
        samples[d0.batch()[0].ctx.id] == d0.eos,
        route_spec(d0, d1, samples, closed, r),
        !d1.removing_ids().contains(d0.batch()[0].ctx.id),
        check_in_spec(d1, d2, d0.batch()[0].ctx),
    ensures
        r == Ok::<Routed, ProtocolError>(Routed::Finished(d0.batch()[0].ctx)),
        d1.queued() == d0.queued(),
        d1.batch() == d0.batch().drop_first(),
        d2.idle().dom().contains(d0.batch()[0].ctx.id),
        d2.idle()[d0.batch()[0].ctx.id] == d0.batch()[0].ctx,
{
}

} // verus!
