//! Session-level data: caches, session contexts, inference requests, tasks,
//! and the command/message unions consumed by the session manager.

use vstd::prelude::*;

verus! {

/// Caller-supplied unique handle for one generation/conversation stream.
pub type SessionId = u64;

/// A token id, as produced by the backend's sampler.
pub type Token = u32;

/// Handle of a caller-owned result conduit.  The surrounding runtime maps
/// handles to real channel endpoints; the core only routes by handle.
pub type ChannelId = u64;

/// Handle standing for one opaque per-session backend inference state.
/// The backend owns the real state; the core tracks ownership by handle and
/// guarantees that a handle is never held in two places at once.
#[derive(PartialEq, Eq, Structural, Clone, Copy, Debug)]
pub struct Cache {
    pub handle: u64,
}

/// A session identifier paired with the cache it exclusively owns.
#[derive(PartialEq, Eq, Structural, Clone, Copy, Debug)]
pub struct SessionContext {
    pub id: SessionId,
    pub cache: Cache,
}

impl SessionContext {
    /// Pair a cache with the session that owns it.
    pub fn new(cache: Cache, id: SessionId) -> (ctx: SessionContext)
        ensures
            ctx.id == id,
            ctx.cache == cache,
    {
        SessionContext { id, cache }
    }
}

/// A prompt plus the handle of the conduit generated tokens are pushed to.
#[derive(Clone, Debug)]
pub struct InferRequest {
    /// Ordered token ids to feed to the next decode step.  After the first
    /// step this collapses to the single most recently generated token.
    pub prompt: Vec<Token>,
    /// Result conduit owned by the caller, who may close it at any time.
    pub channel: ChannelId,
}

/// The unit of work submitted to the batch queue: a checked-out session
/// context together with its current inference request.
#[derive(Clone, Debug)]
pub struct Task {
    pub ctx: SessionContext,
    pub infer: InferRequest,
}

} // verus!
