//! Request-batching and session-scheduling core of an autoregressive
//! text-generation server.
//!
//! The crate models the dispatcher triad — session manager, batch queue and
//! decode loop — as a verified state machine over plain values.  Backend
//! caches are tracked by handle, result conduits by channel handle; the
//! asynchronous plumbing that carries commands and tokens lives outside the
//! library and calls into it for every scheduling decision.

pub mod batcher;
pub mod channels;
pub mod dispatch;
pub mod laws;
pub mod session;
