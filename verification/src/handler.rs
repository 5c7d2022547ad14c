//! The request handler abstraction.
use crate::proto::request::{Request, RequestModel};
use crate::proto::response::{Response, ResponseModel};
use vstd::prelude::*;

verus! {

/// Turns a [`Request`] into a [`Response`].
///
/// The trait is deliberately **synchronous**: the engine is sans-I/O and every
/// runtime calls the handler the same way, so a single handler implementation
/// works everywhere. Handlers must be `Send + Sync` because they are shared
/// across worker threads / tasks.
pub trait Handler: Send + Sync {
    /// Handle one request and produce the response to send back.
    fn handle(&self, req: &Request) -> Response;
}

/// Whether a handler may answer a request with a response.
pub open spec fn answers<H: Handler>(h: H, req: RequestModel, resp: ResponseModel) -> bool {
    exists|q: Request, a: Response|
        q@ == req && a@ == resp && #[trigger] call_ensures(H::handle, (&h, &q), a)
}

} // verus!
