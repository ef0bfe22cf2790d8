//! The per-kind message handler registry.
//!
//! One pluggable handler exists per message kind; it is installed at
//! connection-init time and replaceable.  The handler itself is an
//! asynchronous callback owned outside the library and known here by a
//! token.
use vstd::prelude::*;

use crate::data::{Request, Response};

verus! {

/// One message kind's handler slot.
pub struct MessageHandler {
    /// The installed callback's token, if any.
    pub handler: Option<u64>,
}

impl MessageHandler {
    /// An empty slot.
    pub fn new() -> (h: Self)
        ensures
            h.handler is None,
    {
        MessageHandler { handler: None }
    }

    /// Installs (or replaces) the handler.
    pub fn set_handler(&mut self, callback: u64)
        ensures
            final(self).handler == Some(callback),
    {
        self.handler = Some(callback);
    }

    /// The callback that must consume a message of this kind, or the
    /// handler-missing failure when none was installed.
    pub fn on(&self) -> (r: Result<u64, String>)
        ensures
            match r {
                Ok(t) => self.handler == Some(t),
                Err(m) => self.handler is None && m@ == "handler is not initialized"@,
            },
    {
        match self.handler {
            Some(t) => Ok(t),
            None => Err(String::from_str("handler is not initialized")),
        }
    }

    /// The response sent back for an inbound request: a handler success has
    /// the request id put in place of whatever placeholder the handler
    /// used; a handler failure becomes an error response with a negative
    /// status and the failure's text.
    pub fn on_request(request_id: &str, outcome: Result<Response, String>) -> (r: Response)
        ensures
            r@.id == request_id@,
            match outcome {
                Ok(resp) => r@.code == resp@.code && r@.msg == resp@.msg && r@.data == resp@.data,
                Err(e) => r@.code == Some(-1i32) && r@.msg == Some(e@) && r@.data is None,
            },
    {
        match outcome {
            Ok(resp) => Response {
                id: String::from_str(request_id),
                code: resp.code,
                msg: resp.msg,
                data: resp.data,
            },
            Err(e) => Response::from_error(request_id, e.as_str()),
        }
    }

    /// What happens to an inbound response: the correlation engine takes
    /// the matching completion slot, and the router fulfils it.
    pub fn on_response(engine: &mut crate::rpc::RpcEngine, response: &Response) -> (r: Option<u64>)
        requires
            old(engine).wf(),
        ensures
            final(engine).wf(),
            r == old(engine).lookup(response@.id),
            !final(engine).has_pending(response@.id),
            r is None ==> *final(engine) == *old(engine),
    {
        engine.on_response(&response.id)
    }
}

} // verus!
