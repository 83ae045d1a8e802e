//! Taking a finished request out of flight.

use vstd::prelude::*;

use crate::runtime::batcher::inflight::InflightSet;
use crate::runtime::error::RuntimeError;
use crate::runtime::types::{RequestId, TokenSender};

verus! {

/// Takes a request out of flight and gives the stream that is to be closed; its KV pages
/// are to be released next. A request that is not in flight is an error.
pub fn retire(request_id: RequestId, inflight: &mut InflightSet) -> (res: Result<
    TokenSender,
    RuntimeError,
>)
    ensures
        final(inflight)@ == old(inflight)@.remove(request_id.0),
        res == if old(inflight)@.contains_key(request_id.0) {
            Ok::<_, RuntimeError>(old(inflight)@[request_id.0].sender)
        } else {
            Err(RuntimeError::UnknownRequest(request_id.0))
        },
{
    match inflight.remove(request_id) {
        Some(r) => Ok(r.sender),
        None => Err(RuntimeError::UnknownRequest(request_id.0)),
    }
}

} // verus!
