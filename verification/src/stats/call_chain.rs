//! A call between services as the call-chains record it.
use vstd::prelude::*;

verus! {

/// Whether a call was received by a service, sent by it, or could not be told.
#[derive(Clone, Copy, Debug, PartialEq, Eq, Structural)]
pub enum CallDirection {
    Inbound,
    Outbound,
    Unknown,
}

/// One step of a call-chain: the service (process), the operation (method) called on
/// it and the direction of the call.
#[derive(Debug)]
pub struct Call {
    pub process: String,
    pub method: String,
    pub call_direction: CallDirection,
}

} // verus!
