//! A stand-in RPC service for harnesses that need one wired up but expect no
//! traffic through it.

use vstd::prelude::*;

verus! {

/// Why receiving from the RPC service yielded nothing.
#[derive(Debug, Clone, Copy, PartialEq, Eq, Structural)]
pub enum RpcRecvError {
    Empty,
    Closed,
}

/// An RPC service that never carries a request.
#[derive(Debug, Clone, Copy, PartialEq, Eq, Structural)]
pub struct RpcServiceDummy {}

impl RpcServiceDummy {
    pub fn new() -> (r: Self)
        ensures
            r == (RpcServiceDummy {  }),
    {
        RpcServiceDummy {  }
    }

    /// There is never anything to receive.
    pub fn try_recv(&mut self) -> (r: Result<u64, RpcRecvError>)
        ensures
            r == Err::<u64, RpcRecvError>(RpcRecvError::Empty),
    {
        Err(RpcRecvError::Empty)
    }
}

} // verus!
