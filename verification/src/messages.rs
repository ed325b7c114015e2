//! Messages the mempool worker exchanges with the shell: its status, the
//! reset order a new head triggers, and its error.

use vstd::prelude::*;

verus! {

/// The lifecycle phase of the mempool worker.
#[derive(Debug, Clone, Copy, PartialEq, Eq, Structural)]
pub enum WorkerStatusPhase {
    Running,
}

/// The status of the mempool worker, with the time it entered it.
#[derive(Debug, Clone, PartialEq)]
pub struct WorkerStatus {
    pub phase: WorkerStatusPhase,
    pub since: String,
}

/// The prevalidator a chain runs, as reported over the shell's RPC.
#[derive(Debug, Clone, PartialEq)]
pub struct Prevalidator {
    pub chain_id: String,
    pub status: WorkerStatus,
}

/// Order to rebuild the mempool on top of a new head block.
#[derive(Debug, Clone, PartialEq)]
pub struct ResetMempool {
    pub block_hash: Vec<u8>,
    pub level: i32,
}

/// Failure of a mempool request.
#[derive(Debug, Clone, PartialEq)]
pub struct MempoolError {
    pub reason: String,
}

} // verus!
