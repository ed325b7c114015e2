//! Messages of the protocol-runner IPC that the library models.

use vstd::prelude::*;

verus! {

/// An empty message: a placeholder where the IPC wants a frame but no data.
#[derive(Debug, Clone, Copy, PartialEq, Eq, Structural)]
pub struct NoopMessage;

} // verus!
