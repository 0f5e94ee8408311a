//! The execution phases of a microkernel tick.
use vstd::prelude::*;

verus! {

/// The five deterministic execution phases of the microkernel tick cycle.
#[derive(Debug, Copy, Clone, PartialEq, Eq, Structural, PartialOrd, Ord, Hash)]
pub enum Phase {
    /// External API commands and ingress buffers are parsed and capability-checked.
    Ingress,
    /// Budgeted graph solvers (e.g. pathfinding) execute their tick step.
    Solvers,
    /// Synchronous subsystem drivers (movement, logistics, people) execute simulation steps.
    Drivers,
    /// Transactional validation and commit of staged intents.
    Commit,
    /// State egress, event notification dispatch and clock progression.
    Egress,
}

} // verus!
