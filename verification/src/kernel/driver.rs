//! The interface of subsystem drivers.
use vstd::prelude::*;
use crate::types::capability::CapabilityToken;
use crate::types::service::{ServiceId, ServicePriority};
use crate::kernel::context::KernelContext;
use crate::kernel::phase::Phase;

verus! {

/// Error emitted by a subsystem driver, or by the kernel, during a tick phase.
#[derive(Debug, Clone, PartialEq, Eq)]
pub enum DriverError {
    /// An intent's capability token does not authorize it
    Unauthorized(CapabilityToken),
    /// Internal driver error
    Internal(String),
    /// Solver budget exhausted
    BudgetExhausted,
}

/// Pluggable subsystem driver of the microkernel.
pub trait SubsystemDriver: Send {
    /// The unique service identifier of this driver.
    fn id(&self) -> ServiceId;

    /// The scheduling priority of this driver (lower value runs earlier).
    fn priority(&self) -> ServicePriority;

    /// Execute the given phase of the tick cycle.
    fn execute_phase(&mut self, phase: Phase, ctx: &mut KernelContext) -> Result<(), DriverError>;
}

} // verus!
