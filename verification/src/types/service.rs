//! Service identifiers and scheduling priorities for subsystem drivers.
use vstd::prelude::*;

verus! {

/// Strongly-typed identifier for registered subsystem services / drivers.
#[derive(Debug, Copy, Clone, PartialEq, Eq, Structural, Hash, PartialOrd, Ord)]
pub enum ServiceId {
    Movement,
    Logistics,
    People,
    Economy,
    Pathfinding,
    Storage,
    Api,
    Custom(u16),
}

/// Execution priority order for deterministic phase dispatch.
/// Lower numerical value executes earlier (Critical = 0, High = 10, Normal = 20, Low = 30).
#[derive(Debug, Copy, Clone, PartialEq, Eq, Structural, Hash, PartialOrd, Ord)]
pub struct ServicePriority(pub u8);

impl ServicePriority {
    pub fn critical() -> (r: ServicePriority)
        ensures
            r.0 == 0,
    {
        ServicePriority(0u8)
    }
    pub fn high() -> (r: ServicePriority)
        ensures
            r.0 == 10,
    {
        ServicePriority(10u8)
    }
    pub fn normal() -> (r: ServicePriority)
        ensures
            r.0 == 20,
    {
        ServicePriority(20u8)
    }
    pub fn low() -> (r: ServicePriority)
        ensures
            r.0 == 30,
    {
        ServicePriority(30u8)
    }
}

impl Default for ServicePriority {
    fn default() -> (p: ServicePriority)
        ensures
            p.0 == 20,
    {
        ServicePriority(20u8)
    }
}

} // verus!
