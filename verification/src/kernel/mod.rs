//! The capability-based microkernel: drivers run phase by phase in priority order,
//! and their staged intents are validated and committed atomically.
pub mod commit;
pub mod context;
pub mod driver;
pub mod event;
pub mod intent;
pub mod microkernel;
pub mod phase;
