//! Capability tokens authorizing actions in the microkernel.
use vstd::prelude::*;
use crate::types::id::CompanyID;

verus! {

/// Capability token representing authorization to perform actions in the microkernel.
#[derive(Debug, Copy, Clone, PartialEq, Eq, Structural, Hash)]
pub enum CapabilityToken {
    /// Full system authority (kernel internals, privileged drivers)
    System,
    /// Authority restricted to a specific company's resources
    Company(CompanyID),
    /// Read-only observation authority
    Observer,
}

impl CapabilityToken {
    /// Whether this token may mutate resources owned by `company`.
    pub open spec fn permits(self, company: CompanyID) -> bool {
        match self {
            CapabilityToken::System => true,
            CapabilityToken::Company(c) => c == company,
            CapabilityToken::Observer => false,
        }
    }

    /// Returns true if this token has authority to mutate resources owned by `company`.
    pub fn can_mutate_company(&self, company: CompanyID) -> (r: bool)
        ensures
            r == self.permits(company),
    {
        match self {
            CapabilityToken::System => true,
            CapabilityToken::Company(c) => c.0 == company.0,
            CapabilityToken::Observer => false,
        }
    }

    /// Returns true if this token has system-level authority.
    pub fn is_system(&self) -> (r: bool)
        ensures
            r == (*self is System),
    {
        match self {
            CapabilityToken::System => true,
            _ => false,
        }
    }

    /// Returns true if this token is read-only.
    pub fn is_observer(&self) -> (r: bool)
        ensures
            r == (*self is Observer),
    {
        match self {
            CapabilityToken::Observer => true,
            _ => false,
        }
    }
}

} // verus!
