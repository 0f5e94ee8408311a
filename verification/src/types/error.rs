//! Error type shared by the simulation layers.
use vstd::prelude::*;
use crate::text::{push_signed, push_text, signed_decimal};

verus! {

/// Makes std's `io::Error` known to Verus as an opaque type, so that an error variant
/// can carry it; nothing is claimed of its values.
#[verifier::external_type_specification]
#[verifier::external_body]
pub struct ExIoError(std::io::Error);

/// Makes serde_json's `Error` known to Verus as an opaque type, so that an error variant
/// can carry it; nothing is claimed of its values.
#[verifier::external_type_specification]
#[verifier::external_body]
pub struct ExJsonError(serde_json::Error);

/// Errors that can occur in the transport simulation.
#[derive(Debug)]
pub enum TransportError {
    /// Invalid ID provided
    InvalidId(String),
    /// Entity not found
    NotFound(String),
    /// Operation not allowed in current state
    InvalidOperation(String),
    /// Insufficient resources (money, cargo, etc.)
    InsufficientResources(String),
    /// Capacity exceeded
    CapacityExceeded(String),
    /// Invalid coordinates or position
    InvalidPosition(String),
    /// Path not found
    NoPathFound(String),
    /// Cargo cannot be accepted
    CargoNotAccepted(String),
    /// Vehicle cannot move
    CannotMove(String),
    /// Schedule/order error
    InvalidOrder(String),
    /// Person-related error
    PersonError(String),
    /// Boarding/authorization error
    BoardingError(String),
    /// Simulation invariant violated
    InvariantViolation(String),
    /// Arithmetic overflow occurred
    ArithmeticOverflow(String),
    /// Arithmetic underflow occurred
    Underflow(String),
    /// Configuration error
    ConfigurationError(String),
    /// IO error
    IoError(std::io::Error),
    /// Serialization error
    SerializationError(serde_json::Error),
}

/// The underflow message for a subtraction `lhs - rhs` on the named unit:
/// "`<unit> underflow: <lhs> - <rhs>`", the numbers in decimal.
pub open spec fn underflow_text(unit_name: Seq<char>, lhs: int, rhs: int) -> Seq<char> {
    unit_name + " underflow: "@ + signed_decimal(lhs) + " - "@ + signed_decimal(rhs)
}

/// Builds the underflow message for `lhs - rhs` on the named unit.
pub(crate) fn underflow_message(unit_name: &str, lhs: i64, rhs: i64) -> (msg: String)
    ensures
        msg@ == underflow_text(unit_name@, lhs as int, rhs as int),
{
    let mut s = String::new();
    push_text(&mut s, unit_name);
    push_text(&mut s, " underflow: ");
    push_signed(&mut s, lhs);
    push_text(&mut s, " - ");
    push_signed(&mut s, rhs);
    proof {
        assert(s@ =~= underflow_text(unit_name@, lhs as int, rhs as int));
    }
    s
}

} // verus!
