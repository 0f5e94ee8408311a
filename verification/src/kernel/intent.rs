//! Intents staged by drivers for validation and commit.
use vstd::prelude::*;
use crate::types::id::{CargoType, CompanyID, StationID, TileIndex, VehicleID};
use crate::types::unit::{CargoAmount, Money};
use crate::kernel::event::KernelEvent;

verus! {

/// Transactional intent submitted by a driver, validated and committed in the commit
/// phase.
#[derive(Debug, Copy, Clone, PartialEq, Eq, Structural)]
pub enum KernelIntent {
    /// Credit revenue to a company treasury
    CreditRevenue { company_id: CompanyID, amount: Money },
    /// Deduct an expense from a company treasury
    DeductCost { company_id: CompanyID, amount: Money },
    /// Move a vehicle to a tile
    MoveVehicle { vehicle_id: VehicleID, to_tile: TileIndex },
    /// Transfer cargo between a vehicle and a station
    TransferCargo {
        vehicle_id: VehicleID,
        station_id: StationID,
        cargo_type: CargoType,
        amount: CargoAmount,
        is_load: bool,
    },
    /// Emit an event on the egress event bus
    EmitEvent(KernelEvent),
}

} // verus!
