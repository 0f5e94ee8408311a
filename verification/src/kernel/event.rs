//! Observability events emitted by the microkernel.
use vstd::prelude::*;
use crate::types::id::{CargoType, StationID, TileIndex, VehicleID};
use crate::types::unit::{CargoAmount, Ticks};

verus! {

/// Observability events emitted on the egress phase of the microkernel.
#[derive(Debug, Copy, Clone, PartialEq, Eq, Structural)]
pub enum KernelEvent {
    VehicleMoved { vehicle_id: VehicleID, old_tile: TileIndex, new_tile: TileIndex, tick: Ticks },
    CargoTransferred {
        vehicle_id: VehicleID,
        station_id: StationID,
        cargo_type: CargoType,
        amount: CargoAmount,
        is_load: bool,
        tick: Ticks,
    },
}

} // verus!
