//! Canonical state frames compared against a reference trace.
use vstd::prelude::*;
use std::collections::BTreeMap;
use crate::types::enums::VehicleState;
use crate::types::id::{CargoType, TileIndex};
use crate::types::unit::{CargoAmount, Money};

verus! {

/// Projection of a single vehicle.
#[derive(Debug, Clone, PartialEq, Eq)]
pub struct VehicleTrace {
    pub position: TileIndex,
    pub state: VehicleState,
    pub cargo: Vec<(CargoType, CargoAmount)>,
}

/// Canonical state frame at a tick. Tables are keyed by the raw value of the
/// identifier: company and vehicle money, position, state and cargo, and per station
/// the amount delivered of each cargo type.
#[derive(Debug, Clone, PartialEq, Eq)]
pub struct OracleTraceFrame {
    pub tick: u32,
    pub companies: BTreeMap<u32, Money>,
    pub vehicles: BTreeMap<u32, VehicleTrace>,
    pub stations: BTreeMap<u32, BTreeMap<u16, CargoAmount>>,
}

} // verus!
